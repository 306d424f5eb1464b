//! The 64-bit word the cipher works on, with arithmetic modulo 2^64.

use vstd::arithmetic::div_mod::lemma_mul_mod_noop_left;
use vstd::arithmetic::power::pow;
use vstd::prelude::*;

verus! {

/// 2^64, the modulus of all block arithmetic.
pub open spec fn modulus() -> int {
    0x1_0000_0000_0000_0000
}

/// `base` raised to `exp`, reduced modulo 2^64.
pub open spec fn pow_mod(base: u64, exp: nat) -> u64 {
    (pow(base as int, exp) % modulus()) as u64
}

/// The sum of two words modulo 2^64.
pub open spec fn add_mod(a: u64, b: u64) -> u64 {
    ((a as int + b as int) % modulus()) as u64
}

/// The product of two words modulo 2^64.
pub open spec fn mul_mod(a: u64, b: u64) -> u64 {
    ((a as int * b as int) % modulus()) as u64
}

/// One 64-bit word. All arithmetic on it wraps around silently.
#[derive(Clone, Copy, PartialEq, Eq, Structural, Debug)]
pub struct Block(pub u64);

impl Block {
    /// `self` raised to the power `p`, modulo 2^64, by repeated wrapping
    /// multiplication.
    pub fn pow(&self, p: u32) -> (r: Block)
        ensures
            r.0 == pow_mod(self.0, p as nat),
    {
        let mut acc: u64 = 1;
        let mut i: u32 = 0;
        proof {
            reveal(pow);
        }
        while i < p
            invariant
                i <= p,
                acc == pow_mod(self.0, i as nat),
            decreases p - i,
        {
            let ghost prev = pow(self.0 as int, i as nat);
            proof {
                reveal(pow);
                assert(pow(self.0 as int, (i + 1) as nat) == self.0 * prev);
                assert(self.0 * prev == prev * self.0) by (nonlinear_arith);
                lemma_mul_mod_noop_left(prev, self.0 as int, modulus());
            }
            acc = acc.wrapping_mul(self.0);
            i = i + 1;
        }
        Block(acc)
    }
}

impl core::ops::Add for Block {
    type Output = Block;

    fn add(self, rhs: Block) -> Block {
        Block(self.0.wrapping_add(rhs.0))
    }
}

impl vstd::std_specs::ops::AddSpecImpl for Block {
    open spec fn obeys_add_spec() -> bool {
        true
    }

    open spec fn add_req(self, rhs: Block) -> bool {
        true
    }

    open spec fn add_spec(self, rhs: Block) -> Block {
        Block(add_mod(self.0, rhs.0))
    }
}

impl core::ops::Mul for Block {
    type Output = Block;

    fn mul(self, rhs: Block) -> Block {
        Block(self.0.wrapping_mul(rhs.0))
    }
}

impl vstd::std_specs::ops::MulSpecImpl for Block {
    open spec fn obeys_mul_spec() -> bool {
        true
    }

    open spec fn mul_req(self, rhs: Block) -> bool {
        true
    }

    open spec fn mul_spec(self, rhs: Block) -> Block {
        Block(mul_mod(self.0, rhs.0))
    }
}

impl core::ops::BitXor for Block {
    type Output = Block;

    fn bitxor(self, rhs: Block) -> Block {
        Block(self.0 ^ rhs.0)
    }
}

impl vstd::std_specs::ops::BitXorSpecImpl for Block {
    open spec fn obeys_bitxor_spec() -> bool {
        true
    }

    open spec fn bitxor_req(self, rhs: Block) -> bool {
        true
    }

    open spec fn bitxor_spec(self, rhs: Block) -> Block {
        Block(self.0 ^ rhs.0)
    }
}

impl Default for Block {
    fn default() -> (r: Block)
        ensures
            r.0 == 0,
    {
        Block(0)
    }
}

impl From<u64> for Block {
    fn from(item: u64) -> Block {
        Block(item)
    }
}

impl vstd::std_specs::convert::FromSpecImpl<u64> for Block {
    open spec fn obeys_from_spec() -> bool {
        true
    }

    open spec fn from_spec(item: u64) -> Block {
        Block(item)
    }
}

impl From<Block> for u64 {
    fn from(item: Block) -> u64 {
        item.0
    }
}

impl vstd::std_specs::convert::FromSpecImpl<Block> for u64 {
    open spec fn obeys_from_spec() -> bool {
        true
    }

    open spec fn from_spec(item: Block) -> u64 {
        item.0
    }
}

} // verus!
