//! The cipher engine: keystream polynomial, window rotation, and the
//! encryption and decryption passes over a growing state vector.

use crate::block::{modulus, pow_mod, Block};
use crate::codec::{blocks_of, bytes_of, lemma_blocks_bytes_round_trip};
use vstd::arithmetic::div_mod::lemma_add_mod_noop;
use vstd::prelude::*;

verus! {

/// Number of blocks in a key, and in every window of the state vector.
pub const KEY_SIZE: usize = 16;

/// A key: the sixteen blocks that seed the state vector.
pub type Key = [Block; KEY_SIZE];

/// `sum_{j < n} w[j]^(j+1)` over the integers, each power reduced modulo 2^64.
pub open spec fn power_sum(w: Seq<Block>, n: nat) -> int
    decreases n,
{
    if n == 0 {
        0
    } else {
        power_sum(w, (n - 1) as nat) + pow_mod(w[n - 1].0, n) as int
    }
}

/// The keystream word of a window: each element raised to its one-based
/// position, all summed modulo 2^64.
pub open spec fn keystream(w: Seq<Block>) -> Block {
    Block((power_sum(w, w.len()) % modulus()) as u64)
}

/// The window of the state vector `s` that starts at `i`.
pub open spec fn window(s: Seq<Block>, i: int) -> Seq<Block> {
    s.subrange(i, i + KEY_SIZE)
}

/// `b` masked with the keystream of the window of `s` at `i`.
pub open spec fn masked(s: Seq<Block>, i: int, b: Block) -> Block {
    Block(b.0 ^ keystream(window(s, i)).0)
}

/// `s` with the window at `start` rotated by `m`: its element at offset `j`
/// is xored with `m^(j+1)`; everything else is left as it is.
pub open spec fn rotated(s: Seq<Block>, start: int, m: Block) -> Seq<Block> {
    Seq::new(
        s.len(),
        |k: int|
            if start <= k < start + KEY_SIZE {
                Block(s[k].0 ^ pow_mod(m.0, (k - start + 1) as nat))
            } else {
                s[k]
            },
    )
}

/// The state vector after encrypting the first `n` blocks of `p` under `key`.
pub open spec fn enc_state(key: Seq<Block>, p: Seq<Block>, n: nat) -> Seq<Block>
    decreases n,
{
    if n == 0 {
        key
    } else {
        let i = n - 1;
        let s = enc_state(key, p, i as nat);
        let c = masked(s, i, p[i]);
        rotated(s.push(c), i, c)
    }
}

/// The ciphertext of the blocks `p` under `key`.
pub open spec fn encrypt_spec(key: Seq<Block>, p: Seq<Block>) -> Seq<Block> {
    Seq::new(p.len(), |i: int| masked(enc_state(key, p, i as nat), i, p[i]))
}

/// The state vector after decrypting the first `n` blocks of `c` under `key`.
pub open spec fn dec_state(key: Seq<Block>, c: Seq<Block>, n: nat) -> Seq<Block>
    decreases n,
{
    if n == 0 {
        key + c
    } else {
        let i = n - 1;
        rotated(dec_state(key, c, i as nat), i, c[i])
    }
}

/// The cleartext of the blocks `c` under `key`.
pub open spec fn decrypt_spec(key: Seq<Block>, c: Seq<Block>) -> Seq<Block> {
    Seq::new(c.len(), |i: int| masked(dec_state(key, c, i as nat), i, c[i]))
}

/// Encrypting `n` blocks grows the state vector by `n` blocks.
proof fn lemma_enc_state_len(key: Seq<Block>, p: Seq<Block>, n: nat)
    requires
        n <= p.len(),
    ensures
        enc_state(key, p, n).len() == key.len() + n,
    decreases n,
{
    if n > 0 {
        lemma_enc_state_len(key, p, (n - 1) as nat);
    }
}

/// Rotating a window that lies within `a` leaves a tail `b` untouched.
proof fn lemma_rotated_append(a: Seq<Block>, b: Seq<Block>, start: int, m: Block)
    requires
        0 <= start,
        start + KEY_SIZE <= a.len(),
    ensures
        rotated(a + b, start, m) == rotated(a, start, m) + b,
{
    assert(rotated(a + b, start, m) =~= rotated(a, start, m) + b);
}

/// Decrypting the ciphertext of `p` passes through the same states as
/// encrypting `p` did, followed by the ciphertext not yet consumed.
proof fn lemma_dec_enc_states(key: Seq<Block>, p: Seq<Block>, n: nat)
    requires
        key.len() == KEY_SIZE,
        n <= p.len(),
    ensures
        dec_state(key, encrypt_spec(key, p), n) == enc_state(key, p, n) + encrypt_spec(
            key,
            p,
        ).skip(n as int),
    decreases n,
{
    let c = encrypt_spec(key, p);
    if n == 0 {
        assert(c.skip(0) =~= c);
    } else {
        let i = (n - 1) as nat;
        lemma_dec_enc_states(key, p, i);
        lemma_enc_state_len(key, p, i);
        let s = enc_state(key, p, i);
        assert(c[i as int] == masked(s, i as int, p[i as int]));
        assert(s + c.skip(i as int) =~= s.push(c[i as int]) + c.skip(n as int));
        lemma_rotated_append(s.push(c[i as int]), c.skip(n as int), i as int, c[i as int]);
    }
}

/// Masking twice with the same word gives the block back.
proof fn lemma_xor_twice(a: u64, k: u64)
    ensures
        (a ^ k) ^ k == a,
{
    assert((a ^ k) ^ k == a) by (bit_vector);
}

/// Decryption undoes encryption: for every key and every block sequence,
/// decrypting the ciphertext of `p` gives `p` back.
pub proof fn lemma_decrypt_encrypt(key: Key, p: Seq<Block>)
    ensures
        decrypt_spec(key@, encrypt_spec(key@, p)) == p,
{
    let c = encrypt_spec(key@, p);
    assert forall|i: int| 0 <= i < p.len() implies #[trigger] decrypt_spec(key@, c)[i] == p[i] by {
        lemma_dec_enc_states(key@, p, i as nat);
        lemma_enc_state_len(key@, p, i as nat);
        let s = enc_state(key@, p, i as nat);
        assert(window(s + c.skip(i), i) =~= window(s, i));
        lemma_xor_twice(p[i].0, keystream(window(s, i)).0);
    }
    assert(decrypt_spec(key@, c) =~= p);
}

/// The first ciphertext block is the first cleartext block masked with the
/// keystream word of the key itself.
pub proof fn lemma_first_block(key: Key, p: Seq<Block>)
    requires
        p.len() > 0,
    ensures
        encrypt_spec(key@, p)[0] == Block(p[0].0 ^ keystream(key@).0),
{
    assert(window(key@, 0) =~= key@);
}

/// The byte-level round trip: for every key and every message whose length is
/// a multiple of eight, encrypting its blocks, decrypting them and writing
/// the result as bytes gives the message back.
pub proof fn lemma_round_trip(key: Key, m: Seq<u8>)
    requires
        m.len() % 8 == 0,
    ensures
        bytes_of(decrypt_spec(key@, encrypt_spec(key@, blocks_of(m)))) == m,
{
    lemma_decrypt_encrypt(key, blocks_of(m));
    lemma_blocks_bytes_round_trip(m);
}

/// Relies on rand::random: a u64 drawn from the thread-local generator. Nothing
/// is known of its value.
#[verifier::external_body]
fn random_word() -> (r: u64) {
    rand::random::<u64>()
}

/// A fresh key: sixteen blocks, each drawn independently at random.
pub fn generate_key() -> (r: Key) {
    let mut key: Key = [Block(0); KEY_SIZE];
    let mut i: usize = 0;
    while i < KEY_SIZE
        invariant
            i <= KEY_SIZE,
        decreases KEY_SIZE - i,
    {
        key.set(i, Block(random_word()));
        i = i + 1;
    }
    key
}

/// A new state vector holding a copy of the key.
fn state_from_key(key: &Key) -> (r: Vec<Block>)
    ensures
        r@ == key@,
{
    let mut state: Vec<Block> = Vec::new();
    let mut k: usize = 0;
    while k < KEY_SIZE
        invariant
            k <= KEY_SIZE,
            state@ == key@.take(k as int),
        decreases KEY_SIZE - k,
    {
        state.push(key[k]);
        assert(key@.take(k + 1) =~= key@.take(k as int).push(key@[k as int]));
        k = k + 1;
    }
    assert(key@.take(KEY_SIZE as int) =~= key@);
    state
}

/// Encryption is a function of the key and the cleartext alone: equal keys and
/// equal cleartexts give equal ciphertexts.
pub proof fn lemma_encrypt_deterministic(k1: Key, k2: Key, p1: Seq<Block>, p2: Seq<Block>)
    requires
        k1 == k2,
        p1 == p2,
    ensures
        encrypt_spec(k1@, p1) == encrypt_spec(k2@, p2),
{
}

/// The engine. It holds no state of its own: every pass starts from a key.
pub struct Elegabalus;

impl Elegabalus {
    /// The keystream word of a window of sixteen blocks.
    pub fn polynomial(slice: &[Block]) -> (r: Block)
        requires
            slice@.len() == KEY_SIZE,
        ensures
            r == keystream(slice@),
    {
        let mut acc = Block(0);
        let mut i: usize = 0;
        while i < KEY_SIZE
            invariant
                slice@.len() == KEY_SIZE,
                i <= KEY_SIZE,
                acc.0 == power_sum(slice@, i as nat) % modulus(),
            decreases KEY_SIZE - i,
        {
            let term = slice[i].pow((i + 1) as u32);
            proof {
                lemma_add_mod_noop(power_sum(slice@, i as nat), term.0 as int, modulus());
            }
            acc = acc + term;
            i = i + 1;
        }
        acc
    }

    /// Rotates the window of `state` at `start`: the element at offset `j` is
    /// xored with `modifier^(j+1)`.
    pub fn rotate_key(state: &mut Vec<Block>, start: usize, modifier: &Block)
        requires
            start + KEY_SIZE <= old(state)@.len(),
        ensures
            final(state)@ == rotated(old(state)@, start as int, *modifier),
    {
        let ghost before = state@;
        let len = state.len();
        let mut j: usize = 0;
        while j < KEY_SIZE
            invariant
                start + KEY_SIZE <= before.len(),
                len == before.len(),
                j <= KEY_SIZE,
                state@.len() == before.len(),
                forall|k: int|
                    0 <= k < state@.len() ==> #[trigger] state@[k] == if start <= k < start + j {
                        rotated(before, start as int, *modifier)[k]
                    } else {
                        before[k]
                    },
            decreases KEY_SIZE - j,
        {
            let b = state[start + j];
            let rotated_block = b ^ modifier.pow((j + 1) as u32);
            state.set(start + j, rotated_block);
            j = j + 1;
        }
        assert(state@ =~= rotated(before, start as int, *modifier));
    }

    /// Encrypts `cleartext` block by block under `key`.
    pub fn encrypt(key: Key, cleartext: Vec<Block>) -> (r: Vec<Block>)
        ensures
            r@ == encrypt_spec(key@, cleartext@),
            r@.len() == cleartext@.len(),
    {
        let mut encryption_vector = state_from_key(&key);
        let mut ciphertext: Vec<Block> = Vec::new();
        let mut i: usize = 0;
        while i < cleartext.len()
            invariant
                i <= cleartext@.len(),
                encryption_vector@ == enc_state(key@, cleartext@, i as nat),
                encryption_vector@.len() == KEY_SIZE + i,
                ciphertext@ == encrypt_spec(key@, cleartext@).take(i as int),
            decreases cleartext@.len() - i,
        {
            let block = cleartext[i];
            // The vector holds KEY_SIZE + i blocks, so its window at i is its tail.
            let len = encryption_vector.len();
            let key_stream = Self::polynomial(&encryption_vector.as_slice()[i..len]);
            let cipher_block = block ^ key_stream;
            encryption_vector.push(cipher_block);
            Self::rotate_key(&mut encryption_vector, i, &cipher_block);
            ciphertext.push(cipher_block);
            assert(ciphertext@ =~= encrypt_spec(key@, cleartext@).take(i + 1));
            i = i + 1;
        }
        assert(ciphertext@ =~= encrypt_spec(key@, cleartext@));
        ciphertext
    }

    /// Decrypts `ciphertext` block by block under `key`.
    pub fn decrypt(key: Key, ciphertext: Vec<Block>) -> (r: Vec<Block>)
        ensures
            r@ == decrypt_spec(key@, ciphertext@),
            r@.len() == ciphertext@.len(),
    {
        let mut encryption_vector = state_from_key(&key);
        let mut k: usize = 0;
        while k < ciphertext.len()
            invariant
                k <= ciphertext@.len(),
                encryption_vector@ == key@ + ciphertext@.take(k as int),
            decreases ciphertext@.len() - k,
        {
            encryption_vector.push(ciphertext[k]);
            assert(key@ + ciphertext@.take(k + 1) =~= (key@ + ciphertext@.take(k as int)).push(
                ciphertext@[k as int],
            ));
            k = k + 1;
        }
        assert(ciphertext@.take(ciphertext@.len() as int) =~= ciphertext@);
        let len = encryption_vector.len();
        let mut cleartext: Vec<Block> = Vec::new();
        let mut i: usize = 0;
        while i < ciphertext.len()
            invariant
                i <= ciphertext@.len(),
                len == KEY_SIZE + ciphertext@.len(),
                encryption_vector@ == dec_state(key@, ciphertext@, i as nat),
                encryption_vector@.len() == len,
                cleartext@ == decrypt_spec(key@, ciphertext@).take(i as int),
            decreases ciphertext@.len() - i,
        {
            let block = ciphertext[i];
            let key_stream = Self::polynomial(&encryption_vector.as_slice()[i..i + KEY_SIZE]);
            let cleartext_block = block ^ key_stream;
            Self::rotate_key(&mut encryption_vector, i, &block);
            cleartext.push(cleartext_block);
            assert(cleartext@ =~= decrypt_spec(key@, ciphertext@).take(i + 1));
            i = i + 1;
        }
        assert(cleartext@ =~= decrypt_spec(key@, ciphertext@));
        cleartext
    }
}

} // verus!
