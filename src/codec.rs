//! Conversion between byte messages and sequences of big-endian blocks.

use crate::block::Block;
use vstd::prelude::*;

verus! {

/// The word whose big-endian bytes are the first eight bytes of `b`.
pub open spec fn be_word(b: Seq<u8>) -> u64 {
    (b[0] as u64) << 56u64 | (b[1] as u64) << 48u64 | (b[2] as u64) << 40u64 | (b[3] as u64)
        << 32u64 | (b[4] as u64) << 24u64 | (b[5] as u64) << 16u64 | (b[6] as u64) << 8u64
        | (b[7] as u64)
}

/// The eight bytes of `w`, most significant first.
pub open spec fn word_be_bytes(w: u64) -> Seq<u8> {
    seq![
        (w >> 56u64) as u8,
        (w >> 48u64) as u8,
        (w >> 40u64) as u8,
        (w >> 32u64) as u8,
        (w >> 24u64) as u8,
        (w >> 16u64) as u8,
        (w >> 8u64) as u8,
        w as u8,
    ]
}

/// How many zero bytes bring a message of length `n` to a multiple of eight.
pub open spec fn pad_len(n: nat) -> nat {
    if n % 8 == 0 {
        0
    } else {
        (8 - n % 8) as nat
    }
}

/// `m` followed by the zero bytes that make its length a multiple of eight.
pub open spec fn padded(m: Seq<u8>) -> Seq<u8> {
    m + Seq::new(pad_len(m.len()), |i: int| 0u8)
}

/// The blocks of a message: its padded bytes read eight at a time, big-endian.
pub open spec fn blocks_of(m: Seq<u8>) -> Seq<Block> {
    let p = padded(m);
    Seq::new(p.len() / 8, |i: int| Block(be_word(p.subrange(8 * i, 8 * i + 8))))
}

/// The bytes of a block sequence: eight big-endian bytes per block, in order.
pub open spec fn bytes_of(bs: Seq<Block>) -> Seq<u8>
    decreases bs.len(),
{
    if bs.len() == 0 {
        Seq::empty()
    } else {
        bytes_of(bs.drop_last()) + word_be_bytes(bs.last().0)
    }
}

/// Reading back the bytes of a word gives the word's bytes again.
pub proof fn lemma_word_bytes_round_trip(b: Seq<u8>)
    requires
        b.len() == 8,
    ensures
        word_be_bytes(be_word(b)) == b,
{
    let (b0, b1, b2, b3, b4, b5, b6, b7) = (b[0], b[1], b[2], b[3], b[4], b[5], b[6], b[7]);
    let w = be_word(b);
    assert({
        &&& (w >> 56u64) as u8 == b0
        &&& (w >> 48u64) as u8 == b1
        &&& (w >> 40u64) as u8 == b2
        &&& (w >> 32u64) as u8 == b3
        &&& (w >> 24u64) as u8 == b4
        &&& (w >> 16u64) as u8 == b5
        &&& (w >> 8u64) as u8 == b6
        &&& w as u8 == b7
    }) by (bit_vector)
        requires
            w == (b0 as u64) << 56u64 | (b1 as u64) << 48u64 | (b2 as u64) << 40u64 | (b3 as u64)
                << 32u64 | (b4 as u64) << 24u64 | (b5 as u64) << 16u64 | (b6 as u64) << 8u64
                | (b7 as u64),
    ;
    assert(word_be_bytes(w) =~= b);
}

/// Padding a message whose length is already a multiple of eight changes
/// nothing; in particular padding twice is the same as padding once.
pub proof fn lemma_pad_idempotent(m: Seq<u8>)
    ensures
        padded(m).len() % 8 == 0,
        padded(m).len() == 8 * ((m.len() + 7) / 8),
        padded(padded(m)) == padded(m),
        m.len() % 8 == 0 ==> padded(m) == m,
{
    assert(padded(m).len() % 8 == 0);
    assert(padded(padded(m)) =~= padded(m));
    if m.len() % 8 == 0 {
        assert(padded(m) =~= m);
    }
}

/// The bytes of the first `n` blocks of a message whose length is a multiple
/// of eight are its first `8 * n` bytes.
proof fn lemma_blocks_bytes_prefix(m: Seq<u8>, n: int)
    requires
        m.len() % 8 == 0,
        0 <= n <= m.len() / 8,
    ensures
        bytes_of(blocks_of(m).take(n)) == m.take(8 * n),
    decreases n,
{
    lemma_pad_idempotent(m);
    let bs = blocks_of(m);
    if n == 0 {
        assert(m.take(0) =~= Seq::<u8>::empty());
        assert(bytes_of(bs.take(0)) == Seq::<u8>::empty());
    } else {
        lemma_blocks_bytes_prefix(m, n - 1);
        let chunk = m.subrange(8 * (n - 1), 8 * n);
        lemma_word_bytes_round_trip(chunk);
        assert(bs.take(n).drop_last() =~= bs.take(n - 1));
        assert(m.take(8 * (n - 1)) + chunk =~= m.take(8 * n));
    }
}

/// The bytes of the blocks of a message whose length is a multiple of eight
/// are the message itself.
pub proof fn lemma_blocks_bytes_round_trip(m: Seq<u8>)
    requires
        m.len() % 8 == 0,
    ensures
        bytes_of(blocks_of(m)) == m,
{
    lemma_pad_idempotent(m);
    let bs = blocks_of(m);
    lemma_blocks_bytes_prefix(m, bs.len() as int);
    assert(bs.take(bs.len() as int) =~= bs);
    assert(m.take(m.len() as int) =~= m);
}

/// Appends zero bytes to `msg` until its length is a multiple of eight.
pub fn pad(msg: Vec<u8>) -> (r: Vec<u8>)
    ensures
        r@ == padded(msg@),
        r@.len() % 8 == 0,
{
    let ghost input = msg@;
    let mut msg = msg;
    let len = msg.len();
    let rem = len % 8;
    if rem != 0 {
        let fill: usize = 8 - rem;
        let mut zeros = vec![0u8; fill];
        msg.append(&mut zeros);
    }
    assert(msg@ =~= padded(input));
    msg
}

/// The word held big-endian in `m[off..off + 8]`.
fn word_at(m: &Vec<u8>, off: usize) -> (w: u64)
    requires
        off + 8 <= m@.len(),
    ensures
        w == be_word(m@.subrange(off as int, off + 8)),
{
    let len = m.len();
    assert(off + 8 <= len);
    (m[off] as u64) << 56u64 | (m[off + 1] as u64) << 48u64 | (m[off + 2] as u64) << 40u64 | (
    m[off + 3] as u64) << 32u64 | (m[off + 4] as u64) << 24u64 | (m[off + 5] as u64) << 16u64 | (
    m[off + 6] as u64) << 8u64 | (m[off + 7] as u64)
}

/// Pads `msg` with zero bytes to a multiple of eight and reads it as big-endian
/// blocks, one per eight bytes.
pub fn convert(msg: Vec<u8>) -> (r: Vec<Block>)
    ensures
        r@ == blocks_of(msg@),
        r@.len() == (msg@.len() + 7) / 8,
{
    let ghost input = msg@;
    let msg = pad(msg);
    let len = msg.len();
    let n = len / 8;
    let mut out: Vec<Block> = Vec::new();
    let mut i: usize = 0;
    while i < n
        invariant
            msg@ == padded(input),
            msg@.len() % 8 == 0,
            len == msg@.len(),
            n == len / 8,
            i <= n,
            out@.len() == i,
            forall|j: int| 0 <= j < i ==> out@[j] == blocks_of(input)[j],
        decreases n - i,
    {
        let w = word_at(&msg, 8 * i);
        out.push(Block(w));
        i = i + 1;
    }
    assert(out@ =~= blocks_of(input));
    out
}

/// Writes each block as its eight big-endian bytes, in order. Padding is kept.
pub fn convert_block(msg: Vec<Block>) -> (r: Vec<u8>)
    ensures
        r@ == bytes_of(msg@),
        r@.len() == 8 * msg@.len(),
{
    let mut out: Vec<u8> = Vec::new();
    let mut i: usize = 0;
    while i < msg.len()
        invariant
            i <= msg@.len(),
            out@ == bytes_of(msg@.take(i as int)),
            out@.len() == 8 * i,
        decreases msg@.len() - i,
    {
        let w = msg[i].0;
        out.push((w >> 56u64) as u8);
        out.push((w >> 48u64) as u8);
        out.push((w >> 40u64) as u8);
        out.push((w >> 32u64) as u8);
        out.push((w >> 24u64) as u8);
        out.push((w >> 16u64) as u8);
        out.push((w >> 8u64) as u8);
        out.push(w as u8);
        assert(msg@.take(i + 1).drop_last() =~= msg@.take(i as int));
        assert(out@ =~= bytes_of(msg@.take(i + 1)));
        i = i + 1;
    }
    assert(msg@.take(msg@.len() as int) =~= msg@);
    out
}

} // verus!
