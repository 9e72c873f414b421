//! Shared framing helpers: 32-bit alignment padding and big-endian integer
//! fields, stated over byte sequences.

use vstd::prelude::*;

verus! {

/// Zero bytes that bring a byte length up to the next multiple of four.
pub open spec fn spec_padding(len: int) -> int {
    if len % 4 == 0 {
        0
    } else {
        4 - len % 4
    }
}

/// A run of zero bytes, as written for padding.
pub open spec fn zero_bytes(n: nat) -> Seq<u8> {
    Seq::new(n, |i: int| 0u8)
}

/// The value of the big-endian 16-bit field stored at `i`.
pub open spec fn be16_at(raw: Seq<u8>, i: int) -> u16 {
    (raw[i] * 0x100 + raw[i + 1]) as u16
}

/// The value of the big-endian 24-bit field stored at `i`.
pub open spec fn be24_at(raw: Seq<u8>, i: int) -> u32 {
    (raw[i] * 0x10000 + raw[i + 1] * 0x100 + raw[i + 2]) as u32
}

/// The value of the big-endian 32-bit field stored at `i`.
pub open spec fn be32_at(raw: Seq<u8>, i: int) -> u32 {
    (raw[i] * 0x1000000 + raw[i + 1] * 0x10000 + raw[i + 2] * 0x100 + raw[i + 3]) as u32
}

/// The two big-endian bytes of a 16-bit value.
pub open spec fn be16(v: u16) -> Seq<u8> {
    seq![(v / 0x100) as u8, (v % 0x100) as u8]
}

/// The three big-endian bytes of a 24-bit value (the top byte of `v` is not
/// representable and must be zero for the bytes to denote `v`).
pub open spec fn be24(v: u32) -> Seq<u8> {
    seq![((v / 0x10000) % 0x100) as u8, ((v / 0x100) % 0x100) as u8, (v % 0x100) as u8]
}

/// The four big-endian bytes of a 32-bit value.
pub open spec fn be32(v: u32) -> Seq<u8> {
    seq![
        (v / 0x1000000) as u8,
        ((v / 0x10000) % 0x100) as u8,
        ((v / 0x100) % 0x100) as u8,
        (v % 0x100) as u8,
    ]
}

/// Reading back the two bytes of `be16` yields the value.
pub proof fn lemma_be16_roundtrip(v: u16, raw: Seq<u8>, i: int)
    requires
        0 <= i,
        i + 2 <= raw.len(),
        raw.subrange(i, i + 2) == be16(v),
    ensures
        be16_at(raw, i) == v,
{
    assert(raw[i] == be16(v)[0] && raw[i + 1] == be16(v)[1]) by {
        assert(raw.subrange(i, i + 2)[0] == raw[i]);
        assert(raw.subrange(i, i + 2)[1] == raw[i + 1]);
    }
    assert(((v / 0x100) as u8) * 0x100 + ((v % 0x100) as u8) == v) by (bit_vector);
}

/// Reading back the three bytes of `be24` yields the value, for values that
/// fit in 24 bits.
pub proof fn lemma_be24_roundtrip(v: u32, raw: Seq<u8>, i: int)
    requires
        0 <= i,
        i + 3 <= raw.len(),
        v < 0x1000000,
        raw.subrange(i, i + 3) == be24(v),
    ensures
        be24_at(raw, i) == v,
{
    assert(raw[i] == be24(v)[0] && raw[i + 1] == be24(v)[1] && raw[i + 2] == be24(v)[2]) by {
        assert(raw.subrange(i, i + 3)[0] == raw[i]);
        assert(raw.subrange(i, i + 3)[1] == raw[i + 1]);
        assert(raw.subrange(i, i + 3)[2] == raw[i + 2]);
    }
    assert(v < 0x1000000 ==> (((v / 0x10000) % 0x100) as u8) * 0x10000 + (((v / 0x100) % 0x100) as u8)
        * 0x100 + ((v % 0x100) as u8) == v) by (bit_vector);
}

/// Reading back the four bytes of `be32` yields the value.
pub proof fn lemma_be32_roundtrip(v: u32, raw: Seq<u8>, i: int)
    requires
        0 <= i,
        i + 4 <= raw.len(),
        raw.subrange(i, i + 4) == be32(v),
    ensures
        be32_at(raw, i) == v,
{
    assert(raw[i] == be32(v)[0] && raw[i + 1] == be32(v)[1] && raw[i + 2] == be32(v)[2] && raw[i + 3]
        == be32(v)[3]) by {
        assert(raw.subrange(i, i + 4)[0] == raw[i]);
        assert(raw.subrange(i, i + 4)[1] == raw[i + 1]);
        assert(raw.subrange(i, i + 4)[2] == raw[i + 2]);
        assert(raw.subrange(i, i + 4)[3] == raw[i + 3]);
    }
    assert(((v / 0x1000000) as u8) * 0x1000000 + (((v / 0x10000) % 0x100) as u8) * 0x10000 + (((v
        / 0x100) % 0x100) as u8) * 0x100 + ((v % 0x100) as u8) == v) by (bit_vector);
}

/// Number of zero bytes needed so that `len + padding` is a multiple of 4;
/// zero if `len` is already aligned.
pub fn get_padding(len: usize) -> (r: usize)
    ensures
        r == spec_padding(len as int),
        (len + r) % 4 == 0,
        r < 4,
{
    if len % 4 == 0 {
        0
    } else {
        4 - len % 4
    }
}

/// Read the big-endian 16-bit field stored at `i`.
pub fn read_u16_be(raw: &Vec<u8>, i: usize) -> (r: u16)
    requires
        i + 2 <= raw.len(),
    ensures
        r == be16_at(raw@, i as int),
{
    (raw[i] as u16) * 0x100 + (raw[i + 1] as u16)
}

/// Read the big-endian 24-bit field stored at `i`.
pub fn read_u24_be(raw: &Vec<u8>, i: usize) -> (r: u32)
    requires
        i + 3 <= raw.len(),
    ensures
        r == be24_at(raw@, i as int),
        r < 0x1000000,
{
    (raw[i] as u32) * 0x10000 + (raw[i + 1] as u32) * 0x100 + (raw[i + 2] as u32)
}

/// Read the big-endian 32-bit field stored at `i`.
pub fn read_u32_be(raw: &Vec<u8>, i: usize) -> (r: u32)
    requires
        i + 4 <= raw.len(),
    ensures
        r == be32_at(raw@, i as int),
{
    (raw[i] as u32) * 0x1000000 + (raw[i + 1] as u32) * 0x10000 + (raw[i + 2] as u32) * 0x100 + (
    raw[i + 3] as u32)
}

/// Append the four big-endian bytes of `v`.
pub fn push_u32_be(buf: &mut Vec<u8>, v: u32)
    ensures
        final(buf)@ == old(buf)@ + be32(v),
{
    proof {
        assert(v / 0x1000000 < 0x100 && (v / 0x10000) % 0x100 < 0x100 && (v / 0x100) % 0x100 < 0x100
            && v % 0x100 < 0x100) by (bit_vector);
    }
    buf.push((v / 0x1000000) as u8);
    buf.push(((v / 0x10000) % 0x100) as u8);
    buf.push(((v / 0x100) % 0x100) as u8);
    buf.push((v % 0x100) as u8);
    proof {
        assert(buf@ =~= old(buf)@ + be32(v));
    }
}

/// Append the three big-endian bytes of a 24-bit value.
pub fn push_u24_be(buf: &mut Vec<u8>, v: u32)
    requires
        v < 0x1000000,
    ensures
        final(buf)@ == old(buf)@ + be24(v),
{
    proof {
        assert((v / 0x10000) % 0x100 < 0x100 && (v / 0x100) % 0x100 < 0x100 && v % 0x100 < 0x100)
            by (bit_vector);
    }
    buf.push(((v / 0x10000) % 0x100) as u8);
    buf.push(((v / 0x100) % 0x100) as u8);
    buf.push((v % 0x100) as u8);
    proof {
        assert(buf@ =~= old(buf)@ + be24(v));
    }
}

/// A copy of the bytes of `raw` from `start` (inclusive) to `end` (exclusive).
pub fn copy_range(raw: &Vec<u8>, start: usize, end: usize) -> (r: Vec<u8>)
    requires
        start <= end <= raw@.len(),
    ensures
        r@ == raw@.subrange(start as int, end as int),
{
    let mut r: Vec<u8> = Vec::new();
    let mut i: usize = start;
    while i < end
        invariant
            start <= i <= end <= raw@.len(),
            r@ =~= raw@.subrange(start as int, i as int),
        decreases end - i,
    {
        r.push(raw[i]);
        i = i + 1;
        proof {
            assert(r@ =~= raw@.subrange(start as int, i as int));
        }
    }
    proof {
        assert(r@ =~= raw@.subrange(start as int, end as int));
    }
    r
}

} // verus!
