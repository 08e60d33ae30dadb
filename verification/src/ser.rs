//! Big-endian integer serialization primitives used by the wire format.

use vstd::prelude::*;

verus! {

/// The two bytes of `n` in big-endian order.
pub open spec fn be16_bytes(n: u16) -> Seq<u8> {
    seq![(n >> 8) as u8, n as u8]
}

/// The four bytes of `n` in big-endian order.
pub open spec fn be32_bytes(n: u32) -> Seq<u8> {
    seq![(n >> 24) as u8, (n >> 16) as u8, (n >> 8) as u8, n as u8]
}

/// The eight bytes of `n` in big-endian order.
pub open spec fn be64_bytes(n: u64) -> Seq<u8> {
    seq![
        (n >> 56) as u8,
        (n >> 48) as u8,
        (n >> 40) as u8,
        (n >> 32) as u8,
        (n >> 24) as u8,
        (n >> 16) as u8,
        (n >> 8) as u8,
        n as u8,
    ]
}

/// The value read back from two big-endian bytes.
pub open spec fn be16_val(b: Seq<u8>) -> u16
    recommends
        b.len() == 2,
{
    (((b[0] as u16) << 8) | (b[1] as u16)) as u16
}

/// The value read back from four big-endian bytes.
pub open spec fn be32_val(b: Seq<u8>) -> u32
    recommends
        b.len() == 4,
{
    (((b[0] as u32) << 24) | ((b[1] as u32) << 16) | ((b[2] as u32) << 8) | (b[3] as u32)) as u32
}

/// The value read back from eight big-endian bytes.
pub open spec fn be64_val(b: Seq<u8>) -> u64
    recommends
        b.len() == 8,
{
    (((b[0] as u64) << 56) | ((b[1] as u64) << 48) | ((b[2] as u64) << 40) | ((b[3] as u64) << 32)
        | ((b[4] as u64) << 24) | ((b[5] as u64) << 16) | ((b[6] as u64) << 8) | (b[7] as u64)) as u64
}

/// Reading back the big-endian bytes of a value yields the value.
pub proof fn lemma_be16_round_trip(n: u16)
    ensures
        be16_val(be16_bytes(n)) == n,
{
    assert((((((n >> 8) as u8) as u16) << 8) | ((n as u8) as u16)) == n) by (bit_vector);
}

/// Reading back the big-endian bytes of a value yields the value.
pub proof fn lemma_be32_round_trip(n: u32)
    ensures
        be32_val(be32_bytes(n)) == n,
{
    assert((((((n >> 24) as u8) as u32) << 24) | ((((n >> 16) as u8) as u32) << 16)
        | ((((n >> 8) as u8) as u32) << 8) | ((n as u8) as u32)) == n) by (bit_vector);
}

/// Reading back the big-endian bytes of a value yields the value.
pub proof fn lemma_be64_round_trip(n: u64)
    ensures
        be64_val(be64_bytes(n)) == n,
{
    assert((((((n >> 56) as u8) as u64) << 56) | ((((n >> 48) as u8) as u64) << 48)
        | ((((n >> 40) as u8) as u64) << 40) | ((((n >> 32) as u8) as u64) << 32)
        | ((((n >> 24) as u8) as u64) << 24) | ((((n >> 16) as u8) as u64) << 16)
        | ((((n >> 8) as u8) as u64) << 8) | ((n as u8) as u64)) == n) by (bit_vector);
}

/// Appends the two big-endian bytes of `n` to `out`.
pub fn push_u16_be(out: &mut Vec<u8>, n: u16)
    ensures
        final(out)@ == old(out)@ + be16_bytes(n),
{
    out.push((n >> 8) as u8);
    out.push(n as u8);
    assert(out@ =~= old(out)@ + be16_bytes(n));
}

/// Appends the four big-endian bytes of `n` to `out`.
pub fn push_u32_be(out: &mut Vec<u8>, n: u32)
    ensures
        final(out)@ == old(out)@ + be32_bytes(n),
{
    out.push((n >> 24) as u8);
    out.push((n >> 16) as u8);
    out.push((n >> 8) as u8);
    out.push(n as u8);
    assert(out@ =~= old(out)@ + be32_bytes(n));
}

/// Appends the eight big-endian bytes of `n` to `out`.
pub fn push_u64_be(out: &mut Vec<u8>, n: u64)
    ensures
        final(out)@ == old(out)@ + be64_bytes(n),
{
    out.push((n >> 56) as u8);
    out.push((n >> 48) as u8);
    out.push((n >> 40) as u8);
    out.push((n >> 32) as u8);
    out.push((n >> 24) as u8);
    out.push((n >> 16) as u8);
    out.push((n >> 8) as u8);
    out.push(n as u8);
    assert(out@ =~= old(out)@ + be64_bytes(n));
}

/// Reads a big-endian `u16` from `buf` at `pos`.
pub fn read_u16_be(buf: &[u8], pos: usize) -> (r: u16)
    requires
        pos + 2 <= buf@.len(),
    ensures
        r == be16_val(buf@.subrange(pos as int, pos + 2)),
{
    let r: u16 = ((buf[pos] as u16) << 8) | (buf[pos + 1] as u16);
    proof {
        let s = buf@.subrange(pos as int, pos + 2);
        assert(s[0] == buf@[pos as int] && s[1] == buf@[pos as int + 1]);
    }
    r
}

/// Reads a big-endian `u32` from `buf` at `pos`.
pub fn read_u32_be(buf: &[u8], pos: usize) -> (r: u32)
    requires
        pos + 4 <= buf@.len(),
    ensures
        r == be32_val(buf@.subrange(pos as int, pos + 4)),
{
    let r: u32 = ((buf[pos] as u32) << 24) | ((buf[pos + 1] as u32) << 16)
        | ((buf[pos + 2] as u32) << 8) | (buf[pos + 3] as u32);
    proof {
        let s = buf@.subrange(pos as int, pos + 4);
        assert(s[0] == buf@[pos as int] && s[1] == buf@[pos as int + 1] && s[2] == buf@[pos as int
            + 2] && s[3] == buf@[pos as int + 3]);
    }
    r
}

/// Reads a big-endian `u64` from `buf` at `pos`.
pub fn read_u64_be(buf: &[u8], pos: usize) -> (r: u64)
    requires
        pos + 8 <= buf@.len(),
    ensures
        r == be64_val(buf@.subrange(pos as int, pos + 8)),
{
    let r: u64 = ((buf[pos] as u64) << 56) | ((buf[pos + 1] as u64) << 48)
        | ((buf[pos + 2] as u64) << 40) | ((buf[pos + 3] as u64) << 32)
        | ((buf[pos + 4] as u64) << 24) | ((buf[pos + 5] as u64) << 16)
        | ((buf[pos + 6] as u64) << 8) | (buf[pos + 7] as u64);
    proof {
        let s = buf@.subrange(pos as int, pos + 8);
        assert(forall|i: int| 0 <= i < 8 ==> s[i] == buf@[pos + i]);
    }
    r
}

/// A copy of a byte vector with the same contents.
pub fn copy_bytes(src: &Vec<u8>) -> (r: Vec<u8>)
    ensures
        r@ == src@,
{
    vstd::slice::slice_to_vec(src.as_slice())
}

} // verus!
