//! Trusted declarations for the `bytes` crate's growable byte buffer.
//!
//! The connection's inbound and outbound bytes live in `bytes::BytesMut`,
//! as the transport hands them over. Verus sees the buffer only through the
//! contracts below, each stated over `buf_bytes`, the mathematical contents
//! of a buffer.

use vstd::prelude::*;

verus! {

#[verifier::external_type_specification]
#[verifier::external_body]
pub struct ExBytesMut(bytes::BytesMut);

/// The bytes a buffer holds, in order.
pub uninterp spec fn buf_bytes(b: bytes::BytesMut) -> Seq<u8>;

/// Relies on bytes::BytesMut::new: a freshly created buffer is empty.
#[verifier::external_body]
pub fn buf_new() -> (r: bytes::BytesMut)
    ensures
        buf_bytes(r) == Seq::<u8>::empty(),
{
    bytes::BytesMut::new()
}

/// Relies on bytes::BytesMut::len: the number of bytes the buffer holds.
#[verifier::external_body]
pub fn buf_len(b: &bytes::BytesMut) -> (r: usize)
    ensures
        r == buf_bytes(*b).len(),
{
    b.len()
}

/// Relies on bytes::BytesMut::extend_from_slice: appends the slice's bytes
/// at the end of the buffer.
#[verifier::external_body]
pub fn buf_put_slice(b: &mut bytes::BytesMut, src: &[u8])
    ensures
        buf_bytes(*final(b)) == buf_bytes(*old(b)) + src@,
{
    b.extend_from_slice(src);
}

/// Relies on bytes::BytesMut::split_to: removes and returns the first `n`
/// bytes, leaving the rest. It panics when `n` exceeds the length, so that
/// case is excluded here.
#[verifier::external_body]
pub fn buf_split_to(b: &mut bytes::BytesMut, n: usize) -> (r: bytes::BytesMut)
    requires
        n <= buf_bytes(*old(b)).len(),
    ensures
        buf_bytes(r) == buf_bytes(*old(b)).take(n as int),
        buf_bytes(*final(b)) == buf_bytes(*old(b)).skip(n as int),
{
    b.split_to(n)
}

/// Relies on bytes::BytesMut's slice view (and `to_vec` on it): a copy of
/// the buffer's bytes, the buffer untouched.
#[verifier::external_body]
pub fn buf_to_vec(b: &bytes::BytesMut) -> (r: Vec<u8>)
    ensures
        r@ == buf_bytes(*b),
{
    b.as_ref().to_vec()
}

} // verus!
