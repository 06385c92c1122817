//! Immutable byte buffers from the `bytes` crate, used for bytecode,
//! calldata and outputs. Verified code sees a buffer only through
//! `bytes_view` and the wrappers below.

use vstd::prelude::*;

verus! {

#[verifier::external_type_specification]
#[verifier::external_body]
pub struct ExBytes(bytes::Bytes);

/// The bytes a `bytes::Bytes` buffer holds.
pub uninterp spec fn bytes_view(b: bytes::Bytes) -> Seq<u8>;

/// Relies on bytes::Bytes::new: an empty buffer.
#[verifier::external_body]
pub fn bytes_new() -> (r: bytes::Bytes)
    ensures
        bytes_view(r) == Seq::<u8>::empty(),
{
    bytes::Bytes::new()
}

/// Relies on From<Vec<u8>> for bytes::Bytes: the buffer holds exactly the vector's bytes.
#[verifier::external_body]
pub fn bytes_from_vec(v: Vec<u8>) -> (r: bytes::Bytes)
    ensures
        bytes_view(r) == v@,
{
    bytes::Bytes::from(v)
}

/// Relies on bytes::Bytes::len.
#[verifier::external_body]
pub fn bytes_len(b: &bytes::Bytes) -> (r: usize)
    ensures
        r == bytes_view(*b).len(),
{
    b.len()
}

/// Relies on the Index impl that Bytes has through Deref to `[u8]`.
#[verifier::external_body]
pub fn bytes_get(b: &bytes::Bytes, i: usize) -> (r: u8)
    requires
        i < bytes_view(*b).len(),
    ensures
        r == bytes_view(*b)[i as int],
{
    b[i]
}

/// Relies on Clone for bytes::Bytes: a clone holds the same bytes.
#[verifier::external_body]
pub fn bytes_clone(b: &bytes::Bytes) -> (r: bytes::Bytes)
    ensures
        bytes_view(r) == bytes_view(*b),
{
    b.clone()
}

/// Relies on the ToOwned impl `[u8]` has, reached through Deref.
#[verifier::external_body]
pub fn bytes_to_vec(b: &bytes::Bytes) -> (r: Vec<u8>)
    ensures
        r@ == bytes_view(*b),
{
    b.to_vec()
}

} // verus!
