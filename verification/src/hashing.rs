//! Keccak-256, through the `keccak_hash` crate.

use vstd::prelude::*;

verus! {

/// The 32-byte Keccak-256 digest of a byte string.
pub uninterp spec fn keccak_of(data: Seq<u8>) -> Seq<u8>;

/// Relies on keccak_hash::keccak: the Keccak-256 digest of the input,
/// a function of the input bytes alone; an `H256` holds 32 bytes.
#[verifier::external_body]
pub fn keccak256(data: &Vec<u8>) -> (r: Vec<u8>)
    ensures
        r@ == keccak_of(data@),
        r@.len() == 32,
{
    keccak_hash::keccak(data.as_slice()).0.to_vec()
}

} // verus!
