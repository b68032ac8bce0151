//! Hash functions of the chain.
use vstd::prelude::*;

verus! {

/// The BLAKE2b-256 digest of `data`.
pub uninterp spec fn spec_blake2_256(data: Seq<u8>) -> [u8; 32];

/// The 64-bit XX hash of `data`: one round of xxHash64 with seed 0, its
/// result in little-endian byte order.
pub uninterp spec fn spec_twox_64(data: Seq<u8>) -> [u8; 8];

/// Calls `sp_crypto_hashing::blake2_256`, the hash behind `sp_io::hashing`
/// and `BlakeTwo256`. The contract claims only that the digest is a function
/// of the input bytes, named `spec_blake2_256`.
#[verifier::external_body]
pub(crate) fn blake2_256(data: &[u8]) -> (r: [u8; 32])
    ensures
        r == spec_blake2_256(data@),
{
    sp_crypto_hashing::blake2_256(data)
}

/// Calls `sp_crypto_hashing::twox_64`, the hash behind `sp_io::hashing`.
/// The contract claims only that the digest is a function of the input
/// bytes, named `spec_twox_64`.
#[verifier::external_body]
pub(crate) fn twox_64(data: &[u8]) -> (r: [u8; 8])
    ensures
        r == spec_twox_64(data@),
{
    sp_crypto_hashing::twox_64(data)
}

} // verus!
