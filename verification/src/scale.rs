//! SCALE encodings of byte strings and integers, as the codec writes them.
use parity_scale_codec::Encode;
use vstd::prelude::*;

verus! {

/// The `k` low bytes of `x`, least significant first.
pub open spec fn le_bytes(x: nat, k: nat) -> Seq<u8>
    decreases k,
{
    if k == 0 {
        Seq::empty()
    } else {
        seq![(x % 256) as u8] + le_bytes(x / 256, (k - 1) as nat)
    }
}

/// The compact encoding of a length `n` that fits in 32 bits: one byte
/// below 2^6, two bytes below 2^14, four bytes below 2^30 (the length
/// shifted left by two, tagged in the low bits), else a tag byte and the
/// four bytes of the length.
pub open spec fn compact_u32(n: nat) -> Seq<u8> {
    if n < 64 {
        seq![(n * 4) as u8]
    } else if n < 16384 {
        le_bytes(n * 4 + 1, 2)
    } else if n < 1073741824 {
        le_bytes(n * 4 + 2, 4)
    } else {
        seq![3u8] + le_bytes(n, 4)
    }
}

/// The SCALE encoding of a byte string: its compact length, then the bytes.
pub open spec fn scale_bytes(data: Seq<u8>) -> Seq<u8> {
    compact_u32(data.len()) + data
}

/// Calls `parity_scale_codec::Encode::encode` on a byte slice, which writes
/// the compact length and then the bytes. The codec panics on a slice longer
/// than `u32::MAX`, which `requires` leaves out.
#[verifier::external_body]
pub(crate) fn encode_bytes(data: &[u8]) -> (r: Vec<u8>)
    requires
        data@.len() <= u32::MAX,
    ensures
        r@ == scale_bytes(data@),
{
    data.encode()
}

/// Calls `parity_scale_codec::Encode::encode` on a `u64`, which writes its
/// eight bytes, least significant first.
#[verifier::external_body]
pub(crate) fn encode_u64(v: u64) -> (r: Vec<u8>)
    ensures
        r@ == le_bytes(v as nat, 8),
{
    v.encode()
}

/// Calls `parity_scale_codec::Encode::encode` on `Compact(n)`, the compact
/// encoding of `n`.
#[verifier::external_body]
pub(crate) fn encode_compact_u32(n: u32) -> (r: Vec<u8>)
    ensures
        r@ == compact_u32(n as nat),
{
    parity_scale_codec::Compact(n).encode()
}

} // verus!
