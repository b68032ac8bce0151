//! Fingerprints of the ring builder parameters that a chain's genesis
//! loads: the parameters of each ring domain, cut into pages whose hashes
//! are committed to.
use crate::hashing::{blake2_256, spec_blake2_256};
use crate::scale::{compact_u32, encode_compact_u32};
use crate::table::extend_bytes;
use parity_scale_codec::Encode;
use verifiable::ring::bandersnatch::BandersnatchSha512Ell2;
use verifiable::ring::{RingDomainSize, StaticChunk};
use vstd::prelude::*;

verus! {

/// The encoded static chunks of the ring builder parameters of the
/// Bandersnatch ring-VRF suite on the domain of `2^power` points.
pub uninterp spec fn spec_builder_params(power: u32) -> Seq<Seq<u8>>;

/// The number of static chunks on the domain of `2^power` points: the size
/// of the proof domain, a quarter of the points.
pub open spec fn chunk_count(power: u32) -> nat {
    if power == 11 {
        512
    } else if power == 12 {
        1024
    } else {
        16384
    }
}

/// The byte strings of a list of byte vectors.
pub open spec fn byte_views(v: Seq<Vec<u8>>) -> Seq<Seq<u8>> {
    Seq::new(v.len(), |i: int| v[i]@)
}

/// Calls `verifiable::ring::ring_verifier_builder_params` for the
/// Bandersnatch suite on the domain of `2^power` points and encodes each of
/// its static chunks. The contract claims that the result is a function of
/// the power, named `spec_builder_params`, with as many chunks as the proof
/// domain has points (the size of the crate's parameter files).
#[verifier::external_body]
fn builder_param_chunks(power: u32) -> (r: Vec<Vec<u8>>)
    requires
        power == 11 || power == 12 || power == 16,
    ensures
        byte_views(r@) == spec_builder_params(power),
        r@.len() == chunk_count(power),
{
    let domain = match power {
        11 => RingDomainSize::Domain11,
        12 => RingDomainSize::Domain12,
        _ => RingDomainSize::Domain16,
    };
    let params = verifiable::ring::ring_verifier_builder_params::<BandersnatchSha512Ell2>(domain);
    params.0.iter().map(|c| StaticChunk::<BandersnatchSha512Ell2>(*c).encode()).collect()
}

/// The bytes of a list of byte strings, one after the other.
pub open spec fn concat(cs: Seq<Seq<u8>>) -> Seq<u8>
    decreases cs.len(),
{
    if cs.len() == 0 {
        Seq::empty()
    } else {
        concat(cs.drop_last()) + cs.last()
    }
}

/// The SCALE encoding of a list of encoded chunks: its compact length, then
/// the chunks.
pub open spec fn list_encoding(cs: Seq<Seq<u8>>) -> Seq<u8> {
    compact_u32(cs.len()) + concat(cs)
}

/// The hashes of the pages of `cs`, `page` chunks each (the last may hold
/// fewer): the BLAKE2b-256 digest of each page's encoding.
pub open spec fn page_hashes(cs: Seq<Seq<u8>>, page: nat) -> Seq<[u8; 32]>
    decreases cs.len(),
{
    if cs.len() == 0 || page == 0 {
        Seq::empty()
    } else {
        let k = if cs.len() < page {
            cs.len()
        } else {
            page
        };
        seq![spec_blake2_256(list_encoding(cs.take(k as int)))] + page_hashes(cs.skip(k as int), page)
    }
}

/// The power of two of the domain of a ring exponent: 11, 12 or 16.
pub open spec fn valid_power(power: u32) -> bool {
    power == 11 || power == 12 || power == 16
}

/// The encoding of chunks `cs[from..to]` as a list.
fn encode_pages(cs: &Vec<Vec<u8>>, from: usize, to: usize) -> (r: Vec<u8>)
    requires
        from <= to <= cs@.len(),
        to - from <= u32::MAX,
    ensures
        r@ == list_encoding(byte_views(cs@).subrange(from as int, to as int)),
{
    let ghost bs = byte_views(cs@);
    let mut out = encode_compact_u32((to - from) as u32);
    let ghost prefix = out@;
    let mut i: usize = from;
    proof {
        assert(bs.subrange(from as int, from as int) =~= Seq::<Seq<u8>>::empty());
        assert(out@ =~= prefix + concat(bs.subrange(from as int, from as int)));
    }
    while i < to
        invariant
            from <= i <= to <= cs@.len(),
            bs == byte_views(cs@),
            prefix == compact_u32((to - from) as nat),
            out@ == prefix + concat(bs.subrange(from as int, i as int)),
        decreases to - i,
    {
        extend_bytes(&mut out, cs[i].as_slice());
        i += 1;
        proof {
            assert(bs.subrange(from as int, i as int).drop_last() =~= bs.subrange(from as int, i - 1));
            assert(out@ =~= prefix + concat(bs.subrange(from as int, i as int)));
        }
    }
    out
}

/// The ring builder parameters of the domain of `2^domain_power` points,
/// each static chunk as its SCALE encoding.
pub fn ring_verifier_builder_params(domain_power: u32) -> (r: Vec<Vec<u8>>)
    requires
        valid_power(domain_power),
    ensures
        byte_views(r@) == spec_builder_params(domain_power),
        r@.len() == chunk_count(domain_power),
{
    builder_param_chunks(domain_power)
}

/// The SCALE encoding of the ring builder parameters of the domain of
/// `2^domain_power` points.
pub fn ring_verifier_builder_params_raw(domain_power: u32) -> (r: Vec<u8>)
    requires
        valid_power(domain_power),
    ensures
        r@ == list_encoding(spec_builder_params(domain_power)),
{
    let cs = ring_verifier_builder_params(domain_power);
    let r = encode_pages(&cs, 0, cs.len());
    proof {
        assert(byte_views(cs@).subrange(0, cs@.len() as int) =~= byte_views(cs@));
    }
    r
}

/// The hashes of the pages of `page_size` encoded chunks of `chunks`, in
/// order, the last page holding what is left: the BLAKE2b-256 digest of the
/// SCALE encoding of each page as a list.
pub fn builder_params_page_hashes(chunks: &Vec<Vec<u8>>, page_size: u32) -> (r: Vec<[u8; 32]>)
    requires
        page_size > 0,
    ensures
        r@ == page_hashes(byte_views(chunks@), page_size as nat),
{
    let cs = chunks;
    let ghost bs = byte_views(cs@);
    let n = cs.len();
    let mut hashes: Vec<[u8; 32]> = Vec::new();
    let mut i: usize = 0;
    proof {
        assert(bs.skip(0) =~= bs);
        assert(hashes@ + page_hashes(bs.skip(0), page_size as nat) =~= page_hashes(bs, page_size as nat));
    }
    while i < n
        invariant
            n == cs@.len(),
            bs == byte_views(cs@),
            bs.len() == n,
            page_size > 0,
            i <= n,
            hashes@ + page_hashes(bs.skip(i as int), page_size as nat) == page_hashes(bs, page_size as nat),
        decreases n - i,
    {
        let k: usize = if n - i < page_size as usize {
            n - i
        } else {
            page_size as usize
        };
        let enc = encode_pages(cs, i, i + k);
        let h = blake2_256(enc.as_slice());
        let ghost rest = bs.skip(i as int);
        proof {
            assert(rest.take(k as int) =~= bs.subrange(i as int, i + k));
            assert(rest.skip(k as int) =~= bs.skip(i + k));
        }
        let ghost before = hashes@;
        hashes.push(h);
        proof {
            assert(hashes@ + page_hashes(bs.skip(i + k), page_size as nat) =~= before + page_hashes(rest, page_size as nat));
        }
        i += k;
    }
    proof {
        assert(bs.skip(n as int) =~= Seq::<Seq<u8>>::empty());
        assert(hashes@ + Seq::<[u8; 32]>::empty() =~= hashes@);
    }
    hashes
}

/// The hashes of the pages of `page_size` chunks of the ring builder
/// parameters of the domain of `2^domain_power` points.
pub fn ring_verifier_builder_params_hashes(domain_power: u32, page_size: u32) -> (r: Vec<[u8; 32]>)
    requires
        valid_power(domain_power),
        page_size > 0,
    ensures
        r@ == page_hashes(spec_builder_params(domain_power), page_size as nat),
{
    let cs = ring_verifier_builder_params(domain_power);
    builder_params_page_hashes(&cs, page_size)
}

/// The page hashes of the builder parameters of every ring exponent, each
/// with its exponent: 9, 10 and 14.
pub fn ring_verifier_all_builder_params_hashes(page_size: u32) -> (r: Vec<(u8, Vec<[u8; 32]>)>)
    requires
        page_size > 0,
    ensures
        r@.len() == 3,
        r@[0].0 == 9 && r@[0].1@ == page_hashes(spec_builder_params(11), page_size as nat),
        r@[1].0 == 10 && r@[1].1@ == page_hashes(spec_builder_params(12), page_size as nat),
        r@[2].0 == 14 && r@[2].1@ == page_hashes(spec_builder_params(16), page_size as nat),
{
    let mut r: Vec<(u8, Vec<[u8; 32]>)> = Vec::new();
    r.push((9u8, ring_verifier_builder_params_hashes(11, page_size)));
    r.push((10u8, ring_verifier_builder_params_hashes(12, page_size)));
    r.push((14u8, ring_verifier_builder_params_hashes(16, page_size)));
    r
}

/// The page hashes of the builder parameters of ring exponents 9 and 10,
/// each with its exponent.
pub fn ring_verifier_r2e9_r2e10_builder_params_hashes(page_size: u32) -> (r: Vec<(u8, Vec<[u8; 32]>)>)
    requires
        page_size > 0,
    ensures
        r@.len() == 2,
        r@[0].0 == 9 && r@[0].1@ == page_hashes(spec_builder_params(11), page_size as nat),
        r@[1].0 == 10 && r@[1].1@ == page_hashes(spec_builder_params(12), page_size as nat),
{
    let mut r: Vec<(u8, Vec<[u8; 32]>)> = Vec::new();
    r.push((9u8, ring_verifier_builder_params_hashes(11, page_size)));
    r.push((10u8, ring_verifier_builder_params_hashes(12, page_size)));
    r
}

} // verus!
