use orbis::genesis::{
    builder_params_page_hashes, ring_verifier_all_builder_params_hashes, ring_verifier_builder_params as params_of,
    ring_verifier_builder_params_hashes, ring_verifier_builder_params_raw,
    ring_verifier_r2e9_r2e10_builder_params_hashes,
};
use parity_scale_codec::Encode;
use verifiable::ring::bandersnatch::BandersnatchSha512Ell2;
use verifiable::ring::{ring_verifier_builder_params, RingDomainSize, StaticChunk};

fn chunks(domain: RingDomainSize) -> Vec<StaticChunk<BandersnatchSha512Ell2>> {
    let params = ring_verifier_builder_params::<BandersnatchSha512Ell2>(domain);
    params.0.iter().map(|c| StaticChunk(*c)).collect()
}

#[test]
fn page_hashes_match_the_encoded_pages() {
    let cs = chunks(RingDomainSize::Domain11);
    assert_eq!(cs.len(), 512);
    let expected: Vec<[u8; 32]> =
        cs.chunks(100).map(|p| p.to_vec().using_encoded(sp_crypto_hashing::blake2_256)).collect();
    let hashes = ring_verifier_builder_params_hashes(11, 100);
    assert_eq!(hashes.len(), 6);
    assert_eq!(hashes, expected);
}

#[test]
fn raw_params_are_the_encoded_chunk_list() {
    let cs = chunks(RingDomainSize::Domain12);
    assert_eq!(ring_verifier_builder_params_raw(12), cs.encode());
}

#[test]
fn hashes_per_exponent() {
    let all = ring_verifier_all_builder_params_hashes(4096);
    assert_eq!(all.iter().map(|(e, _)| *e).collect::<Vec<_>>(), vec![9, 10, 14]);
    assert_eq!(all[0].1.len(), 1);
    assert_eq!(all[2].1.len(), 4);
    let two = ring_verifier_r2e9_r2e10_builder_params_hashes(4096);
    assert_eq!(two.len(), 2);
    assert_eq!(two[1].1, all[1].1);
}

#[test]
fn params_are_the_encoded_chunks() {
    let cs = chunks(RingDomainSize::Domain11);
    let ps = params_of(11);
    assert_eq!(ps.len(), 512);
    assert_eq!(ps, cs.iter().map(|c| c.encode()).collect::<Vec<_>>());
}

#[test]
fn page_hashes_of_given_chunks() {
    let chunks = vec![vec![1u8, 2], vec![3u8], vec![4u8, 5, 6]];
    let hashes = builder_params_page_hashes(&chunks, 2);
    let first = sp_crypto_hashing::blake2_256(&[8u8, 1, 2, 3]);
    let second = sp_crypto_hashing::blake2_256(&[4u8, 4, 5, 6]);
    assert_eq!(hashes, vec![first, second]);
    assert!(builder_params_page_hashes(&Vec::new(), 3).is_empty());
}
