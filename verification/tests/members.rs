use orbis::members::{
    AsMember, AsMemberInfo, CollectionInfo, CollectionOwner, CustomValidity, SelfIncludeCall, SelfIncludeError,
    SelfIncludeValidity,
};
use orbis::reality::{RingExponent, RingMembersState, RingMode, RingMutationMode, RingPosition};
use orbis::weights::Weight;
use parity_scale_codec::Encode;
use verifiable::ring::bandersnatch::BandersnatchVrfVerifiable;
use verifiable::GenerateVerifiable;

const ID: [u8; 32] = [4u8; 32];
const IMPLICATION: &[u8] = b"the transaction's implication";

fn collection(delay: Option<u64>) -> Option<CollectionInfo<u64, u32>> {
    Some(CollectionInfo { owner: CollectionOwner::Local(1), mode: RingMode::AppendOnly, ring_size: RingExponent::R2e9, self_inclusion_delay: delay })
}

fn keys() -> ([u8; 32], [u8; 64]) {
    let secret = <BandersnatchVrfVerifiable as GenerateVerifiable>::new_secret([42u8; 32]);
    let member = <BandersnatchVrfVerifiable as GenerateVerifiable>::member_from_secret(&secret);
    let msg = sp_crypto_hashing::blake2_256(IMPLICATION);
    let signature = <BandersnatchVrfVerifiable as GenerateVerifiable>::sign(&secret, &msg).unwrap();
    (member, signature)
}

fn validate(
    ext: &AsMember,
    origin_is_none: bool,
    call: Option<SelfIncludeCall>,
    now: u64,
    collection: Option<CollectionInfo<u64, u32>>,
    rings: RingMembersState,
    position: Option<RingPosition>,
) -> Result<Option<SelfIncludeValidity>, SelfIncludeError> {
    ext.validate(origin_is_none, call, now, 60, collection, rings, position, IMPLICATION)
}

#[test]
fn self_include_accepted_after_the_delay() {
    let (member, signature) = keys();
    let ext = AsMember::new(Some(AsMemberInfo::SelfInclude(signature)));
    let call = SelfIncludeCall { identifier: ID, member, call_valid_at: 1_000 };
    let queued = Some(RingPosition::Onboarding { queue_page: 0, queued_at: 500 });
    let r = validate(&ext, true, Some(call), 1_010, collection(Some(400)), RingMembersState::default(), queued).unwrap();
    let expected_tag = sp_crypto_hashing::twox_64(&("self-include", ID, member).encode());
    assert_eq!(r, Some(SelfIncludeValidity { provides: expected_tag, member }));
}

#[test]
fn self_include_checks_in_order() {
    let (member, signature) = keys();
    let ext = AsMember::new(Some(AsMemberInfo::SelfInclude(signature)));
    let call = Some(SelfIncludeCall { identifier: ID, member, call_valid_at: 1_000 });
    let queued = Some(RingPosition::Onboarding { queue_page: 0, queued_at: 500 });
    let ok_rings = RingMembersState::default();
    let c = |e: CustomValidity| Err(SelfIncludeError::Custom(e));
    assert_eq!(validate(&AsMember::new(None), false, None, 0, None, ok_rings, None), Ok(None));
    assert_eq!(validate(&ext, false, call, 1_010, collection(Some(400)), ok_rings, queued), Err(SelfIncludeError::BadSigner));
    assert_eq!(validate(&ext, true, None, 1_010, collection(Some(400)), ok_rings, queued), c(CustomValidity::NotSelfIncludeCall));
    assert_eq!(validate(&ext, true, call, 999, collection(Some(400)), ok_rings, queued), Err(SelfIncludeError::Future));
    assert_eq!(validate(&ext, true, call, 1_061, collection(Some(400)), ok_rings, queued), Err(SelfIncludeError::Stale));
    assert!(validate(&ext, true, call, 1_060, collection(Some(400)), ok_rings, queued).is_ok());
    assert_eq!(validate(&ext, true, call, 1_010, None, ok_rings, queued), c(CustomValidity::CollectionNotFound));
    assert_eq!(validate(&ext, true, call, 1_010, collection(None), ok_rings, queued), c(CustomValidity::SelfInclusionNotEnabled));
    let mutating = RingMembersState { mode: RingMutationMode::Mutating(1) };
    assert_eq!(validate(&ext, true, call, 1_010, collection(Some(400)), mutating, queued), c(CustomValidity::RingsMutating));
    assert_eq!(validate(&ext, true, call, 1_010, collection(Some(400)), ok_rings, None), c(CustomValidity::MemberNotFound));
    assert_eq!(
        validate(&ext, true, call, 1_010, collection(Some(400)), ok_rings, Some(RingPosition::Suspended)),
        c(CustomValidity::NotOnboarding)
    );
    assert_eq!(
        validate(&ext, true, call, 1_010, collection(Some(600)), ok_rings, queued),
        c(CustomValidity::SelfInclusionTooEarly)
    );
}

#[test]
fn self_include_rejects_a_foreign_signature() {
    let (_, signature) = keys();
    let other = <BandersnatchVrfVerifiable as GenerateVerifiable>::member_from_secret(
        &<BandersnatchVrfVerifiable as GenerateVerifiable>::new_secret([7u8; 32]),
    );
    let ext = AsMember::new(Some(AsMemberInfo::SelfInclude(signature)));
    let call = Some(SelfIncludeCall { identifier: ID, member: other, call_valid_at: 1_000 });
    let queued = Some(RingPosition::Onboarding { queue_page: 0, queued_at: 500 });
    assert_eq!(
        validate(&ext, true, call, 1_010, collection(Some(400)), RingMembersState::default(), queued),
        Err(SelfIncludeError::BadProof)
    );
}

#[test]
fn validity_codes_match_the_wire_values() {
    assert_eq!(CustomValidity::NotSelfIncludeCall.code(), 200);
    assert_eq!(CustomValidity::SelfInclusionTooEarly.code(), 206);
}

#[test]
fn only_a_self_inclusion_weighs() {
    let table = Weight { ref_time: 1_000, proof_size: 64 };
    assert_eq!(AsMember::new(None).weight(table), Weight { ref_time: 0, proof_size: 0 });
    assert_eq!(AsMember::new(Some(AsMemberInfo::SelfInclude([1u8; 64]))).weight(table), table);
}
