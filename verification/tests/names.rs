use orbis::names::{NameId, NamesConfig, NamesError, NamesEvent, NamesRegistry, Origin};
use parity_scale_codec::Encode;

const GENESIS: [u8; 32] = [7u8; 32];
const ALICE: u64 = 1;
const BOB: u64 = 2;
const ROOT_ADMIN_LABEL: &[u8] = b"treasury";

fn config() -> NamesConfig {
    NamesConfig {
        max_label_length: 63,
        max_salt_length: 64,
        max_address_length: 128,
        max_text_key_length: 32,
        max_text_value_length: 256,
        max_text_records: 8,
        max_controllers: 4,
        max_registrars: 4,
        max_bootstrap_reservations: 4,
        max_names_per_owner: 8,
        max_children_per_name: 8,
        max_root_names: 16,
        max_name_depth: 4,
        max_commitments_per_account: 4,
        max_content_operation_receipts: 2,
        min_commitment_age: 2,
        max_commitment_age: 100,
        registration_period: 1000,
        max_renewal_period: 5000,
    }
}

fn registry() -> NamesRegistry {
    NamesRegistry::new(config(), GENESIS, vec![9], vec![(ROOT_ADMIN_LABEL.to_vec(), None)])
}

fn register(r: &mut NamesRegistry, who: u64, label: &[u8], salt: &[u8], at: u64) -> Result<Vec<NamesEvent>, NamesError> {
    let c = r.registration_commitment(who, None, label, salt);
    r.commit(Origin::Signed(who), c, at)?;
    r.register(Origin::Signed(who), None, label.to_vec(), salt.to_vec(), at + 2)
}

#[test]
fn name_id_is_the_blake2_hash_of_the_encoded_preimage() {
    let r = registry();
    let label = b"alice".to_vec();
    let expected = sp_crypto_hashing::blake2_256(&(&b"cord:orbis:names:name:v1"[..], GENESIS, None::<[u8; 32]>, &label).encode());
    assert_eq!(r.derive_name_id(None, &label), expected);
    let parent: NameId = [3u8; 32];
    let expected_child =
        sp_crypto_hashing::blake2_256(&(&b"cord:orbis:names:name:v1"[..], GENESIS, Some(parent), &label).encode());
    assert_eq!(r.derive_name_id(Some(parent), &label), expected_child);
    assert_ne!(expected, expected_child);
}

#[test]
fn commitment_is_the_blake2_hash_of_the_encoded_preimage() {
    let r = registry();
    let label = b"alice".to_vec();
    let salt = b"pepper".to_vec();
    let name = r.derive_name_id(None, &label);
    let expected =
        sp_crypto_hashing::blake2_256(&(&b"cord:orbis:names:commitment:v1"[..], GENESIS, ALICE, name, &salt).encode());
    assert_eq!(r.registration_commitment(ALICE, None, &label, &salt), expected);
    assert_ne!(r.registration_commitment(BOB, None, &label, &salt), expected);
}

#[test]
fn commit_then_register_creates_the_name() {
    let mut r = registry();
    let ev = register(&mut r, ALICE, b"alice", b"salt", 10).unwrap();
    let name = r.derive_name_id(None, b"alice");
    match &ev[0] {
        NamesEvent::NameRegistered { name: n, owner, expires_at, .. } => {
            assert_eq!(*n, name);
            assert_eq!(*owner, ALICE);
            assert_eq!(*expires_at, 12 + 1000);
        },
        other => panic!("unexpected event {other:?}"),
    }
    assert!(r.is_name_active(&name, 12));
    assert!(!r.is_name_active(&name, 1012));
    assert_eq!(r.names_by_owner(ALICE), vec![name]);
    assert_eq!(r.name_record(&name).unwrap().owner, ALICE);
}

#[test]
fn a_front_runner_cannot_use_anothers_commitment() {
    let mut r = registry();
    let c = r.registration_commitment(ALICE, None, b"alice", b"salt");
    r.commit(Origin::Signed(ALICE), c, 10).unwrap();
    let stolen = r.register(Origin::Signed(BOB), None, b"alice".to_vec(), b"salt".to_vec(), 12);
    assert!(matches!(stolen, Err(NamesError::CommitmentNotFound)));
    assert!(r.register(Origin::Signed(ALICE), None, b"alice".to_vec(), b"salt".to_vec(), 12).is_ok());
}

#[test]
fn reveal_must_wait_but_not_too_long() {
    let mut r = registry();
    let c = r.registration_commitment(ALICE, None, b"alice", b"salt");
    r.commit(Origin::Signed(ALICE), c, 10).unwrap();
    assert!(matches!(
        r.register(Origin::Signed(ALICE), None, b"alice".to_vec(), b"salt".to_vec(), 11),
        Err(NamesError::CommitmentTooYoung)
    ));
    assert!(matches!(
        r.register(Origin::Signed(ALICE), None, b"alice".to_vec(), b"salt".to_vec(), 111),
        Err(NamesError::CommitmentTooOld)
    ));
}

#[test]
fn labels_are_checked_not_rewritten() {
    let mut r = registry();
    assert!(matches!(register(&mut r, ALICE, b"Alice", b"salt", 10), Err(NamesError::InvalidLabel)));
    assert!(matches!(register(&mut r, ALICE, b"-alice", b"salt", 10), Err(NamesError::InvalidLabel)));
    assert!(matches!(register(&mut r, ALICE, b"alice", b"", 10), Err(NamesError::InvalidSalt)));
    assert!(r.validate_label(b"a-1".to_vec()).is_ok());
    assert!(matches!(r.validate_label(vec![b'a'; 64]), Err(NamesError::InvalidLabel)));
    assert_eq!(NamesRegistry::label_policy_version(), 1);
}

#[test]
fn genesis_reservation_closes_the_label() {
    let mut r = registry();
    assert!(matches!(register(&mut r, ALICE, ROOT_ADMIN_LABEL, b"salt", 10), Err(NamesError::ReservedName)));
}

#[test]
fn paused_registry_refuses_calls() {
    let mut r = registry();
    assert!(matches!(r.set_paused(Origin::Signed(ALICE), true), Err(NamesError::BadOrigin)));
    r.set_paused(Origin::Root, true).unwrap();
    assert!(r.paused());
    assert!(matches!(register(&mut r, ALICE, b"alice", b"salt", 10), Err(NamesError::Paused)));
}

#[test]
fn publishing_the_same_operation_twice_is_a_replay() {
    let mut r = registry();
    register(&mut r, ALICE, b"alice", b"salt", 10).unwrap();
    let name = r.derive_name_id(None, b"alice");
    let op = [5u8; 16];
    let content = Some([8u8; 32]);
    let first = r.publish_content(Origin::Signed(ALICE), name, content, Some(0), op, true, 20).unwrap();
    let second = r.publish_content(Origin::Signed(ALICE), name, content, Some(0), op, true, 21).unwrap();
    match (&first[0], &second[0]) {
        (
            NamesEvent::ContentSet { revision: r1, replayed: false, .. },
            NamesEvent::ContentSet { revision: r2, replayed: true, .. },
        ) => assert_eq!(r1, r2),
        other => panic!("unexpected events {other:?}"),
    }
    let conflict = r.publish_content(Origin::Signed(ALICE), name, None, Some(0), op, true, 22);
    assert!(matches!(conflict, Err(NamesError::OperationIdConflict)));
}

#[test]
fn primary_name_requires_an_active_owned_name() {
    let mut r = registry();
    register(&mut r, ALICE, b"alice", b"salt", 10).unwrap();
    let name = r.derive_name_id(None, b"alice");
    assert!(matches!(
        r.set_primary_name(Origin::Signed(BOB), Some(name), 20),
        Err(NamesError::PrimaryNameInvalid)
    ));
    r.set_primary_name(Origin::Signed(ALICE), Some(name), 20).unwrap();
    assert_eq!(r.primary_name(ALICE, 20), Some(name));
    assert_eq!(r.primary_name(ALICE, 5000), None);
}

#[test]
fn transfer_moves_the_name_between_owners() {
    let mut r = registry();
    register(&mut r, ALICE, b"alice", b"salt", 10).unwrap();
    let name = r.derive_name_id(None, b"alice");
    assert!(matches!(r.transfer(Origin::Signed(BOB), name, BOB, 20), Err(NamesError::NotOwner)));
    r.transfer(Origin::Signed(ALICE), name, BOB, 20).unwrap();
    assert_eq!(r.names_by_owner(BOB), vec![name]);
    assert!(r.names_by_owner(ALICE).is_empty());
}

#[test]
fn owner_lists_follow_registration_release_and_replacement() {
    let mut r = registry();
    register(&mut r, ALICE, b"alice", b"salt", 10).unwrap();
    register(&mut r, ALICE, b"spare", b"salt", 10).unwrap();
    let alice = r.derive_name_id(None, b"alice");
    let spare = r.derive_name_id(None, b"spare");
    assert_eq!(r.names_by_owner(ALICE), vec![alice, spare]);
    r.release(Origin::Signed(ALICE), alice).unwrap();
    assert_eq!(r.names_by_owner(ALICE), vec![spare]);
    assert!(r.name_record(&alice).is_none());
    // Once expired, the spare name can be taken over by another account.
    register(&mut r, BOB, b"spare", b"pepper", 2000).unwrap();
    assert!(r.names_by_owner(ALICE).is_empty());
    assert_eq!(r.names_by_owner(BOB), vec![spare]);
    assert_eq!(r.name_record(&spare).unwrap().owner, BOB);
}

#[test]
fn a_name_with_children_stays_until_its_children_go() {
    let mut r = registry();
    register(&mut r, ALICE, b"alice", b"salt", 10).unwrap();
    let alice = r.derive_name_id(None, b"alice");
    let c = r.registration_commitment(ALICE, Some(alice), b"mail", b"salt");
    r.commit(Origin::Signed(ALICE), c, 20).unwrap();
    r.register(Origin::Signed(ALICE), Some(alice), b"mail".to_vec(), b"salt".to_vec(), 22).unwrap();
    let mail = r.derive_name_id(Some(alice), b"mail");
    assert_eq!(r.name_record(&mail).unwrap().parent, Some(alice));
    assert_eq!(r.name_record(&mail).unwrap().depth, 1);
    // A child never outlives its parent: registered at 22 for 1000 blocks, it
    // is capped at the parent's expiry, and cannot be renewed past it.
    assert_eq!(r.name_record(&alice).unwrap().expires_at, 1012);
    assert_eq!(r.name_record(&mail).unwrap().expires_at, 1012);
    assert!(matches!(r.renew(Origin::Signed(ALICE), mail, 500, 30), Err(NamesError::InvalidRenewal)));
    r.renew(Origin::Signed(ALICE), alice, 500, 30).unwrap();
    r.renew(Origin::Signed(ALICE), mail, 300, 30).unwrap();
    assert_eq!(r.name_record(&mail).unwrap().expires_at, 1312);
    assert!(matches!(r.release(Origin::Signed(ALICE), alice), Err(NamesError::ChildrenRemain)));
    assert!(matches!(r.force_revoke(Origin::Root, alice), Err(NamesError::ChildrenRemain)));
    r.release(Origin::Signed(ALICE), mail).unwrap();
    r.release(Origin::Signed(ALICE), alice).unwrap();
    assert!(r.names_by_owner(ALICE).is_empty());
}

#[test]
fn a_transferred_primary_name_stops_being_primary() {
    let mut r = registry();
    register(&mut r, ALICE, b"alice", b"salt", 10).unwrap();
    let name = r.derive_name_id(None, b"alice");
    r.set_primary_name(Origin::Signed(ALICE), Some(name), 20).unwrap();
    let events = r.transfer(Origin::Signed(ALICE), name, BOB, 30).unwrap();
    assert_eq!(events.len(), 2);
    assert_eq!(r.primary_name(ALICE, 30), None);
    assert_eq!(r.primary_name(BOB, 30), None);
    r.set_primary_name(Origin::Signed(BOB), Some(name), 31).unwrap();
    assert_eq!(r.primary_name(BOB, 31), Some(name));
}

#[test]
fn a_registration_consumes_its_commitment() {
    let mut r = registry();
    register(&mut r, ALICE, b"alice", b"salt", 10).unwrap();
    let again = r.register(Origin::Signed(ALICE), None, b"alice".to_vec(), b"salt".to_vec(), 13);
    assert!(matches!(again, Err(NamesError::CommitmentNotFound)));
}
