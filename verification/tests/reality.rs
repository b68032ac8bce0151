use orbis::big_endian::u32_from_seed;
use orbis::names_api::{OwnerNamesPage, Versioned, RESPONSE_VERSION};
use orbis::reality::{
    Callback, Judgement, RingExponent, RingMembersState, RingMutationMode, RingPosition, Social, Truth,
    PEOPLE_IDENTIFIER, PEOPLE_LITE_IDENTIFIER,
};
use orbis::weights::{BaseWeights, DbWeight, SubstrateWeight, Weight, WeightInfo};

#[test]
fn exponents_round_trip_and_give_capacities() {
    for e in [RingExponent::R2e9, RingExponent::R2e10, RingExponent::R2e14] {
        assert_eq!(RingExponent::new_from_exponent(e.exponent()), Ok(e));
    }
    assert_eq!(RingExponent::new_from_exponent(11), Err(11));
    assert_eq!(RingExponent::max_ring_exponent(), RingExponent::R2e14);
    assert_eq!(RingExponent::R2e9.ring_capacity(), 255);
    assert_eq!(RingExponent::R2e10.ring_capacity(), 767);
}

#[test]
fn mutation_sessions_nest() {
    let s = RingMembersState::default();
    assert!(s.append_only());
    let s1 = s.start_mutation_session().unwrap();
    assert_eq!(s1.mode, RingMutationMode::Mutating(1));
    let s2 = s1.start_mutation_session().unwrap();
    assert!(s2.mutating());
    let back = s2.end_mutation_session().unwrap().end_mutation_session().unwrap();
    assert!(back.append_only());
    assert!(s.end_mutation_session().is_err());
    let full = RingMembersState { mode: RingMutationMode::Mutating(u8::MAX) };
    assert!(full.start_mutation_session().is_err());
}

#[test]
fn positions_report_ring_and_suspension() {
    let inc = RingPosition::Included { ring_index: 3, ring_page: 0, ring_position: 1 };
    assert_eq!(inc.ring_index(), Some(3));
    assert!(!inc.suspended());
    assert!(RingPosition::Suspended.suspended());
    assert_eq!(RingPosition::Suspended.ring_index(), None);
}

#[test]
fn callback_curries_its_arguments() {
    let cb: Callback<(), ()> = Callback::from_parts(12, 3);
    assert_eq!(cb.curry(&[9, 8]), vec![12, 3, 9, 8]);
}

#[test]
fn judgements_match_their_intent() {
    assert!(Judgement::Truth(Truth::True).matches_intent(Judgement::Truth(Truth::True)));
    assert!(!Judgement::Truth(Truth::True).matches_intent(Judgement::Truth(Truth::False)));
    assert!(Judgement::Contempt.matches_intent(Judgement::Contempt));
    assert!(!Judgement::Contempt.matches_intent(Judgement::Truth(Truth::True)));
}

#[test]
fn social_credentials_compare_by_platform() {
    let alice = Social::Twitter { username: b"alice".to_vec() };
    let bob = Social::Twitter { username: b"bob".to_vec() };
    let gh = Social::Github { username: b"alice".to_vec() };
    let discord = Social::Discord { display_and_tag: b"alice#1".to_vec() };
    assert!(alice.eq_platform(&bob));
    assert!(!alice.eq_platform(&gh));
    assert!(gh.eq_platform(&Social::Github { username: Vec::new() }));
    assert!(discord.eq_platform(&discord.clone()));
    assert!(!discord.eq_platform(&alice));
}

#[test]
fn people_identifiers_are_the_padded_collection_names() {
    assert_eq!(&PEOPLE_IDENTIFIER, b"pop:polkadot.network/people     ");
    assert_eq!(&PEOPLE_LITE_IDENTIFIER, b"pop:polkadot.network/people-lite");
}

#[test]
fn seed_draw_reads_little_endian() {
    let mut seed = [0u8; 32];
    seed[0] = 1;
    seed[3] = 2;
    assert_eq!(u32_from_seed(&seed), 0x0200_0001);
    assert_eq!(u32_from_seed(&[0xff; 32]), u32::MAX);
}

#[test]
fn responses_carry_the_version() {
    let v = Versioned::new(Some(5u8));
    assert_eq!(v.version, RESPONSE_VERSION);
    assert_eq!(v.value, Some(5));
    let page = OwnerNamesPage::new(vec![[1u8; 32]], Some(1));
    assert_eq!(page.version, 1);
    assert_eq!(page.next_cursor, Some(1));
}

#[test]
fn weights_add_database_costs() {
    let w = SubstrateWeight { db: DbWeight { read: 10, write: 100 } };
    assert_eq!(w.commit(), Weight { ref_time: 28_000_000 + 30 + 200, proof_size: 3_600 });
    assert_eq!(w.prune_commitment(), w.cancel_commitment());
    assert_eq!(BaseWeights.register(), Weight { ref_time: 95_000_000, proof_size: 8_000 });
    let huge = SubstrateWeight { db: DbWeight { read: u64::MAX, write: 0 } };
    assert_eq!(huge.emergency().ref_time, u64::MAX);
}
