//! The Orbis names registry: commit-reveal registration of hierarchical
//! names, their ownership, controllers, resolver records, reservations and
//! emergency administration.
//!
//! Every call takes the block number `now` at which it runs and, where the
//! call is dispatched from an origin, that origin. A call that fails leaves
//! the registry unchanged.
use crate::big_endian::{be_bytes, BigEndianU64};
use crate::labels::{is_dns_label_range, spec_is_dns_label};
use crate::table::{array32_to_vec, bytes_eq, extend_bytes, id16_eq, id_eq, lemma_id_view_eq, Table};
use crate::hashing::{blake2_256, spec_blake2_256};
use crate::scale::{encode_bytes, encode_u64, le_bytes, scale_bytes};
use vstd::prelude::*;

verus! {

broadcast use vstd::array::group_array_axioms;

/// Account identifier.
pub type AccountId = u64;

/// Block number.
pub type BlockNumber = u64;

/// Canonical name identifier: a 32-byte hash.
pub type NameId = [u8; 32];

/// Identifier of a content publication operation.
pub type OperationId = [u8; 16];

/// Version of the label policy: lowercase ASCII letters, digits and internal
/// hyphens.
pub const LABEL_POLICY_VERSION: u16 = 1;

/// Origin of a dispatched call.
#[derive(Clone, Copy, PartialEq, Eq, Debug, Structural)]
pub enum Origin {
    /// The root (administrator) origin.
    Root,
    /// A signed origin.
    Signed(AccountId),
    /// An unsigned origin.
    Unsigned,
}

/// Bounds and periods of the registry.
#[derive(Clone, Copy, PartialEq, Eq, Debug, Structural)]
pub struct NamesConfig {
    pub max_label_length: u32,
    pub max_salt_length: u32,
    pub max_address_length: u32,
    pub max_text_key_length: u32,
    pub max_text_value_length: u32,
    pub max_text_records: u32,
    pub max_controllers: u32,
    pub max_registrars: u32,
    pub max_bootstrap_reservations: u32,
    pub max_names_per_owner: u32,
    pub max_children_per_name: u32,
    pub max_root_names: u32,
    pub max_name_depth: u32,
    pub max_commitments_per_account: u32,
    /// Retained idempotency receipts per publisher; the oldest is evicted.
    pub max_content_operation_receipts: u32,
    pub min_commitment_age: BlockNumber,
    pub max_commitment_age: BlockNumber,
    pub registration_period: BlockNumber,
    pub max_renewal_period: BlockNumber,
}

/// A registered name.
#[derive(Clone, Debug)]
pub struct NameRecord {
    pub parent: Option<NameId>,
    pub label: Vec<u8>,
    pub owner: AccountId,
    pub expires_at: BlockNumber,
    pub depth: u32,
    pub address: Option<Vec<u8>>,
    pub subject: Option<[u8; 32]>,
    pub attestation: Option<[u8; 32]>,
    pub content: Option<[u8; 32]>,
}

/// The value of a [`NameRecord`], its byte strings as sequences.
pub struct NameRecordView {
    pub parent: Option<NameId>,
    pub label: Seq<u8>,
    pub owner: AccountId,
    pub expires_at: BlockNumber,
    pub depth: u32,
    pub address: Option<Seq<u8>>,
    pub subject: Option<[u8; 32]>,
    pub attestation: Option<[u8; 32]>,
    pub content: Option<[u8; 32]>,
}

impl View for NameRecord {
    type V = NameRecordView;

    open spec fn view(&self) -> NameRecordView {
        NameRecordView {
            parent: self.parent,
            label: self.label@,
            owner: self.owner,
            expires_at: self.expires_at,
            depth: self.depth,
            address: match self.address {
                Some(a) => Some(a@),
                None => None,
            },
            subject: self.subject,
            attestation: self.attestation,
            content: self.content,
        }
    }
}

/// A reservation of a name or a root label.
#[derive(Clone, Copy, PartialEq, Eq, Debug, Structural)]
pub struct Reservation {
    /// The only account that may register the name; `None` reserves it for
    /// administration only.
    pub beneficiary: Option<AccountId>,
    /// End of the reservation; `None` reserves indefinitely.
    pub expires_at: Option<BlockNumber>,
}

impl View for Reservation {
    type V = Reservation;

    open spec fn view(&self) -> Reservation {
        *self
    }
}

/// The receipt of a content publication, kept to answer a replay.
#[derive(Clone, Copy, Debug)]
pub struct ContentOperationReceipt {
    pub request_hash: [u8; 32],
    pub name: NameId,
    pub content: Option<[u8; 32]>,
    pub revision: u64,
}

impl View for ContentOperationReceipt {
    type V = ContentOperationReceipt;

    open spec fn view(&self) -> ContentOperationReceipt {
        *self
    }
}

/// Errors of the registry.
#[derive(Clone, Copy, PartialEq, Eq, Debug, Structural)]
pub enum NamesError {
    /// The origin is not the one the call needs.
    BadOrigin,
    Paused,
    InvalidLabel,
    InvalidCommitmentWindow,
    CommitmentExists,
    TooManyCommitments,
    CommitmentNotFound,
    CommitmentTooYoung,
    CommitmentTooOld,
    NameNotFound,
    NameTaken,
    NameExpired,
    NotOwner,
    NotAuthorized,
    ProtectedLabel,
    ReservedName,
    InvalidReservationExpiry,
    ParentNotFound,
    ParentExpired,
    MaximumDepth,
    TooManyRootNames,
    TooManyChildren,
    TooManyNames,
    TooManyControllers,
    ControllerExists,
    ControllerNotFound,
    InvalidRenewal,
    ChildrenRemain,
    EmptyRecord,
    InvalidSubjectReference,
    InvalidAttestationReference,
    InvalidContentReference,
    ContentRevisionConflict,
    OperationIdConflict,
    ContentOperationReceiptLimitDisabled,
    TooManyTextRecords,
    PrimaryNameInvalid,
    InvalidSalt,
    NotRegistrar,
    TooManyRegistrars,
    RegistrarNotFound,
}

/// Events of the registry.
#[derive(Clone, Debug)]
pub enum NamesEvent {
    CommitmentStored { owner: AccountId, commitment: [u8; 32], at: BlockNumber },
    CommitmentRemoved { owner: AccountId, commitment: [u8; 32] },
    NameRegistered {
        name: NameId,
        parent: Option<NameId>,
        label: Vec<u8>,
        owner: AccountId,
        expires_at: BlockNumber,
    },
    NameRenewed { name: NameId, expires_at: BlockNumber },
    NameTransferred { name: NameId, from: AccountId, to: AccountId },
    NameReleased { name: NameId, owner: AccountId },
    ExpiredNameRemoved { name: NameId },
    ControllerAdded { name: NameId, controller: AccountId },
    ControllerRemoved { name: NameId, controller: AccountId },
    AddressSet { name: NameId, present: bool },
    SubjectSet { name: NameId, present: bool },
    AttestationSet { name: NameId, present: bool },
    ContentSet {
        name: NameId,
        present: bool,
        revision: u64,
        operation_id: OperationId,
        replayed: bool,
    },
    ContentOperationReceiptPruned { owner: AccountId, operation_id: OperationId },
    TextSet { name: NameId, key: Vec<u8>, present: bool },
    PrimaryNameSet { owner: AccountId, name: Option<NameId> },
    NameReserved {
        name: NameId,
        beneficiary: Option<AccountId>,
        expires_at: Option<BlockNumber>,
    },
    ReservationCleared { name: NameId },
    LabelProtectionSet { label: Vec<u8>, protected: bool },
    PauseSet { paused: bool },
    EmergencyNameRevoked { name: NameId },
    RegistrarSet { registrar: AccountId, enabled: bool },
}

/// The value of a [`NamesEvent`], its byte strings as sequences.
pub enum NamesEventView {
    CommitmentStored { owner: AccountId, commitment: [u8; 32], at: BlockNumber },
    CommitmentRemoved { owner: AccountId, commitment: [u8; 32] },
    NameRegistered {
        name: NameId,
        parent: Option<NameId>,
        label: Seq<u8>,
        owner: AccountId,
        expires_at: BlockNumber,
    },
    NameRenewed { name: NameId, expires_at: BlockNumber },
    NameTransferred { name: NameId, from: AccountId, to: AccountId },
    NameReleased { name: NameId, owner: AccountId },
    ExpiredNameRemoved { name: NameId },
    ControllerAdded { name: NameId, controller: AccountId },
    ControllerRemoved { name: NameId, controller: AccountId },
    AddressSet { name: NameId, present: bool },
    SubjectSet { name: NameId, present: bool },
    AttestationSet { name: NameId, present: bool },
    ContentSet {
        name: NameId,
        present: bool,
        revision: u64,
        operation_id: OperationId,
        replayed: bool,
    },
    ContentOperationReceiptPruned { owner: AccountId, operation_id: OperationId },
    TextSet { name: NameId, key: Seq<u8>, present: bool },
    PrimaryNameSet { owner: AccountId, name: Option<NameId> },
    NameReserved {
        name: NameId,
        beneficiary: Option<AccountId>,
        expires_at: Option<BlockNumber>,
    },
    ReservationCleared { name: NameId },
    LabelProtectionSet { label: Seq<u8>, protected: bool },
    PauseSet { paused: bool },
    EmergencyNameRevoked { name: NameId },
    RegistrarSet { registrar: AccountId, enabled: bool },
}

impl View for NamesEvent {
    type V = NamesEventView;

    open spec fn view(&self) -> NamesEventView {
        match *self {
            NamesEvent::CommitmentStored { owner, commitment, at } => NamesEventView::CommitmentStored {
                owner,
                commitment,
                at,
            },
            NamesEvent::CommitmentRemoved { owner, commitment } => NamesEventView::CommitmentRemoved {
                owner,
                commitment,
            },
            NamesEvent::NameRegistered { name, parent, label, owner, expires_at } =>
                NamesEventView::NameRegistered { name, parent, label: label@, owner, expires_at },
            NamesEvent::NameRenewed { name, expires_at } => NamesEventView::NameRenewed {
                name,
                expires_at,
            },
            NamesEvent::NameTransferred { name, from, to } => NamesEventView::NameTransferred {
                name,
                from,
                to,
            },
            NamesEvent::NameReleased { name, owner } => NamesEventView::NameReleased { name, owner },
            NamesEvent::ExpiredNameRemoved { name } => NamesEventView::ExpiredNameRemoved { name },
            NamesEvent::ControllerAdded { name, controller } => NamesEventView::ControllerAdded {
                name,
                controller,
            },
            NamesEvent::ControllerRemoved { name, controller } => NamesEventView::ControllerRemoved {
                name,
                controller,
            },
            NamesEvent::AddressSet { name, present } => NamesEventView::AddressSet { name, present },
            NamesEvent::SubjectSet { name, present } => NamesEventView::SubjectSet { name, present },
            NamesEvent::AttestationSet { name, present } => NamesEventView::AttestationSet {
                name,
                present,
            },
            NamesEvent::ContentSet { name, present, revision, operation_id, replayed } =>
                NamesEventView::ContentSet { name, present, revision, operation_id, replayed },
            NamesEvent::ContentOperationReceiptPruned { owner, operation_id } =>
                NamesEventView::ContentOperationReceiptPruned { owner, operation_id },
            NamesEvent::TextSet { name, key, present } => NamesEventView::TextSet {
                name,
                key: key@,
                present,
            },
            NamesEvent::PrimaryNameSet { owner, name } => NamesEventView::PrimaryNameSet { owner, name },
            NamesEvent::NameReserved { name, beneficiary, expires_at } => NamesEventView::NameReserved {
                name,
                beneficiary,
                expires_at,
            },
            NamesEvent::ReservationCleared { name } => NamesEventView::ReservationCleared { name },
            NamesEvent::LabelProtectionSet { label, protected } => NamesEventView::LabelProtectionSet {
                label: label@,
                protected,
            },
            NamesEvent::PauseSet { paused } => NamesEventView::PauseSet { paused },
            NamesEvent::EmergencyNameRevoked { name } => NamesEventView::EmergencyNameRevoked { name },
            NamesEvent::RegistrarSet { registrar, enabled } => NamesEventView::RegistrarSet {
                registrar,
                enabled,
            },
        }
    }
}

/// The state of the registry as values.
pub struct NamesView {
    pub paused: bool,
    /// Commitment block per `pair_key(owner, commitment)`.
    pub commitments: Map<Seq<u8>, BlockNumber>,
    /// Number of stored commitments per `acct_key(owner)`; absent means 0.
    pub commitment_count: Map<Seq<u8>, u32>,
    /// Records per name identifier.
    pub names: Map<Seq<u8>, NameRecordView>,
    /// Content revision per name; absent means 0.
    pub content_revisions: Map<Seq<u8>, u64>,
    /// Receipts per `pair_key(publisher, operation_id)`.
    pub receipts: Map<Seq<u8>, ContentOperationReceipt>,
    /// Retained operation identifiers per `acct_key(publisher)`, oldest first.
    pub receipt_ids: Map<Seq<u8>, Seq<OperationId>>,
    /// Controllers per name; absent means none.
    pub controllers: Map<Seq<u8>, Seq<AccountId>>,
    pub registrars: Seq<AccountId>,
    /// Root-label reservations made at genesis, per label.
    pub bootstrap_reservations: Map<Seq<u8>, Reservation>,
    pub bootstrap_labels: Seq<Seq<u8>>,
    /// Names per `acct_key(owner)`; absent means none.
    pub owner_names: Map<Seq<u8>, Seq<NameId>>,
    pub root_names: Seq<NameId>,
    /// Children per name; absent means none.
    pub children: Map<Seq<u8>, Seq<NameId>>,
    /// Primary name per `acct_key(owner)`, as bytes.
    pub primary_name: Map<Seq<u8>, Seq<u8>>,
    /// Text values per `text_key(name, key)`.
    pub text_records: Map<Seq<u8>, Seq<u8>>,
    /// Text keys per name, in insertion order up to swap removals.
    pub text_keys: Map<Seq<u8>, Seq<Seq<u8>>>,
    /// Reservations per name.
    pub reservations: Map<Seq<u8>, Reservation>,
    /// Root labels closed to public registration.
    pub protected_labels: Set<Seq<u8>>,
}

/// The byte strings of a list of byte vectors.
pub open spec fn key_views(ks: Seq<Vec<u8>>) -> Seq<Seq<u8>> {
    ks.map_values(|k: Vec<u8>| k@)
}

/// The text-key table with its keys as byte strings.
pub open spec fn text_keys_view(m: Map<Seq<u8>, Seq<Vec<u8>>>) -> Map<Seq<u8>, Seq<Seq<u8>>> {
    Map::new(|k: Seq<u8>| m.contains_key(k), |k: Seq<u8>| key_views(m[k]))
}

/// Storage key of an account: its eight bytes, most significant first.
pub open spec fn acct_key(a: AccountId) -> Seq<u8> {
    be_bytes(a as nat, 8)
}

/// Storage key of a pair of an account and a byte string.
pub open spec fn pair_key(a: AccountId, b: Seq<u8>) -> Seq<u8> {
    acct_key(a) + b
}

/// Storage key of a text record: the name, then the key.
pub open spec fn text_key(name: NameId, key: Seq<u8>) -> Seq<u8> {
    name@ + key
}

fn acct_key_vec(a: AccountId) -> (r: Vec<u8>)
    ensures
        r@ == acct_key(a),
{
    BigEndianU64(a).encode()
}

fn pair_key_vec(a: AccountId, b: &[u8]) -> (r: Vec<u8>)
    ensures
        r@ == pair_key(a, b@),
{
    let mut k = acct_key_vec(a);
    extend_bytes(&mut k, b);
    k
}

fn text_key_vec(name: &NameId, key: &[u8]) -> (r: Vec<u8>)
    ensures
        r@ == text_key(*name, key@),
{
    let mut k = array32_to_vec(name);
    extend_bytes(&mut k, key);
    k
}

/// A label of policy version 1: non-empty, `[a-z0-9-]`, no edge hyphen.
pub open spec fn valid_label(label: Seq<u8>) -> bool {
    spec_is_dns_label(label)
}

/// The value stored under `k`, or the empty sequence.
pub open spec fn seq_or_empty<T>(m: Map<Seq<u8>, Seq<T>>, k: Seq<u8>) -> Seq<T> {
    if m.contains_key(k) {
        m[k]
    } else {
        Seq::empty()
    }
}

/// The number stored under `k`, or 0.
pub open spec fn u32_or_zero(m: Map<Seq<u8>, u32>, k: Seq<u8>) -> u32 {
    if m.contains_key(k) {
        m[k]
    } else {
        0
    }
}

/// The number stored under `k`, or 0.
pub open spec fn u64_or_zero(m: Map<Seq<u8>, u64>, k: Seq<u8>) -> u64 {
    if m.contains_key(k) {
        m[k]
    } else {
        0
    }
}

/// `a + b`, or `u64::MAX` when that overflows.
pub open spec fn sat_add(a: u64, b: u64) -> u64 {
    if a + b > u64::MAX {
        u64::MAX
    } else {
        (a + b) as u64
    }
}

/// The first index of `x` in `s`.
pub open spec fn first_index<T>(s: Seq<T>, x: T) -> int {
    choose|i: int| 0 <= i < s.len() && s[i] == x && forall|j: int| 0 <= j < i ==> s[j] != x
}

/// `s` with the element at `i` replaced by the last element, and shortened.
pub open spec fn swap_remove_at<T>(s: Seq<T>, i: int) -> Seq<T> {
    s.update(i, s.last()).drop_last()
}

/// `s` with its first `x` swap-removed, or `s` when it holds no `x`.
pub open spec fn remove_value<T>(s: Seq<T>, x: T) -> Seq<T> {
    if s.contains(x) {
        swap_remove_at(s, first_index(s, x))
    } else {
        s
    }
}

/// The position of the first `x` in `v`.
fn position_u64(v: &Vec<u64>, x: u64) -> (r: Option<usize>)
    ensures
        r matches Some(i) ==> i < v@.len() && v@[i as int] == x && v@.contains(x) && i == first_index(v@, x),
        r is None ==> !v@.contains(x),
{
    let mut i: usize = 0;
    while i < v.len()
        invariant
            i <= v@.len(),
            forall|j: int| 0 <= j < i ==> v@[j] != x,
        decreases v@.len() - i,
    {
        if v[i] == x {
            proof {
                let k = first_index(v@, x);
                assert(0 <= i < v@.len() && v@[i as int] == x && forall|j: int| 0 <= j < i ==> v@[j] != x);
                if k != i {
                    if k < i {
                    } else {
                        assert(v@[i as int] != x);
                    }
                }
            }
            return Some(i);
        }
        i += 1;
    }
    None
}

/// The position of the first `x` in `v`.
fn position_id(v: &Vec<NameId>, x: &NameId) -> (r: Option<usize>)
    ensures
        r matches Some(i) ==> i < v@.len() && v@[i as int] == *x && v@.contains(*x) && i == first_index(v@, *x),
        r is None ==> !v@.contains(*x),
{
    let mut i: usize = 0;
    while i < v.len()
        invariant
            i <= v@.len(),
            forall|j: int| 0 <= j < i ==> v@[j] != *x,
        decreases v@.len() - i,
    {
        if id_eq(&v[i], x) {
            proof {
                let k = first_index(v@, *x);
                assert(0 <= i < v@.len() && v@[i as int] == *x && forall|j: int| 0 <= j < i ==> v@[j] != *x);
                if k != i {
                    if k < i {
                    } else {
                        assert(v@[i as int] != *x);
                    }
                }
            }
            return Some(i);
        }
        i += 1;
    }
    None
}

/// Swap-removes the first `x` from `v`; tells whether there was one.
fn remove_u64_value(v: &mut Vec<u64>, x: u64) -> (found: bool)
    ensures
        final(v)@ == remove_value(old(v)@, x),
        found == old(v)@.contains(x),
{
    match position_u64(v, x) {
        Some(i) => {
            let _ = v.swap_remove(i);
            true
        },
        None => false,
    }
}

/// Swap-removes the first `x` from `v`, if any.
fn remove_index_value(v: &mut Vec<NameId>, x: &NameId)
    ensures
        final(v)@ == remove_value(old(v)@, *x),
{
    match position_id(v, x) {
        Some(i) => {
            let _ = v.swap_remove(i);
        },
        None => {},
    }
}

/// The registry.
pub struct NamesRegistry {
    config: NamesConfig,
    genesis_hash: [u8; 32],
    paused: bool,
    commitments: Table<u64>,
    commitment_count: Table<u32>,
    names: Table<NameRecord>,
    content_revisions: Table<u64>,
    receipts: Table<ContentOperationReceipt>,
    receipt_ids: Table<Vec<OperationId>>,
    controllers: Table<Vec<AccountId>>,
    registrars: Vec<AccountId>,
    bootstrap_reservations: Table<Reservation>,
    bootstrap_labels: Vec<Vec<u8>>,
    owner_names: Table<Vec<NameId>>,
    root_names: Vec<NameId>,
    children: Table<Vec<NameId>>,
    primary_name: Table<NameId>,
    text_records: Table<Vec<u8>>,
    text_keys: Table<Vec<Vec<u8>>>,
    reservations: Table<Reservation>,
    protected_labels: Table<u8>,
}

impl View for NamesRegistry {
    type V = NamesView;

    closed spec fn view(&self) -> NamesView {
        NamesView {
            paused: self.paused,
            commitments: self.commitments@,
            commitment_count: self.commitment_count@,
            names: self.names@,
            content_revisions: self.content_revisions@,
            receipts: self.receipts@,
            receipt_ids: self.receipt_ids@,
            controllers: self.controllers@,
            registrars: self.registrars@,
            bootstrap_reservations: self.bootstrap_reservations@,
            bootstrap_labels: key_views(self.bootstrap_labels@),
            owner_names: self.owner_names@,
            root_names: self.root_names@,
            children: self.children@,
            primary_name: self.primary_name@,
            text_records: self.text_records@,
            text_keys: text_keys_view(self.text_keys@),
            reservations: self.reservations@,
            protected_labels: self.protected_labels@.dom(),
        }
    }
}

/// The bytes `cord:orbis:names:name:v1` that open the preimage of a name
/// identifier.
pub open spec fn name_id_domain() -> Seq<u8> {
    seq![99u8, 111, 114, 100, 58, 111, 114, 98, 105, 115, 58, 110, 97, 109, 101, 115, 58, 110, 97, 109, 101, 58, 118, 49]
}

/// The bytes `cord:orbis:names:commitment:v1` that open the preimage of a
/// registration commitment.
pub open spec fn commitment_domain() -> Seq<u8> {
    seq![99u8, 111, 114, 100, 58, 111, 114, 98, 105, 115, 58, 110, 97, 109, 101, 115, 58, 99, 111, 109, 109, 105, 116, 109, 101, 110, 116, 58, 118, 49]
}

/// SCALE encoding of an optional name identifier: a tag byte, then the
/// identifier when present.
pub open spec fn enc_opt_id(p: Option<NameId>) -> Seq<u8> {
    match p {
        Some(h) => seq![1u8] + h@,
        None => seq![0u8],
    }
}

/// The identifier of the name `label` under `parent` (a root name when
/// `None`) in the chain whose genesis hash is `genesis`: the BLAKE2b-256
/// digest of the SCALE encoding of `(domain, genesis, parent, label)`.
pub open spec fn spec_name_id(genesis: [u8; 32], parent: Option<NameId>, label: Seq<u8>) -> NameId {
    spec_blake2_256(
        scale_bytes(name_id_domain()) + genesis@ + enc_opt_id(parent) + scale_bytes(label),
    )
}

/// The registration commitment of `owner` for the name with identifier
/// `name` and the salt `salt`: the BLAKE2b-256 digest of the SCALE encoding
/// of `(domain, genesis, owner, name, salt)`.
pub open spec fn spec_commitment(genesis: [u8; 32], owner: AccountId, name: NameId, salt: Seq<u8>) -> [u8; 32] {
    spec_blake2_256(
        scale_bytes(commitment_domain()) + genesis@ + le_bytes(owner as nat, 8) + name@
            + scale_bytes(salt),
    )
}

/// The views of a list of events.
pub open spec fn events_view(v: Seq<NamesEvent>) -> Seq<NamesEventView> {
    v.map_values(|e: NamesEvent| e@)
}

/// What a call returned agrees with its specified outcome: on success the new
/// state and the events, on failure the error and an unchanged state.
pub open spec fn outcome(
    r: Result<Vec<NamesEvent>, NamesError>,
    expected: Result<(NamesView, Seq<NamesEventView>), NamesError>,
    before: NamesView,
    after: NamesView,
) -> bool {
    match r {
        Ok(ev) => expected == Ok::<(NamesView, Seq<NamesEventView>), NamesError>((after, events_view(ev@))),
        Err(e) => expected == Err::<(NamesView, Seq<NamesEventView>), NamesError>(e) && after == before,
    }
}

/// The signer of a signed origin.
pub open spec fn signer(o: Origin) -> Option<AccountId> {
    match o {
        Origin::Signed(a) => Some(a),
        _ => None,
    }
}

/// The commitment count of `owner` after one removal: one less, floored at 0.
pub open spec fn decremented_count(s: NamesView, owner: AccountId) -> Map<Seq<u8>, u32> {
    let c = u32_or_zero(s.commitment_count, acct_key(owner));
    s.commitment_count.insert(acct_key(owner), if c == 0 { 0 } else { (c - 1) as u32 })
}

/// Outcome of [`NamesRegistry::commit`].
pub open spec fn commit_spec(s: NamesView, c: NamesConfig, origin: Origin, commitment: [u8; 32], now: BlockNumber) -> Result<(NamesView, Seq<NamesEventView>), NamesError> {
    match signer(origin) {
        None => Err(NamesError::BadOrigin),
        Some(owner) => {
            let k = pair_key(owner, commitment@);
            let count = u32_or_zero(s.commitment_count, acct_key(owner));
            if s.paused {
                Err(NamesError::Paused)
            } else if c.min_commitment_age > c.max_commitment_age {
                Err(NamesError::InvalidCommitmentWindow)
            } else if s.commitments.contains_key(k) && now <= sat_add(s.commitments[k], c.max_commitment_age) {
                Err(NamesError::CommitmentExists)
            } else if !s.commitments.contains_key(k) && count >= c.max_commitments_per_account {
                Err(NamesError::TooManyCommitments)
            } else {
                let counts = if s.commitments.contains_key(k) {
                    s.commitment_count
                } else {
                    s.commitment_count.insert(acct_key(owner), (count + 1) as u32)
                };
                Ok((
                    NamesView { commitments: s.commitments.insert(k, now), commitment_count: counts, ..s },
                    seq![NamesEventView::CommitmentStored { owner, commitment, at: now }],
                ))
            }
        },
    }
}

/// Outcome of [`NamesRegistry::cancel_commitment`].
pub open spec fn cancel_commitment_spec(s: NamesView, origin: Origin, commitment: [u8; 32]) -> Result<(NamesView, Seq<NamesEventView>), NamesError> {
    match signer(origin) {
        None => Err(NamesError::BadOrigin),
        Some(owner) => {
            let k = pair_key(owner, commitment@);
            if !s.commitments.contains_key(k) {
                Err(NamesError::CommitmentNotFound)
            } else {
                Ok((
                    NamesView {
                        commitments: s.commitments.remove(k),
                        commitment_count: decremented_count(s, owner),
                        ..s
                    },
                    seq![NamesEventView::CommitmentRemoved { owner, commitment }],
                ))
            }
        },
    }
}

/// Outcome of [`NamesRegistry::prune_expired_commitment`].
pub open spec fn prune_expired_commitment_spec(s: NamesView, c: NamesConfig, origin: Origin, owner: AccountId, commitment: [u8; 32], now: BlockNumber) -> Result<(NamesView, Seq<NamesEventView>), NamesError> {
    let k = pair_key(owner, commitment@);
    if signer(origin) is None {
        Err(NamesError::BadOrigin)
    } else if !s.commitments.contains_key(k) {
        Err(NamesError::CommitmentNotFound)
    } else if now <= sat_add(s.commitments[k], c.max_commitment_age) {
        Err(NamesError::CommitmentTooYoung)
    } else {
        Ok((
            NamesView {
                commitments: s.commitments.remove(k),
                commitment_count: decremented_count(s, owner),
                ..s
            },
            seq![NamesEventView::CommitmentRemoved { owner, commitment }],
        ))
    }
}

impl NamesRegistry {
    /// The tables are well formed.
    pub closed spec fn wf(&self) -> bool {
        &&& self.commitments.wf()
        &&& self.commitment_count.wf()
        &&& self.names.wf()
        &&& self.content_revisions.wf()
        &&& self.receipts.wf()
        &&& self.receipt_ids.wf()
        &&& self.controllers.wf()
        &&& self.bootstrap_reservations.wf()
        &&& self.owner_names.wf()
        &&& self.children.wf()
        &&& self.primary_name.wf()
        &&& self.text_records.wf()
        &&& self.text_keys.wf()
        &&& self.reservations.wf()
        &&& self.protected_labels.wf()
    }

    /// The bounds and periods of the registry.
    pub closed spec fn config(&self) -> NamesConfig {
        self.config
    }

    /// The genesis hash that name identifiers are bound to.
    pub closed spec fn genesis(&self) -> [u8; 32] {
        self.genesis_hash
    }

    /// The current label policy version.
    pub fn label_policy_version() -> (r: u16)
        ensures
            r == LABEL_POLICY_VERSION,
    {
        LABEL_POLICY_VERSION
    }

    /// The identifier of the name `label` under `parent`.
    pub fn derive_name_id(&self, parent: Option<NameId>, label: &[u8]) -> (r: NameId)
        requires
            label@.len() <= u32::MAX,
        ensures
            r == spec_name_id(self.genesis(), parent, label@),
    {
        let domain: Vec<u8> = vec![99u8, 111, 114, 100, 58, 111, 114, 98, 105, 115, 58, 110, 97, 109, 101, 115, 58, 110, 97, 109, 101, 58, 118, 49];
        let mut pre = encode_bytes(domain.as_slice());
        extend_bytes(&mut pre, &self.genesis_hash);
        match parent {
            Some(h) => {
                pre.push(1u8);
                extend_bytes(&mut pre, &h);
            },
            None => {
                pre.push(0u8);
            },
        }
        let lab = encode_bytes(label);
        extend_bytes(&mut pre, lab.as_slice());
        proof {
            assert(domain@ =~= name_id_domain());
            let g = self.genesis_hash@;
            match parent {
                Some(h) => {
                    assert(pre@ =~= scale_bytes(name_id_domain()) + g + enc_opt_id(parent) + scale_bytes(label@));
                },
                None => {
                    assert(pre@ =~= scale_bytes(name_id_domain()) + g + enc_opt_id(parent) + scale_bytes(label@));
                },
            }
        }
        blake2_256(pre.as_slice())
    }

    /// The commitment that `owner` stores before registering `label` under
    /// `parent` with `salt`.
    pub fn registration_commitment(&self, owner: AccountId, parent: Option<NameId>, label: &[u8], salt: &[u8]) -> (r: [u8; 32])
        requires
            label@.len() <= u32::MAX,
            salt@.len() <= u32::MAX,
        ensures
            r == spec_commitment(self.genesis(), owner, spec_name_id(self.genesis(), parent, label@), salt@),
    {
        let name = self.derive_name_id(parent, label);
        let domain: Vec<u8> = vec![99u8, 111, 114, 100, 58, 111, 114, 98, 105, 115, 58, 110, 97, 109, 101, 115, 58, 99, 111, 109, 109, 105, 116, 109, 101, 110, 116, 58, 118, 49];
        let mut pre = encode_bytes(domain.as_slice());
        extend_bytes(&mut pre, &self.genesis_hash);
        let o = encode_u64(owner);
        extend_bytes(&mut pre, o.as_slice());
        extend_bytes(&mut pre, &name);
        let sl = encode_bytes(salt);
        extend_bytes(&mut pre, sl.as_slice());
        proof {
            assert(domain@ =~= commitment_domain());
        }
        blake2_256(pre.as_slice())
    }

    /// Stores a registration commitment of the signer, at block `now`. A
    /// commitment may be stored again only once it has expired.
    #[verifier::spinoff_prover]
    pub fn commit(&mut self, origin: Origin, commitment: [u8; 32], now: BlockNumber) -> (r: Result<Vec<NamesEvent>, NamesError>)
        requires
            old(self).wf(),
        ensures
            final(self).wf(),
            final(self).config() == old(self).config(),
            final(self).genesis() == old(self).genesis(),
            outcome(r, commit_spec(old(self)@, old(self).config(), origin, commitment, now), old(self)@, final(self)@),
    {
        let owner = match origin {
            Origin::Signed(a) => a,
            _ => return Err(NamesError::BadOrigin),
        };
        if self.paused {
            return Err(NamesError::Paused);
        }
        if self.config.min_commitment_age > self.config.max_commitment_age {
            return Err(NamesError::InvalidCommitmentWindow);
        }
        let k = pair_key_vec(owner, &commitment);
        let ak = acct_key_vec(owner);
        match self.commitments.get(k.as_slice()) {
            Some(created_at) => {
                if now <= created_at.saturating_add(self.config.max_commitment_age) {
                    return Err(NamesError::CommitmentExists);
                }
            },
            None => {
                let count = match self.commitment_count.get(ak.as_slice()) {
                    Some(c) => *c,
                    None => 0,
                };
                if count >= self.config.max_commitments_per_account {
                    return Err(NamesError::TooManyCommitments);
                }
                self.commitment_count.insert(ak, count + 1);
            },
        }
        self.commitments.insert(k, now);
        let ev = vec![NamesEvent::CommitmentStored { owner, commitment, at: now }];
        proof {
            assert(events_view(ev@) =~= seq![NamesEventView::CommitmentStored { owner, commitment, at: now }]);
        }
        Ok(ev)
    }

    fn decrement_commitments(&mut self, owner: AccountId)
        requires
            old(self).wf(),
        ensures
            final(self).wf(),
            final(self).config() == old(self).config(),
            final(self).genesis() == old(self).genesis(),
            final(self)@ == (NamesView { commitment_count: decremented_count(old(self)@, owner), ..old(self)@ }),
    {
        let ak = acct_key_vec(owner);
        let count = match self.commitment_count.get(ak.as_slice()) {
            Some(c) => *c,
            None => 0,
        };
        self.commitment_count.insert(ak, count.saturating_sub(1));
    }

    /// Removes a commitment of the signer.
    #[verifier::spinoff_prover]
    pub fn cancel_commitment(&mut self, origin: Origin, commitment: [u8; 32]) -> (r: Result<Vec<NamesEvent>, NamesError>)
        requires
            old(self).wf(),
        ensures
            final(self).wf(),
            final(self).config() == old(self).config(),
            final(self).genesis() == old(self).genesis(),
            outcome(r, cancel_commitment_spec(old(self)@, origin, commitment), old(self)@, final(self)@),
    {
        let owner = match origin {
            Origin::Signed(a) => a,
            _ => return Err(NamesError::BadOrigin),
        };
        let k = pair_key_vec(owner, &commitment);
        match self.commitments.remove(k.as_slice()) {
            None => {
                assert(self.commitments@ =~= old(self).commitments@);
                return Err(NamesError::CommitmentNotFound);
            },
            Some(_) => {},
        }
        self.decrement_commitments(owner);
        let ev = vec![NamesEvent::CommitmentRemoved { owner, commitment }];
        proof {
            assert(events_view(ev@) =~= seq![NamesEventView::CommitmentRemoved { owner, commitment }]);
        }
        Ok(ev)
    }

    /// Removes an expired commitment of `owner`; any signer may do so.
    #[verifier::spinoff_prover]
    pub fn prune_expired_commitment(&mut self, origin: Origin, owner: AccountId, commitment: [u8; 32], now: BlockNumber) -> (r: Result<Vec<NamesEvent>, NamesError>)
        requires
            old(self).wf(),
        ensures
            final(self).wf(),
            final(self).config() == old(self).config(),
            final(self).genesis() == old(self).genesis(),
            outcome(r, prune_expired_commitment_spec(old(self)@, old(self).config(), origin, owner, commitment, now), old(self)@, final(self)@),
    {
        match origin {
            Origin::Signed(_) => {},
            _ => return Err(NamesError::BadOrigin),
        }
        let k = pair_key_vec(owner, &commitment);
        let created_at = match self.commitments.get(k.as_slice()) {
            Some(c) => *c,
            None => return Err(NamesError::CommitmentNotFound),
        };
        if now <= created_at.saturating_add(self.config.max_commitment_age) {
            return Err(NamesError::CommitmentTooYoung);
        }
        let _ = self.commitments.remove(k.as_slice());
        self.decrement_commitments(owner);
        let ev = vec![NamesEvent::CommitmentRemoved { owner, commitment }];
        proof {
            assert(events_view(ev@) =~= seq![NamesEventView::CommitmentRemoved { owner, commitment }]);
        }
        Ok(ev)
    }
}

/// Whether a record is active at block `now`.
pub open spec fn active(r: NameRecordView, now: BlockNumber) -> bool {
    now < r.expires_at
}

/// The controllers of `name`.
pub open spec fn controllers_of(s: NamesView, name: NameId) -> Seq<AccountId> {
    seq_or_empty(s.controllers, name@)
}

/// Whether `who` may write the records of the stored name `name` at `now`:
/// the name is active and `who` owns or controls it.
pub open spec fn authorization(s: NamesView, who: AccountId, name: NameId, now: BlockNumber) -> Result<(), NamesError> {
    if !s.names.contains_key(name@) {
        Err(NamesError::NameNotFound)
    } else if now >= s.names[name@].expires_at {
        Err(NamesError::NameExpired)
    } else if s.names[name@].owner != who && !controllers_of(s, name).contains(who) {
        Err(NamesError::NotAuthorized)
    } else {
        Ok(())
    }
}

/// Whether `who` owns the stored name `name` and it is active at `now`.
pub open spec fn ownership(s: NamesView, who: AccountId, name: NameId, now: BlockNumber) -> Result<(), NamesError> {
    if !s.names.contains_key(name@) {
        Err(NamesError::NameNotFound)
    } else if s.names[name@].owner != who {
        Err(NamesError::NotOwner)
    } else if now >= s.names[name@].expires_at {
        Err(NamesError::NameExpired)
    } else {
        Ok(())
    }
}

/// Whether the origin is the administrator or a registrar.
pub open spec fn registrar_or_admin(s: NamesView, origin: Origin) -> Result<(), NamesError> {
    match origin {
        Origin::Root => Ok(()),
        Origin::Signed(w) => if s.registrars.contains(w) {
            Ok(())
        } else {
            Err(NamesError::NotRegistrar)
        },
        Origin::Unsigned => Err(NamesError::BadOrigin),
    }
}

/// `s` with the record of `name` replaced by `r`.
pub open spec fn with_record(s: NamesView, name: NameId, r: NameRecordView) -> NamesView {
    NamesView { names: s.names.insert(name@, r), ..s }
}

/// Outcome of [`NamesRegistry::set_paused`].
pub open spec fn set_paused_spec(s: NamesView, origin: Origin, paused: bool) -> Result<(NamesView, Seq<NamesEventView>), NamesError> {
    if origin != Origin::Root {
        Err(NamesError::BadOrigin)
    } else {
        Ok((NamesView { paused, ..s }, seq![NamesEventView::PauseSet { paused }]))
    }
}

/// Outcome of [`NamesRegistry::set_registrar`].
pub open spec fn set_registrar_spec(s: NamesView, c: NamesConfig, origin: Origin, registrar: AccountId, enabled: bool) -> Result<(NamesView, Seq<NamesEventView>), NamesError> {
    let present = s.registrars.contains(registrar);
    if origin != Origin::Root {
        Err(NamesError::BadOrigin)
    } else if !present && enabled {
        if s.registrars.len() >= c.max_registrars {
            Err(NamesError::TooManyRegistrars)
        } else {
            Ok((
                NamesView { registrars: s.registrars.push(registrar), ..s },
                seq![NamesEventView::RegistrarSet { registrar, enabled }],
            ))
        }
    } else if present && !enabled {
        Ok((
            NamesView { registrars: remove_value(s.registrars, registrar), ..s },
            seq![NamesEventView::RegistrarSet { registrar, enabled }],
        ))
    } else if present && enabled {
        Ok((s, Seq::empty()))
    } else {
        Err(NamesError::RegistrarNotFound)
    }
}

/// Outcome of [`NamesRegistry::clear_reservation`].
pub open spec fn clear_reservation_spec(s: NamesView, origin: Origin, name: NameId) -> Result<(NamesView, Seq<NamesEventView>), NamesError> {
    match registrar_or_admin(s, origin) {
        Err(e) => Err(e),
        Ok(_) => Ok((
            NamesView { reservations: s.reservations.remove(name@), ..s },
            seq![NamesEventView::ReservationCleared { name }],
        )),
    }
}

/// Outcome of [`NamesRegistry::set_label_protection`].
pub open spec fn set_label_protection_spec(s: NamesView, origin: Origin, label: Seq<u8>, protected: bool) -> Result<(NamesView, Seq<NamesEventView>), NamesError> {
    match registrar_or_admin(s, origin) {
        Err(e) => Err(e),
        Ok(_) => if !valid_label(label) {
            Err(NamesError::InvalidLabel)
        } else {
            Ok((
                NamesView {
                    protected_labels: if protected {
                        s.protected_labels.insert(label)
                    } else {
                        s.protected_labels.remove(label)
                    },
                    ..s
                },
                seq![NamesEventView::LabelProtectionSet { label, protected }],
            ))
        },
    }
}

/// Outcome of [`NamesRegistry::reserve_name`].
pub open spec fn reserve_name_spec(s: NamesView, genesis: [u8; 32], origin: Origin, parent: Option<NameId>, label: Seq<u8>, beneficiary: Option<AccountId>, expires_at: Option<BlockNumber>, now: BlockNumber) -> Result<(NamesView, Seq<NamesEventView>), NamesError> {
    let name = spec_name_id(genesis, parent, label);
    match registrar_or_admin(s, origin) {
        Err(e) => Err(e),
        Ok(_) => if !valid_label(label) {
            Err(NamesError::InvalidLabel)
        } else if expires_at matches Some(e) && e <= now {
            Err(NamesError::InvalidReservationExpiry)
        } else if parent matches Some(p) && !s.names.contains_key(p@) {
            Err(NamesError::ParentNotFound)
        } else if s.names.contains_key(name@) && active(s.names[name@], now) {
            Err(NamesError::NameTaken)
        } else {
            Ok((
                NamesView {
                    reservations: s.reservations.insert(name@, Reservation { beneficiary, expires_at }),
                    ..s
                },
                seq![NamesEventView::NameReserved { name, beneficiary, expires_at }],
            ))
        },
    }
}

/// Outcome of [`NamesRegistry::add_controller`].
pub open spec fn add_controller_spec(s: NamesView, c: NamesConfig, origin: Origin, name: NameId, controller: AccountId, now: BlockNumber) -> Result<(NamesView, Seq<NamesEventView>), NamesError> {
    match signer(origin) {
        None => Err(NamesError::BadOrigin),
        Some(owner) => if s.paused {
            Err(NamesError::Paused)
        } else {
            match ownership(s, owner, name, now) {
                Err(e) => Err(e),
                Ok(_) => {
                    let cs = controllers_of(s, name);
                    if cs.contains(controller) {
                        Err(NamesError::ControllerExists)
                    } else if cs.len() >= c.max_controllers {
                        Err(NamesError::TooManyControllers)
                    } else {
                        Ok((
                            NamesView { controllers: s.controllers.insert(name@, cs.push(controller)), ..s },
                            seq![NamesEventView::ControllerAdded { name, controller }],
                        ))
                    }
                },
            }
        },
    }
}

/// Outcome of [`NamesRegistry::remove_controller`].
pub open spec fn remove_controller_spec(s: NamesView, origin: Origin, name: NameId, controller: AccountId, now: BlockNumber) -> Result<(NamesView, Seq<NamesEventView>), NamesError> {
    match signer(origin) {
        None => Err(NamesError::BadOrigin),
        Some(owner) => if s.paused {
            Err(NamesError::Paused)
        } else {
            match ownership(s, owner, name, now) {
                Err(e) => Err(e),
                Ok(_) => {
                    let cs = controllers_of(s, name);
                    if !cs.contains(controller) {
                        Err(NamesError::ControllerNotFound)
                    } else {
                        Ok((
                            NamesView {
                                controllers: s.controllers.insert(name@, remove_value(cs, controller)),
                                ..s
                            },
                            seq![NamesEventView::ControllerRemoved { name, controller }],
                        ))
                    }
                },
            }
        },
    }
}

/// Outcome of [`NamesRegistry::set_address`].
pub open spec fn set_address_spec(s: NamesView, origin: Origin, name: NameId, address: Option<Seq<u8>>, now: BlockNumber) -> Result<(NamesView, Seq<NamesEventView>), NamesError> {
    match signer(origin) {
        None => Err(NamesError::BadOrigin),
        Some(who) => if s.paused {
            Err(NamesError::Paused)
        } else if address matches Some(a) && a.len() == 0 {
            Err(NamesError::EmptyRecord)
        } else {
            match authorization(s, who, name, now) {
                Err(e) => Err(e),
                Ok(_) => Ok((
                    with_record(s, name, NameRecordView { address, ..s.names[name@] }),
                    seq![NamesEventView::AddressSet { name, present: address is Some }],
                )),
            }
        },
    }
}

/// Outcome of [`NamesRegistry::set_subject`]: `subject_known` is the answer
/// of the identity domain on whether the subject exists.
pub open spec fn set_subject_spec(s: NamesView, origin: Origin, name: NameId, subject: Option<[u8; 32]>, subject_known: bool, now: BlockNumber) -> Result<(NamesView, Seq<NamesEventView>), NamesError> {
    match signer(origin) {
        None => Err(NamesError::BadOrigin),
        Some(who) => if s.paused {
            Err(NamesError::Paused)
        } else if subject is Some && !subject_known {
            Err(NamesError::InvalidSubjectReference)
        } else {
            match authorization(s, who, name, now) {
                Err(e) => Err(e),
                Ok(_) => Ok((
                    with_record(s, name, NameRecordView { subject, ..s.names[name@] }),
                    seq![NamesEventView::SubjectSet { name, present: subject is Some }],
                )),
            }
        },
    }
}

/// Outcome of [`NamesRegistry::set_attestation`]: `attestation_live` is the
/// answer of the attestation domain on whether the attestation is live.
pub open spec fn set_attestation_spec(s: NamesView, origin: Origin, name: NameId, attestation: Option<[u8; 32]>, attestation_live: bool, now: BlockNumber) -> Result<(NamesView, Seq<NamesEventView>), NamesError> {
    match signer(origin) {
        None => Err(NamesError::BadOrigin),
        Some(who) => if s.paused {
            Err(NamesError::Paused)
        } else if attestation is Some && !attestation_live {
            Err(NamesError::InvalidAttestationReference)
        } else {
            match authorization(s, who, name, now) {
                Err(e) => Err(e),
                Ok(_) => Ok((
                    with_record(s, name, NameRecordView { attestation, ..s.names[name@] }),
                    seq![NamesEventView::AttestationSet { name, present: attestation is Some }],
                )),
            }
        },
    }
}

/// Outcome of [`NamesRegistry::set_primary_name`].
pub open spec fn set_primary_name_spec(s: NamesView, origin: Origin, name: Option<NameId>, now: BlockNumber) -> Result<(NamesView, Seq<NamesEventView>), NamesError> {
    match signer(origin) {
        None => Err(NamesError::BadOrigin),
        Some(owner) => if s.paused {
            Err(NamesError::Paused)
        } else {
            match name {
                Some(n) => if !s.names.contains_key(n@) {
                    Err(NamesError::NameNotFound)
                } else if s.names[n@].owner != owner || !active(s.names[n@], now) {
                    Err(NamesError::PrimaryNameInvalid)
                } else {
                    Ok((
                        NamesView { primary_name: s.primary_name.insert(acct_key(owner), n@), ..s },
                        seq![NamesEventView::PrimaryNameSet { owner, name }],
                    ))
                },
                None => Ok((
                    NamesView { primary_name: s.primary_name.remove(acct_key(owner)), ..s },
                    seq![NamesEventView::PrimaryNameSet { owner, name }],
                )),
            }
        },
    }
}

impl NamesRegistry {
    fn ensure_registrar_or_admin(&self, origin: Origin) -> (r: Result<(), NamesError>)
        ensures
            r == registrar_or_admin(self@, origin),
    {
        match origin {
            Origin::Root => Ok(()),
            Origin::Signed(w) => {
                if position_u64(&self.registrars, w).is_some() {
                    Ok(())
                } else {
                    Err(NamesError::NotRegistrar)
                }
            },
            Origin::Unsigned => Err(NamesError::BadOrigin),
        }
    }

    /// Checks a label against the label policy: non-empty, `[a-z0-9-]` only,
    /// no leading or trailing hyphen. Rejects rather than rewrites.
    pub fn ensure_valid_label(label: &[u8]) -> (r: Result<(), NamesError>)
        ensures
            r is Ok <==> valid_label(label@),
            r matches Err(e) ==> e == NamesError::InvalidLabel,
    {
        if is_dns_label_range(label, 0, label.len()) {
            proof {
                assert(label@.subrange(0, label@.len() as int) =~= label@);
            }
            Ok(())
        } else {
            proof {
                assert(label@.subrange(0, label@.len() as int) =~= label@);
            }
            Err(NamesError::InvalidLabel)
        }
    }

    /// Turns raw bytes into a label: fails with `InvalidLabel` when they are
    /// longer than the label bound or break the label policy.
    pub fn validate_label(&self, raw: Vec<u8>) -> (r: Result<Vec<u8>, NamesError>)
        ensures
            r is Ok <==> (raw@.len() <= self.config().max_label_length && valid_label(raw@)),
            r matches Ok(l) ==> l@ == raw@,
            r matches Err(e) ==> e == NamesError::InvalidLabel,
    {
        if raw.len() > self.config.max_label_length as usize {
            return Err(NamesError::InvalidLabel);
        }
        match Self::ensure_valid_label(raw.as_slice()) {
            Ok(()) => Ok(raw),
            Err(e) => Err(e),
        }
    }

    /// Whether `name` is registered and active at `now`.
    pub fn is_name_active(&self, name: &NameId, now: BlockNumber) -> (r: bool)
        requires
            self.wf(),
        ensures
            r == (self@.names.contains_key(name@) && active(self@.names[name@], now)),
    {
        match self.names.get(name) {
            Some(rec) => now < rec.expires_at,
            None => false,
        }
    }

    /// The primary name of `owner`, if it is still active at `now` and owned
    /// by `owner`.
    pub fn primary_name(&self, owner: AccountId, now: BlockNumber) -> (r: Option<NameId>)
        requires
            self.wf(),
        ensures
            r matches Some(n) ==> self@.primary_name.contains_key(acct_key(owner))
                && self@.primary_name[acct_key(owner)] == n@ && self@.names.contains_key(n@)
                && self@.names[n@].owner == owner && active(self@.names[n@], now),
            r is None ==> !(self@.primary_name.contains_key(acct_key(owner)) && self@.names.contains_key(
                self@.primary_name[acct_key(owner)],
            ) && self@.names[self@.primary_name[acct_key(owner)]].owner == owner && active(
                self@.names[self@.primary_name[acct_key(owner)]],
                now,
            )),
    {
        let ak = acct_key_vec(owner);
        let name = match self.primary_name.get(ak.as_slice()) {
            Some(n) => *n,
            None => return None,
        };
        match self.names.get(&name) {
            Some(rec) => {
                if rec.owner == owner && now < rec.expires_at {
                    Some(name)
                } else {
                    None
                }
            },
            None => None,
        }
    }

    /// Sets whether the registry is paused; administrator only.
    #[verifier::spinoff_prover]
    pub fn set_paused(&mut self, origin: Origin, paused: bool) -> (r: Result<Vec<NamesEvent>, NamesError>)
        requires
            old(self).wf(),
        ensures
            final(self).wf(),
            final(self).config() == old(self).config(),
            final(self).genesis() == old(self).genesis(),
            outcome(r, set_paused_spec(old(self)@, origin, paused), old(self)@, final(self)@),
    {
        match origin {
            Origin::Root => {},
            _ => return Err(NamesError::BadOrigin),
        }
        self.paused = paused;
        let ev = vec![NamesEvent::PauseSet { paused }];
        proof {
            assert(events_view(ev@) =~= seq![NamesEventView::PauseSet { paused }]);
        }
        Ok(ev)
    }

    /// Enables or disables a registrar; administrator only. Enabling an
    /// enabled registrar changes nothing and emits nothing.
    #[verifier::spinoff_prover]
    pub fn set_registrar(&mut self, origin: Origin, registrar: AccountId, enabled: bool) -> (r: Result<Vec<NamesEvent>, NamesError>)
        requires
            old(self).wf(),
        ensures
            final(self).wf(),
            final(self).config() == old(self).config(),
            final(self).genesis() == old(self).genesis(),
            outcome(r, set_registrar_spec(old(self)@, old(self).config(), origin, registrar, enabled), old(self)@, final(self)@),
    {
        match origin {
            Origin::Root => {},
            _ => return Err(NamesError::BadOrigin),
        }
        match (position_u64(&self.registrars, registrar), enabled) {
            (None, true) => {
                if self.registrars.len() >= self.config.max_registrars as usize {
                    return Err(NamesError::TooManyRegistrars);
                }
                self.registrars.push(registrar);
            },
            (Some(i), false) => {
                let _ = self.registrars.swap_remove(i);
            },
            (Some(_), true) => {
                let ev: Vec<NamesEvent> = Vec::new();
                proof {
                    assert(events_view(ev@) =~= Seq::<NamesEventView>::empty());
                }
                return Ok(ev);
            },
            (None, false) => return Err(NamesError::RegistrarNotFound),
        }
        let ev = vec![NamesEvent::RegistrarSet { registrar, enabled }];
        proof {
            assert(events_view(ev@) =~= seq![NamesEventView::RegistrarSet { registrar, enabled }]);
        }
        Ok(ev)
    }

    /// Clears the reservation of a name; registrars and the administrator.
    #[verifier::spinoff_prover]
    pub fn clear_reservation(&mut self, origin: Origin, name: NameId) -> (r: Result<Vec<NamesEvent>, NamesError>)
        requires
            old(self).wf(),
        ensures
            final(self).wf(),
            final(self).config() == old(self).config(),
            final(self).genesis() == old(self).genesis(),
            outcome(r, clear_reservation_spec(old(self)@, origin, name), old(self)@, final(self)@),
    {
        self.ensure_registrar_or_admin(origin)?;
        let _ = self.reservations.remove(&name);
        let ev = vec![NamesEvent::ReservationCleared { name }];
        proof {
            assert(events_view(ev@) =~= seq![NamesEventView::ReservationCleared { name }]);
        }
        Ok(ev)
    }

    /// Closes (or reopens) a root label to public registration; registrars
    /// and the administrator.
    #[verifier::spinoff_prover]
    pub fn set_label_protection(&mut self, origin: Origin, label: Vec<u8>, protected: bool) -> (r: Result<Vec<NamesEvent>, NamesError>)
        requires
            old(self).wf(),
        ensures
            final(self).wf(),
            final(self).config() == old(self).config(),
            final(self).genesis() == old(self).genesis(),
            outcome(r, set_label_protection_spec(old(self)@, origin, label@, protected), old(self)@, final(self)@),
    {
        self.ensure_registrar_or_admin(origin)?;
        Self::ensure_valid_label(label.as_slice())?;
        let ghost l = label@;
        let k = label.clone();
        proof {
            assert(k@ =~= l);
        }
        if protected {
            self.protected_labels.insert(k, 0u8);
        } else {
            let _ = self.protected_labels.remove(k.as_slice());
        }
        let ev = vec![NamesEvent::LabelProtectionSet { label, protected }];
        proof {
            assert(events_view(ev@) =~= seq![NamesEventView::LabelProtectionSet { label: l, protected }]);
            assert(self.protected_labels@.dom() =~= if protected {
                old(self).protected_labels@.dom().insert(l)
            } else {
                old(self).protected_labels@.dom().remove(l)
            });
        }
        Ok(ev)
    }

    /// Reserves a name, for `beneficiary` or (when `None`) for administration,
    /// until `expires_at` or indefinitely; registrars and the administrator.
    /// An active registered name cannot be reserved.
    #[verifier::spinoff_prover]
    pub fn reserve_name(&mut self, origin: Origin, parent: Option<NameId>, label: Vec<u8>, beneficiary: Option<AccountId>, expires_at: Option<BlockNumber>, now: BlockNumber) -> (r: Result<Vec<NamesEvent>, NamesError>)
        requires
            old(self).wf(),
            label@.len() <= u32::MAX,
        ensures
            final(self).wf(),
            final(self).config() == old(self).config(),
            final(self).genesis() == old(self).genesis(),
            outcome(r, reserve_name_spec(old(self)@, old(self).genesis(), origin, parent, label@, beneficiary, expires_at, now), old(self)@, final(self)@),
    {
        self.ensure_registrar_or_admin(origin)?;
        Self::ensure_valid_label(label.as_slice())?;
        match expires_at {
            Some(e) => {
                if e <= now {
                    return Err(NamesError::InvalidReservationExpiry);
                }
            },
            None => {},
        }
        match parent {
            Some(p) => {
                if !self.names.contains_key(&p) {
                    return Err(NamesError::ParentNotFound);
                }
            },
            None => {},
        }
        let name = self.derive_name_id(parent, label.as_slice());
        match self.names.get(&name) {
            Some(rec) => {
                if now < rec.expires_at {
                    return Err(NamesError::NameTaken);
                }
            },
            None => {},
        }
        let k = array32_to_vec(&name);
        self.reservations.insert(k, Reservation { beneficiary, expires_at });
        let ev = vec![NamesEvent::NameReserved { name, beneficiary, expires_at }];
        proof {
            assert(events_view(ev@) =~= seq![NamesEventView::NameReserved { name, beneficiary, expires_at }]);
        }
        Ok(ev)
    }

    /// Adds a controller to an active name of the signer.
    #[verifier::spinoff_prover]
    pub fn add_controller(&mut self, origin: Origin, name: NameId, controller: AccountId, now: BlockNumber) -> (r: Result<Vec<NamesEvent>, NamesError>)
        requires
            old(self).wf(),
        ensures
            final(self).wf(),
            final(self).config() == old(self).config(),
            final(self).genesis() == old(self).genesis(),
            outcome(r, add_controller_spec(old(self)@, old(self).config(), origin, name, controller, now), old(self)@, final(self)@),
    {
        let owner = match origin {
            Origin::Signed(a) => a,
            _ => return Err(NamesError::BadOrigin),
        };
        if self.paused {
            return Err(NamesError::Paused);
        }
        self.ensure_owner_active(owner, &name, now)?;
        let mut cs = match self.controllers.get(&name) {
            Some(v) => v.clone(),
            None => Vec::new(),
        };
        proof {
            assert(cs@ =~= controllers_of(old(self)@, name));
        }
        if position_u64(&cs, controller).is_some() {
            return Err(NamesError::ControllerExists);
        }
        if cs.len() >= self.config.max_controllers as usize {
            return Err(NamesError::TooManyControllers);
        }
        cs.push(controller);
        let k = array32_to_vec(&name);
        self.controllers.insert(k, cs);
        let ev = vec![NamesEvent::ControllerAdded { name, controller }];
        proof {
            assert(events_view(ev@) =~= seq![NamesEventView::ControllerAdded { name, controller }]);
        }
        Ok(ev)
    }

    /// Removes a controller from an active name of the signer.
    #[verifier::spinoff_prover]
    #[verifier::rlimit(40)]
    pub fn remove_controller(&mut self, origin: Origin, name: NameId, controller: AccountId, now: BlockNumber) -> (r: Result<Vec<NamesEvent>, NamesError>)
        requires
            old(self).wf(),
        ensures
            final(self).wf(),
            final(self).config() == old(self).config(),
            final(self).genesis() == old(self).genesis(),
            outcome(r, remove_controller_spec(old(self)@, origin, name, controller, now), old(self)@, final(self)@),
    {
        let owner = match origin {
            Origin::Signed(a) => a,
            _ => return Err(NamesError::BadOrigin),
        };
        if self.paused {
            return Err(NamesError::Paused);
        }
        self.ensure_owner_active(owner, &name, now)?;
        let mut cs = match self.controllers.get(&name) {
            Some(v) => v.clone(),
            None => Vec::new(),
        };
        proof {
            assert(cs@ =~= controllers_of(old(self)@, name));
        }
        if !remove_u64_value(&mut cs, controller) {
            return Err(NamesError::ControllerNotFound);
        }
        let k = array32_to_vec(&name);
        self.controllers.insert(k, cs);
        let ev = vec![NamesEvent::ControllerRemoved { name, controller }];
        proof {
            assert(events_view(ev@) =~= seq![NamesEventView::ControllerRemoved { name, controller }]);
        }
        Ok(ev)
    }

    fn ensure_owner_active(&self, owner: AccountId, name: &NameId, now: BlockNumber) -> (r: Result<(), NamesError>)
        requires
            self.wf(),
        ensures
            r == ownership(self@, owner, *name, now),
    {
        match self.names.get(name) {
            None => Err(NamesError::NameNotFound),
            Some(rec) => {
                if rec.owner != owner {
                    Err(NamesError::NotOwner)
                } else if now >= rec.expires_at {
                    Err(NamesError::NameExpired)
                } else {
                    Ok(())
                }
            },
        }
    }

    fn ensure_authorized(&self, who: AccountId, name: &NameId, now: BlockNumber) -> (r: Result<(), NamesError>)
        requires
            self.wf(),
        ensures
            r == authorization(self@, who, *name, now),
    {
        match self.names.get(name) {
            None => Err(NamesError::NameNotFound),
            Some(rec) => {
                if now >= rec.expires_at {
                    return Err(NamesError::NameExpired);
                }
                if rec.owner == who {
                    return Ok(());
                }
                match self.controllers.get(name) {
                    Some(cs) => {
                        if position_u64(cs, who).is_some() {
                            Ok(())
                        } else {
                            Err(NamesError::NotAuthorized)
                        }
                    },
                    None => Err(NamesError::NotAuthorized),
                }
            },
        }
    }

    /// Takes the record of `name` out of the table after the authorization
    /// check; the caller puts it back.
    fn take_authorized_record(&mut self, who: AccountId, name: &NameId, now: BlockNumber) -> (r: Result<NameRecord, NamesError>)
        requires
            old(self).wf(),
        ensures
            final(self).wf(),
            final(self).config() == old(self).config(),
            final(self).genesis() == old(self).genesis(),
            r is Err ==> final(self)@ == old(self)@,
            r matches Err(e) ==> authorization(old(self)@, who, *name, now) == Err::<(), NamesError>(e),
            r matches Ok(rec) ==> authorization(old(self)@, who, *name, now) is Ok && rec@ == old(self)@.names[name@]
                && final(self)@ == (NamesView { names: old(self)@.names.remove(name@), ..old(self)@ }),
    {
        self.ensure_authorized(who, name, now)?;
        match self.names.remove(name) {
            Some(rec) => Ok(rec),
            None => Err(NamesError::NameNotFound),
        }
    }

    /// Sets or clears the address of a name; its owner or controllers.
    #[verifier::spinoff_prover]
    pub fn set_address(&mut self, origin: Origin, name: NameId, address: Option<Vec<u8>>, now: BlockNumber) -> (r: Result<Vec<NamesEvent>, NamesError>)
        requires
            old(self).wf(),
        ensures
            final(self).wf(),
            final(self).config() == old(self).config(),
            final(self).genesis() == old(self).genesis(),
            outcome(r, set_address_spec(old(self)@, origin, name, match address { Some(a) => Some(a@), None => None }, now), old(self)@, final(self)@),
    {
        let who = match origin {
            Origin::Signed(a) => a,
            _ => return Err(NamesError::BadOrigin),
        };
        if self.paused {
            return Err(NamesError::Paused);
        }
        match &address {
            Some(a) => {
                if a.len() == 0 {
                    return Err(NamesError::EmptyRecord);
                }
            },
            None => {},
        }
        let present = address.is_some();
        let mut rec = self.take_authorized_record(who, &name, now)?;
        rec.address = address;
        let k = array32_to_vec(&name);
        self.names.insert(k, rec);
        let ev = vec![NamesEvent::AddressSet { name, present }];
        proof {
            assert(events_view(ev@) =~= seq![NamesEventView::AddressSet { name, present }]);
            assert(self.names@ =~= old(self)@.names.insert(name@, rec@));
        }
        Ok(ev)
    }

    /// Sets or clears the subject of a name; its owner or controllers.
    /// `subject_known` is whether the identity domain knows the subject.
    #[verifier::spinoff_prover]
    pub fn set_subject(&mut self, origin: Origin, name: NameId, subject: Option<[u8; 32]>, subject_known: bool, now: BlockNumber) -> (r: Result<Vec<NamesEvent>, NamesError>)
        requires
            old(self).wf(),
        ensures
            final(self).wf(),
            final(self).config() == old(self).config(),
            final(self).genesis() == old(self).genesis(),
            outcome(r, set_subject_spec(old(self)@, origin, name, subject, subject_known, now), old(self)@, final(self)@),
    {
        let who = match origin {
            Origin::Signed(a) => a,
            _ => return Err(NamesError::BadOrigin),
        };
        if self.paused {
            return Err(NamesError::Paused);
        }
        if subject.is_some() && !subject_known {
            return Err(NamesError::InvalidSubjectReference);
        }
        let present = subject.is_some();
        let mut rec = self.take_authorized_record(who, &name, now)?;
        rec.subject = subject;
        let k = array32_to_vec(&name);
        self.names.insert(k, rec);
        let ev = vec![NamesEvent::SubjectSet { name, present }];
        proof {
            assert(events_view(ev@) =~= seq![NamesEventView::SubjectSet { name, present }]);
            assert(self.names@ =~= old(self)@.names.insert(name@, rec@));
        }
        Ok(ev)
    }

    /// Sets or clears the attestation of a name; its owner or controllers.
    /// `attestation_live` is whether the attestation domain holds the
    /// attestation as live.
    #[verifier::spinoff_prover]
    pub fn set_attestation(&mut self, origin: Origin, name: NameId, attestation: Option<[u8; 32]>, attestation_live: bool, now: BlockNumber) -> (r: Result<Vec<NamesEvent>, NamesError>)
        requires
            old(self).wf(),
        ensures
            final(self).wf(),
            final(self).config() == old(self).config(),
            final(self).genesis() == old(self).genesis(),
            outcome(r, set_attestation_spec(old(self)@, origin, name, attestation, attestation_live, now), old(self)@, final(self)@),
    {
        let who = match origin {
            Origin::Signed(a) => a,
            _ => return Err(NamesError::BadOrigin),
        };
        if self.paused {
            return Err(NamesError::Paused);
        }
        if attestation.is_some() && !attestation_live {
            return Err(NamesError::InvalidAttestationReference);
        }
        let present = attestation.is_some();
        let mut rec = self.take_authorized_record(who, &name, now)?;
        rec.attestation = attestation;
        let k = array32_to_vec(&name);
        self.names.insert(k, rec);
        let ev = vec![NamesEvent::AttestationSet { name, present }];
        proof {
            assert(events_view(ev@) =~= seq![NamesEventView::AttestationSet { name, present }]);
            assert(self.names@ =~= old(self)@.names.insert(name@, rec@));
        }
        Ok(ev)
    }

    /// Sets (or, with `None`, clears) the primary name of the signer; the
    /// name must be active and owned by the signer.
    #[verifier::spinoff_prover]
    pub fn set_primary_name(&mut self, origin: Origin, name: Option<NameId>, now: BlockNumber) -> (r: Result<Vec<NamesEvent>, NamesError>)
        requires
            old(self).wf(),
        ensures
            final(self).wf(),
            final(self).config() == old(self).config(),
            final(self).genesis() == old(self).genesis(),
            outcome(r, set_primary_name_spec(old(self)@, origin, name, now), old(self)@, final(self)@),
    {
        let owner = match origin {
            Origin::Signed(a) => a,
            _ => return Err(NamesError::BadOrigin),
        };
        if self.paused {
            return Err(NamesError::Paused);
        }
        let ak = acct_key_vec(owner);
        match name {
            Some(n) => {
                match self.names.get(&n) {
                    None => return Err(NamesError::NameNotFound),
                    Some(rec) => {
                        if rec.owner != owner || now >= rec.expires_at {
                            return Err(NamesError::PrimaryNameInvalid);
                        }
                    },
                }
                self.primary_name.insert(ak, n);
            },
            None => {
                let _ = self.primary_name.remove(ak.as_slice());
            },
        }
        let ev = vec![NamesEvent::PrimaryNameSet { owner, name }];
        proof {
            assert(events_view(ev@) =~= seq![NamesEventView::PrimaryNameSet { owner, name }]);
        }
        Ok(ev)
    }
}

/// The keys of the text records of `name` whose text keys are `keys`.
pub open spec fn text_keys_set(name: NameId, keys: Seq<Seq<u8>>) -> Set<Seq<u8>> {
    Set::new(|k: Seq<u8>| exists|i: int| 0 <= i < keys.len() && k == text_key(name, #[trigger] keys[i]))
}

/// The children of `name`.
pub open spec fn children_of(s: NamesView, name: NameId) -> Seq<NameId> {
    seq_or_empty(s.children, name@)
}

/// The names of `owner`.
pub open spec fn names_of(s: NamesView, owner: AccountId) -> Seq<NameId> {
    seq_or_empty(s.owner_names, acct_key(owner))
}

/// The state after removing the name `name`, whose record is `r`, together
/// with everything attached to it: its place in its owner's and its parent's
/// index, the owner's primary name when it is this name, its text records,
/// controllers, children index and content revision.
pub open spec fn removed_state(s: NamesView, name: NameId, r: NameRecordView) -> NamesView {
    let ok = acct_key(r.owner);
    let owner_names = s.owner_names.insert(ok, remove_value(names_of(s, r.owner), name));
    let children = match r.parent {
        Some(p) => s.children.insert(p@, remove_value(children_of(s, p), name)),
        None => s.children,
    };
    let root_names = match r.parent {
        Some(p) => s.root_names,
        None => remove_value(s.root_names, name),
    };
    let primary_name = if s.primary_name.contains_key(ok) && s.primary_name[ok] == name@ {
        s.primary_name.remove(ok)
    } else {
        s.primary_name
    };
    let keys = seq_or_empty(s.text_keys, name@);
    NamesView {
        owner_names,
        children: children.remove(name@),
        root_names,
        primary_name,
        text_records: s.text_records.remove_keys(text_keys_set(name, keys)),
        text_keys: s.text_keys.remove(name@),
        controllers: s.controllers.remove(name@),
        content_revisions: s.content_revisions.remove(name@),
        names: s.names.remove(name@),
        ..s
    }
}

/// Outcome of [`NamesRegistry::release`].
pub open spec fn release_spec(s: NamesView, origin: Origin, name: NameId) -> Result<(NamesView, Seq<NamesEventView>), NamesError> {
    match signer(origin) {
        None => Err(NamesError::BadOrigin),
        Some(owner) => if s.paused {
            Err(NamesError::Paused)
        } else if !s.names.contains_key(name@) {
            Err(NamesError::NameNotFound)
        } else if s.names[name@].owner != owner {
            Err(NamesError::NotOwner)
        } else if children_of(s, name).len() != 0 {
            Err(NamesError::ChildrenRemain)
        } else {
            Ok((removed_state(s, name, s.names[name@]), seq![NamesEventView::NameReleased { name, owner }]))
        },
    }
}

/// Outcome of [`NamesRegistry::remove_expired_name`].
pub open spec fn remove_expired_name_spec(s: NamesView, origin: Origin, name: NameId, now: BlockNumber) -> Result<(NamesView, Seq<NamesEventView>), NamesError> {
    if signer(origin) is None {
        Err(NamesError::BadOrigin)
    } else if !s.names.contains_key(name@) {
        Err(NamesError::NameNotFound)
    } else if active(s.names[name@], now) {
        Err(NamesError::NameTaken)
    } else if children_of(s, name).len() != 0 {
        Err(NamesError::ChildrenRemain)
    } else {
        Ok((removed_state(s, name, s.names[name@]), seq![NamesEventView::ExpiredNameRemoved { name }]))
    }
}

/// Outcome of [`NamesRegistry::force_revoke`].
pub open spec fn force_revoke_spec(s: NamesView, origin: Origin, name: NameId) -> Result<(NamesView, Seq<NamesEventView>), NamesError> {
    if origin != Origin::Root {
        Err(NamesError::BadOrigin)
    } else if !s.names.contains_key(name@) {
        Err(NamesError::NameNotFound)
    } else if children_of(s, name).len() != 0 {
        Err(NamesError::ChildrenRemain)
    } else {
        Ok((removed_state(s, name, s.names[name@]), seq![NamesEventView::EmergencyNameRevoked { name }]))
    }
}

/// The state after `name` (record `r`) passes from `r.owner` to `to`: the
/// owner indexes move it, the old owner loses it as primary name, its
/// controllers are dropped and its record names the new owner.
pub open spec fn transferred_state(s: NamesView, name: NameId, r: NameRecordView, to: AccountId) -> NamesView {
    let from = r.owner;
    let on1 = s.owner_names.insert(acct_key(from), remove_value(names_of(s, from), name));
    let on2 = on1.insert(acct_key(to), seq_or_empty(on1, acct_key(to)).push(name));
    let primary_name = if s.primary_name.contains_key(acct_key(from)) && s.primary_name[acct_key(from)] == name@ {
        s.primary_name.remove(acct_key(from))
    } else {
        s.primary_name
    };
    NamesView {
        owner_names: on2,
        primary_name,
        controllers: s.controllers.remove(name@),
        names: s.names.insert(name@, NameRecordView { owner: to, ..r }),
        ..s
    }
}

/// Whether the primary name of `owner` is `name`.
pub open spec fn is_primary(s: NamesView, owner: AccountId, name: NameId) -> bool {
    s.primary_name.contains_key(acct_key(owner)) && s.primary_name[acct_key(owner)] == name@
}

/// Outcome of [`NamesRegistry::transfer`].
pub open spec fn transfer_spec(s: NamesView, c: NamesConfig, origin: Origin, name: NameId, new_owner: AccountId, now: BlockNumber) -> Result<(NamesView, Seq<NamesEventView>), NamesError> {
    match signer(origin) {
        None => Err(NamesError::BadOrigin),
        Some(who) => if s.paused {
            Err(NamesError::Paused)
        } else if !s.names.contains_key(name@) {
            Err(NamesError::NameNotFound)
        } else if s.names[name@].owner != who {
            Err(NamesError::NotOwner)
        } else if !active(s.names[name@], now) {
            Err(NamesError::NameExpired)
        } else if who == new_owner {
            Err(NamesError::NotOwner)
        } else if names_of(s, new_owner).len() >= c.max_names_per_owner {
            Err(NamesError::TooManyNames)
        } else {
            let transferred = NamesEventView::NameTransferred { name, from: who, to: new_owner };
            Ok((
                transferred_state(s, name, s.names[name@], new_owner),
                if is_primary(s, who, name) {
                    seq![NamesEventView::PrimaryNameSet { owner: who, name: None }, transferred]
                } else {
                    seq![transferred]
                },
            ))
        },
    }
}

/// Outcome of [`NamesRegistry::force_transfer`].
pub open spec fn force_transfer_spec(s: NamesView, c: NamesConfig, origin: Origin, name: NameId, new_owner: AccountId) -> Result<(NamesView, Seq<NamesEventView>), NamesError> {
    if origin != Origin::Root {
        Err(NamesError::BadOrigin)
    } else if !s.names.contains_key(name@) {
        Err(NamesError::NameNotFound)
    } else if s.names[name@].owner == new_owner {
        Err(NamesError::NotOwner)
    } else if names_of(s, new_owner).len() >= c.max_names_per_owner {
        Err(NamesError::TooManyNames)
    } else {
        Ok((
            transferred_state(s, name, s.names[name@], new_owner),
            seq![NamesEventView::NameTransferred { name, from: s.names[name@].owner, to: new_owner }],
        ))
    }
}

/// The new expiry of a renewal of `r` by `additional` at `now`, capped by the
/// expiry of its parent, or the error that stops it.
pub open spec fn renewed_expiry(s: NamesView, r: NameRecordView, additional: BlockNumber, now: BlockNumber) -> Result<BlockNumber, NamesError> {
    let base = if r.expires_at > now { r.expires_at } else { now };
    let next = sat_add(base, additional);
    match r.parent {
        Some(p) => if !s.names.contains_key(p@) {
            Err(NamesError::ParentNotFound)
        } else if now >= s.names[p@].expires_at {
            Err(NamesError::ParentExpired)
        } else {
            let capped = if s.names[p@].expires_at < next { s.names[p@].expires_at } else { next };
            if capped > r.expires_at { Ok(capped) } else { Err(NamesError::InvalidRenewal) }
        },
        None => if next > r.expires_at { Ok(next) } else { Err(NamesError::InvalidRenewal) },
    }
}

/// Outcome of [`NamesRegistry::renew`].
pub open spec fn renew_spec(s: NamesView, c: NamesConfig, origin: Origin, name: NameId, additional: BlockNumber, now: BlockNumber) -> Result<(NamesView, Seq<NamesEventView>), NamesError> {
    match signer(origin) {
        None => Err(NamesError::BadOrigin),
        Some(who) => if s.paused {
            Err(NamesError::Paused)
        } else if additional == 0 || additional > c.max_renewal_period {
            Err(NamesError::InvalidRenewal)
        } else {
            match authorization(s, who, name, now) {
                Err(e) => Err(e),
                Ok(_) => match renewed_expiry(s, s.names[name@], additional, now) {
                    Err(e) => Err(e),
                    Ok(next) => Ok((
                        with_record(s, name, NameRecordView { expires_at: next, ..s.names[name@] }),
                        seq![NamesEventView::NameRenewed { name, expires_at: next }],
                    )),
                },
            }
        },
    }
}

/// The first index of a byte string among byte vectors, by value.
fn position_bytes(v: &Vec<Vec<u8>>, x: &[u8]) -> (r: Option<usize>)
    ensures
        r matches Some(i) ==> i < v@.len() && key_views(v@).contains(x@) && i == first_index(key_views(v@), x@),
        r is None ==> !key_views(v@).contains(x@),
{
    let ghost m = key_views(v@);
    let mut i: usize = 0;
    while i < v.len()
        invariant
            i <= v@.len(),
            m == key_views(v@),
            forall|j: int| 0 <= j < i ==> m[j] != x@,
        decreases v@.len() - i,
    {
        if bytes_eq(v[i].as_slice(), x) {
            proof {
                let k = first_index(m, x@);
                assert(m[i as int] == x@);
                assert(0 <= i < m.len() && m[i as int] == x@ && forall|j: int| 0 <= j < i ==> m[j] != x@);
                if k != i {
                    if k < i {
                    } else {
                        assert(m[i as int] != x@);
                    }
                }
            }
            return Some(i);
        }
        i += 1;
    }
    proof {
        assert forall|j: int| 0 <= j < m.len() implies m[j] != x@ by {}
    }
    None
}

impl NamesRegistry {
    /// Takes the list stored under `k` out of a table of name lists.
    fn take_ids(t: &mut Table<Vec<NameId>>, k: &[u8]) -> (r: Vec<NameId>)
        requires
            old(t).wf(),
        ensures
            final(t).wf(),
            final(t)@ == old(t)@.remove(k@),
            r@ == seq_or_empty(old(t)@, k@),
    {
        match t.remove(k) {
            Some(v) => v,
            None => Vec::new(),
        }
    }

    fn remove_text_records(&mut self, name: &NameId, keys: &Vec<Vec<u8>>)
        requires
            old(self).wf(),
        ensures
            final(self).wf(),
            final(self).config() == old(self).config(),
            final(self).genesis() == old(self).genesis(),
            final(self)@ == (NamesView {
                text_records: old(self)@.text_records.remove_keys(text_keys_set(*name, key_views(keys@))),
                ..old(self)@
            }),
    {
        let ghost ks = key_views(keys@);
        proof {
            assert(text_keys_set(*name, ks.subrange(0, 0)) =~= Set::<Seq<u8>>::empty());
            assert(old(self)@.text_records.remove_keys(Set::<Seq<u8>>::empty()) =~= old(self)@.text_records);
        }
        let mut i: usize = 0;
        while i < keys.len()
            invariant
                self.wf(),
                i <= keys@.len(),
                ks == key_views(keys@),
                self.config() == old(self).config(),
                self.genesis() == old(self).genesis(),
                self@ == (NamesView {
                    text_records: old(self)@.text_records.remove_keys(text_keys_set(*name, ks.subrange(0, i as int))),
                    ..old(self)@
                }),
            decreases keys@.len() - i,
        {
            let k = text_key_vec(name, keys[i].as_slice());
            let _ = self.text_records.remove(k.as_slice());
            proof {
                assert(text_keys_set(*name, ks.subrange(0, i + 1)) =~= text_keys_set(*name, ks.subrange(0, i as int)).insert(text_key(*name, ks[i as int]))) by {
                    assert forall|x: Seq<u8>| text_keys_set(*name, ks.subrange(0, i + 1)).contains(x) implies text_keys_set(*name, ks.subrange(0, i as int)).insert(text_key(*name, ks[i as int])).contains(x) by {
                        let j = choose|j: int| 0 <= j < i + 1 && x == text_key(*name, #[trigger] ks.subrange(0, i + 1)[j]);
                        if j < i {
                            assert(ks.subrange(0, i as int)[j] == ks.subrange(0, i + 1)[j]);
                        }
                    }
                    assert forall|x: Seq<u8>| text_keys_set(*name, ks.subrange(0, i as int)).insert(text_key(*name, ks[i as int])).contains(x) implies text_keys_set(*name, ks.subrange(0, i + 1)).contains(x) by {
                        if x == text_key(*name, ks[i as int]) {
                            assert(ks.subrange(0, i + 1)[i as int] == ks[i as int]);
                        } else {
                            let j = choose|j: int| 0 <= j < i && x == text_key(*name, #[trigger] ks.subrange(0, i as int)[j]);
                            assert(ks.subrange(0, i as int)[j] == ks.subrange(0, i + 1)[j]);
                        }
                    }
                }
                assert(self.text_records@ =~= old(self)@.text_records.remove_keys(text_keys_set(*name, ks.subrange(0, i + 1))));
            }
            i += 1;
        }
        proof {
            assert(ks.subrange(0, keys@.len() as int) =~= ks);
        }
    }

    /// Removes the name `name` with its record `rec` and everything attached
    /// to it. Its children index must be empty.
    fn remove_name_state(&mut self, name: &NameId, rec: &NameRecord)
        requires
            old(self).wf(),
            children_of(old(self)@, *name).len() == 0,
        ensures
            final(self).wf(),
            final(self).config() == old(self).config(),
            final(self).genesis() == old(self).genesis(),
            final(self)@ == removed_state(old(self)@, *name, rec@),
    {
        let ghost s = self@;
        let ok = acct_key_vec(rec.owner);
        let mut on = Self::take_ids(&mut self.owner_names, ok.as_slice());
        remove_index_value(&mut on, name);
        self.owner_names.insert(ok, on);
        match rec.parent {
            Some(p) => {
                let pk = array32_to_vec(&p);
                let mut ch = Self::take_ids(&mut self.children, pk.as_slice());
                remove_index_value(&mut ch, name);
                self.children.insert(pk, ch);
            },
            None => {
                remove_index_value(&mut self.root_names, name);
            },
        }
        let ok2 = acct_key_vec(rec.owner);
        let is_primary = match self.primary_name.get(ok2.as_slice()) {
            Some(n) => {
                proof {
                    lemma_id_view_eq(*n, *name);
                }
                id_eq(n, name)
            },
            None => false,
        };
        if is_primary {
            let _ = self.primary_name.remove(ok2.as_slice());
        }
        let keys = self.take_text_keys(name);
        self.remove_text_records(name, &keys);
        let _ = self.controllers.remove(name);
        let _ = self.children.remove(name);
        let _ = self.content_revisions.remove(name);
        let _ = self.names.remove(name);
        proof {
            let t = removed_state(s, *name, rec@);
            assert(self@.text_keys =~= t.text_keys);
            assert(self@.owner_names =~= t.owner_names);
            assert(self@.children =~= t.children);
            assert(self@.root_names =~= t.root_names);
            assert(self@.primary_name =~= t.primary_name);
            assert(self@.text_records =~= t.text_records);
            assert(self@.controllers =~= t.controllers);
            assert(self@.content_revisions =~= t.content_revisions);
            assert(self@.names =~= t.names);
            assert(self@ == t);
        }
    }

    fn children_len(&self, name: &NameId) -> (r: usize)
        requires
            self.wf(),
        ensures
            r == children_of(self@, *name).len(),
    {
        match self.children.get(name) {
            Some(v) => v.len(),
            None => 0,
        }
    }

    fn names_len(&self, owner: AccountId) -> (r: usize)
        requires
            self.wf(),
        ensures
            r == names_of(self@, owner).len(),
    {
        let ak = acct_key_vec(owner);
        match self.owner_names.get(ak.as_slice()) {
            Some(v) => v.len(),
            None => 0,
        }
    }

    /// Gives up a name of the signer, active or not; it must have no
    /// children.
    #[verifier::spinoff_prover]
    pub fn release(&mut self, origin: Origin, name: NameId) -> (r: Result<Vec<NamesEvent>, NamesError>)
        requires
            old(self).wf(),
        ensures
            final(self).wf(),
            final(self).config() == old(self).config(),
            final(self).genesis() == old(self).genesis(),
            outcome(r, release_spec(old(self)@, origin, name), old(self)@, final(self)@),
    {
        let owner = match origin {
            Origin::Signed(a) => a,
            _ => return Err(NamesError::BadOrigin),
        };
        if self.paused {
            return Err(NamesError::Paused);
        }
        let rec = match self.names.get(&name) {
            Some(r) => r.clone_record(),
            None => return Err(NamesError::NameNotFound),
        };
        if rec.owner != owner {
            return Err(NamesError::NotOwner);
        }
        if self.children_len(&name) != 0 {
            return Err(NamesError::ChildrenRemain);
        }
        self.remove_name_state(&name, &rec);
        let ev = vec![NamesEvent::NameReleased { name, owner }];
        proof {
            assert(events_view(ev@) =~= seq![NamesEventView::NameReleased { name, owner }]);
        }
        Ok(ev)
    }

    /// Removes a name that has expired; any signer may do so. It must have no
    /// children.
    #[verifier::spinoff_prover]
    pub fn remove_expired_name(&mut self, origin: Origin, name: NameId, now: BlockNumber) -> (r: Result<Vec<NamesEvent>, NamesError>)
        requires
            old(self).wf(),
        ensures
            final(self).wf(),
            final(self).config() == old(self).config(),
            final(self).genesis() == old(self).genesis(),
            outcome(r, remove_expired_name_spec(old(self)@, origin, name, now), old(self)@, final(self)@),
    {
        match origin {
            Origin::Signed(_) => {},
            _ => return Err(NamesError::BadOrigin),
        }
        let rec = match self.names.get(&name) {
            Some(r) => r.clone_record(),
            None => return Err(NamesError::NameNotFound),
        };
        if now < rec.expires_at {
            return Err(NamesError::NameTaken);
        }
        if self.children_len(&name) != 0 {
            return Err(NamesError::ChildrenRemain);
        }
        self.remove_name_state(&name, &rec);
        let ev = vec![NamesEvent::ExpiredNameRemoved { name }];
        proof {
            assert(events_view(ev@) =~= seq![NamesEventView::ExpiredNameRemoved { name }]);
        }
        Ok(ev)
    }

    /// Revokes a name; administrator only. It must have no children.
    #[verifier::spinoff_prover]
    pub fn force_revoke(&mut self, origin: Origin, name: NameId) -> (r: Result<Vec<NamesEvent>, NamesError>)
        requires
            old(self).wf(),
        ensures
            final(self).wf(),
            final(self).config() == old(self).config(),
            final(self).genesis() == old(self).genesis(),
            outcome(r, force_revoke_spec(old(self)@, origin, name), old(self)@, final(self)@),
    {
        match origin {
            Origin::Root => {},
            _ => return Err(NamesError::BadOrigin),
        }
        let rec = match self.names.get(&name) {
            Some(r) => r.clone_record(),
            None => return Err(NamesError::NameNotFound),
        };
        if self.children_len(&name) != 0 {
            return Err(NamesError::ChildrenRemain);
        }
        self.remove_name_state(&name, &rec);
        let ev = vec![NamesEvent::EmergencyNameRevoked { name }];
        proof {
            assert(events_view(ev@) =~= seq![NamesEventView::EmergencyNameRevoked { name }]);
        }
        Ok(ev)
    }

    /// Moves `name` (record `rec`) to `to`; `to` is not its owner.
    fn transfer_state(&mut self, name: &NameId, rec: NameRecord, to: AccountId) -> (removed_primary: bool)
        requires
            old(self).wf(),
            old(self)@.names.contains_key(name@),
            old(self)@.names[name@] == rec@,
            rec.owner != to,
        ensures
            final(self).wf(),
            final(self).config() == old(self).config(),
            final(self).genesis() == old(self).genesis(),
            final(self)@ == transferred_state(old(self)@, *name, rec@, to),
            removed_primary == is_primary(old(self)@, rec.owner, *name),
    {
        let ghost s = self@;
        let from = rec.owner;
        let fk = acct_key_vec(from);
        let mut on = Self::take_ids(&mut self.owner_names, fk.as_slice());
        remove_index_value(&mut on, name);
        self.owner_names.insert(fk, on);
        let tk = acct_key_vec(to);
        let mut on2 = Self::take_ids(&mut self.owner_names, tk.as_slice());
        on2.push(*name);
        self.owner_names.insert(tk, on2);
        let fk2 = acct_key_vec(from);
        let is_primary = match self.primary_name.get(fk2.as_slice()) {
            Some(n) => {
                proof {
                    lemma_id_view_eq(*n, *name);
                }
                id_eq(n, name)
            },
            None => false,
        };
        if is_primary {
            let _ = self.primary_name.remove(fk2.as_slice());
        }
        let _ = self.controllers.remove(name);
        let mut rec = rec;
        rec.owner = to;
        let nk = array32_to_vec(name);
        self.names.insert(nk, rec);
        proof {
            let t = transferred_state(s, *name, s.names[name@], to);
            assert(self@.names =~= t.names);
            assert(self@.owner_names =~= t.owner_names);
            assert(self@.primary_name =~= t.primary_name);
            assert(self@.controllers =~= t.controllers);
            assert(self@ == t);
        }
        is_primary
    }

    /// Transfers an active name of the signer to another account. The old
    /// owner loses it as primary name, and its controllers are dropped.
    #[verifier::spinoff_prover]
    pub fn transfer(&mut self, origin: Origin, name: NameId, new_owner: AccountId, now: BlockNumber) -> (r: Result<Vec<NamesEvent>, NamesError>)
        requires
            old(self).wf(),
        ensures
            final(self).wf(),
            final(self).config() == old(self).config(),
            final(self).genesis() == old(self).genesis(),
            outcome(r, transfer_spec(old(self)@, old(self).config(), origin, name, new_owner, now), old(self)@, final(self)@),
    {
        let who = match origin {
            Origin::Signed(a) => a,
            _ => return Err(NamesError::BadOrigin),
        };
        if self.paused {
            return Err(NamesError::Paused);
        }
        let rec = match self.names.get(&name) {
            Some(r) => r.clone_record(),
            None => return Err(NamesError::NameNotFound),
        };
        if rec.owner != who {
            return Err(NamesError::NotOwner);
        }
        if now >= rec.expires_at {
            return Err(NamesError::NameExpired);
        }
        if rec.owner == new_owner {
            return Err(NamesError::NotOwner);
        }
        if self.names_len(new_owner) >= self.config.max_names_per_owner as usize {
            return Err(NamesError::TooManyNames);
        }
        let removed_primary = self.transfer_state(&name, rec, new_owner);
        let mut ev: Vec<NamesEvent> = Vec::new();
        if removed_primary {
            ev.push(NamesEvent::PrimaryNameSet { owner: who, name: None });
        }
        ev.push(NamesEvent::NameTransferred { name, from: who, to: new_owner });
        proof {
            let t = NamesEventView::NameTransferred { name, from: who, to: new_owner };
            if removed_primary {
                assert(events_view(ev@) =~= seq![NamesEventView::PrimaryNameSet { owner: who, name: None }, t]);
            } else {
                assert(events_view(ev@) =~= seq![t]);
            }
        }
        Ok(ev)
    }

    /// Transfers a name, active or not, to another account; administrator
    /// only.
    #[verifier::spinoff_prover]
    pub fn force_transfer(&mut self, origin: Origin, name: NameId, new_owner: AccountId) -> (r: Result<Vec<NamesEvent>, NamesError>)
        requires
            old(self).wf(),
        ensures
            final(self).wf(),
            final(self).config() == old(self).config(),
            final(self).genesis() == old(self).genesis(),
            outcome(r, force_transfer_spec(old(self)@, old(self).config(), origin, name, new_owner), old(self)@, final(self)@),
    {
        match origin {
            Origin::Root => {},
            _ => return Err(NamesError::BadOrigin),
        }
        let rec = match self.names.get(&name) {
            Some(r) => r.clone_record(),
            None => return Err(NamesError::NameNotFound),
        };
        if rec.owner == new_owner {
            return Err(NamesError::NotOwner);
        }
        if self.names_len(new_owner) >= self.config.max_names_per_owner as usize {
            return Err(NamesError::TooManyNames);
        }
        let from = rec.owner;
        let _ = self.transfer_state(&name, rec, new_owner);
        let ev = vec![NamesEvent::NameTransferred { name, from, to: new_owner }];
        proof {
            assert(events_view(ev@) =~= seq![NamesEventView::NameTransferred { name, from, to: new_owner }]);
        }
        Ok(ev)
    }

    /// Extends the expiry of an active name by `additional_period` blocks,
    /// never past its parent's expiry; its owner or controllers.
    #[verifier::spinoff_prover]
    pub fn renew(&mut self, origin: Origin, name: NameId, additional_period: BlockNumber, now: BlockNumber) -> (r: Result<Vec<NamesEvent>, NamesError>)
        requires
            old(self).wf(),
        ensures
            final(self).wf(),
            final(self).config() == old(self).config(),
            final(self).genesis() == old(self).genesis(),
            outcome(r, renew_spec(old(self)@, old(self).config(), origin, name, additional_period, now), old(self)@, final(self)@),
    {
        let who = match origin {
            Origin::Signed(a) => a,
            _ => return Err(NamesError::BadOrigin),
        };
        if self.paused {
            return Err(NamesError::Paused);
        }
        if additional_period == 0 || additional_period > self.config.max_renewal_period {
            return Err(NamesError::InvalidRenewal);
        }
        self.ensure_authorized(who, &name, now)?;
        let rec = match self.names.get(&name) {
            Some(r) => r.clone_record(),
            None => return Err(NamesError::NameNotFound),
        };
        let base = if rec.expires_at > now { rec.expires_at } else { now };
        let mut next = base.saturating_add(additional_period);
        match rec.parent {
            Some(p) => {
                let parent_expiry = match self.names.get(&p) {
                    Some(pr) => pr.expires_at,
                    None => return Err(NamesError::ParentNotFound),
                };
                if now >= parent_expiry {
                    return Err(NamesError::ParentExpired);
                }
                if parent_expiry < next {
                    next = parent_expiry;
                }
            },
            None => {},
        }
        if next <= rec.expires_at {
            return Err(NamesError::InvalidRenewal);
        }
        let mut rec = rec;
        rec.expires_at = next;
        let k = array32_to_vec(&name);
        self.names.insert(k, rec);
        let ev = vec![NamesEvent::NameRenewed { name, expires_at: next }];
        proof {
            assert(events_view(ev@) =~= seq![NamesEventView::NameRenewed { name, expires_at: next }]);
        }
        Ok(ev)
    }
}

impl NamesRegistry {
    /// Text keys of `name`, taken out of the table.
    fn take_text_keys(&mut self, name: &NameId) -> (r: Vec<Vec<u8>>)
        requires
            old(self).wf(),
        ensures
            final(self).wf(),
            final(self).config() == old(self).config(),
            final(self).genesis() == old(self).genesis(),
            final(self)@ == (NamesView { text_keys: old(self)@.text_keys.remove(name@), ..old(self)@ }),
            key_views(r@) == seq_or_empty(old(self)@.text_keys, name@),
    {
        let r = match self.text_keys.remove(name) {
            Some(v) => v,
            None => Vec::new(),
        };
        proof {
            assert(key_views(r@) =~= seq_or_empty(old(self)@.text_keys, name@));
            assert(self@.text_keys =~= old(self)@.text_keys.remove(name@));
        }
        r
    }

    /// Stores the text keys of `name`.
    fn put_text_keys(&mut self, name: &NameId, ks: Vec<Vec<u8>>)
        requires
            old(self).wf(),
        ensures
            final(self).wf(),
            final(self).config() == old(self).config(),
            final(self).genesis() == old(self).genesis(),
            final(self)@ == (NamesView { text_keys: old(self)@.text_keys.insert(name@, key_views(ks@)), ..old(self)@ }),
    {
        let ghost ksv = ks@;
        let nk = array32_to_vec(name);
        self.text_keys.insert(nk, ks);
        proof {
            assert(self@.text_keys =~= old(self)@.text_keys.insert(name@, key_views(ksv)));
        }
    }
}

impl NameRecord {
    /// A copy of the record.
    pub fn clone_record(&self) -> (r: NameRecord)
        ensures
            r@ == self@,
    {
        let label = self.label.clone();
        let address = match &self.address {
            Some(a) => Some(a.clone()),
            None => None,
        };
        proof {
            assert(label@ =~= self.label@);
            if self.address is Some {
                assert(address->Some_0@ =~= self.address->Some_0@);
            }
        }
        NameRecord {
            parent: self.parent,
            label,
            owner: self.owner,
            expires_at: self.expires_at,
            depth: self.depth,
            address,
            subject: self.subject,
            attestation: self.attestation,
            content: self.content,
        }
    }
}

/// Outcome of [`NamesRegistry::set_text`].
pub open spec fn set_text_spec(s: NamesView, c: NamesConfig, origin: Origin, name: NameId, key: Seq<u8>, value: Option<Seq<u8>>, now: BlockNumber) -> Result<(NamesView, Seq<NamesEventView>), NamesError> {
    match signer(origin) {
        None => Err(NamesError::BadOrigin),
        Some(who) => if s.paused {
            Err(NamesError::Paused)
        } else if key.len() == 0 {
            Err(NamesError::EmptyRecord)
        } else if value matches Some(v) && v.len() == 0 {
            Err(NamesError::EmptyRecord)
        } else {
            match authorization(s, who, name, now) {
                Err(e) => Err(e),
                Ok(_) => {
                    let tk = text_key(name, key);
                    let existed = s.text_records.contains_key(tk);
                    let keys = seq_or_empty(s.text_keys, name@);
                    match value {
                        Some(v) => if !existed && keys.len() >= c.max_text_records {
                            Err(NamesError::TooManyTextRecords)
                        } else {
                            Ok((
                                NamesView {
                                    text_keys: if existed {
                                        s.text_keys
                                    } else {
                                        s.text_keys.insert(name@, keys.push(key))
                                    },
                                    text_records: s.text_records.insert(tk, v),
                                    ..s
                                },
                                seq![NamesEventView::TextSet { name, key, present: true }],
                            ))
                        },
                        None => if !existed {
                            Err(NamesError::EmptyRecord)
                        } else {
                            Ok((
                                NamesView {
                                    text_keys: s.text_keys.insert(name@, remove_value(keys, key)),
                                    text_records: s.text_records.remove(tk),
                                    ..s
                                },
                                seq![NamesEventView::TextSet { name, key, present: false }],
                            ))
                        },
                    }
                },
            }
        },
    }
}

/// SCALE encoding of an optional integer: a tag byte, then the integer when
/// present.
pub open spec fn enc_opt_u64(v: Option<u64>) -> Seq<u8> {
    match v {
        Some(x) => seq![1u8] + le_bytes(x as nat, 8),
        None => seq![0u8],
    }
}

/// The hash that identifies a content publication request: the BLAKE2b-256
/// digest of the SCALE encoding of `(name, content, expected_revision)`.
pub open spec fn spec_request_hash(name: NameId, content: Option<[u8; 32]>, expected: Option<u64>) -> [u8; 32] {
    spec_blake2_256(name@ + enc_opt_id(content) + enc_opt_u64(expected))
}

/// Outcome of [`NamesRegistry::publish_content`]: `content_valid` is the
/// answer of the storage domain on whether it holds the content.
pub open spec fn publish_content_spec(s: NamesView, c: NamesConfig, origin: Origin, name: NameId, content: Option<[u8; 32]>, expected: Option<u64>, op: OperationId, content_valid: bool, now: BlockNumber) -> Result<(NamesView, Seq<NamesEventView>), NamesError> {
    match signer(origin) {
        None => Err(NamesError::BadOrigin),
        Some(who) => {
            let rk = pair_key(who, op@);
            let rh = spec_request_hash(name, content, expected);
            let cur = u64_or_zero(s.content_revisions, name@);
            if s.paused {
                Err(NamesError::Paused)
            } else if s.receipts.contains_key(rk) {
                let rc = s.receipts[rk];
                if rc.request_hash != rh {
                    Err(NamesError::OperationIdConflict)
                } else {
                    Ok((s, seq![NamesEventView::ContentSet {
                        name: rc.name,
                        present: rc.content is Some,
                        revision: rc.revision,
                        operation_id: op,
                        replayed: true,
                    }]))
                }
            } else if content is Some && !content_valid {
                Err(NamesError::InvalidContentReference)
            } else if expected matches Some(e) && e != cur {
                Err(NamesError::ContentRevisionConflict)
            } else if cur == u64::MAX {
                Err(NamesError::ContentRevisionConflict)
            } else {
                match authorization(s, who, name, now) {
                    Err(e) => Err(e),
                    Ok(_) => {
                        let rev = (cur + 1) as u64;
                        let ids = seq_or_empty(s.receipt_ids, acct_key(who));
                        let evict = ids.len() == c.max_content_operation_receipts;
                        let ids1 = if evict { ids.drop_first() } else { ids };
                        if c.max_content_operation_receipts == 0 {
                            Err(NamesError::ContentOperationReceiptLimitDisabled)
                        } else if ids1.len() >= c.max_content_operation_receipts {
                            Err(NamesError::ContentOperationReceiptLimitDisabled)
                        } else {
                            let receipts1 = if evict { s.receipts.remove(pair_key(who, ids[0]@)) } else { s.receipts };
                            let receipt = ContentOperationReceipt {
                                request_hash: rh,
                                name,
                                content,
                                revision: rev,
                            };
                            let set = NamesEventView::ContentSet {
                                name,
                                present: content is Some,
                                revision: rev,
                                operation_id: op,
                                replayed: false,
                            };
                            Ok((
                                NamesView {
                                    names: s.names.insert(name@, NameRecordView { content, ..s.names[name@] }),
                                    content_revisions: s.content_revisions.insert(name@, rev),
                                    receipt_ids: s.receipt_ids.insert(acct_key(who), ids1.push(op)),
                                    receipts: receipts1.insert(rk, receipt),
                                    ..s
                                },
                                if evict {
                                    seq![NamesEventView::ContentOperationReceiptPruned { owner: who, operation_id: ids[0] }, set]
                                } else {
                                    seq![set]
                                },
                            ))
                        }
                    },
                }
            }
        },
    }
}

/// The number of elements that swap-removing `x` leaves.
pub proof fn lemma_remove_value_len<T>(s: Seq<T>, x: T)
    ensures
        remove_value(s, x).len() == if s.contains(x) { s.len() - 1 } else { s.len() as int },
        s.contains(x) ==> 0 <= first_index(s, x) < s.len() && s[first_index(s, x)] == x,
{
    if s.contains(x) {
        let i = choose|i: int| 0 <= i < s.len() && s[i] == x;
        lemma_first_index_exists(s, x, i);
    }
}

proof fn lemma_first_index_exists<T>(s: Seq<T>, x: T, i: int)
    requires
        0 <= i < s.len(),
        s[i] == x,
    ensures
        0 <= first_index(s, x) < s.len() && s[first_index(s, x)] == x && forall|j: int| 0 <= j < first_index(s, x) ==> s[j] != x,
    decreases i,
{
    if exists|j: int| 0 <= j < i && s[j] == x {
        let j = choose|j: int| 0 <= j < i && s[j] == x;
        lemma_first_index_exists(s, x, j);
    } else {
        assert(0 <= i < s.len() && s[i] == x && forall|j: int| 0 <= j < i ==> s[j] != x);
    }
}

impl NamesRegistry {
    /// Sets, replaces or (with `None`) removes a text record of a name; its
    /// owner or controllers.
    #[verifier::spinoff_prover]
    pub fn set_text(&mut self, origin: Origin, name: NameId, key: Vec<u8>, value: Option<Vec<u8>>, now: BlockNumber) -> (r: Result<Vec<NamesEvent>, NamesError>)
        requires
            old(self).wf(),
        ensures
            final(self).wf(),
            final(self).config() == old(self).config(),
            final(self).genesis() == old(self).genesis(),
            outcome(r, set_text_spec(old(self)@, old(self).config(), origin, name, key@, match value { Some(v) => Some(v@), None => None }, now), old(self)@, final(self)@),
    {
        let ghost s = self@;
        let ghost kv = key@;
        let who = match origin {
            Origin::Signed(a) => a,
            _ => return Err(NamesError::BadOrigin),
        };
        if self.paused {
            return Err(NamesError::Paused);
        }
        if key.len() == 0 {
            return Err(NamesError::EmptyRecord);
        }
        match &value {
            Some(v) => {
                if v.len() == 0 {
                    return Err(NamesError::EmptyRecord);
                }
            },
            None => {},
        }
        self.ensure_authorized(who, &name, now)?;
        let tk = text_key_vec(&name, key.as_slice());
        let existed = self.text_records.contains_key(tk.as_slice());
        let present = value.is_some();
        match value {
            Some(v) => {
                if !existed {
                    let n = match self.text_keys.get(&name) {
                        Some(ks) => ks.len(),
                        None => 0,
                    };
                    if n >= self.config.max_text_records as usize {
                        return Err(NamesError::TooManyTextRecords);
                    }
                    let mut ks = self.take_text_keys(&name);
                    let kc = key.clone();
                    proof {
                        assert(kc@ =~= kv);
                    }
                    ks.push(kc);
                    let ghost ksv = ks@;
                    self.put_text_keys(&name, ks);
                    proof {
                        assert(key_views(ksv) =~= seq_or_empty(s.text_keys, name@).push(kv));
                        assert(self@.text_keys =~= s.text_keys.insert(name@, seq_or_empty(s.text_keys, name@).push(kv)));
                    }
                }
                self.text_records.insert(tk, v);
            },
            None => {
                if !existed {
                    return Err(NamesError::EmptyRecord);
                }
                let _ = self.text_records.remove(tk.as_slice());
                let mut ks = self.take_text_keys(&name);
                let ghost ks0 = key_views(ks@);
                match position_bytes(&ks, key.as_slice()) {
                    Some(i) => {
                        let _ = ks.swap_remove(i);
                        proof {
                            assert(key_views(ks@) =~= swap_remove_at(ks0, i as int));
                        }
                    },
                    None => {},
                }
                let ghost ksv = ks@;
                self.put_text_keys(&name, ks);
                proof {
                    assert(key_views(ksv) == remove_value(ks0, kv));
                    assert(self@.text_keys =~= s.text_keys.insert(name@, remove_value(seq_or_empty(s.text_keys, name@), kv)));
                }
            },
        }
        let ev = vec![NamesEvent::TextSet { name, key, present }];
        proof {
            assert(events_view(ev@) =~= seq![NamesEventView::TextSet { name, key: kv, present }]);
        }
        Ok(ev)
    }

    /// The hash that identifies a content publication request.
    fn request_hash(name: &NameId, content: Option<[u8; 32]>, expected: Option<u64>) -> (r: [u8; 32])
        ensures
            r == spec_request_hash(*name, content, expected),
    {
        let mut pre = array32_to_vec(name);
        match content {
            Some(h) => {
                pre.push(1u8);
                extend_bytes(&mut pre, &h);
            },
            None => {
                pre.push(0u8);
            },
        }
        match expected {
            Some(e) => {
                pre.push(1u8);
                let enc = encode_u64(e);
                extend_bytes(&mut pre, enc.as_slice());
            },
            None => {
                pre.push(0u8);
            },
        }
        proof {
            assert(pre@ =~= name@ + enc_opt_id(content) + enc_opt_u64(expected));
        }
        blake2_256(pre.as_slice())
    }

    /// Publishes (or, with `None`, clears) the content commitment of a name;
    /// its owner or controllers. `expected_revision` guards against lost
    /// updates. A request repeated with the same `operation_id` is answered
    /// from its receipt without a change; the oldest receipt of a publisher
    /// is evicted when the bound is reached. `content_valid` is whether the
    /// storage domain holds the content.
    #[verifier::spinoff_prover]
    #[verifier::rlimit(60)]
    pub fn publish_content(&mut self, origin: Origin, name: NameId, content: Option<[u8; 32]>, expected_revision: Option<u64>, operation_id: OperationId, content_valid: bool, now: BlockNumber) -> (r: Result<Vec<NamesEvent>, NamesError>)
        requires
            old(self).wf(),
        ensures
            final(self).wf(),
            final(self).config() == old(self).config(),
            final(self).genesis() == old(self).genesis(),
            outcome(r, publish_content_spec(old(self)@, old(self).config(), origin, name, content, expected_revision, operation_id, content_valid, now), old(self)@, final(self)@),
    {
        let ghost s = self@;
        let who = match origin {
            Origin::Signed(a) => a,
            _ => return Err(NamesError::BadOrigin),
        };
        if self.paused {
            return Err(NamesError::Paused);
        }
        let request_hash = Self::request_hash(&name, content, expected_revision);
        let rk = pair_key_vec(who, &operation_id);
        match self.receipts.get(rk.as_slice()) {
            Some(receipt) => {
                if !id_eq(&receipt.request_hash, &request_hash) {
                    return Err(NamesError::OperationIdConflict);
                }
                let ev = vec![NamesEvent::ContentSet {
                    name: receipt.name,
                    present: receipt.content.is_some(),
                    revision: receipt.revision,
                    operation_id,
                    replayed: true,
                }];
                proof {
                    assert(events_view(ev@) =~= seq![NamesEventView::ContentSet {
                        name: receipt.name,
                        present: receipt.content is Some,
                        revision: receipt.revision,
                        operation_id,
                        replayed: true,
                    }]);
                }
                return Ok(ev);
            },
            None => {},
        }
        if content.is_some() && !content_valid {
            return Err(NamesError::InvalidContentReference);
        }
        let current = match self.content_revisions.get(&name) {
            Some(c) => *c,
            None => 0,
        };
        match expected_revision {
            Some(e) => {
                if e != current {
                    return Err(NamesError::ContentRevisionConflict);
                }
            },
            None => {},
        }
        let revision = match current.checked_add(1) {
            Some(r) => r,
            None => return Err(NamesError::ContentRevisionConflict),
        };
        self.ensure_authorized(who, &name, now)?;
        let max = self.config.max_content_operation_receipts as usize;
        if max == 0 {
            return Err(NamesError::ContentOperationReceiptLimitDisabled);
        }
        let ak = acct_key_vec(who);
        let n = match self.receipt_ids.get(ak.as_slice()) {
            Some(ids) => ids.len(),
            None => 0,
        };
        let evict = n == max;
        let remaining = if evict { n - 1 } else { n };
        if remaining >= max {
            return Err(NamesError::ContentOperationReceiptLimitDisabled);
        }
        // All checks passed: apply the publication.
        let mut rec = match self.names.remove(&name) {
            Some(r) => r,
            None => return Err(NamesError::NameNotFound),
        };
        rec.content = content;
        let nk = array32_to_vec(&name);
        self.names.insert(nk, rec);
        let nk2 = array32_to_vec(&name);
        self.content_revisions.insert(nk2, revision);
        let mut ids = match self.receipt_ids.remove(ak.as_slice()) {
            Some(v) => v,
            None => Vec::new(),
        };
        let ghost ids0 = ids@;
        let mut ev: Vec<NamesEvent> = Vec::new();
        if evict {
            let evicted = ids.remove(0);
            let ek = pair_key_vec(who, &evicted);
            let _ = self.receipts.remove(ek.as_slice());
            ev.push(NamesEvent::ContentOperationReceiptPruned { owner: who, operation_id: evicted });
            proof {
                assert(ids@ =~= ids0.drop_first());
            }
        }
        ids.push(operation_id);
        self.receipt_ids.insert(ak, ids);
        let receipt = ContentOperationReceipt { request_hash, name, content, revision };
        self.receipts.insert(rk, receipt);
        ev.push(NamesEvent::ContentSet { name, present: content.is_some(), revision, operation_id, replayed: false });
        proof {
            let set = NamesEventView::ContentSet { name, present: content is Some, revision, operation_id, replayed: false };
            if evict {
                assert(events_view(ev@) =~= seq![NamesEventView::ContentOperationReceiptPruned { owner: who, operation_id: ids0[0] }, set]);
            } else {
                assert(events_view(ev@) =~= seq![set]);
            }
            let ids_s = seq_or_empty(s.receipt_ids, acct_key(who));
            assert(ids0 == ids_s);
            let ids1 = if evict { ids_s.drop_first() } else { ids_s };
            let receipts1 = if evict { s.receipts.remove(pair_key(who, ids_s[0]@)) } else { s.receipts };
            assert(self@.names =~= s.names.insert(name@, NameRecordView { content, ..s.names[name@] }));
            assert(self@.content_revisions =~= s.content_revisions.insert(name@, revision));
            assert(self@.receipt_ids =~= s.receipt_ids.insert(acct_key(who), ids1.push(operation_id)));
            assert(self@.receipts =~= receipts1.insert(pair_key(who, operation_id@), receipt));
        }
        Ok(ev)
    }
}

/// `a + b`, or `u32::MAX` when that overflows.
pub open spec fn sat_add32(a: u32, b: u32) -> u32 {
    if a + b > u32::MAX {
        u32::MAX
    } else {
        (a + b) as u32
    }
}

/// Where a new name goes: its depth and, for a child, its parent's expiry; or
/// the error that stops the registration there.
pub open spec fn placement(s: NamesView, c: NamesConfig, owner: AccountId, parent: Option<NameId>, label: Seq<u8>, replacing: bool, now: BlockNumber) -> Result<(u32, Option<BlockNumber>), NamesError> {
    match parent {
        Some(p) => if !s.names.contains_key(p@) {
            Err(NamesError::ParentNotFound)
        } else if now >= s.names[p@].expires_at {
            Err(NamesError::ParentExpired)
        } else if s.names[p@].owner != owner && !controllers_of(s, p).contains(owner) {
            Err(NamesError::NotAuthorized)
        } else if sat_add32(s.names[p@].depth, 1) > c.max_name_depth {
            Err(NamesError::MaximumDepth)
        } else if !replacing && children_of(s, p).len() >= c.max_children_per_name {
            Err(NamesError::TooManyChildren)
        } else {
            Ok((sat_add32(s.names[p@].depth, 1), Some(s.names[p@].expires_at)))
        },
        None => if s.protected_labels.contains(label) {
            Err(NamesError::ProtectedLabel)
        } else if s.bootstrap_reservations.contains_key(label) && s.bootstrap_reservations[label].beneficiary
            != Some(owner) {
            Err(NamesError::ReservedName)
        } else if !replacing && s.root_names.len() >= c.max_root_names {
            Err(NamesError::TooManyRootNames)
        } else {
            Ok((0, None))
        },
    }
}

/// The check of the reservation of `name` for `owner` at `now`: an expired
/// reservation is dropped, a live one admits only its beneficiary.
pub open spec fn reservation_step(s: NamesView, name: Seq<u8>, owner: AccountId, now: BlockNumber) -> Result<NamesView, NamesError> {
    if !s.reservations.contains_key(name) {
        Ok(s)
    } else if s.reservations[name].expires_at matches Some(e) && now >= e {
        Ok(NamesView { reservations: s.reservations.remove(name), ..s })
    } else if s.reservations[name].beneficiary != Some(owner) {
        Err(NamesError::ReservedName)
    } else {
        Ok(s)
    }
}

/// Outcome of [`NamesRegistry::register`]. An expired name is replaced.
pub open spec fn register_spec(s: NamesView, c: NamesConfig, g: [u8; 32], origin: Origin, parent: Option<NameId>, label: Seq<u8>, salt: Seq<u8>, now: BlockNumber) -> Result<(NamesView, Seq<NamesEventView>), NamesError> {
    match signer(origin) {
        None => Err(NamesError::BadOrigin),
        Some(owner) => {
            let nid = spec_name_id(g, parent, label);
            let ck = pair_key(owner, spec_commitment(g, owner, nid, salt)@);
            if s.paused {
                Err(NamesError::Paused)
            } else if !valid_label(label) {
                Err(NamesError::InvalidLabel)
            } else if salt.len() == 0 {
                Err(NamesError::InvalidSalt)
            } else if !s.commitments.contains_key(ck) {
                Err(NamesError::CommitmentNotFound)
            } else if now < sat_add(s.commitments[ck], c.min_commitment_age) {
                Err(NamesError::CommitmentTooYoung)
            } else if now > sat_add(s.commitments[ck], c.max_commitment_age) {
                Err(NamesError::CommitmentTooOld)
            } else {
                let replacing = s.names.contains_key(nid@);
                let name = nid;
                match placement(s, c, owner, parent, label, replacing, now) {
                    Err(e) => Err(e),
                    Ok((depth, pexp)) => match reservation_step(s, nid@, owner, now) {
                        Err(e) => Err(e),
                        Ok(s1) => if replacing && now < s.names[nid@].expires_at {
                            Err(NamesError::NameTaken)
                        } else if replacing && children_of(s, name).len() != 0 {
                            Err(NamesError::ChildrenRemain)
                        } else {
                            let s2 = if replacing { removed_state(s1, name, s.names[nid@]) } else { s1 };
                            let same = replacing && s.names[nid@].owner == owner;
                            let reg = sat_add(now, c.registration_period);
                            let expires = match pexp {
                                Some(pe) => if pe < reg { pe } else { reg },
                                None => reg,
                            };
                            if !same && names_of(s2, owner).len() >= c.max_names_per_owner {
                                Err(NamesError::TooManyNames)
                            } else if expires <= now {
                                Err(NamesError::InvalidRenewal)
                            } else if names_of(s2, owner).len() >= c.max_names_per_owner {
                                Err(NamesError::TooManyNames)
                            } else if parent matches Some(p) && children_of(s2, p).len() >= c.max_children_per_name {
                                Err(NamesError::TooManyChildren)
                            } else if parent is None && s2.root_names.len() >= c.max_root_names {
                                Err(NamesError::TooManyRootNames)
                            } else {
                                let rec = NameRecordView {
                                    parent,
                                    label,
                                    owner,
                                    expires_at: expires,
                                    depth,
                                    address: None,
                                    subject: None,
                                    attestation: None,
                                    content: None,
                                };
                                let s3 = NamesView {
                                    names: s2.names.insert(nid@, rec),
                                    owner_names: s2.owner_names.insert(acct_key(owner), names_of(s2, owner).push(name)),
                                    ..s2
                                };
                                let s4 = match parent {
                                    Some(p) => NamesView {
                                        children: s3.children.insert(p@, children_of(s3, p).push(name)),
                                        ..s3
                                    },
                                    None => NamesView { root_names: s3.root_names.push(name), ..s3 },
                                };
                                let s5 = NamesView {
                                    commitments: s4.commitments.remove(ck),
                                    commitment_count: decremented_count(s4, owner),
                                    reservations: s4.reservations.remove(nid@),
                                    ..s4
                                };
                                Ok((s5, seq![NamesEventView::NameRegistered {
                                    name,
                                    parent,
                                    label,
                                    owner,
                                    expires_at: expires,
                                }]))
                            }
                        },
                    },
                }
            }
        },
    }
}

/// Distinct accounts have distinct storage keys.
pub proof fn lemma_acct_key_injective(a: AccountId, b: AccountId)
    ensures
        (acct_key(a) == acct_key(b)) == (a == b),
{
    reveal_with_fuel(crate::big_endian::pow256, 9);
    crate::big_endian::lemma_be_roundtrip(a as nat, 8);
    crate::big_endian::lemma_be_roundtrip(b as nat, 8);
}

impl NamesRegistry {
    fn placement_exec(&self, owner: AccountId, parent: Option<NameId>, label: &[u8], replacing: bool, now: BlockNumber) -> (r: Result<(u32, Option<BlockNumber>), NamesError>)
        requires
            self.wf(),
        ensures
            r == placement(self@, self.config(), owner, parent, label@, replacing, now),
    {
        match parent {
            Some(p) => {
                let (pexp, pdepth) = match self.names.get(&p) {
                    Some(pr) => (pr.expires_at, pr.depth),
                    None => return Err(NamesError::ParentNotFound),
                };
                if now >= pexp {
                    return Err(NamesError::ParentExpired);
                }
                match self.ensure_authorized(owner, &p, now) {
                    Ok(()) => {},
                    Err(_) => return Err(NamesError::NotAuthorized),
                }
                let depth = pdepth.saturating_add(1);
                if depth > self.config.max_name_depth {
                    return Err(NamesError::MaximumDepth);
                }
                if !replacing && self.children_len(&p) >= self.config.max_children_per_name as usize {
                    return Err(NamesError::TooManyChildren);
                }
                Ok((depth, Some(pexp)))
            },
            None => {
                if self.protected_labels.contains_key(label) {
                    return Err(NamesError::ProtectedLabel);
                }
                match self.bootstrap_reservations.get(label) {
                    Some(res) => {
                        if res.beneficiary != Some(owner) {
                            return Err(NamesError::ReservedName);
                        }
                    },
                    None => {},
                }
                if !replacing && self.root_names.len() >= self.config.max_root_names as usize {
                    return Err(NamesError::TooManyRootNames);
                }
                Ok((0, None))
            },
        }
    }

    /// Whether the reservation of `name` lets `owner` register it at `now`,
    /// and whether it has expired (and is to be dropped).
    fn reservation_exec(&self, name: &NameId, owner: AccountId, now: BlockNumber) -> (r: Result<bool, NamesError>)
        requires
            self.wf(),
        ensures
            match reservation_step(self@, name@, owner, now) {
                Err(e) => r == Err::<bool, NamesError>(e),
                Ok(s1) => r is Ok && (s1 == if r->Ok_0 {
                    NamesView { reservations: self@.reservations.remove(name@), ..self@ }
                } else {
                    self@
                }),
            },
    {
        match self.reservations.get(name) {
            None => Ok(false),
            Some(res) => {
                match res.expires_at {
                    Some(e) => {
                        if now >= e {
                            return Ok(true);
                        }
                    },
                    None => {},
                }
                if res.beneficiary != Some(owner) {
                    Err(NamesError::ReservedName)
                } else {
                    Ok(false)
                }
            },
        }
    }

    /// The length of a name list after swap-removing `x`.
    fn len_without(v: Option<&Vec<NameId>>, x: &NameId) -> (r: usize)
        ensures
            r == remove_value(match v { Some(l) => l@, None => Seq::<NameId>::empty() }, *x).len(),
    {
        match v {
            Some(l) => {
                proof {
                    lemma_remove_value_len(l@, *x);
                }
                match position_id(l, x) {
                    Some(_) => l.len() - 1,
                    None => l.len(),
                }
            },
            None => {
                proof {
                    lemma_remove_value_len(Seq::<NameId>::empty(), *x);
                }
                0
            },
        }
    }

    /// Registers `label` under `parent` (a root name when `None`) for the
    /// signer, revealing a commitment stored between the minimum and maximum
    /// commitment age ago. An expired name without children is replaced. The
    /// name expires after the registration period, never after its parent.
    #[verifier::spinoff_prover]
    #[verifier::rlimit(100)]
    pub fn register(&mut self, origin: Origin, parent: Option<NameId>, label: Vec<u8>, salt: Vec<u8>, now: BlockNumber) -> (r: Result<Vec<NamesEvent>, NamesError>)
        requires
            old(self).wf(),
            label@.len() <= u32::MAX,
            salt@.len() <= u32::MAX,
        ensures
            final(self).wf(),
            final(self).config() == old(self).config(),
            final(self).genesis() == old(self).genesis(),
            outcome(r, register_spec(old(self)@, old(self).config(), old(self).genesis(), origin, parent, label@, salt@, now), old(self)@, final(self)@),
    {
        let ghost s = self@;
        let owner = match origin {
            Origin::Signed(a) => a,
            _ => return Err(NamesError::BadOrigin),
        };
        if self.paused {
            return Err(NamesError::Paused);
        }
        Self::ensure_valid_label(label.as_slice())?;
        if salt.len() == 0 {
            return Err(NamesError::InvalidSalt);
        }
        let commitment = self.registration_commitment(owner, parent, label.as_slice(), salt.as_slice());
        let ck = pair_key_vec(owner, &commitment);
        let created_at = match self.commitments.get(ck.as_slice()) {
            Some(c) => *c,
            None => return Err(NamesError::CommitmentNotFound),
        };
        if now < created_at.saturating_add(self.config.min_commitment_age) {
            return Err(NamesError::CommitmentTooYoung);
        }
        if now > created_at.saturating_add(self.config.max_commitment_age) {
            return Err(NamesError::CommitmentTooOld);
        }
        let name = self.derive_name_id(parent, label.as_slice());
        let existing: Option<NameRecord> = match self.names.get(&name) {
            Some(rec) => Some(rec.clone_record()),
            None => None,
        };
        let replacing = existing.is_some();
        let (depth, pexp) = self.placement_exec(owner, parent, label.as_slice(), replacing, now)?;
        let expired_reservation = self.reservation_exec(&name, owner, now)?;
        let mut same = false;
        match &existing {
            Some(rec) => {
                if now < rec.expires_at {
                    return Err(NamesError::NameTaken);
                }
                if self.children_len(&name) != 0 {
                    return Err(NamesError::ChildrenRemain);
                }
                same = rec.owner == owner;
            },
            None => {},
        }
        // Lengths of the indexes once the replaced name is gone.
        let ok = acct_key_vec(owner);
        let owner_len = if same {
            Self::len_without(self.owner_names.get(ok.as_slice()), &name)
        } else {
            self.names_len(owner)
        };
        let ghost s1 = if expired_reservation {
            NamesView { reservations: s.reservations.remove(name@), ..s }
        } else {
            s
        };
        let ghost s2 = if replacing { removed_state(s1, name, s.names[name@]) } else { s1 };
        proof {
            if replacing && !same {
                lemma_acct_key_injective(s.names[name@].owner, owner);
            }
            assert(names_of(s2, owner).len() == owner_len);
        }
        let reg = now.saturating_add(self.config.registration_period);
        let expires = match pexp {
            Some(pe) => if pe < reg { pe } else { reg },
            None => reg,
        };
        if !same && owner_len >= self.config.max_names_per_owner as usize {
            return Err(NamesError::TooManyNames);
        }
        if expires <= now {
            return Err(NamesError::InvalidRenewal);
        }
        if owner_len >= self.config.max_names_per_owner as usize {
            return Err(NamesError::TooManyNames);
        }
        match parent {
            Some(p) => {
                let plen = match &existing {
                    Some(rec) => {
                        if id_eq(&p, &name) {
                            0
                        } else {
                            let same_parent = match rec.parent {
                                Some(q) => id_eq(&q, &p),
                                None => false,
                            };
                            if same_parent {
                                let pk = array32_to_vec(&p);
                                Self::len_without(self.children.get(pk.as_slice()), &name)
                            } else {
                                self.children_len(&p)
                            }
                        }
                    },
                    None => self.children_len(&p),
                };
                proof {
                    if replacing {
                        lemma_id_view_eq(p, name);
                        match s.names[name@].parent {
                            Some(q) => {
                                lemma_id_view_eq(q, p);
                            },
                            None => {},
                        }
                    }
                    assert(children_of(s2, p).len() == plen);
                }
                if plen >= self.config.max_children_per_name as usize {
                    return Err(NamesError::TooManyChildren);
                }
            },
            None => {
                let rlen = match &existing {
                    Some(rec) => {
                        if rec.parent.is_none() {
                            Self::len_without(Some(&self.root_names), &name)
                        } else {
                            self.root_names.len()
                        }
                    },
                    None => self.root_names.len(),
                };
                proof {
                    assert(s2.root_names.len() == rlen);
                }
                if rlen >= self.config.max_root_names as usize {
                    return Err(NamesError::TooManyRootNames);
                }
            },
        }
        // All checks passed: apply the registration.
        if expired_reservation {
            let _ = self.reservations.remove(&name);
        }
        proof {
            assert(self@ == s1);
        }
        match &existing {
            Some(rec) => {
                self.remove_name_state(&name, rec);
            },
            None => {},
        }
        proof {
            assert(self@ == s2);
        }
        let ghost lab = label@;
        let label_copy = label.clone();
        proof {
            assert(label_copy@ =~= lab);
        }
        let rec = NameRecord {
            parent,
            label: label_copy,
            owner,
            expires_at: expires,
            depth,
            address: None,
            subject: None,
            attestation: None,
            content: None,
        };
        let nk = array32_to_vec(&name);
        self.names.insert(nk, rec);
        let mut on = Self::take_ids(&mut self.owner_names, ok.as_slice());
        on.push(name);
        self.owner_names.insert(ok, on);
        let ghost s3 = self@;
        match parent {
            Some(p) => {
                let pk = array32_to_vec(&p);
                let mut ch = Self::take_ids(&mut self.children, pk.as_slice());
                ch.push(name);
                self.children.insert(pk, ch);
            },
            None => {
                self.root_names.push(name);
            },
        }
        let ghost s4 = self@;
        let _ = self.commitments.remove(ck.as_slice());
        self.decrement_commitments(owner);
        let _ = self.reservations.remove(&name);
        let ev = vec![NamesEvent::NameRegistered { name, parent, label, owner, expires_at: expires }];
        proof {
            assert(events_view(ev@) =~= seq![NamesEventView::NameRegistered {
                name,
                parent,
                label: lab,
                owner,
                expires_at: expires,
            }]);
            let rv = NameRecordView {
                parent,
                label: lab,
                owner,
                expires_at: expires,
                depth,
                address: None,
                subject: None,
                attestation: None,
                content: None,
            };
            assert(s3.names =~= s2.names.insert(name@, rv));
            assert(s3.owner_names =~= s2.owner_names.insert(acct_key(owner), names_of(s2, owner).push(name)));
            match parent {
                Some(p) => {
                    assert(s4.children =~= s3.children.insert(p@, children_of(s3, p).push(name)));
                },
                None => {},
            }
            assert(self@.commitments =~= s4.commitments.remove(ck@));
            assert(self@.reservations =~= s4.reservations.remove(name@));
        }
        Ok(ev)
    }
}

/// The root-label reservations of a genesis configuration, later entries
/// replacing earlier ones.
pub open spec fn genesis_reservations(rr: Seq<(Vec<u8>, Option<AccountId>)>) -> Map<Seq<u8>, Reservation>
    decreases rr.len(),
{
    if rr.len() == 0 {
        Map::empty()
    } else {
        genesis_reservations(rr.drop_last()).insert(
            rr.last().0@,
            Reservation { beneficiary: rr.last().1, expires_at: None },
        )
    }
}

/// The labels of a genesis configuration.
pub open spec fn genesis_labels(rr: Seq<(Vec<u8>, Option<AccountId>)>) -> Seq<Seq<u8>> {
    Seq::new(rr.len(), |i: int| rr[i].0@)
}

/// A genesis configuration that the registry accepts: registrars and labels
/// are distinct and within their bounds, and every label meets the label
/// policy and the label length bound.
pub open spec fn valid_genesis(c: NamesConfig, registrars: Seq<AccountId>, rr: Seq<(Vec<u8>, Option<AccountId>)>) -> bool {
    &&& registrars.len() <= c.max_registrars
    &&& forall|i: int, j: int| 0 <= i < j < registrars.len() ==> registrars[i] != registrars[j]
    &&& rr.len() <= c.max_bootstrap_reservations
    &&& forall|i: int| 0 <= i < rr.len() ==> valid_label(#[trigger] rr[i].0@) && rr[i].0@.len() <= c.max_label_length
    &&& forall|i: int, j: int| 0 <= i < j < rr.len() ==> rr[i].0@ != rr[j].0@
}

/// The state of a registry built from a genesis configuration.
pub open spec fn genesis_state(registrars: Seq<AccountId>, rr: Seq<(Vec<u8>, Option<AccountId>)>) -> NamesView {
    NamesView {
        paused: false,
        commitments: Map::empty(),
        commitment_count: Map::empty(),
        names: Map::empty(),
        content_revisions: Map::empty(),
        receipts: Map::empty(),
        receipt_ids: Map::empty(),
        controllers: Map::empty(),
        registrars,
        bootstrap_reservations: genesis_reservations(rr),
        bootstrap_labels: genesis_labels(rr),
        owner_names: Map::empty(),
        root_names: Seq::empty(),
        children: Map::empty(),
        primary_name: Map::empty(),
        text_records: Map::empty(),
        text_keys: Map::empty(),
        reservations: Map::empty(),
        protected_labels: Set::empty(),
    }
}

impl NamesRegistry {
    /// Builds the registry at genesis, bound to `genesis_hash`, with its
    /// registrars and the root labels reserved for a beneficiary (or, with
    /// `None`, for administration) without expiry.
    pub fn new(config: NamesConfig, genesis_hash: [u8; 32], registrars: Vec<AccountId>, root_reservations: Vec<(Vec<u8>, Option<AccountId>)>) -> (r: NamesRegistry)
        requires
            valid_genesis(config, registrars@, root_reservations@),
        ensures
            r.wf(),
            r.config() == config,
            r.genesis() == genesis_hash,
            r@ == genesis_state(registrars@, root_reservations@),
    {
        let mut bootstrap: Table<Reservation> = Table::new();
        let mut labels: Vec<Vec<u8>> = Vec::new();
        let ghost rr = root_reservations@;
        let mut i: usize = 0;
        while i < root_reservations.len()
            invariant
                i <= rr.len(),
                rr == root_reservations@,
                bootstrap.wf(),
                bootstrap@ == genesis_reservations(rr.subrange(0, i as int)),
                labels@.len() == i,
                key_views(labels@) == genesis_labels(rr.subrange(0, i as int)),
            decreases rr.len() - i,
        {
            let (label, beneficiary) = &root_reservations[i];
            let k = label.clone();
            let l2 = label.clone();
            proof {
                assert(k@ =~= label@);
                assert(l2@ =~= label@);
                assert(rr.subrange(0, i + 1).drop_last() =~= rr.subrange(0, i as int));
            }
            let ghost before = labels@;
            bootstrap.insert(k, Reservation { beneficiary: *beneficiary, expires_at: None });
            labels.push(l2);
            i += 1;
            proof {
                let done = rr.subrange(0, i as int);
                let prev = rr.subrange(0, i - 1);
                assert(labels@ == before.push(l2));
                assert forall|j: int| 0 <= j < i implies #[trigger] key_views(labels@)[j] == genesis_labels(done)[j] by {
                    if j < i - 1 {
                        assert(key_views(before)[j] == genesis_labels(prev)[j]);
                        assert(labels@[j] == before[j]);
                    } else {
                        assert(labels@[j] == l2);
                    }
                }
                assert(key_views(labels@) =~= genesis_labels(done));
            }
        }
        proof {
            assert(rr.subrange(0, rr.len() as int) =~= rr);
        }
        let r = NamesRegistry {
            config,
            genesis_hash,
            paused: false,
            commitments: Table::new(),
            commitment_count: Table::new(),
            names: Table::new(),
            content_revisions: Table::new(),
            receipts: Table::new(),
            receipt_ids: Table::new(),
            controllers: Table::new(),
            registrars,
            bootstrap_reservations: bootstrap,
            bootstrap_labels: labels,
            owner_names: Table::new(),
            root_names: Vec::new(),
            children: Table::new(),
            primary_name: Table::new(),
            text_records: Table::new(),
            text_keys: Table::new(),
            reservations: Table::new(),
            protected_labels: Table::new(),
        };
        proof {
            assert(r@.text_keys =~= Map::<Seq<u8>, Seq<Seq<u8>>>::empty());
            assert(r@.protected_labels =~= Set::<Seq<u8>>::empty());
        }
        r
    }

    /// The record of a name, if registered (expired or not).
    pub fn name_record(&self, name: &NameId) -> (r: Option<NameRecord>)
        requires
            self.wf(),
        ensures
            r matches Some(rec) ==> self@.names.contains_key(name@) && rec@ == self@.names[name@],
            r is None ==> !self@.names.contains_key(name@),
    {
        match self.names.get(name) {
            Some(rec) => Some(rec.clone_record()),
            None => None,
        }
    }

    /// The names of `owner`, in index order.
    pub fn names_by_owner(&self, owner: AccountId) -> (r: Vec<NameId>)
        requires
            self.wf(),
        ensures
            r@ == names_of(self@, owner),
    {
        let ak = acct_key_vec(owner);
        match self.owner_names.get(ak.as_slice()) {
            Some(v) => {
                let c = v.clone();
                proof {
                    assert forall|i: int| 0 <= i < c@.len() implies c@[i] == v@[i] by {
                        assert(cloned::<NameId>(v@[i], c@[i]));
                    }
                    assert(c@ =~= v@);
                }
                c
            },
            None => Vec::new(),
        }
    }

    /// Whether the registry is paused.
    pub fn paused(&self) -> (r: bool)
        ensures
            r == self@.paused,
    {
        self.paused
    }
}

/// Commitments are bound to their account: a registration by `who`
/// succeeds only if `who` itself committed to the name and salt, so a front
/// runner who saw the reveal cannot use another account's commitment. The
/// commitment must have aged at least the minimum and at most the maximum
/// commitment age, and the registration consumes it.
pub proof fn lemma_register_needs_own_commitment(
    s: NamesView,
    c: NamesConfig,
    g: [u8; 32],
    who: AccountId,
    parent: Option<NameId>,
    label: Seq<u8>,
    salt: Seq<u8>,
    now: BlockNumber,
)
    requires
        register_spec(s, c, g, Origin::Signed(who), parent, label, salt, now) is Ok,
    ensures
        ({
            let ck = pair_key(who, spec_commitment(g, who, spec_name_id(g, parent, label), salt)@);
            &&& s.commitments.contains_key(ck)
            &&& sat_add(s.commitments[ck], c.min_commitment_age) <= now
            &&& now <= sat_add(s.commitments[ck], c.max_commitment_age)
            &&& !register_spec(s, c, g, Origin::Signed(who), parent, label, salt, now)->Ok_0.0.commitments.contains_key(ck)
        }),
{
}

/// Publishing content is idempotent per signer and operation: once a
/// publication succeeded, repeating the same request changes nothing and
/// answers with the recorded outcome, marked as replayed.
pub proof fn lemma_publish_content_replay(
    s: NamesView,
    c: NamesConfig,
    who: AccountId,
    name: NameId,
    content: Option<[u8; 32]>,
    expected: Option<u64>,
    op: OperationId,
    content_valid: bool,
    now: BlockNumber,
    content_valid2: bool,
    now2: BlockNumber,
)
    requires
        publish_content_spec(s, c, Origin::Signed(who), name, content, expected, op, content_valid, now) is Ok,
    ensures
        ({
            let (s1, ev) = publish_content_spec(s, c, Origin::Signed(who), name, content, expected, op, content_valid, now)->Ok_0;
            let rc = s1.receipts[pair_key(who, op@)];
            &&& s1.receipts.contains_key(pair_key(who, op@))
            &&& publish_content_spec(s1, c, Origin::Signed(who), name, content, expected, op, content_valid2, now2)
                == Ok::<(NamesView, Seq<NamesEventView>), NamesError>(
                (
                    s1,
                    seq![NamesEventView::ContentSet {
                        name: rc.name,
                        present: rc.content is Some,
                        revision: rc.revision,
                        operation_id: op,
                        replayed: true,
                    }],
                ),
            )
        }),
{
}

} // verus!
