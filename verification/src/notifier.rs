//! The ring-root notifier: shares the ring roots of member collections with
//! subscriber chains.
//!
//! Changed ring roots are recorded in pages; a page is sealed into a batch
//! that is sent to every subscriber that has not yet received it, after which
//! the batch is cleared. New subscribers are initialised page by page.
//!
//! Each entry point takes what it needs from its surroundings as plain
//! values: the block number, the clock (seconds), the largest message the
//! channel to a subscriber carries, the ring roots read from the collection
//! and whether a message was delivered. Messages to subscribers are returned
//! to the caller, which sends them and reports back.
use crate::big_endian::lex_lt;
use crate::keyed::{KeyTable, TableKey};
use crate::reality::{Identifier, RevisionIndex, RingExponent, RingIndex};
use crate::ring_root::{RingRootOp, RingRootUpdate, RingRootUpdatesBatch, SequenceNumber};
use crate::table::id_eq;
use crate::weights::{weight_add, weight_scale, weight_within, Weight};
use vstd::prelude::*;

verus! {

broadcast use vstd::array::group_array_axioms;

/// Identifier of a subscriber chain.
pub type ParaId = u32;

/// Block number.
pub type BlockNumber = u32;

/// Retry window, in blocks, of transactions submitted by the offchain worker.
pub const TX_RETRY_WINDOW: u32 = 8;

/// Blocks between repeated warnings about rejected offchain transactions.
pub const STALL_WARN_PERIOD: u32 = 32;

/// Longevity of transactions submitted by the offchain worker.
pub const TX_LONGEVITY: u64 = 64;

/// Paging state of the pending updates.
#[derive(Clone, Copy, PartialEq, Eq, Debug, Default)]
pub struct PagingState<BlockNumber> {
    /// Page that ring-root changes are written to.
    pub write_page: u16,
    /// Page that the next batch is read from.
    pub send_page: u16,
    /// Block at which the last batch was sealed.
    pub last_update_block: BlockNumber,
}

/// The batch being distributed.
#[derive(Clone, Copy, PartialEq, Eq, Debug, Default)]
pub struct BatchDistributionState<BlockNumber> {
    /// Increasing batch number; a subscriber initialised at or after it
    /// already has its data.
    pub sequence: SequenceNumber,
    /// Clock time, in seconds, at which the batch was created.
    pub source_time: u64,
    /// Block at which the batch was sealed.
    pub sealed_at: BlockNumber,
    /// Subscribers still waiting for the batch.
    pub remaining_subscribers: u32,
}

/// Reasons for which an offchain-worker transaction is refused.
#[derive(Clone, Copy, PartialEq, Eq, Debug, Structural)]
pub enum CustomInvalidity {
    TransactionNotLocal,
    BatchInProgress,
    NoPendingWork,
    NoBatchActive,
    AlreadySent,
    SubscriberNotFound,
    NoPendingInit,
    BatchNotStuck,
}

/// The code of a refusal reason.
pub open spec fn invalidity_code(c: CustomInvalidity) -> u8 {
    match c {
        CustomInvalidity::TransactionNotLocal => 200,
        CustomInvalidity::BatchInProgress => 201,
        CustomInvalidity::NoPendingWork => 202,
        CustomInvalidity::NoBatchActive => 203,
        CustomInvalidity::AlreadySent => 204,
        CustomInvalidity::SubscriberNotFound => 205,
        CustomInvalidity::NoPendingInit => 206,
        CustomInvalidity::BatchNotStuck => 207,
    }
}

impl CustomInvalidity {
    /// The code carried by the refusal.
    pub fn code(&self) -> (r: u8)
        ensures
            r == invalidity_code(*self),
    {
        match self {
            CustomInvalidity::TransactionNotLocal => 200,
            CustomInvalidity::BatchInProgress => 201,
            CustomInvalidity::NoPendingWork => 202,
            CustomInvalidity::NoBatchActive => 203,
            CustomInvalidity::AlreadySent => 204,
            CustomInvalidity::SubscriberNotFound => 205,
            CustomInvalidity::NoPendingInit => 206,
            CustomInvalidity::BatchNotStuck => 207,
        }
    }
}

/// Initialisation of a subscriber, one page at a time.
#[derive(Clone, Debug)]
pub struct PendingInitState {
    /// Subscribed collections, strictly ascending.
    pub collections: Vec<(Identifier, RingExponent)>,
    /// Index of the collection being sent.
    pub current_collection_index: u32,
    /// Ring after which the next page starts; `None` is the first ring.
    pub after_ring_index: Option<RingIndex>,
    /// Sequence number of this initialisation.
    pub sequence: SequenceNumber,
    /// Clock time of this initialisation.
    pub source_time: u64,
    /// Index of the subscriber pallet on the subscriber chain.
    pub pallet_index: u8,
}

/// A subscriber chain.
#[derive(Clone, Debug)]
pub struct SubscriberInfo {
    /// Subscribed collections, strictly ascending.
    pub collections: Vec<(Identifier, RingExponent)>,
    /// Batch sequence number at the time of initialisation; batches up to it
    /// are already known to the subscriber.
    pub last_init_sequence: SequenceNumber,
    /// Index of the subscriber pallet on the subscriber chain.
    pub pallet_index: u8,
}

/// Value view of a [`PendingInitState`].
pub struct PendingInitView {
    pub collections: Seq<(Identifier, RingExponent)>,
    pub current_collection_index: u32,
    pub after_ring_index: Option<RingIndex>,
    pub sequence: SequenceNumber,
    pub source_time: u64,
    pub pallet_index: u8,
}

/// Value view of a [`SubscriberInfo`].
pub struct SubscriberInfoView {
    pub collections: Seq<(Identifier, RingExponent)>,
    pub last_init_sequence: SequenceNumber,
    pub pallet_index: u8,
}

impl View for PendingInitState {
    type V = PendingInitView;

    open spec fn view(&self) -> PendingInitView {
        PendingInitView {
            collections: self.collections@,
            current_collection_index: self.current_collection_index,
            after_ring_index: self.after_ring_index,
            sequence: self.sequence,
            source_time: self.source_time,
            pallet_index: self.pallet_index,
        }
    }
}

impl View for SubscriberInfo {
    type V = SubscriberInfoView;

    open spec fn view(&self) -> SubscriberInfoView {
        SubscriberInfoView {
            collections: self.collections@,
            last_init_sequence: self.last_init_sequence,
            pallet_index: self.pallet_index,
        }
    }
}

/// Key of a pending ring-root change: page, collection and ring.
#[derive(Clone, Copy, PartialEq, Eq, Debug)]
pub struct PendingKey {
    pub page: u16,
    pub identifier: Identifier,
    pub ring_index: RingIndex,
}

/// Key of a replay cooldown: subscriber and collection.
#[derive(Clone, Copy, PartialEq, Eq, Debug)]
pub struct ReplayKey {
    pub para_id: ParaId,
    pub identifier: Identifier,
}

impl TableKey for PendingKey {
    fn same(&self, other: &Self) -> (r: bool) {
        self.page == other.page && self.ring_index == other.ring_index && id_eq(
            &self.identifier,
            &other.identifier,
        )
    }
}

impl TableKey for ReplayKey {
    fn same(&self, other: &Self) -> (r: bool) {
        self.para_id == other.para_id && id_eq(&self.identifier, &other.identifier)
    }
}

/// Origin of a dispatched notifier call.
#[derive(Clone, Copy, PartialEq, Eq, Debug, Structural)]
pub enum NotifierOrigin {
    /// The origin allowed to manage subscriptions.
    Manager,
    /// A subscriber chain speaking for itself.
    Subscriber(ParaId),
    /// Any signed origin.
    Signed,
    /// A transaction of the offchain worker that passed its authorisation.
    Authorized,
    /// Anything else.
    Other,
}

/// Errors of the notifier.
#[derive(Clone, Copy, PartialEq, Eq, Debug, Structural)]
pub enum NotifierError {
    /// The origin may not make this call.
    BadOrigin,
    SubscriberNotFound,
    AlreadySubscribed,
    TooManySubscribers,
    /// Collections must be strictly ascending.
    InvalidCollectionsList,
    TooManyUpdates,
    XcmSendFailed,
    NotSubscribedToCollection,
    InvalidRingIndex,
    ExceedsChannelCapacity,
    NoBatchActive,
    NoPendingInit,
    ReplayCooldownActive,
    EmptyRingIndices,
}

/// Events of the notifier.
#[derive(Clone, Copy, PartialEq, Eq, Debug)]
pub enum NotifierEvent {
    Subscribed { para_id: ParaId },
    Unsubscribed { para_id: ParaId },
    UpdatesSent { para_id: ParaId, update_count: u32 },
    UpdateSendFailed { para_id: ParaId },
    ReplayRequested { para_id: ParaId, identifier: Identifier, indices_count: u32 },
    BatchAbandoned { sequence: SequenceNumber },
}

/// Constants of a notifier deployment.
#[derive(Clone, Copy, PartialEq, Eq, Debug, Structural)]
pub struct NotifierConfig {
    pub max_subscribers: u32,
    pub max_updates_per_batch: u32,
    pub max_collections_per_subscriber: u32,
    pub max_collections: u32,
    /// Blocks after which a non-empty write page is sealed.
    pub update_trigger_blocks: BlockNumber,
    /// Number of updates on the write page that seals it at once.
    pub update_trigger_threshold: u32,
    pub offchain_worker_interval: BlockNumber,
    pub stuck_batch_timeout: BlockNumber,
    pub replay_cooldown_seconds: u64,
    /// Largest encoded size of one ring-root update.
    pub update_size: u32,
    /// Encoded size of a message to a subscriber that carries no update.
    pub xcm_overhead: u32,
}

/// The checks a deployment's constants must pass: the trigger threshold and
/// the per-subscriber collection bound fit in a batch, the latter also in
/// the collection bound, an update has a size, and submitted transactions
/// expire before a batch can be stuck.
pub open spec fn valid_config(c: NotifierConfig) -> bool {
    &&& c.update_trigger_threshold <= c.max_updates_per_batch
    &&& c.update_size > 0
    &&& c.max_collections_per_subscriber <= c.max_collections
    &&& c.max_collections_per_subscriber <= c.max_updates_per_batch
    &&& TX_LONGEVITY < c.stuck_batch_timeout
}

/// The worst-case weights of the notifier's calls as the runtime's weight
/// table gives them for `max_updates_per_batch` updates, the weight of one
/// replayed update at the subscriber, and the largest weight the runtime
/// admits for a normal extrinsic (`None` where it sets none).
#[derive(Clone, Copy, PartialEq, Eq, Debug, Structural)]
pub struct NotifierWeights {
    pub request_replay: Weight,
    pub request_replay_remote: Weight,
    pub enqueue_updates: Weight,
    pub authorize_enqueue_updates: Weight,
    pub send_batch: Weight,
    pub authorize_send_batch: Weight,
    pub send_init_page: Weight,
    pub authorize_send_init_page: Weight,
    pub normal_max_extrinsic: Option<Weight>,
}

/// Every call that the offchain worker submits, with its authorization, and
/// a full replay request fit in a normal extrinsic; without a bound for normal
/// extrinsics nothing fits.
pub open spec fn weights_fit(c: NotifierConfig, w: NotifierWeights) -> bool {
    match w.normal_max_extrinsic {
        None => false,
        Some(m) => {
            &&& weight_within(
                weight_add(w.request_replay, weight_scale(w.request_replay_remote, c.max_updates_per_batch as u64)),
                m,
            )
            &&& weight_within(weight_add(w.enqueue_updates, w.authorize_enqueue_updates), m)
            &&& weight_within(weight_add(w.send_batch, w.authorize_send_batch), m)
            &&& weight_within(weight_add(w.send_init_page, w.authorize_send_init_page), m)
        },
    }
}

impl NotifierConfig {
    /// Whether the constants and the worst-case weights pass the deployment
    /// checks.
    pub fn integrity_test(&self, weights: &NotifierWeights) -> (r: bool)
        ensures
            r == (valid_config(*self) && weights_fit(*self, *weights)),
    {
        let constants = self.update_trigger_threshold <= self.max_updates_per_batch && self.update_size > 0
            && self.max_collections_per_subscriber <= self.max_collections
            && self.max_collections_per_subscriber <= self.max_updates_per_batch && TX_LONGEVITY
            < self.stuck_batch_timeout as u64;
        if !constants {
            return false;
        }
        let m = match weights.normal_max_extrinsic {
            Some(m) => m,
            None => return false,
        };
        let max_n = self.max_updates_per_batch as u64;
        weights.request_replay.saturating_add(weights.request_replay_remote.saturating_mul(max_n)).all_lte(m)
            && weights.enqueue_updates.saturating_add(weights.authorize_enqueue_updates).all_lte(m)
            && weights.send_batch.saturating_add(weights.authorize_send_batch).all_lte(m)
            && weights.send_init_page.saturating_add(weights.authorize_send_init_page).all_lte(m)
    }
}

/// The notifier's state as values.
pub struct NotifierView {
    pub subscribers: Map<ParaId, SubscriberInfoView>,
    pub sealed_sequence: SequenceNumber,
    pub page_state: PagingState<BlockNumber>,
    /// Pending ring-root changes.
    pub pending: Set<PendingKey>,
    /// Number of changes recorded per page; absent means zero.
    pub page_counts: Map<u16, u32>,
    pub pending_init: Map<ParaId, PendingInitView>,
    /// Ring indices per collection of the sealed batch.
    pub sealed_indices: Map<Identifier, Seq<RingIndex>>,
    pub current_batch: Option<BatchDistributionState<BlockNumber>>,
    /// Subscribers that received the current batch.
    pub served: Set<ParaId>,
    /// Last replay time per subscriber and collection.
    pub last_replay: Map<ReplayKey, u64>,
}

/// The ring-root notifier.
pub struct Notifier {
    config: NotifierConfig,
    subscribers: KeyTable<ParaId, SubscriberInfo>,
    sealed_sequence: SequenceNumber,
    page_state: PagingState<BlockNumber>,
    pending: KeyTable<PendingKey, ()>,
    page_counts: KeyTable<u16, u32>,
    pending_init: KeyTable<ParaId, PendingInitState>,
    sealed_indices: KeyTable<Identifier, Vec<RingIndex>>,
    current_batch: Option<BatchDistributionState<BlockNumber>>,
    served: KeyTable<ParaId, ()>,
    last_replay: KeyTable<ReplayKey, u64>,
}

impl View for Notifier {
    type V = NotifierView;

    closed spec fn view(&self) -> NotifierView {
        NotifierView {
            subscribers: self.subscribers@,
            sealed_sequence: self.sealed_sequence,
            page_state: self.page_state,
            pending: self.pending@.dom(),
            page_counts: self.page_counts@,
            pending_init: self.pending_init@,
            sealed_indices: self.sealed_indices@,
            current_batch: self.current_batch,
            served: self.served@.dom(),
            last_replay: self.last_replay@,
        }
    }
}

/// Whether the identifiers of `cs` are strictly ascending.
pub open spec fn ascending_collections(cs: Seq<(Identifier, RingExponent)>) -> bool {
    forall|i: int| 0 <= i < cs.len() - 1 ==> lex_lt(#[trigger] cs[i].0@, cs[i + 1].0@)
}

/// Whether `cs` holds the collection `id`.
pub open spec fn holds_collection(cs: Seq<(Identifier, RingExponent)>, id: Identifier) -> bool {
    exists|i: int| 0 <= i < cs.len() && #[trigger] cs[i].0 == id
}

/// The number of changes recorded for `page`.
pub open spec fn page_count(s: NotifierView, page: u16) -> u32 {
    if s.page_counts.contains_key(page) {
        s.page_counts[page]
    } else {
        0
    }
}

/// Whether `m2` is what removing at most `limit` entries of `m1` leaves: all
/// of them when there are no more than `limit`.
pub open spec fn bounded_clear<K, V>(m1: Map<K, V>, m2: Map<K, V>, limit: u32) -> bool {
    &&& m2 <= m1
    &&& m2.len() == if m1.len() <= limit {
        0
    } else {
        (m1.len() - limit) as nat
    }
}

/// `bounded_clear` on sets.
pub open spec fn bounded_clear_set<K>(s1: Set<K>, s2: Set<K>, limit: u32) -> bool {
    &&& s2 <= s1
    &&& s2.len() == if s1.len() <= limit {
        0
    } else {
        (s1.len() - limit) as nat
    }
}

/// Whether `after` is `before` with the batch cleared: no current batch, and
/// the sealed indices and served subscribers cleared up to their bounds.
pub open spec fn batch_cleared(c: NotifierConfig, before: NotifierView, after: NotifierView) -> bool {
    &&& after.current_batch is None
    &&& bounded_clear(before.sealed_indices, after.sealed_indices, c.max_collections)
    &&& bounded_clear_set(before.served, after.served, c.max_subscribers)
    &&& after.subscribers == before.subscribers
    &&& after.sealed_sequence == before.sealed_sequence
    &&& after.page_state == before.page_state
    &&& after.pending == before.pending
    &&& after.page_counts == before.page_counts
    &&& after.pending_init == before.pending_init
    &&& after.last_replay == before.last_replay
}

impl Notifier {
    /// Every table is well formed.
    pub closed spec fn wf(&self) -> bool {
        &&& self.subscribers.wf()
        &&& self.pending.wf()
        &&& self.page_counts.wf()
        &&& self.pending_init.wf()
        &&& self.sealed_indices.wf()
        &&& self.served.wf()
        &&& self.last_replay.wf()
    }

    /// The deployment's constants.
    pub closed spec fn config(&self) -> NotifierConfig {
        self.config
    }

    /// A notifier with no subscriber and nothing pending.
    pub fn new(config: NotifierConfig) -> (r: Notifier)
        ensures
            r.wf(),
            r.config() == config,
            r@.subscribers == Map::<ParaId, SubscriberInfoView>::empty(),
            r@.sealed_sequence == 0,
            r@.page_state == (PagingState::<BlockNumber> { write_page: 0, send_page: 0, last_update_block: 0 }),
            r@.pending == Set::<PendingKey>::empty(),
            r@.page_counts == Map::<u16, u32>::empty(),
            r@.pending_init == Map::<ParaId, PendingInitView>::empty(),
            r@.sealed_indices == Map::<Identifier, Seq<RingIndex>>::empty(),
            r@.current_batch is None,
            r@.served == Set::<ParaId>::empty(),
            r@.last_replay == Map::<ReplayKey, u64>::empty(),
    {
        let r = Notifier {
            config,
            subscribers: KeyTable::new(),
            sealed_sequence: 0,
            page_state: PagingState { write_page: 0, send_page: 0, last_update_block: 0 },
            pending: KeyTable::new(),
            page_counts: KeyTable::new(),
            pending_init: KeyTable::new(),
            sealed_indices: KeyTable::new(),
            current_batch: None,
            served: KeyTable::new(),
            last_replay: KeyTable::new(),
        };
        proof {
            assert(r@.pending =~= Set::<PendingKey>::empty());
            assert(r@.served =~= Set::<ParaId>::empty());
        }
        r
    }

    /// The deployment's constants.
    pub fn notifier_config(&self) -> (r: NotifierConfig)
        ensures
            r == self.config(),
    {
        self.config
    }

    /// The paging state.
    pub fn page_state(&self) -> (r: PagingState<BlockNumber>)
        ensures
            r == self@.page_state,
    {
        self.page_state
    }

    /// The current batch, if any.
    pub fn current_batch(&self) -> (r: Option<BatchDistributionState<BlockNumber>>)
        ensures
            r == self@.current_batch,
    {
        self.current_batch
    }

    /// The sequence number of the last sealed batch.
    pub fn sealed_batch_sequence(&self) -> (r: SequenceNumber)
        ensures
            r == self@.sealed_sequence,
    {
        self.sealed_sequence
    }

    /// The number of subscribers.
    pub fn subscriber_count(&self) -> (r: usize)
        requires
            self.wf(),
        ensures
            r == self@.subscribers.len(),
    {
        self.subscribers.len()
    }

    /// The record of a subscriber.
    pub fn subscriber(&self, para_id: ParaId) -> (r: Option<SubscriberInfo>)
        requires
            self.wf(),
        ensures
            r matches Some(i) ==> self@.subscribers.contains_key(para_id) && i@ == self@.subscribers[para_id],
            r is None ==> !self@.subscribers.contains_key(para_id),
    {
        match self.subscribers.get(&para_id) {
            Some(i) => Some(clone_subscriber(i)),
            None => None,
        }
    }

    /// The initialisation state of a subscriber.
    pub fn pending_init(&self, para_id: ParaId) -> (r: Option<PendingInitState>)
        requires
            self.wf(),
        ensures
            r matches Some(i) ==> self@.pending_init.contains_key(para_id) && i@ == self@.pending_init[para_id],
            r is None ==> !self@.pending_init.contains_key(para_id),
    {
        match self.pending_init.get(&para_id) {
            Some(i) => Some(clone_init(i)),
            None => None,
        }
    }

    /// The sealed ring indices of a collection.
    pub fn sealed_batch_indices(&self, identifier: &Identifier) -> (r: Option<Vec<RingIndex>>)
        requires
            self.wf(),
        ensures
            r matches Some(v) ==> self@.sealed_indices.contains_key(*identifier) && v@ == self@.sealed_indices[*identifier],
            r is None ==> !self@.sealed_indices.contains_key(*identifier),
    {
        match self.sealed_indices.get(identifier) {
            Some(v) => Some(copy_indices(v)),
            None => None,
        }
    }

    /// Whether `para_id` received the current batch.
    pub fn has_current_batch(&self, para_id: ParaId) -> (r: bool)
        requires
            self.wf(),
        ensures
            r == self@.served.contains(para_id),
    {
        self.served.contains_key(&para_id)
    }

    /// The number of changes recorded for `page`.
    pub fn page_updates_count(&self, page: u16) -> (r: u32)
        requires
            self.wf(),
        ensures
            r == page_count(self@, page),
    {
        match self.page_counts.get(&page) {
            Some(c) => *c,
            None => 0,
        }
    }

    /// Whether a change of ring `ring_index` of `identifier` is pending on `page`.
    pub fn is_pending(&self, page: u16, identifier: Identifier, ring_index: RingIndex) -> (r: bool)
        requires
            self.wf(),
        ensures
            r == self@.pending.contains(PendingKey { page, identifier, ring_index }),
    {
        self.pending.contains_key(&PendingKey { page, identifier, ring_index })
    }

    /// The last replay time of a subscriber and collection.
    pub fn last_replay_time(&self, para_id: ParaId, identifier: Identifier) -> (r: Option<u64>)
        requires
            self.wf(),
        ensures
            r == (if self@.last_replay.contains_key(ReplayKey { para_id, identifier }) {
                Some(self@.last_replay[ReplayKey { para_id, identifier }])
            } else {
                None
            }),
    {
        match self.last_replay.get(&ReplayKey { para_id, identifier }) {
            Some(t) => Some(*t),
            None => None,
        }
    }
}

/// Whether `a` comes strictly before `b`, byte by byte.
pub fn id_lt(a: &Identifier, b: &Identifier) -> (r: bool)
    ensures
        r == lex_lt(a@, b@),
{
    let mut i: usize = 0;
    while i < 32
        invariant
            i <= 32,
            forall|j: int| 0 <= j < i ==> a@[j] == b@[j],
        decreases 32 - i,
    {
        if a[i] != b[i] {
            let r = a[i] < b[i];
            proof {
                if r {
                    assert(0 <= i < a@.len() && a@[i as int] < b@[i as int] && forall|j: int|
                        0 <= j < i ==> #[trigger] a@[j] == b@[j]);
                } else {
                    if lex_lt(a@, b@) {
                        let k = choose|k: int|
                            0 <= k < a@.len() && a@[k] < b@[k] && forall|j: int| 0 <= j < k ==> #[trigger] a@[j] == b@[j];
                        if k > i {
                            assert(a@[i as int] == b@[i as int]);
                        }
                    }
                }
            }
            return r;
        }
        i += 1;
    }
    false
}

/// Whether the identifiers of `cs` are strictly ascending.
pub fn collections_ascending(cs: &[(Identifier, RingExponent)]) -> (r: bool)
    ensures
        r == ascending_collections(cs@),
{
    let mut i: usize = 1;
    while i < cs.len()
        invariant
            1 <= i,
            i <= cs@.len() || cs@.len() == 0,
            forall|j: int| 0 <= j < i - 1 && j < cs@.len() - 1 ==> lex_lt(#[trigger] cs@[j].0@, cs@[j + 1].0@),
        decreases cs@.len() - i,
    {
        if !id_lt(&cs[i - 1].0, &cs[i].0) {
            return false;
        }
        i += 1;
    }
    true
}

/// The identifiers of `cs` whose replay cooldowns belong to `para_id`.
pub open spec fn replay_keys(para_id: ParaId, cs: Seq<(Identifier, RingExponent)>) -> Set<ReplayKey> {
    Set::new(|k: ReplayKey| k.para_id == para_id && holds_collection(cs, k.identifier))
}

/// The replay cooldown keys of `para_id` for the first `n` collections of `cs`.
pub open spec fn replay_keys_prefix(para_id: ParaId, cs: Seq<(Identifier, RingExponent)>, n: int) -> Set<ReplayKey> {
    Set::new(|k: ReplayKey| k.para_id == para_id && exists|j: int| 0 <= j < n && #[trigger] cs[j].0 == k.identifier)
}

/// The state after registering `para_id` for initialisation with its
/// collections, at the current batch sequence and clock time `now`.
pub open spec fn register_for_init_spec(
    s: NotifierView,
    para_id: ParaId,
    cols: Seq<(Identifier, RingExponent)>,
    pallet_index: u8,
    now: u64,
) -> NotifierView {
    NotifierView {
        subscribers: s.subscribers.insert(
            para_id,
            SubscriberInfoView { collections: cols, last_init_sequence: s.sealed_sequence, pallet_index },
        ),
        pending_init: s.pending_init.insert(
            para_id,
            PendingInitView {
                collections: cols,
                current_collection_index: 0,
                after_ring_index: None,
                sequence: s.sealed_sequence,
                source_time: now,
                pallet_index,
            },
        ),
        ..s
    }
}

/// What `subscribe` does.
pub open spec fn subscribe_spec(
    s: NotifierView,
    c: NotifierConfig,
    origin: NotifierOrigin,
    para_id: ParaId,
    cols: Seq<(Identifier, RingExponent)>,
    pallet_index: u8,
    now: u64,
) -> Result<(NotifierView, Seq<NotifierEvent>), NotifierError> {
    if origin != NotifierOrigin::Manager {
        Err(NotifierError::BadOrigin)
    } else if s.subscribers.contains_key(para_id) {
        Err(NotifierError::AlreadySubscribed)
    } else if s.subscribers.len() >= c.max_subscribers {
        Err(NotifierError::TooManySubscribers)
    } else if !ascending_collections(cols) {
        Err(NotifierError::InvalidCollectionsList)
    } else {
        Ok(
            (
                register_for_init_spec(s, para_id, cols, pallet_index, now),
                seq![NotifierEvent::Subscribed { para_id }],
            ),
        )
    }
}

/// The result `r` of a call, against what the call should do from
/// `before`: on success the new state and events, on failure the error and
/// no change.
pub open spec fn outcome(
    r: Result<Vec<NotifierEvent>, NotifierError>,
    expected: Result<(NotifierView, Seq<NotifierEvent>), NotifierError>,
    before: NotifierView,
    after: NotifierView,
) -> bool {
    match r {
        Ok(ev) => expected == Ok::<(NotifierView, Seq<NotifierEvent>), NotifierError>((after, ev@)),
        Err(e) => expected == Err::<(NotifierView, Seq<NotifierEvent>), NotifierError>(e) && after == before,
    }
}

/// The subscriber that `unsubscribe` acts on, and whether it asked itself,
/// or the error.
pub open spec fn unsubscribe_target(
    s: NotifierView,
    origin: NotifierOrigin,
    para: Option<ParaId>,
) -> Result<(ParaId, bool), NotifierError> {
    let t = match origin {
        NotifierOrigin::Subscriber(id) => Ok((id, true)),
        NotifierOrigin::Manager => match para {
            Some(id) => Ok((id, false)),
            None => Err(NotifierError::SubscriberNotFound),
        },
        _ => Err(NotifierError::BadOrigin),
    };
    match t {
        Ok((id, own)) => if s.subscribers.contains_key(id) {
            Ok((id, own))
        } else {
            Err(NotifierError::SubscriberNotFound)
        },
        Err(e) => Err(e),
    }
}

/// The state after removing subscriber `para_id`, before the current batch
/// is adjusted: its record, initialisation and replay cooldowns are gone.
pub open spec fn without_subscriber(s: NotifierView, para_id: ParaId) -> NotifierView {
    NotifierView {
        subscribers: s.subscribers.remove(para_id),
        pending_init: s.pending_init.remove(para_id),
        last_replay: s.last_replay.remove_keys(
            replay_keys(para_id, s.subscribers[para_id].collections),
        ),
        ..s
    }
}

/// Whether `after` is `mid` with the current batch adjusted for the removal
/// of `para_id`, whose record was `info`: a subscriber that received the
/// batch is forgotten; one that was still owed it no longer counts, and the
/// batch is cleared when nobody is left.
pub open spec fn batch_adjusted(
    c: NotifierConfig,
    mid: NotifierView,
    after: NotifierView,
    para_id: ParaId,
    info: SubscriberInfoView,
) -> bool {
    match mid.current_batch {
        None => after == mid,
        Some(cb) => if mid.served.contains(para_id) {
            after == NotifierView { served: mid.served.remove(para_id), ..mid }
        } else if info.last_init_sequence < cb.sequence && cb.remaining_subscribers > 0 {
            if cb.remaining_subscribers == 1 {
                batch_cleared(c, mid, after)
            } else {
                after == NotifierView {
                    current_batch: Some(
                        BatchDistributionState {
                            remaining_subscribers: (cb.remaining_subscribers - 1) as u32,
                            ..cb
                        },
                    ),
                    ..mid
                }
            }
        } else {
            after == mid
        },
    }
}

/// The state after a ring-root change of ring `ring_index` of `identifier`
/// is recorded: nothing if it is already pending on the write page;
/// otherwise it goes to the write page, or to the next page (which becomes
/// the write page) when the write page is full.
pub open spec fn on_change_spec(
    s: NotifierView,
    c: NotifierConfig,
    identifier: Identifier,
    ring_index: RingIndex,
) -> NotifierView {
    let page = s.page_state.write_page;
    if s.pending.contains(PendingKey { page, identifier, ring_index }) {
        s
    } else {
        let p = if page_count(s, page) >= c.max_updates_per_batch {
            next_page(page)
        } else {
            page
        };
        NotifierView {
            page_state: PagingState { write_page: p, ..s.page_state },
            pending: s.pending.insert(PendingKey { page: p, identifier, ring_index }),
            page_counts: s.page_counts.insert(p, sat_inc(page_count(s, p))),
            ..s
        }
    }
}

/// The page after `p`, wrapping around.
pub open spec fn next_page(p: u16) -> u16 {
    if p == 0xffff {
        0
    } else {
        (p + 1) as u16
    }
}

/// `x + 1`, saturating.
pub open spec fn sat_inc(x: u32) -> u32 {
    if x == 0xffff_ffff {
        x
    } else {
        (x + 1) as u32
    }
}

/// `a - b`, saturating at zero.
pub open spec fn sat_sub(a: u32, b: u32) -> u32 {
    if a >= b {
        (a - b) as u32
    } else {
        0
    }
}

/// Whether there is work for a new batch: sealed pages waiting, or a write
/// page with changes that is old enough or full enough.
pub open spec fn processable(s: NotifierView, c: NotifierConfig, ps: PagingState<BlockNumber>, now: BlockNumber) -> bool {
    ps.send_page != ps.write_page || {
        let n = page_count(s, ps.write_page);
        n != 0 && (sat_sub(now, ps.last_update_block) >= c.update_trigger_blocks
            || n >= c.update_trigger_threshold)
    }
}

/// How many updates fit in one message to a subscriber whose channel carries
/// messages of at most `max_message_size` bytes (`None`: no channel), with
/// `overhead` bytes per message: none fitting, no channel or a zero update
/// size give `None`; the count is capped at the batch size.
pub open spec fn batch_size_spec(
    max_message_size: Option<u32>,
    overhead: u32,
    update_size: u32,
    max_batch: u32,
) -> Option<u32> {
    match max_message_size {
        None => None,
        Some(m) => if update_size == 0 {
            None
        } else {
            let count = sat_sub(m, overhead) / update_size;
            if count == 0 {
                None
            } else if count < max_batch {
                Some(count)
            } else {
                Some(max_batch)
            }
        },
    }
}

impl Notifier {
    /// Registers a subscriber chain with its collections (strictly ascending)
    /// and the index of its subscriber pallet; its initialisation starts at
    /// the current batch sequence and clock time `now`.
    #[verifier::spinoff_prover]
    pub fn subscribe(
        &mut self,
        origin: NotifierOrigin,
        subscriber_parachain_id: ParaId,
        members_collections: Vec<(Identifier, RingExponent)>,
        pallet_index: u8,
        now: u64,
    ) -> (r: Result<Vec<NotifierEvent>, NotifierError>)
        requires
            old(self).wf(),
        ensures
            final(self).wf(),
            final(self).config() == old(self).config(),
            outcome(
                r,
                subscribe_spec(old(self)@, old(self).config(), origin, subscriber_parachain_id, members_collections@, pallet_index, now),
                old(self)@,
                final(self)@,
            ),
    {
        if origin != NotifierOrigin::Manager {
            return Err(NotifierError::BadOrigin);
        }
        if self.subscribers.contains_key(&subscriber_parachain_id) {
            return Err(NotifierError::AlreadySubscribed);
        }
        if self.subscribers.len() as u64 >= self.config.max_subscribers as u64 {
            return Err(NotifierError::TooManySubscribers);
        }
        if !collections_ascending(members_collections.as_slice()) {
            return Err(NotifierError::InvalidCollectionsList);
        }
        self.register_for_init(subscriber_parachain_id, members_collections, pallet_index, now);
        let ev = vec![NotifierEvent::Subscribed { para_id: subscriber_parachain_id }];
        proof {
            assert(ev@ =~= seq![NotifierEvent::Subscribed { para_id: subscriber_parachain_id }]);
        }
        Ok(ev)
    }

    /// Records `para_id` as a subscriber and starts its initialisation.
    pub fn register_for_init(
        &mut self,
        para_id: ParaId,
        collections: Vec<(Identifier, RingExponent)>,
        pallet_index: u8,
        now: u64,
    )
        requires
            old(self).wf(),
        ensures
            final(self).wf(),
            final(self).config() == old(self).config(),
            final(self)@ == register_for_init_spec(old(self)@, para_id, collections@, pallet_index, now),
    {
        let batch_sequence = self.sealed_sequence;
        let info = SubscriberInfo {
            collections: copy_collections(&collections),
            last_init_sequence: batch_sequence,
            pallet_index,
        };
        self.subscribers.insert(para_id, info);
        self.pending_init.insert(
            para_id,
            PendingInitState {
                collections,
                current_collection_index: 0,
                after_ring_index: None,
                sequence: batch_sequence,
                source_time: now,
                pallet_index,
            },
        );
    }

    /// Clears the current batch: the batch itself, the sealed indices (up to
    /// the collection bound) and the record of served subscribers (up to the
    /// subscriber bound).
    pub fn clear_batch(&mut self)
        requires
            old(self).wf(),
        ensures
            final(self).wf(),
            final(self).config() == old(self).config(),
            batch_cleared(old(self).config(), old(self)@, final(self)@),
    {
        self.current_batch = None;
        let mc = self.config.max_collections;
        let ms = self.config.max_subscribers;
        self.sealed_indices.clear_bounded(mc);
        self.served.clear_bounded(ms);
        proof {
            self.served.lemma_dom_finite();
            old(self).served.lemma_dom_finite();
            assert(self@.served <= old(self)@.served);
        }
    }

    /// Removes a subscriber: a subscriber chain may remove itself, the
    /// manager any subscriber it names. Returns the events and, when the
    /// manager removed it, the subscriber pallet index to which a
    /// termination notice is due.
    #[verifier::spinoff_prover]
    pub fn unsubscribe(&mut self, origin: NotifierOrigin, subscriber_parachain_id: Option<ParaId>) -> (r: Result<
        (Vec<NotifierEvent>, Option<u8>),
        NotifierError,
    >)
        requires
            old(self).wf(),
        ensures
            final(self).wf(),
            final(self).config() == old(self).config(),
            match r {
                Err(e) => unsubscribe_target(old(self)@, origin, subscriber_parachain_id) == Err::<(ParaId, bool), NotifierError>(e)
                    && final(self)@ == old(self)@,
                Ok((ev, notify)) => match unsubscribe_target(old(self)@, origin, subscriber_parachain_id) {
                    Ok((para_id, own)) => {
                        let info = old(self)@.subscribers[para_id];
                        &&& ev@ == seq![NotifierEvent::Unsubscribed { para_id }]
                        &&& notify == (if own { None } else { Some(info.pallet_index) })
                        &&& batch_adjusted(old(self).config(), without_subscriber(old(self)@, para_id), final(self)@, para_id, info)
                    },
                    Err(_) => false,
                },
            },
    {
        let (para_id, own) = match origin {
            NotifierOrigin::Subscriber(id) => (id, true),
            NotifierOrigin::Manager => match subscriber_parachain_id {
                Some(id) => (id, false),
                None => {
                    return Err(NotifierError::SubscriberNotFound);
                },
            },
            _ => {
                return Err(NotifierError::BadOrigin);
            },
        };
        let info = match self.subscribers.get(&para_id) {
            Some(i) => clone_subscriber(i),
            None => {
                return Err(NotifierError::SubscriberNotFound);
            },
        };
        let notify = if own {
            None
        } else {
            Some(info.pallet_index)
        };
        let ghost s0 = self@;
        let ghost cs = info.collections@;
        proof {
            assert(s0.last_replay.remove_keys(replay_keys_prefix(para_id, cs, 0)) =~= s0.last_replay);
        }
        let mut i: usize = 0;
        while i < info.collections.len()
            invariant
                self.wf(),
                self.config == old(self).config,
                i <= cs.len(),
                cs == info.collections@,
                self@ == (NotifierView {
                    last_replay: s0.last_replay.remove_keys(replay_keys_prefix(para_id, cs, i as int)),
                    ..s0
                }),
            decreases cs.len() - i,
        {
            let id = info.collections[i].0;
            let _ = self.last_replay.remove(&ReplayKey { para_id, identifier: id });
            i += 1;
            proof {
                assert(replay_keys_prefix(para_id, cs, i as int) =~= replay_keys_prefix(para_id, cs, i - 1).insert(
                    ReplayKey { para_id, identifier: id },
                ));
                assert(self@.last_replay =~= s0.last_replay.remove_keys(replay_keys_prefix(para_id, cs, i as int)));
            }
        }
        proof {
            assert(replay_keys_prefix(para_id, cs, cs.len() as int) =~= replay_keys(para_id, s0.subscribers[para_id].collections));
        }
        let _ = self.subscribers.remove(&para_id);
        let _ = self.pending_init.remove(&para_id);
        let ghost mid = self@;
        proof {
            assert(mid == without_subscriber(old(self)@, para_id));
        }
        match self.current_batch {
            None => {},
            Some(cb) => {
                if self.served.contains_key(&para_id) {
                    let _ = self.served.remove(&para_id);
                    proof {
                        assert(self@.served =~= mid.served.remove(para_id));
                    }
                } else if info.last_init_sequence < cb.sequence && cb.remaining_subscribers > 0 {
                    let remaining = cb.remaining_subscribers - 1;
                    if remaining == 0 {
                        self.clear_batch();
                    } else {
                        self.current_batch = Some(
                            BatchDistributionState { remaining_subscribers: remaining, ..cb },
                        );
                    }
                }
            },
        }
        Ok((vec![NotifierEvent::Unsubscribed { para_id }], notify))
    }

    /// Records a change of ring `ring_index` of collection `identifier`.
    pub fn on_ring_root_change<R>(&mut self, identifier: Identifier, ring_index: RingIndex, op: RingRootOp<&R>)
        requires
            old(self).wf(),
        ensures
            final(self).wf(),
            final(self).config() == old(self).config(),
            final(self)@ == on_change_spec(old(self)@, old(self).config(), identifier, ring_index),
    {
        let mut page = self.page_state.write_page;
        if self.pending.contains_key(&PendingKey { page, identifier, ring_index }) {
            return;
        }
        if self.page_updates_count(page) >= self.config.max_updates_per_batch {
            page = if page == 0xffff {
                0
            } else {
                page + 1
            };
            self.page_state.write_page = page;
        }
        let n = self.page_updates_count(page);
        let n2 = if n == 0xffff_ffff {
            n
        } else {
            n + 1
        };
        self.pending.insert(PendingKey { page, identifier, ring_index }, ());
        self.page_counts.insert(page, n2);
        proof {
            assert(self@.pending =~= old(self)@.pending.insert(PendingKey { page, identifier, ring_index }));
        }
    }

    /// Whether there is work for a new batch under paging state
    /// `page_state` at block `now`.
    pub fn has_processable_updates(&self, page_state: &PagingState<BlockNumber>, now: BlockNumber) -> (r: bool)
        requires
            self.wf(),
        ensures
            r == processable(self@, self.config(), *page_state, now),
    {
        if page_state.send_page != page_state.write_page {
            return true;
        }
        let count = self.page_updates_count(page_state.write_page);
        if count == 0 {
            return false;
        }
        let elapsed = if now >= page_state.last_update_block {
            now - page_state.last_update_block
        } else {
            0
        };
        elapsed >= self.config.update_trigger_blocks || count >= self.config.update_trigger_threshold
    }

    /// Whether there is work for a new batch at block `now`.
    pub fn has_pending_work(&self, now: BlockNumber) -> (r: bool)
        requires
            self.wf(),
        ensures
            r == processable(self@, self.config(), self@.page_state, now),
    {
        let ps = self.page_state;
        self.has_processable_updates(&ps, now)
    }

    /// How many updates fit in one message to a subscriber whose channel
    /// carries at most `max_message_size` bytes, with `overhead` bytes per
    /// message.
    pub fn get_xcm_update_batch_size(&self, max_message_size: Option<u32>, overhead: u32) -> (r: Option<u32>)
        ensures
            r == batch_size_spec(max_message_size, overhead, self.config().update_size, self.config().max_updates_per_batch),
    {
        let max_payload = match max_message_size {
            Some(m) => m,
            None => {
                return None;
            },
        };
        let update_size = self.config.update_size;
        if update_size == 0 {
            return None;
        }
        let available = if max_payload >= overhead {
            max_payload - overhead
        } else {
            0
        };
        let count = available / update_size;
        if count == 0 {
            return None;
        }
        if count < self.config.max_updates_per_batch {
            Some(count)
        } else {
            Some(self.config.max_updates_per_batch)
        }
    }

    /// How many updates fit in one message to a subscriber whose channel
    /// carries at most `max_message_size` bytes.
    pub fn max_updates_per_xcm(&self, max_message_size: Option<u32>) -> (r: Option<u32>)
        ensures
            r == batch_size_spec(max_message_size, self.config().xcm_overhead, self.config().update_size, self.config().max_updates_per_batch),
    {
        self.get_xcm_update_batch_size(max_message_size, self.config.xcm_overhead)
    }
}

/// Where a transaction comes from.
#[derive(Clone, Copy, PartialEq, Eq, Debug, Structural)]
pub enum TransactionSource {
    InBlock,
    Local,
    External,
}

/// Why an offchain-worker transaction is refused.
#[derive(Clone, Copy, PartialEq, Eq, Debug, Structural)]
pub enum AuthorizeError {
    /// It is for a state that has passed.
    Stale,
    /// It is for a state that has not come yet.
    Future,
    /// A reason of the notifier.
    Custom(CustomInvalidity),
}

/// The tag by which an offchain-worker transaction is deduplicated.
#[derive(Clone, Copy, PartialEq, Eq, Debug, Structural)]
pub enum ValidityTag {
    Enqueue { send_page: u16 },
    Send { sequence: SequenceNumber, para_id: ParaId },
    Init { para_id: ParaId, current_collection_index: u32, after_ring_index: Option<RingIndex> },
    Abandon { sequence: SequenceNumber },
}

/// Validity of an accepted offchain-worker transaction: its tag, a priority
/// that grows with the block number, a finite longevity, and no gossip.
#[derive(Clone, Copy, PartialEq, Eq, Debug, Structural)]
pub struct LocalValidity {
    pub tag: ValidityTag,
    pub priority: u64,
    pub longevity: u64,
    pub propagate: bool,
}

/// The validity given to an accepted transaction with `tag` at block `now`.
pub open spec fn local_validity(tag: ValidityTag, now: BlockNumber) -> LocalValidity {
    LocalValidity { tag, priority: now as u64, longevity: TX_LONGEVITY, propagate: false }
}

/// Whether `a` comes before `b`, `None` before every index.
pub open spec fn opt_lt(a: Option<RingIndex>, b: Option<RingIndex>) -> bool {
    match (a, b) {
        (None, Some(_)) => true,
        (Some(x), Some(y)) => x < y,
        _ => false,
    }
}

/// The refusal of a transaction that is not local.
pub open spec fn local_check(source: TransactionSource) -> Option<AuthorizeError> {
    if source == TransactionSource::External {
        Some(AuthorizeError::Custom(CustomInvalidity::TransactionNotLocal))
    } else {
        None
    }
}

/// What the authorisation of `enqueue_updates` answers.
pub open spec fn authorize_enqueue_spec(
    s: NotifierView,
    c: NotifierConfig,
    source: TransactionSource,
    send_page: u16,
    now: BlockNumber,
) -> Result<LocalValidity, AuthorizeError> {
    if let Some(e) = local_check(source) {
        Err(e)
    } else if s.current_batch is Some {
        Err(AuthorizeError::Custom(CustomInvalidity::BatchInProgress))
    } else if send_page < s.page_state.send_page {
        Err(AuthorizeError::Stale)
    } else if send_page > s.page_state.send_page {
        Err(AuthorizeError::Future)
    } else if !processable(s, c, s.page_state, now) {
        Err(AuthorizeError::Custom(CustomInvalidity::NoPendingWork))
    } else {
        Ok(local_validity(ValidityTag::Enqueue { send_page: s.page_state.send_page }, now))
    }
}

/// What the authorisation of `send_batch` answers.
pub open spec fn authorize_send_batch_spec(
    s: NotifierView,
    source: TransactionSource,
    para_id: ParaId,
    sequence: SequenceNumber,
    now: BlockNumber,
) -> Result<LocalValidity, AuthorizeError> {
    if let Some(e) = local_check(source) {
        Err(e)
    } else {
        match s.current_batch {
            None => Err(AuthorizeError::Custom(CustomInvalidity::NoBatchActive)),
            Some(cb) => if sequence < cb.sequence {
                Err(AuthorizeError::Stale)
            } else if sequence > cb.sequence {
                Err(AuthorizeError::Future)
            } else if cb.remaining_subscribers == 0 {
                Err(AuthorizeError::Custom(CustomInvalidity::NoBatchActive))
            } else if s.served.contains(para_id) {
                Err(AuthorizeError::Custom(CustomInvalidity::AlreadySent))
            } else if !s.subscribers.contains_key(para_id) {
                Err(AuthorizeError::Custom(CustomInvalidity::SubscriberNotFound))
            } else if s.subscribers[para_id].last_init_sequence >= cb.sequence {
                Err(AuthorizeError::Stale)
            } else {
                Ok(local_validity(ValidityTag::Send { sequence, para_id }, now))
            },
        }
    }
}

/// What the authorisation of `send_init_page` answers.
pub open spec fn authorize_send_init_page_spec(
    s: NotifierView,
    source: TransactionSource,
    para_id: ParaId,
    current_collection_index: u32,
    after_ring_index: Option<RingIndex>,
    now: BlockNumber,
) -> Result<LocalValidity, AuthorizeError> {
    if let Some(e) = local_check(source) {
        Err(e)
    } else if !s.pending_init.contains_key(para_id) {
        Err(AuthorizeError::Custom(CustomInvalidity::NoPendingInit))
    } else {
        let st = s.pending_init[para_id];
        if current_collection_index < st.current_collection_index {
            Err(AuthorizeError::Stale)
        } else if current_collection_index > st.current_collection_index {
            Err(AuthorizeError::Future)
        } else if opt_lt(after_ring_index, st.after_ring_index) {
            Err(AuthorizeError::Stale)
        } else if opt_lt(st.after_ring_index, after_ring_index) {
            Err(AuthorizeError::Future)
        } else {
            Ok(
                local_validity(
                    ValidityTag::Init {
                        para_id,
                        current_collection_index: st.current_collection_index,
                        after_ring_index: st.after_ring_index,
                    },
                    now,
                ),
            )
        }
    }
}

/// What the authorisation of `abandon_stuck_batch` answers.
pub open spec fn authorize_abandon_spec(
    s: NotifierView,
    c: NotifierConfig,
    source: TransactionSource,
    now: BlockNumber,
) -> Result<LocalValidity, AuthorizeError> {
    if let Some(e) = local_check(source) {
        Err(e)
    } else {
        match s.current_batch {
            None => Err(AuthorizeError::Custom(CustomInvalidity::NoBatchActive)),
            Some(cb) => if sat_sub(now, cb.sealed_at) < c.stuck_batch_timeout {
                Err(AuthorizeError::Custom(CustomInvalidity::BatchNotStuck))
            } else {
                Ok(local_validity(ValidityTag::Abandon { sequence: cb.sequence }, now))
            },
        }
    }
}

/// Whether `after` is `before` with at most `limit` changes of `page`
/// removed: all of them when there are no more, and no other change.
pub open spec fn page_cleared(before: Set<PendingKey>, after: Set<PendingKey>, page: u16, limit: u32) -> bool {
    &&& after <= before
    &&& forall|k: PendingKey| before.contains(k) && k.page != page ==> after.contains(k)
    &&& before.len() - after.len() <= limit
    &&& (before.len() - after.len() == limit || forall|k: PendingKey| after.contains(k) ==> k.page != page)
}

/// Whether `after` is `before` once page `page` is done at block `now`: its
/// changes cleared (up to the batch size), its count removed, the send page
/// moved on and the time of the last batch set.
pub open spec fn send_buffer_cleaned(
    c: NotifierConfig,
    before: NotifierView,
    after: NotifierView,
    page: u16,
    now: BlockNumber,
) -> bool {
    &&& page_cleared(before.pending, after.pending, page, c.max_updates_per_batch)
    &&& after == NotifierView {
        pending: after.pending,
        page_counts: before.page_counts.remove(page),
        page_state: PagingState {
            send_page: next_page(before.page_state.send_page),
            last_update_block: now,
            ..before.page_state
        },
        ..before
    }
}

/// Whether `v` is strictly increasing.
pub open spec fn strictly_increasing(v: Seq<RingIndex>) -> bool {
    forall|i: int, j: int| 0 <= i < j < v.len() ==> v[i] < v[j]
}

/// The rings of collection `id` with a change pending on `page`.
pub open spec fn page_rings(pending: Set<PendingKey>, page: u16, id: Identifier) -> Set<RingIndex> {
    Set::new(|r: RingIndex| pending.contains(PendingKey { page, identifier: id, ring_index: r }))
}

/// The collections with a change pending on `page`.
pub open spec fn page_ids(pending: Set<PendingKey>, page: u16) -> Set<Identifier> {
    Set::new(|id: Identifier| exists|r: RingIndex| pending.contains(PendingKey { page, identifier: id, ring_index: r }))
}

/// The changes pending on `page`.
pub open spec fn page_entries(pending: Set<PendingKey>, page: u16) -> Set<PendingKey> {
    pending.filter(|k: PendingKey| k.page == page)
}

/// Whether `v` is the `max` smallest elements of `s` in increasing order
/// (all of them when there are no more).
pub open spec fn sorted_prefix(v: Seq<RingIndex>, s: Set<RingIndex>, max: u32) -> bool {
    &&& strictly_increasing(v)
    &&& v.len() == if s.len() < max {
        s.len()
    } else {
        max as nat
    }
    &&& forall|j: int| 0 <= j < v.len() ==> s.contains(#[trigger] v[j])
    &&& forall|x: RingIndex| #[trigger] s.contains(x) && !v.contains(x) ==> forall|j: int|
        0 <= j < v.len() ==> v[j] < x
}

/// Whether `after` holds the sealed indices of `before` with those of every
/// collection changed on `page` replaced by its changed rings, sorted and cut
/// to the batch size.
pub open spec fn indices_sealed(
    before: Map<Identifier, Seq<RingIndex>>,
    after: Map<Identifier, Seq<RingIndex>>,
    pending: Set<PendingKey>,
    page: u16,
    max: u32,
) -> bool {
    &&& forall|id: Identifier| #[trigger] after.contains_key(id) <==> before.contains_key(id) || page_ids(pending, page).contains(id)
    &&& forall|id: Identifier| #[trigger] page_ids(pending, page).contains(id) ==> sorted_prefix(after[id], page_rings(pending, page, id), max)
    &&& forall|id: Identifier| before.contains_key(id) && !page_ids(pending, page).contains(id) ==> #[trigger] after[id] == before[id]
}

/// `n`, capped at the largest `u32`.
pub open spec fn cap_u32(n: nat) -> u32 {
    if n > 0xffff_ffff {
        0xffff_ffffu32
    } else {
        n as u32
    }
}

/// Inserts `x` into the strictly increasing `v`, keeping it so.
pub fn insert_sorted(v: Vec<RingIndex>, x: RingIndex) -> (r: Vec<RingIndex>)
    requires
        strictly_increasing(v@),
    ensures
        strictly_increasing(r@),
        forall|y: RingIndex| #[trigger] r@.contains(y) <==> v@.contains(y) || y == x,
{
    let mut v = v;
    let mut p: usize = 0;
    while p < v.len() && v[p] < x
        invariant
            p <= v@.len(),
            forall|j: int| 0 <= j < p ==> v@[j] < x,
        decreases v@.len() - p,
    {
        p += 1;
    }
    if p < v.len() && v[p] == x {
        return v;
    }
    let ghost old_v = v@;
    v.insert(p, x);
    proof {
        assert(v@ == old_v.insert(p as int, x));
        assert forall|i: int, j: int| 0 <= i < j < v@.len() implies v@[i] < v@[j] by {
            if j < p {
            } else if i < p && j == p {
            } else if i < p {
                assert(v@[j] == old_v[j - 1]);
            } else if i == p {
                assert(v@[j] == old_v[j - 1]);
                assert(old_v[p as int] > x);
                if j - 1 > p {
                    assert(old_v[p as int] < old_v[j - 1]);
                }
            } else {
                assert(v@[i] == old_v[i - 1]);
                assert(v@[j] == old_v[j - 1]);
            }
        }
        assert forall|y: RingIndex| #[trigger] v@.contains(y) <==> old_v.contains(y) || y == x by {
            if v@.contains(y) {
                let j = choose|j: int| 0 <= j < v@.len() && v@[j] == y;
                if j < p {
                    assert(old_v[j] == y);
                } else if j > p {
                    assert(old_v[j - 1] == y);
                }
            }
            if old_v.contains(y) {
                let j = choose|j: int| 0 <= j < old_v.len() && old_v[j] == y;
                if j < p {
                    assert(v@[j] == y);
                } else {
                    assert(v@[j + 1] == y);
                }
            }
            if y == x {
                assert(v@[p as int] == x);
            }
        }
    }
    v
}

/// The first `n` elements of `v`, all of them when there are fewer.
pub fn take_prefix(v: &Vec<RingIndex>, n: u32) -> (r: Vec<RingIndex>)
    ensures
        r@ == v@.take(if v@.len() < n { v@.len() as int } else { n as int }),
{
    let m: usize = if v.len() < n as usize {
        v.len()
    } else {
        n as usize
    };
    let mut out: Vec<RingIndex> = Vec::new();
    let mut i: usize = 0;
    while i < m
        invariant
            m <= v@.len(),
            i <= m,
            out@ == v@.take(i as int),
        decreases m - i,
    {
        out.push(v[i]);
        i += 1;
        assert(out@ =~= v@.take(i as int));
    }
    out
}

/// The sorted, cut prefix of a strictly increasing `v` that holds exactly
/// the elements of `s`.
proof fn lemma_sorted_prefix(v: Seq<RingIndex>, s: Set<RingIndex>, max: u32)
    requires
        strictly_increasing(v),
        forall|y: RingIndex| #[trigger] v.contains(y) <==> s.contains(y),
    ensures
        sorted_prefix(v.take(if v.len() < max { v.len() as int } else { max as int }), s, max),
        s.finite(),
{
    let m = if v.len() < max { v.len() as int } else { max as int };
    let t = v.take(m);
    assert(v.no_duplicates()) by {
        assert forall|i: int, j: int| 0 <= i < v.len() && 0 <= j < v.len() && i != j implies v[i] != v[j] by {
            if i < j {
            } else {
            }
        }
    }
    v.unique_seq_to_set();
    assert(v.to_set() =~= s);
    assert forall|j: int| 0 <= j < t.len() implies s.contains(#[trigger] t[j]) by {
        assert(v.contains(v[j]));
    }
    assert forall|x: RingIndex| #[trigger] s.contains(x) && !t.contains(x) implies forall|j: int| 0 <= j < t.len() ==> t[j] < x by {
        assert(v.contains(x));
        let k = choose|k: int| 0 <= k < v.len() && v[k] == x;
        if k < m {
            assert(t[k] == x);
        }
        assert forall|j: int| 0 <= j < t.len() implies t[j] < x by {
            assert(t[j] == v[j]);
        }
    }
}

/// The updates for the changed rings `ix` (ascending) given the roots `rs`
/// that the collection returned for them, in order: a ring whose root comes
/// next is built, any other ring is deleted.
pub open spec fn resolve_spec<R>(ix: Seq<RingIndex>, rs: Seq<(RingIndex, R, RevisionIndex)>) -> Seq<RingRootUpdate<R>>
    decreases ix.len(),
{
    if ix.len() == 0 {
        Seq::empty()
    } else if rs.len() > 0 && rs[0].0 == ix[0] {
        seq![RingRootUpdate { ring_index: rs[0].0, op: RingRootOp::Built { revision: rs[0].2, root: rs[0].1 } }]
            + resolve_spec(ix.drop_first(), rs.drop_first())
    } else {
        seq![RingRootUpdate { ring_index: ix[0], op: RingRootOp::Deleted }] + resolve_spec(ix.drop_first(), rs)
    }
}

/// The sizes of the messages that carry `n` updates, at most `m` each.
pub open spec fn chunk_sizes(n: nat, m: nat) -> Seq<u32>
    decreases n,
{
    if n == 0 || m == 0 {
        Seq::empty()
    } else if n <= m {
        seq![n as u32]
    } else {
        seq![m as u32] + chunk_sizes((n - m) as nat, m)
    }
}

/// The updates carried by a list of messages, in order.
pub open spec fn carried<R>(ms: Seq<RingRootUpdatesBatch<R>>) -> Seq<RingRootUpdate<R>>
    decreases ms.len(),
{
    if ms.len() == 0 {
        Seq::empty()
    } else {
        carried(ms.drop_last()) + ms.last().updates@
    }
}

/// The number of updates in each message.
pub open spec fn message_sizes<R>(ms: Seq<RingRootUpdatesBatch<R>>) -> Seq<u32> {
    Seq::new(ms.len(), |k: int| ms[k].updates@.len() as u32)
}

/// A built update for each root, in order.
pub open spec fn built_updates<R>(rs: Seq<(RingIndex, R, RevisionIndex)>) -> Seq<RingRootUpdate<R>> {
    Seq::new(rs.len(), |k: int| RingRootUpdate { ring_index: rs[k].0, op: RingRootOp::Built { revision: rs[k].2, root: rs[k].1 } })
}

proof fn lemma_chunk_step(n: nat, m: nat)
    requires
        n > 0,
        m > 0,
    ensures
        chunk_sizes(n, m) == seq![(if n <= m { n } else { m }) as u32] + chunk_sizes((n - (if n <= m { n } else { m })) as nat, m),
{
    if n <= m {
        assert(chunk_sizes(0, m) == Seq::<u32>::empty());
        assert(seq![n as u32] + Seq::<u32>::empty() =~= seq![n as u32]);
    }
}

/// The updates for the changed rings `indices` (ascending), given the roots
/// that the collection returned for them in order.
pub fn resolve_updates_for_indices<R>(indices: &[RingIndex], roots: Vec<(RingIndex, R, RevisionIndex)>) -> (r: Vec<RingRootUpdate<R>>)
    ensures
        r@ == resolve_spec(indices@, roots@),
{
    let ghost ix = indices@;
    let ghost rs0 = roots@;
    let mut roots = roots;
    let mut out: Vec<RingRootUpdate<R>> = Vec::new();
    let mut i: usize = 0;
    proof {
        assert(ix.subrange(0, ix.len() as int) =~= ix);
        assert(out@ + resolve_spec(ix, rs0) =~= resolve_spec(ix, rs0));
    }
    while i < indices.len()
        invariant
            ix == indices@,
            i <= ix.len(),
            out@ + resolve_spec(ix.subrange(i as int, ix.len() as int), roots@) == resolve_spec(ix, rs0),
        decreases ix.len() - i,
    {
        let idx = indices[i];
        let ghost rest = ix.subrange(i as int, ix.len() as int);
        let ghost rs = roots@;
        proof {
            assert(rest.drop_first() =~= ix.subrange(i + 1, ix.len() as int));
        }
        if roots.len() > 0 && roots[0].0 == idx {
            let (ring_index, root, revision) = roots.remove(0);
            proof {
                assert(roots@ =~= rs.drop_first());
            }
            let u = RingRootUpdate { ring_index, op: RingRootOp::Built { revision, root } };
            let ghost o = out@;
            out.push(u);
            proof {
                assert(o + resolve_spec(rest, rs) == resolve_spec(ix, rs0));
                assert(out@ + resolve_spec(ix.subrange(i + 1, ix.len() as int), roots@) =~= o + resolve_spec(rest, rs));
            }
        } else {
            let ghost o = out@;
            out.push(RingRootUpdate { ring_index: idx, op: RingRootOp::Deleted });
            proof {
                assert(out@ + resolve_spec(ix.subrange(i + 1, ix.len() as int), roots@) =~= o + resolve_spec(rest, rs));
            }
        }
        i += 1;
    }
    proof {
        assert(ix.subrange(ix.len() as int, ix.len() as int) =~= Seq::<RingIndex>::empty());
        assert(out@ + Seq::<RingRootUpdate<R>>::empty() =~= out@);
    }
    out
}

/// The messages that carry `updates` for collection `identifier` in batch
/// `sequence`: consecutive runs of at most `max_per_xcm` updates, in order.
pub fn chunk_updates<R>(
    identifier: Identifier,
    sequence: SequenceNumber,
    source_time: u64,
    updates: Vec<RingRootUpdate<R>>,
    next_ring_index: RingIndex,
    max_per_xcm: u32,
) -> (r: Vec<RingRootUpdatesBatch<R>>)
    requires
        max_per_xcm > 0,
    ensures
        carried(r@) == updates@,
        message_sizes(r@) == chunk_sizes(updates@.len(), max_per_xcm as nat),
        forall|k: int| 0 <= k < r@.len() ==> (#[trigger] r@[k]).identifier == identifier && r@[k].sequence == sequence
            && r@[k].source_time == source_time && r@[k].next_ring_index == next_ring_index,
{
    let ghost all = updates@;
    let ghost n = all.len();
    let mut rest = updates;
    let mut out: Vec<RingRootUpdatesBatch<R>> = Vec::new();
    let ghost mut sizes: Seq<u32> = Seq::empty();
    while rest.len() > 0
        invariant
            max_per_xcm > 0,
            carried(out@) + rest@ == all,
            message_sizes(out@) == sizes,
            sizes + chunk_sizes(rest@.len(), max_per_xcm as nat) == chunk_sizes(n, max_per_xcm as nat),
            forall|k: int| 0 <= k < out@.len() ==> (#[trigger] out@[k]).identifier == identifier && out@[k].sequence == sequence
                && out@[k].source_time == source_time && out@[k].next_ring_index == next_ring_index,
        decreases rest@.len(),
    {
        let take: usize = if rest.len() <= max_per_xcm as usize {
            rest.len()
        } else {
            max_per_xcm as usize
        };
        let ghost r0 = rest@;
        let mut chunk: Vec<RingRootUpdate<R>> = Vec::new();
        let mut j: usize = 0;
        while j < take
            invariant
                take <= r0.len(),
                j <= take,
                chunk@ == r0.subrange(0, j as int),
                rest@ == r0.subrange(j as int, r0.len() as int),
            decreases take - j,
        {
            let u = rest.remove(0);
            chunk.push(u);
            j += 1;
            proof {
                assert(chunk@ =~= r0.subrange(0, j as int));
                assert(rest@ =~= r0.subrange(j as int, r0.len() as int));
            }
        }
        let ghost o = out@;
        out.push(RingRootUpdatesBatch { identifier, sequence, source_time, updates: chunk, next_ring_index });
        proof {
            lemma_chunk_step(r0.len(), max_per_xcm as nat);
            assert(out@.drop_last() =~= o);
            assert(carried(out@) == carried(o) + r0.subrange(0, take as int));
            assert(carried(out@) + rest@ =~= carried(o) + r0);
            assert(message_sizes(out@) =~= sizes.push(take as u32));
            sizes = sizes.push(take as u32);
            assert(sizes + chunk_sizes(rest@.len(), max_per_xcm as nat) =~= (sizes.drop_last()) + chunk_sizes(r0.len(), max_per_xcm as nat));
        }
    }
    proof {
        assert(chunk_sizes(0, max_per_xcm as nat) == Seq::<u32>::empty());
        assert(sizes + Seq::<u32>::empty() =~= sizes);
        assert(carried(out@) + Seq::<RingRootUpdate<R>>::empty() =~= carried(out@));
    }
    out
}

/// The messages that carry the sealed changes of `identifier` to a
/// subscriber: the changed rings `indices` resolved against the roots the
/// collection returned for them, cut into messages of at most `max_per_xcm`
/// updates.
pub fn update_messages<R>(
    identifier: Identifier,
    sequence: SequenceNumber,
    source_time: u64,
    indices: &[RingIndex],
    roots: Vec<(RingIndex, R, RevisionIndex)>,
    next_ring_index: RingIndex,
    max_per_xcm: u32,
) -> (r: Vec<RingRootUpdatesBatch<R>>)
    requires
        max_per_xcm > 0,
    ensures
        carried(r@) == resolve_spec(indices@, roots@),
        message_sizes(r@) == chunk_sizes(indices@.len(), max_per_xcm as nat),
        forall|k: int| 0 <= k < r@.len() ==> (#[trigger] r@[k]).identifier == identifier && r@[k].sequence == sequence
            && r@[k].source_time == source_time && r@[k].next_ring_index == next_ring_index,
{
    let updates = resolve_updates_for_indices(indices, roots);
    proof {
        lemma_resolve_len(indices@, roots@);
    }
    chunk_updates(identifier, sequence, source_time, updates, next_ring_index, max_per_xcm)
}

proof fn lemma_resolve_len<R>(ix: Seq<RingIndex>, rs: Seq<(RingIndex, R, RevisionIndex)>)
    ensures
        resolve_spec(ix, rs).len() == ix.len(),
    decreases ix.len(),
{
    if ix.len() > 0 {
        if rs.len() > 0 && rs[0].0 == ix[0] {
            lemma_resolve_len(ix.drop_first(), rs.drop_first());
        } else {
            lemma_resolve_len(ix.drop_first(), rs);
        }
    }
}

/// The initialisation message for collection `identifier` from `state`:
/// the returned roots as built updates, cut to `max_updates_per_batch`.
pub fn build_init_batch<R>(
    state: &PendingInitState,
    identifier: Identifier,
    roots: Vec<(RingIndex, R, RevisionIndex)>,
    next_ring_index: RingIndex,
    max_updates_per_batch: u32,
) -> (r: RingRootUpdatesBatch<R>)
    ensures
        r.identifier == identifier,
        r.sequence == state.sequence,
        r.source_time == state.source_time,
        r.next_ring_index == next_ring_index,
        r.updates@ == built_updates(roots@).take(
            if roots@.len() < max_updates_per_batch { roots@.len() as int } else { max_updates_per_batch as int },
        ),
{
    let ghost rs = roots@;
    let m: usize = if roots.len() < max_updates_per_batch as usize {
        roots.len()
    } else {
        max_updates_per_batch as usize
    };
    let mut roots = roots;
    let mut updates: Vec<RingRootUpdate<R>> = Vec::new();
    let mut i: usize = 0;
    while i < m
        invariant
            m <= rs.len(),
            i <= m,
            roots@ == rs.subrange(i as int, rs.len() as int),
            updates@ == built_updates(rs).take(i as int),
        decreases m - i,
    {
        let (ring_index, root, revision) = roots.remove(0);
        updates.push(RingRootUpdate { ring_index, op: RingRootOp::Built { revision, root } });
        i += 1;
        proof {
            assert(roots@ =~= rs.subrange(i as int, rs.len() as int));
            assert(updates@ =~= built_updates(rs).take(i as int));
        }
    }
    RingRootUpdatesBatch { identifier, sequence: state.sequence, source_time: state.source_time, updates, next_ring_index }
}

/// The subscribed collections of `cols` from index `ci` on that have sealed
/// changes, with those changes, in subscription order.
pub open spec fn batch_parts(
    cols: Seq<(Identifier, RingExponent)>,
    sealed: Map<Identifier, Seq<RingIndex>>,
    ci: int,
) -> Seq<(Identifier, Seq<RingIndex>)>
    decreases cols.len() - ci,
{
    if ci < 0 || ci >= cols.len() {
        Seq::empty()
    } else {
        let id = cols[ci].0;
        (if sealed.contains_key(id) && sealed[id].len() > 0 {
            seq![(id, sealed[id])]
        } else {
            Seq::empty()
        }) + batch_parts(cols, sealed, ci + 1)
    }
}

/// The value view of a list of collections with their changes.
pub open spec fn parts_view(v: Seq<(Identifier, Vec<RingIndex>)>) -> Seq<(Identifier, Seq<RingIndex>)> {
    Seq::new(v.len(), |k: int| (v[k].0, v[k].1@))
}

/// The sizes of the messages that carry `parts`, at most `m` updates each.
pub open spec fn parts_sizes(parts: Seq<(Identifier, Seq<RingIndex>)>, m: nat) -> Seq<u32>
    decreases parts.len(),
{
    if parts.len() == 0 {
        Seq::empty()
    } else {
        parts_sizes(parts.drop_last(), m) + chunk_sizes(parts.last().1.len(), m)
    }
}

/// The number of changes in `parts`, summed with saturation.
pub open spec fn parts_count(parts: Seq<(Identifier, Seq<RingIndex>)>) -> u32
    decreases parts.len(),
{
    if parts.len() == 0 {
        0
    } else {
        sat_add32(parts_count(parts.drop_last()), parts.last().1.len())
    }
}

/// `a + b`, saturating.
pub open spec fn sat_add32(a: u32, b: nat) -> u32 {
    if a + b > 0xffff_ffff {
        0xffff_ffffu32
    } else {
        (a + b) as u32
    }
}

/// Whether message `k` was delivered.
pub open spec fn delivered_at(d: Seq<bool>, k: int) -> bool {
    0 <= k < d.len() && d[k]
}

/// The events of sending messages of `sizes` to `para_id` with outcomes `d`.
pub open spec fn send_events(para_id: ParaId, sizes: Seq<u32>, d: Seq<bool>) -> Seq<NotifierEvent> {
    Seq::new(
        sizes.len(),
        |k: int|
            if delivered_at(d, k) {
                NotifierEvent::UpdatesSent { para_id, update_count: sizes[k] }
            } else {
                NotifierEvent::UpdateSendFailed { para_id }
            },
    )
}

/// Whether every one of `n` messages was delivered.
pub open spec fn all_delivered(n: nat, d: Seq<bool>) -> bool {
    forall|k: int| 0 <= k < n ==> delivered_at(d, k)
}

/// Whether `after` is `s` once `para_id` has the current batch: it is
/// recorded as served and no longer owed the batch, which is cleared when
/// nobody is left.
pub open spec fn batch_processed(c: NotifierConfig, s: NotifierView, after: NotifierView, para_id: ParaId) -> bool {
    match s.current_batch {
        None => false,
        Some(cb) => {
            let s1 = NotifierView { served: s.served.insert(para_id), ..s };
            let rem = sat_sub(cb.remaining_subscribers, 1);
            if rem == 0 {
                batch_cleared(c, s1, after)
            } else {
                after == NotifierView {
                    current_batch: Some(BatchDistributionState { remaining_subscribers: rem, ..cb }),
                    ..s1
                }
            }
        },
    }
}

/// What to send to a subscriber for the current batch.
pub struct SendPlan {
    /// Updates per message; zero when the channel carries none.
    pub max_per_xcm: u32,
    /// Clock time of the batch.
    pub source_time: u64,
    /// Index of the subscriber pallet.
    pub pallet_index: u8,
    /// The subscribed collections with sealed changes, and those changes.
    pub parts: Vec<(Identifier, Vec<RingIndex>)>,
}

impl Notifier {
    /// The subscribed collections of `cols` with sealed changes, and those
    /// changes.
    fn collect_parts(&self, cols: &Vec<(Identifier, RingExponent)>) -> (r: Vec<(Identifier, Vec<RingIndex>)>)
        requires
            self.wf(),
        ensures
            parts_view(r@) == batch_parts(cols@, self@.sealed_indices, 0),
    {
        let ghost cs = cols@;
        let ghost sealed = self@.sealed_indices;
        let mut out: Vec<(Identifier, Vec<RingIndex>)> = Vec::new();
        let mut ci: usize = 0;
        proof {
            assert(parts_view(out@) + batch_parts(cs, sealed, 0) =~= batch_parts(cs, sealed, 0));
        }
        while ci < cols.len()
            invariant
                self.wf(),
                cs == cols@,
                sealed == self@.sealed_indices,
                ci <= cs.len(),
                parts_view(out@) + batch_parts(cs, sealed, ci as int) == batch_parts(cs, sealed, 0),
            decreases cs.len() - ci,
        {
            let id = cols[ci].0;
            let ghost o = parts_view(out@);
            match self.sealed_indices.get(&id) {
                Some(v) => {
                    if v.len() > 0 {
                        out.push((id, copy_indices(v)));
                        proof {
                            assert(parts_view(out@) =~= o.push((id, sealed[id])));
                            assert(parts_view(out@) + batch_parts(cs, sealed, ci + 1) =~= o + batch_parts(cs, sealed, ci as int));
                        }
                    } else {
                        proof {
                            assert(parts_view(out@) =~= o);
                            assert(parts_view(out@) + batch_parts(cs, sealed, ci + 1) =~= o + batch_parts(cs, sealed, ci as int));
                        }
                    }
                },
                None => {
                    proof {
                        assert(parts_view(out@) =~= o);
                        assert(parts_view(out@) + batch_parts(cs, sealed, ci + 1) =~= o + batch_parts(cs, sealed, ci as int));
                    }
                },
            }
            ci += 1;
        }
        proof {
            assert(batch_parts(cs, sealed, cs.len() as int) == Seq::<(Identifier, Seq<RingIndex>)>::empty());
            assert(parts_view(out@) + Seq::<(Identifier, Seq<RingIndex>)>::empty() =~= parts_view(out@));
        }
        out
    }

    /// What to send to `para_id` for the current batch over a channel that
    /// carries at most `max_message_size` bytes.
    pub fn send_batch_plan(&self, para_id: ParaId, max_message_size: Option<u32>) -> (r: Result<SendPlan, NotifierError>)
        requires
            self.wf(),
        ensures
            match r {
                Err(e) => if self@.current_batch is None {
                    e == NotifierError::NoBatchActive
                } else {
                    e == NotifierError::SubscriberNotFound && !self@.subscribers.contains_key(para_id)
                },
                Ok(plan) => {
                    let m = match batch_size_spec(max_message_size, self.config().xcm_overhead, self.config().update_size, self.config().max_updates_per_batch) {
                        Some(m) => m,
                        None => 0,
                    };
                    &&& self@.current_batch matches Some(cb)
                    &&& self@.subscribers.contains_key(para_id)
                    &&& plan.max_per_xcm == m
                    &&& plan.source_time == cb.source_time
                    &&& plan.pallet_index == self@.subscribers[para_id].pallet_index
                    &&& parts_view(plan.parts@) == if m == 0 {
                        Seq::empty()
                    } else {
                        batch_parts(self@.subscribers[para_id].collections, self@.sealed_indices, 0)
                    }
                },
            },
    {
        let cb = match self.current_batch {
            Some(cb) => cb,
            None => {
                return Err(NotifierError::NoBatchActive);
            },
        };
        let info = match self.subscribers.get(&para_id) {
            Some(i) => i,
            None => {
                return Err(NotifierError::SubscriberNotFound);
            },
        };
        let m = match self.max_updates_per_xcm(max_message_size) {
            Some(m) => m,
            None => 0,
        };
        let parts = if m == 0 {
            let v: Vec<(Identifier, Vec<RingIndex>)> = Vec::new();
            proof {
                assert(parts_view(v@) =~= Seq::<(Identifier, Seq<RingIndex>)>::empty());
            }
            v
        } else {
            self.collect_parts(&info.collections)
        };
        Ok(SendPlan { max_per_xcm: m, source_time: cb.source_time, pallet_index: info.pallet_index, parts })
    }

    /// Marks `para_id` as served with the current batch.
    fn mark_processed(&mut self, para_id: ParaId)
        requires
            old(self).wf(),
            old(self)@.current_batch is Some,
        ensures
            final(self).wf(),
            final(self).config() == old(self).config(),
            batch_processed(old(self).config(), old(self)@, final(self)@, para_id),
    {
        self.served.insert(para_id, ());
        proof {
            assert(self@.served =~= old(self)@.served.insert(para_id));
        }
        let cb = self.current_batch.unwrap();
        let rem = if cb.remaining_subscribers >= 1 {
            cb.remaining_subscribers - 1
        } else {
            0
        };
        if rem == 0 {
            self.clear_batch();
        } else {
            self.current_batch = Some(BatchDistributionState { remaining_subscribers: rem, ..cb });
        }
    }

    /// Records the sending of the current batch to `para_id`, where
    /// `delivered[k]` says whether the `k`-th message of its plan was
    /// delivered (a missing entry is a failure). The subscriber is served
    /// when every message was delivered, or at once when its channel carries
    /// no update; otherwise it is retried later. Returns the events and the
    /// number of changes sent.
    #[verifier::spinoff_prover]
    pub fn send_batch(
        &mut self,
        origin: NotifierOrigin,
        para_id: ParaId,
        sequence: SequenceNumber,
        discriminator: BlockNumber,
        max_message_size: Option<u32>,
        delivered: &[bool],
    ) -> (r: Result<(Vec<NotifierEvent>, u32), NotifierError>)
        requires
            old(self).wf(),
        ensures
            final(self).wf(),
            final(self).config() == old(self).config(),
            match r {
                Err(e) => final(self)@ == old(self)@ && if origin != NotifierOrigin::Authorized {
                    e == NotifierError::BadOrigin
                } else if old(self)@.current_batch is None {
                    e == NotifierError::NoBatchActive
                } else {
                    e == NotifierError::SubscriberNotFound && !old(self)@.subscribers.contains_key(para_id)
                },
                Ok((ev, count)) => {
                    let s = old(self)@;
                    let info = s.subscribers[para_id];
                    let m = match batch_size_spec(max_message_size, old(self).config().xcm_overhead, old(self).config().update_size, old(self).config().max_updates_per_batch) {
                        Some(m) => m,
                        None => 0,
                    };
                    let parts = batch_parts(info.collections, s.sealed_indices, 0);
                    let sizes = parts_sizes(parts, m as nat);
                    &&& origin == NotifierOrigin::Authorized
                    &&& s.current_batch is Some
                    &&& s.subscribers.contains_key(para_id)
                    &&& if m == 0 {
                        &&& ev@ == seq![NotifierEvent::UpdateSendFailed { para_id }]
                        &&& count == 0
                        &&& batch_processed(old(self).config(), s, final(self)@, para_id)
                    } else {
                        &&& ev@ == send_events(para_id, sizes, delivered@)
                        &&& count == parts_count(parts)
                        &&& if all_delivered(sizes.len(), delivered@) {
                            batch_processed(old(self).config(), s, final(self)@, para_id)
                        } else {
                            final(self)@ == s
                        }
                    }
                },
            },
    {
        if origin != NotifierOrigin::Authorized {
            return Err(NotifierError::BadOrigin);
        }
        let plan = match self.send_batch_plan(para_id, max_message_size) {
            Ok(p) => p,
            Err(e) => {
                return Err(e);
            },
        };
        let m = plan.max_per_xcm;
        if m == 0 {
            self.mark_processed(para_id);
            let ev = vec![NotifierEvent::UpdateSendFailed { para_id }];
            proof {
                assert(ev@ =~= seq![NotifierEvent::UpdateSendFailed { para_id }]);
            }
            return Ok((ev, 0));
        }
        let ghost parts = parts_view(plan.parts@);
        let mut events: Vec<NotifierEvent> = Vec::new();
        let mut count: u32 = 0;
        let mut failed = false;
        let mut k: usize = 0;
        let ghost mut sizes: Seq<u32> = Seq::empty();
        let mut pi: usize = 0;
        proof {
            assert(parts.take(0) =~= Seq::<(Identifier, Seq<RingIndex>)>::empty());
            assert(events@ =~= send_events(para_id, sizes, delivered@));
        }
        while pi < plan.parts.len()
            invariant
                m > 0,
                parts == parts_view(plan.parts@),
                pi <= parts.len(),
                sizes == parts_sizes(parts.take(pi as int), m as nat),
                k == (if sizes.len() < usize::MAX { sizes.len() } else { usize::MAX as nat }),
                count == parts_count(parts.take(pi as int)),
                events@ == send_events(para_id, sizes, delivered@),
                failed == !all_delivered(sizes.len(), delivered@),
            decreases parts.len() - pi,
        {
            let len = plan.parts[pi].1.len();
            proof {
                assert(parts.take(pi + 1).drop_last() =~= parts.take(pi as int));
                assert(parts.take(pi + 1).last() == parts[pi as int]);
            }
            count = if len > (0xffff_ffff - count) as usize {
                0xffff_ffff
            } else {
                count + len as u32
            };
            let ghost sizes0 = sizes;
            let mut left: usize = len;
            while left > 0
                invariant
                    m > 0,
                    k == (if sizes.len() < usize::MAX { sizes.len() } else { usize::MAX as nat }),
                    sizes0 + chunk_sizes(len as nat, m as nat) == sizes + chunk_sizes(left as nat, m as nat),
                    events@ == send_events(para_id, sizes, delivered@),
                    failed == !all_delivered(sizes.len(), delivered@),
                decreases left,
            {
                let size: usize = if left <= m as usize {
                    left
                } else {
                    m as usize
                };
                let ok = k < delivered.len() && delivered[k];
                let ghost e0 = events@;
                if ok {
                    events.push(NotifierEvent::UpdatesSent { para_id, update_count: size as u32 });
                } else {
                    events.push(NotifierEvent::UpdateSendFailed { para_id });
                    failed = true;
                }
                proof {
                    lemma_chunk_step(left as nat, m as nat);
                    let s2 = sizes.push(size as u32);
                    assert(events@ =~= send_events(para_id, s2, delivered@));
                    assert(sizes0 + chunk_sizes(len as nat, m as nat) =~= s2 + chunk_sizes((left - size) as nat, m as nat));
                    if !ok {
                        assert(!delivered_at(delivered@, sizes.len() as int));
                    } else if !failed {
                        assert forall|j: int| 0 <= j < s2.len() implies delivered_at(delivered@, j) by {
                            if j < sizes.len() {
                            }
                        }
                    }
                    sizes = s2;
                }
                if k < usize::MAX {
                    k += 1;
                }
                left -= size;
            }
            proof {
                assert(chunk_sizes(0, m as nat) == Seq::<u32>::empty());
                assert(sizes =~= sizes0 + chunk_sizes(len as nat, m as nat));
            }
            pi += 1;
        }
        proof {
            assert(parts.take(parts.len() as int) =~= parts);
        }
        if !failed {
            self.mark_processed(para_id);
        }
        Ok((events, count))
    }
}

/// Whether `after` and the count `count` are what sealing the send page of
/// `s` at block `now` and clock time `now_secs` gives: with no subscriber the
/// page is only cleared; otherwise the next batch is started for every
/// subscriber with the page's changes as its sealed indices.
pub open spec fn enqueued(c: NotifierConfig, s: NotifierView, after: NotifierView, count: u32, now: BlockNumber, now_secs: u64) -> bool {
    let sp = s.page_state.send_page;
    let wp = s.page_state.write_page;
    let ps1 = if sp == wp {
        PagingState { write_page: next_page(wp), ..s.page_state }
    } else {
        s.page_state
    };
    if s.subscribers.len() == 0 {
        &&& count == 0
        &&& send_buffer_cleaned(c, NotifierView { page_state: ps1, ..s }, after, sp, now)
    } else {
        let seq = if s.sealed_sequence == u64::MAX {
            u64::MAX
        } else {
            (s.sealed_sequence + 1) as u64
        };
        &&& count == cap_u32(page_entries(s.pending, sp).len())
        &&& indices_sealed(s.sealed_indices, after.sealed_indices, s.pending, sp, c.max_updates_per_batch)
        &&& after.current_batch == Some(
            BatchDistributionState {
                sequence: seq,
                source_time: now_secs,
                sealed_at: now,
                remaining_subscribers: cap_u32(s.subscribers.len()),
            },
        )
        &&& send_buffer_cleaned(
            c,
            NotifierView { sealed_sequence: seq, page_state: ps1, sealed_indices: after.sealed_indices, ..s },
            NotifierView { current_batch: s.current_batch, ..after },
            sp,
            now,
        )
    }
}

impl Notifier {
    /// Refuses a transaction that is not local.
    pub fn ensure_local_source(source: TransactionSource) -> (r: Result<(), AuthorizeError>)
        ensures
            r == (match local_check(source) {
                Some(e) => Err(e),
                None => Ok(()),
            }),
    {
        match source {
            TransactionSource::External => Err(AuthorizeError::Custom(CustomInvalidity::TransactionNotLocal)),
            _ => Ok(()),
        }
    }

    /// The validity of an accepted offchain-worker transaction with `tag` at
    /// block `now`.
    pub fn build_local_validity(tag: ValidityTag, now: BlockNumber) -> (r: LocalValidity)
        ensures
            r == local_validity(tag, now),
    {
        LocalValidity { tag, priority: now as u64, longevity: TX_LONGEVITY, propagate: false }
    }

    /// Authorises `enqueue_updates` for `send_page` at block `now`.
    pub fn authorize_enqueue_updates(&self, source: TransactionSource, send_page: u16, now: BlockNumber) -> (r: Result<LocalValidity, AuthorizeError>)
        requires
            self.wf(),
        ensures
            r == authorize_enqueue_spec(self@, self.config(), source, send_page, now),
    {
        if let Err(e) = Self::ensure_local_source(source) {
            return Err(e);
        }
        if self.current_batch.is_some() {
            return Err(AuthorizeError::Custom(CustomInvalidity::BatchInProgress));
        }
        let ps = self.page_state;
        if send_page < ps.send_page {
            return Err(AuthorizeError::Stale);
        }
        if send_page > ps.send_page {
            return Err(AuthorizeError::Future);
        }
        if !self.has_processable_updates(&ps, now) {
            return Err(AuthorizeError::Custom(CustomInvalidity::NoPendingWork));
        }
        Ok(Self::build_local_validity(ValidityTag::Enqueue { send_page: ps.send_page }, now))
    }

    /// Authorises `send_batch` of batch `sequence` to `para_id` at block `now`.
    pub fn authorize_send_batch(&self, source: TransactionSource, para_id: ParaId, sequence: SequenceNumber, now: BlockNumber) -> (r: Result<LocalValidity, AuthorizeError>)
        requires
            self.wf(),
        ensures
            r == authorize_send_batch_spec(self@, source, para_id, sequence, now),
    {
        if let Err(e) = Self::ensure_local_source(source) {
            return Err(e);
        }
        let cb = match self.current_batch {
            Some(cb) => cb,
            None => {
                return Err(AuthorizeError::Custom(CustomInvalidity::NoBatchActive));
            },
        };
        if sequence < cb.sequence {
            return Err(AuthorizeError::Stale);
        }
        if sequence > cb.sequence {
            return Err(AuthorizeError::Future);
        }
        if cb.remaining_subscribers == 0 {
            return Err(AuthorizeError::Custom(CustomInvalidity::NoBatchActive));
        }
        if self.served.contains_key(&para_id) {
            return Err(AuthorizeError::Custom(CustomInvalidity::AlreadySent));
        }
        let last_init = match self.subscribers.get(&para_id) {
            Some(info) => info.last_init_sequence,
            None => {
                return Err(AuthorizeError::Custom(CustomInvalidity::SubscriberNotFound));
            },
        };
        if last_init >= cb.sequence {
            return Err(AuthorizeError::Stale);
        }
        Ok(Self::build_local_validity(ValidityTag::Send { sequence, para_id }, now))
    }

    /// Authorises `send_init_page` for `para_id` at the given position, at
    /// block `now`.
    pub fn authorize_send_init_page(
        &self,
        source: TransactionSource,
        para_id: ParaId,
        current_collection_index: u32,
        after_ring_index: Option<RingIndex>,
        now: BlockNumber,
    ) -> (r: Result<LocalValidity, AuthorizeError>)
        requires
            self.wf(),
        ensures
            r == authorize_send_init_page_spec(self@, source, para_id, current_collection_index, after_ring_index, now),
    {
        if let Err(e) = Self::ensure_local_source(source) {
            return Err(e);
        }
        let (idx, after) = match self.pending_init.get(&para_id) {
            Some(st) => (st.current_collection_index, st.after_ring_index),
            None => {
                return Err(AuthorizeError::Custom(CustomInvalidity::NoPendingInit));
            },
        };
        if current_collection_index < idx {
            return Err(AuthorizeError::Stale);
        }
        if current_collection_index > idx {
            return Err(AuthorizeError::Future);
        }
        if option_lt(after_ring_index, after) {
            return Err(AuthorizeError::Stale);
        }
        if option_lt(after, after_ring_index) {
            return Err(AuthorizeError::Future);
        }
        Ok(
            Self::build_local_validity(
                ValidityTag::Init { para_id, current_collection_index: idx, after_ring_index: after },
                now,
            ),
        )
    }

    /// Authorises `abandon_stuck_batch` at block `now`.
    pub fn authorize_abandon_stuck_batch(&self, source: TransactionSource, now: BlockNumber) -> (r: Result<LocalValidity, AuthorizeError>)
        requires
            self.wf(),
        ensures
            r == authorize_abandon_spec(self@, self.config(), source, now),
    {
        if let Err(e) = Self::ensure_local_source(source) {
            return Err(e);
        }
        let cb = match self.current_batch {
            Some(cb) => cb,
            None => {
                return Err(AuthorizeError::Custom(CustomInvalidity::NoBatchActive));
            },
        };
        let elapsed = if now >= cb.sealed_at {
            now - cb.sealed_at
        } else {
            0
        };
        if elapsed < self.config.stuck_batch_timeout {
            return Err(AuthorizeError::Custom(CustomInvalidity::BatchNotStuck));
        }
        Ok(Self::build_local_validity(ValidityTag::Abandon { sequence: cb.sequence }, now))
    }

    /// Abandons the current batch; subscribers that missed it can ask for a
    /// replay.
    pub fn abandon_stuck_batch(&mut self, origin: NotifierOrigin) -> (r: Result<Vec<NotifierEvent>, NotifierError>)
        requires
            old(self).wf(),
        ensures
            final(self).wf(),
            final(self).config() == old(self).config(),
            match r {
                Err(e) => final(self)@ == old(self)@ && (if origin != NotifierOrigin::Authorized {
                    e == NotifierError::BadOrigin
                } else {
                    e == NotifierError::NoBatchActive && old(self)@.current_batch is None
                }),
                Ok(ev) => {
                    &&& origin == NotifierOrigin::Authorized
                    &&& old(self)@.current_batch matches Some(cb)
                    &&& ev@ == seq![NotifierEvent::BatchAbandoned { sequence: cb.sequence }]
                    &&& batch_cleared(old(self).config(), old(self)@, final(self)@)
                },
            },
    {
        if origin != NotifierOrigin::Authorized {
            return Err(NotifierError::BadOrigin);
        }
        let sequence = match self.current_batch {
            Some(cb) => cb.sequence,
            None => {
                return Err(NotifierError::NoBatchActive);
            },
        };
        self.clear_batch();
        let ev = vec![NotifierEvent::BatchAbandoned { sequence }];
        proof {
            assert(ev@ =~= seq![NotifierEvent::BatchAbandoned { sequence }]);
        }
        Ok(ev)
    }

    /// Clears the changes of `send_page` (up to the batch size), removes its
    /// count, moves the send page on and records block `now` as the time of
    /// the last batch.
    pub fn cleanup_send_buffer(&mut self, send_page: u16, now: BlockNumber)
        requires
            old(self).wf(),
        ensures
            final(self).wf(),
            final(self).config() == old(self).config(),
            send_buffer_cleaned(old(self).config(), old(self)@, final(self)@, send_page, now),
    {
        let limit = self.config.max_updates_per_batch;
        let ks = self.pending.keys();
        let ghost before = self@.pending;
        let ghost mut gone: Set<PendingKey> = Set::empty();
        let mut removed: u32 = 0;
        let mut i: usize = 0;
        proof {
            self.pending.lemma_dom_finite();
            assert(before.difference(gone) =~= before);
        }
        while i < ks.len() && removed < limit
            invariant
                self.wf(),
                self.config == old(self).config,
                limit == self.config.max_updates_per_batch,
                i <= ks@.len(),
                ks@.no_duplicates(),
                forall|k: PendingKey| #[trigger] ks@.contains(k) <==> before.contains(k),
                before == old(self)@.pending,
                before.finite(),
                gone.finite(),
                gone <= before,
                gone.len() == removed,
                removed <= limit,
                forall|k: PendingKey| gone.contains(k) ==> k.page == send_page,
                self@ == (NotifierView { pending: before.difference(gone), ..old(self)@ }),
                forall|j: int| 0 <= j < i && (#[trigger] ks@[j]).page == send_page ==> gone.contains(ks@[j]),
                forall|j: int| i <= j < ks@.len() ==> !gone.contains(#[trigger] ks@[j]),
            decreases ks@.len() - i,
        {
            let k = ks[i];
            if k.page == send_page {
                proof {
                    assert(ks@.contains(k));
                }
                let _ = self.pending.remove(&k);
                proof {
                    gone = gone.insert(k);
                    assert(self@.pending =~= before.difference(gone));
                    assert forall|j: int| i + 1 <= j < ks@.len() implies !gone.contains(#[trigger] ks@[j]) by {
                        assert(ks@[j] != ks@[i as int]);
                    }
                }
                removed += 1;
            }
            i += 1;
        }
        proof {
            vstd::set_lib::lemma_len_subset(gone, before);
            assert(before.difference(gone).len() == before.len() - gone.len()) by {
                vstd::set_lib::lemma_set_difference_len(before, gone);
                assert(before.intersect(gone) =~= gone);
            }
            if removed < limit {
                assert forall|k: PendingKey| before.difference(gone).contains(k) implies k.page != send_page by {
                    if k.page == send_page {
                        assert(ks@.contains(k));
                        let j = choose|j: int| 0 <= j < ks@.len() && ks@[j] == k;
                    }
                }
            }
        }
        let _ = self.page_counts.remove(&send_page);
        let sp = self.page_state.send_page;
        self.page_state.send_page = if sp == 0xffff {
            0
        } else {
            sp + 1
        };
        self.page_state.last_update_block = now;
    }

    /// The changed rings of `page`, per collection and in increasing order,
    /// and the number of changes on the page (capped).
    fn collect_page(&self, page: u16) -> (r: (KeyTable<Identifier, Vec<RingIndex>>, u32))
        requires
            self.wf(),
        ensures
            r.0.wf(),
            forall|id: Identifier| #[trigger] r.0@.contains_key(id) <==> page_ids(self@.pending, page).contains(id),
            forall|id: Identifier| #[trigger] r.0@.contains_key(id) ==> strictly_increasing(r.0@[id])
                && forall|x: RingIndex| #[trigger] r.0@[id].contains(x) <==> page_rings(self@.pending, page, id).contains(x),
            r.1 == cap_u32(page_entries(self@.pending, page).len()),
    {
        let ks = self.pending.keys();
        let ghost pend = self@.pending;
        let mut groups: KeyTable<Identifier, Vec<RingIndex>> = KeyTable::new();
        let mut count: u32 = 0;
        let ghost mut seen: Set<PendingKey> = Set::empty();
        let mut i: usize = 0;
        while i < ks.len()
            invariant
                groups.wf(),
                i <= ks@.len(),
                ks@.no_duplicates(),
                forall|k: PendingKey| #[trigger] ks@.contains(k) <==> pend.contains(k),
                seen.finite(),
                seen =~= Set::new(|k: PendingKey| k.page == page && exists|j: int| 0 <= j < i && ks@[j] == k),
                count == cap_u32(seen.len()),
                forall|id: Identifier| #[trigger] groups@.contains_key(id) <==> exists|j: int|
                    0 <= j < i && ks@[j].page == page && ks@[j].identifier == id,
                forall|id: Identifier| #[trigger] groups@.contains_key(id) ==> strictly_increasing(groups@[id])
                    && forall|x: RingIndex| #[trigger] groups@[id].contains(x) <==> exists|j: int|
                        0 <= j < i && ks@[j] == (PendingKey { page, identifier: id, ring_index: x }),
            decreases ks@.len() - i,
        {
            let k = ks[i];
            let ghost g0 = groups@;
            let ghost seen0 = seen;
            if k.page == page {
                let v = match groups.remove(&k.identifier) {
                    Some(v) => v,
                    None => Vec::new(),
                };
                let v2 = insert_sorted(v, k.ring_index);
                groups.insert(k.identifier, v2);
                count = if count == 0xffff_ffff {
                    count
                } else {
                    count + 1
                };
                proof {
                    seen = seen.insert(k);
                    assert(!seen0.contains(k)) by {
                        if seen0.contains(k) {
                            let j = choose|j: int| 0 <= j < i && ks@[j] == k;
                            assert(ks@[j] == ks@[i as int]);
                        }
                    }
                }
            }
            i += 1;
            proof {
                assert(seen =~= Set::new(|k2: PendingKey| k2.page == page && exists|j: int| 0 <= j < i && ks@[j] == k2)) by {
                    assert forall|k2: PendingKey| #[trigger] seen.contains(k2) implies k2.page == page && exists|j: int| 0 <= j < i && ks@[j] == k2 by {
                        if k2 == k && k.page == page {
                            assert(ks@[i - 1] == k2);
                        } else {
                            assert(seen0.contains(k2));
                        }
                    }
                }
                assert forall|id: Identifier| #[trigger] groups@.contains_key(id) <==> exists|j: int|
                    0 <= j < i && ks@[j].page == page && ks@[j].identifier == id by {
                    if groups@.contains_key(id) && !g0.contains_key(id) {
                        assert(ks@[i - 1].page == page && ks@[i - 1].identifier == id);
                    }
                    if exists|j: int| 0 <= j < i && ks@[j].page == page && ks@[j].identifier == id {
                        let j = choose|j: int| 0 <= j < i && ks@[j].page == page && ks@[j].identifier == id;
                        if j < i - 1 {
                            assert(g0.contains_key(id));
                        }
                    }
                }
                assert forall|id: Identifier| #[trigger] groups@.contains_key(id) implies strictly_increasing(groups@[id])
                    && forall|x: RingIndex| #[trigger] groups@[id].contains(x) <==> exists|j: int|
                        0 <= j < i && ks@[j] == (PendingKey { page, identifier: id, ring_index: x }) by {
                    if k.page == page && id == k.identifier {
                        assert forall|x: RingIndex| #[trigger] groups@[id].contains(x) <==> exists|j: int|
                            0 <= j < i && ks@[j] == (PendingKey { page, identifier: id, ring_index: x }) by {
                            if groups@[id].contains(x) {
                                if x == k.ring_index {
                                    assert(ks@[i - 1] == (PendingKey { page, identifier: id, ring_index: x }));
                                } else {
                                    assert(g0.contains_key(id) && g0[id].contains(x));
                                }
                            }
                            if exists|j: int| 0 <= j < i && ks@[j] == (PendingKey { page, identifier: id, ring_index: x }) {
                                let j = choose|j: int| 0 <= j < i && ks@[j] == (PendingKey { page, identifier: id, ring_index: x });
                                if j < i - 1 {
                                    assert(g0.contains_key(id));
                                    assert(g0[id].contains(x));
                                }
                            }
                        }
                    } else {
                        assert(g0.contains_key(id));
                        assert forall|x: RingIndex| #[trigger] groups@[id].contains(x) <==> exists|j: int|
                            0 <= j < i && ks@[j] == (PendingKey { page, identifier: id, ring_index: x }) by {
                            if exists|j: int| 0 <= j < i && ks@[j] == (PendingKey { page, identifier: id, ring_index: x }) {
                                let j = choose|j: int| 0 <= j < i && ks@[j] == (PendingKey { page, identifier: id, ring_index: x });
                                if j == i - 1 {
                                    assert(ks@[j] == k);
                                }
                            }
                        }
                    }
                }
            }
        }
        proof {
            assert(seen =~= page_entries(pend, page)) by {
                assert forall|k2: PendingKey| #[trigger] page_entries(pend, page).contains(k2) implies seen.contains(k2) by {
                    assert(ks@.contains(k2));
                }
                assert forall|k2: PendingKey| #[trigger] seen.contains(k2) implies page_entries(pend, page).contains(k2) by {
                    let j = choose|j: int| 0 <= j < ks@.len() && ks@[j] == k2;
                    assert(ks@.contains(k2));
                }
            }
            assert forall|id: Identifier| #[trigger] groups@.contains_key(id) <==> page_ids(pend, page).contains(id) by {
                if groups@.contains_key(id) {
                    let j = choose|j: int| 0 <= j < ks@.len() && ks@[j].page == page && ks@[j].identifier == id;
                    assert(ks@.contains(ks@[j]));
                    assert(pend.contains(PendingKey { page, identifier: id, ring_index: ks@[j].ring_index }));
                }
                if page_ids(pend, page).contains(id) {
                    let r = choose|r: RingIndex| pend.contains(PendingKey { page, identifier: id, ring_index: r });
                    assert(ks@.contains(PendingKey { page, identifier: id, ring_index: r }));
                    let j = choose|j: int| 0 <= j < ks@.len() && ks@[j] == PendingKey { page, identifier: id, ring_index: r };
                    assert(ks@[j].page == page && ks@[j].identifier == id);
                }
            }
            assert forall|id: Identifier| #[trigger] groups@.contains_key(id) implies forall|x: RingIndex| #[trigger] groups@[id].contains(x) <==> page_rings(pend, page, id).contains(x) by {
                assert forall|x: RingIndex| #[trigger] groups@[id].contains(x) <==> page_rings(pend, page, id).contains(x) by {
                    let key = PendingKey { page, identifier: id, ring_index: x };
                    if page_rings(pend, page, id).contains(x) {
                        assert(ks@.contains(key));
                    }
                    if groups@[id].contains(x) {
                        let j = choose|j: int| 0 <= j < ks@.len() && ks@[j] == key;
                        assert(ks@.contains(key));
                    }
                }
            }
        }
        (groups, count)
    }

    /// Stores the sealed indices of the collections changed on `page`.
    fn store_sealed(&mut self, groups: KeyTable<Identifier, Vec<RingIndex>>, Ghost(pend): Ghost<Set<PendingKey>>, page: u16)
        requires
            old(self).wf(),
            groups.wf(),
            forall|id: Identifier| #[trigger] groups@.contains_key(id) <==> page_ids(pend, page).contains(id),
            forall|id: Identifier| #[trigger] groups@.contains_key(id) ==> strictly_increasing(groups@[id])
                && forall|x: RingIndex| #[trigger] groups@[id].contains(x) <==> page_rings(pend, page, id).contains(x),
        ensures
            final(self).wf(),
            final(self).config() == old(self).config(),
            indices_sealed(old(self)@.sealed_indices, final(self)@.sealed_indices, pend, page, old(self).config().max_updates_per_batch),
            final(self)@ == (NotifierView { sealed_indices: final(self)@.sealed_indices, ..old(self)@ }),
    {
        let ids = groups.keys();
        let max = self.config.max_updates_per_batch;
        let ghost before = self@.sealed_indices;
        let mut i: usize = 0;
        while i < ids.len()
            invariant
                self.wf(),
                self.config == old(self).config,
                max == self.config.max_updates_per_batch,
                groups.wf(),
                forall|id: Identifier| #[trigger] groups@.contains_key(id) <==> page_ids(pend, page).contains(id),
                forall|id: Identifier| #[trigger] groups@.contains_key(id) ==> strictly_increasing(groups@[id])
                    && forall|x: RingIndex| #[trigger] groups@[id].contains(x) <==> page_rings(pend, page, id).contains(x),
                i <= ids@.len(),
                ids@.no_duplicates(),
                forall|id: Identifier| #[trigger] ids@.contains(id) <==> groups@.contains_key(id),
                before == old(self)@.sealed_indices,
                self@ == (NotifierView { sealed_indices: self@.sealed_indices, ..old(self)@ }),
                forall|id: Identifier| #[trigger] self@.sealed_indices.contains_key(id) <==> before.contains_key(id)
                    || exists|j: int| 0 <= j < i && ids@[j] == id,
                forall|j: int| 0 <= j < i ==> sorted_prefix(#[trigger] self@.sealed_indices[ids@[j]], page_rings(pend, page, ids@[j]), max),
                forall|id: Identifier| before.contains_key(id) && !(exists|j: int| 0 <= j < i && ids@[j] == id)
                    ==> #[trigger] self@.sealed_indices[id] == before[id],
            decreases ids@.len() - i,
        {
            let id = ids[i];
            proof {
                assert(ids@.contains(id));
            }
            let v = match groups.get(&id) {
                Some(v) => take_prefix(v, max),
                None => Vec::new(),
            };
            proof {
                lemma_sorted_prefix(groups@[id], page_rings(pend, page, id), max);
            }
            let ghost prev = self@.sealed_indices;
            self.sealed_indices.insert(id, v);
            i += 1;
            proof {
                assert forall|j: int| 0 <= j < i implies sorted_prefix(#[trigger] self@.sealed_indices[ids@[j]], page_rings(pend, page, ids@[j]), max) by {
                    if j < i - 1 {
                        assert(ids@[j] != ids@[i - 1]);
                    }
                }
                assert forall|id2: Identifier| before.contains_key(id2) && !(exists|j: int| 0 <= j < i && ids@[j] == id2)
                    implies #[trigger] self@.sealed_indices[id2] == before[id2] by {
                    assert(ids@[i - 1] != id2);
                }
                assert forall|id2: Identifier| #[trigger] self@.sealed_indices.contains_key(id2) <==> before.contains_key(id2)
                    || exists|j: int| 0 <= j < i && ids@[j] == id2 by {
                    if id2 == id {
                        assert(ids@[i - 1] == id2);
                    } else if exists|j: int| 0 <= j < i && ids@[j] == id2 {
                        let j = choose|j: int| 0 <= j < i && ids@[j] == id2;
                        assert(j < i - 1);
                        assert(prev.contains_key(id2));
                    }
                }
            }
        }
        proof {
            let after = self@.sealed_indices;
            assert forall|id: Identifier| #[trigger] page_ids(pend, page).contains(id) implies sorted_prefix(after[id], page_rings(pend, page, id), max) by {
                assert(ids@.contains(id));
                let j = choose|j: int| 0 <= j < ids@.len() && ids@[j] == id;
            }
            assert forall|id: Identifier| #[trigger] after.contains_key(id) <==> before.contains_key(id) || page_ids(pend, page).contains(id) by {
                if page_ids(pend, page).contains(id) {
                    assert(ids@.contains(id));
                    let j = choose|j: int| 0 <= j < ids@.len() && ids@[j] == id;
                }
                if exists|j: int| 0 <= j < ids@.len() && ids@[j] == id {
                    let j = choose|j: int| 0 <= j < ids@.len() && ids@[j] == id;
                    assert(ids@.contains(id));
                }
            }
            assert forall|id: Identifier| before.contains_key(id) && !page_ids(pend, page).contains(id) implies #[trigger] after[id] == before[id] by {
                if exists|j: int| 0 <= j < ids@.len() && ids@[j] == id {
                    let j = choose|j: int| 0 <= j < ids@.len() && ids@[j] == id;
                    assert(ids@.contains(id));
                }
            }
        }
    }

    /// Seals the pending changes of the send page into a new batch for all
    /// subscribers, at block `now` and clock time `now_secs`; with no
    /// subscriber, only clears the page. Returns the number of changes
    /// sealed.
    #[verifier::spinoff_prover]
    pub fn enqueue_updates(&mut self, origin: NotifierOrigin, send_page: u16, discriminator: BlockNumber, now: BlockNumber, now_secs: u64) -> (r: Result<u32, NotifierError>)
        requires
            old(self).wf(),
        ensures
            final(self).wf(),
            final(self).config() == old(self).config(),
            origin != NotifierOrigin::Authorized ==> r == Err::<u32, NotifierError>(NotifierError::BadOrigin)
                && final(self)@ == old(self)@,
            origin == NotifierOrigin::Authorized ==> r is Ok,
            r matches Ok(count) ==> enqueued(old(self).config(), old(self)@, final(self)@, count, now, now_secs),
    {
        if origin != NotifierOrigin::Authorized {
            return Err(NotifierError::BadOrigin);
        }
        let ps = self.page_state;
        let write_page = ps.write_page;
        let actual_send_page = ps.send_page;
        if self.subscribers.len() == 0 {
            if actual_send_page == write_page {
                self.page_state.write_page = if write_page == 0xffff {
                    0
                } else {
                    write_page + 1
                };
            }
            self.cleanup_send_buffer(actual_send_page, now);
            return Ok(0);
        }
        let (sequence, source_time) = self.seal_and_start_batch(actual_send_page, write_page, now_secs);
        let ghost pend = self@.pending;
        let (groups, actual_count) = self.collect_page(actual_send_page);
        self.store_sealed(groups, Ghost(pend), actual_send_page);
        let n = self.subscribers.len();
        let remaining: u32 = if n > 0xffff_ffff {
            0xffff_ffff
        } else {
            n as u32
        };
        self.cleanup_send_buffer(actual_send_page, now);
        self.current_batch = Some(
            BatchDistributionState { sequence, source_time, sealed_at: now, remaining_subscribers: remaining },
        );
        Ok(actual_count)
    }

    /// Seals the write page when it is the send page, and starts a batch with
    /// the next sequence number at clock time `now_secs`; returns both.
    pub fn seal_and_start_batch(&mut self, send_page: u16, write_page: u16, now_secs: u64) -> (r: (SequenceNumber, u64))
        requires
            old(self).wf(),
        ensures
            final(self).wf(),
            final(self).config() == old(self).config(),
            r.0 == (if old(self)@.sealed_sequence == u64::MAX {
                u64::MAX
            } else {
                (old(self)@.sealed_sequence + 1) as u64
            }),
            r.1 == now_secs,
            final(self)@ == (NotifierView {
                sealed_sequence: r.0,
                page_state: if send_page == write_page {
                    PagingState { write_page: next_page(old(self)@.page_state.write_page), ..old(self)@.page_state }
                } else {
                    old(self)@.page_state
                },
                ..old(self)@
            }),
    {
        if send_page == write_page {
            let w = self.page_state.write_page;
            self.page_state.write_page = if w == 0xffff {
                0
            } else {
                w + 1
            };
        }
        let n = self.sealed_sequence;
        let sequence = if n == u64::MAX {
            n
        } else {
            n + 1
        };
        self.sealed_sequence = sequence;
        (sequence, now_secs)
    }
}

/// What to do for the initialisation of a subscriber.
#[derive(Clone, Copy, PartialEq, Eq, Debug)]
pub enum InitPlan {
    /// The channel carries no update: retry later.
    NoChannel,
    /// Every collection was sent: the initialisation ends.
    Complete,
    /// Read up to `limit` roots of `collection` after `after_ring_index` and
    /// send them.
    Page {
        collection: Identifier,
        ring_exponent: RingExponent,
        after_ring_index: Option<RingIndex>,
        limit: u32,
        sequence: SequenceNumber,
        source_time: u64,
        pallet_index: u8,
    },
}

/// What the initialisation of `para_id` asks for next.
pub open spec fn init_plan_spec(s: NotifierView, c: NotifierConfig, para_id: ParaId, max_message_size: Option<u32>) -> Result<InitPlan, NotifierError> {
    if !s.pending_init.contains_key(para_id) {
        Err(NotifierError::NoPendingInit)
    } else {
        let st = s.pending_init[para_id];
        match batch_size_spec(max_message_size, c.xcm_overhead, c.update_size, c.max_updates_per_batch) {
            None => Ok(InitPlan::NoChannel),
            Some(m) => if st.current_collection_index >= st.collections.len() {
                Ok(InitPlan::Complete)
            } else {
                let (collection, ring_exponent) = st.collections[st.current_collection_index as int];
                Ok(
                    InitPlan::Page {
                        collection,
                        ring_exponent,
                        after_ring_index: st.after_ring_index,
                        limit: m,
                        sequence: st.sequence,
                        source_time: st.source_time,
                        pallet_index: st.pallet_index,
                    },
                )
            },
        }
    }
}

/// The initialisation state of `para_id` after a page: the next page of the
/// same collection starts after the last ring returned while the collection
/// may have more; otherwise the next collection starts from its first ring;
/// after the last collection the initialisation ends.
pub open spec fn advance_spec(
    s: NotifierView,
    para_id: ParaId,
    current_collection_index: u32,
    total_collections: nat,
    might_have_more: bool,
    last_returned_index: Option<RingIndex>,
) -> NotifierView {
    if might_have_more {
        if s.pending_init.contains_key(para_id) {
            NotifierView {
                pending_init: s.pending_init.insert(
                    para_id,
                    PendingInitView { after_ring_index: last_returned_index, ..s.pending_init[para_id] },
                ),
                ..s
            }
        } else {
            s
        }
    } else if current_collection_index < (if total_collections >= 1 { total_collections - 1 } else { 0 }) {
        if s.pending_init.contains_key(para_id) {
            let st = s.pending_init[para_id];
            NotifierView {
                pending_init: s.pending_init.insert(
                    para_id,
                    PendingInitView {
                        current_collection_index: if st.current_collection_index == 0xffff_ffff {
                            st.current_collection_index
                        } else {
                            (st.current_collection_index + 1) as u32
                        },
                        after_ring_index: None,
                        ..st
                    },
                ),
                ..s
            }
        } else {
            s
        }
    } else {
        NotifierView { pending_init: s.pending_init.remove(para_id), ..s }
    }
}

/// A replay of ring roots to send to a subscriber.
pub struct ReplayRequest<R> {
    /// The message.
    pub batch: RingRootUpdatesBatch<R>,
    /// Index of the subscriber pallet.
    pub pallet_index: u8,
    /// Number of rings replayed.
    pub indices_count: u32,
}

/// Whether `ix` is strictly increasing and below `next`.
pub open spec fn valid_indices(ix: Seq<RingIndex>, next: RingIndex) -> bool {
    &&& strictly_increasing(ix)
    &&& (ix.len() > 0 ==> ix.last() < next)
}

/// The refusal of a replay request, if any.
pub open spec fn replay_error(
    s: NotifierView,
    c: NotifierConfig,
    origin: NotifierOrigin,
    para_id: ParaId,
    identifier: Identifier,
    ix: Seq<RingIndex>,
    next_ring_index: RingIndex,
    max_message_size: Option<u32>,
    now: u64,
) -> Option<NotifierError> {
    let key = ReplayKey { para_id, identifier };
    if origin != NotifierOrigin::Signed {
        Some(NotifierError::BadOrigin)
    } else if ix.len() == 0 {
        Some(NotifierError::EmptyRingIndices)
    } else if !s.subscribers.contains_key(para_id) {
        Some(NotifierError::SubscriberNotFound)
    } else if !holds_collection(s.subscribers[para_id].collections, identifier) {
        Some(NotifierError::NotSubscribedToCollection)
    } else if !valid_indices(ix, next_ring_index) {
        Some(NotifierError::InvalidRingIndex)
    } else {
        match batch_size_spec(max_message_size, c.xcm_overhead, c.update_size, c.max_updates_per_batch) {
            None => Some(NotifierError::XcmSendFailed),
            Some(m) => if ix.len() > m {
                Some(NotifierError::ExceedsChannelCapacity)
            } else if s.last_replay.contains_key(key) && (if now >= s.last_replay[key] {
                now - s.last_replay[key]
            } else {
                0
            }) < c.replay_cooldown_seconds {
                Some(NotifierError::ReplayCooldownActive)
            } else {
                None
            },
        }
    }
}

/// A call that the offchain worker submits.
#[derive(Clone, Copy, PartialEq, Eq, Debug)]
pub enum OffchainCall {
    EnqueueUpdates { send_page: u16, discriminator: BlockNumber },
    SendBatch { para_id: ParaId, sequence: SequenceNumber, discriminator: BlockNumber },
    AbandonStuckBatch { discriminator: BlockNumber },
    SendInitPage {
        para_id: ParaId,
        current_collection_index: u32,
        after_ring_index: Option<RingIndex>,
        discriminator: BlockNumber,
    },
}

/// Whether `para_id` is owed the current batch `cb`.
pub open spec fn owed_batch(s: NotifierView, cb: BatchDistributionState<BlockNumber>, para_id: ParaId) -> bool {
    &&& s.subscribers.contains_key(para_id)
    &&& !s.served.contains(para_id)
    &&& s.subscribers[para_id].last_init_sequence < cb.sequence
}

/// Whether `call` is the `send_batch` call owed to `p` with discriminator `d`.
pub open spec fn planned_send(s: NotifierView, p: ParaId, call: OffchainCall, d: BlockNumber) -> bool {
    s.current_batch matches Some(cb) && cb.remaining_subscribers > 0 && owed_batch(s, cb, p)
        && call == (OffchainCall::SendBatch { para_id: p, sequence: cb.sequence, discriminator: d })
}

/// Whether `call` is the `send_init_page` call of the pending initialisation
/// of `p` with discriminator `d`.
pub open spec fn planned_init(s: NotifierView, p: ParaId, call: OffchainCall, d: BlockNumber) -> bool {
    s.pending_init.contains_key(p) && call == (OffchainCall::SendInitPage {
        para_id: p,
        current_collection_index: s.pending_init[p].current_collection_index,
        after_ring_index: s.pending_init[p].after_ring_index,
        discriminator: d,
    })
}

/// Whether `sends` holds, once each, a `send_batch` call for every
/// subscriber owed the current batch (none when no subscriber is left to
/// serve).
pub open spec fn sends_planned(s: NotifierView, sends: Seq<OffchainCall>, d: BlockNumber) -> bool {
    &&& sends.no_duplicates()
    &&& forall|call: OffchainCall| #[trigger] sends.contains(call) <==> exists|p: ParaId| #[trigger] planned_send(s, p, call, d)
}

/// Whether `inits` holds, once each, a `send_init_page` call for every
/// pending initialisation at its position.
pub open spec fn inits_planned(s: NotifierView, inits: Seq<OffchainCall>, d: BlockNumber) -> bool {
    &&& inits.no_duplicates()
    &&& forall|call: OffchainCall| #[trigger] inits.contains(call) <==> exists|p: ParaId| #[trigger] planned_init(s, p, call, d)
}

impl Notifier {
    /// What the initialisation of `para_id` asks for next, over a channel
    /// that carries at most `max_message_size` bytes.
    pub fn send_init_page_plan(&self, para_id: ParaId, max_message_size: Option<u32>) -> (r: Result<InitPlan, NotifierError>)
        requires
            self.wf(),
        ensures
            r == init_plan_spec(self@, self.config(), para_id, max_message_size),
    {
        let st = match self.pending_init.get(&para_id) {
            Some(st) => st,
            None => {
                return Err(NotifierError::NoPendingInit);
            },
        };
        let m = match self.max_updates_per_xcm(max_message_size) {
            Some(m) => m,
            None => {
                return Ok(InitPlan::NoChannel);
            },
        };
        if st.current_collection_index as usize >= st.collections.len() {
            return Ok(InitPlan::Complete);
        }
        let (collection, ring_exponent) = st.collections[st.current_collection_index as usize];
        Ok(
            InitPlan::Page {
                collection,
                ring_exponent,
                after_ring_index: st.after_ring_index,
                limit: m,
                sequence: st.sequence,
                source_time: st.source_time,
                pallet_index: st.pallet_index,
            },
        )
    }

    /// Moves the initialisation of `para_id` on after a page of collection
    /// `state.current_collection_index` of `total_collections`.
    pub fn advance_init_pagination(
        &mut self,
        para_id: ParaId,
        state: &PendingInitState,
        total_collections: usize,
        might_have_more_in_collection: bool,
        last_returned_index: Option<RingIndex>,
    )
        requires
            old(self).wf(),
        ensures
            final(self).wf(),
            final(self).config() == old(self).config(),
            final(self)@ == advance_spec(
                old(self)@,
                para_id,
                state.current_collection_index,
                total_collections as nat,
                might_have_more_in_collection,
                last_returned_index,
            ),
    {
        let last = if total_collections >= 1 {
            total_collections - 1
        } else {
            0
        };
        if might_have_more_in_collection {
            if let Some(st) = self.pending_init.remove(&para_id) {
                let mut st = st;
                st.after_ring_index = last_returned_index;
                self.pending_init.insert(para_id, st);
                proof {
                    assert(self@.pending_init =~= old(self)@.pending_init.insert(
                        para_id,
                        PendingInitView { after_ring_index: last_returned_index, ..old(self)@.pending_init[para_id] },
                    ));
                }
            } else {
                proof {
                    assert(self@.pending_init =~= old(self)@.pending_init);
                }
            }
        } else if (state.current_collection_index as usize) < last {
            if let Some(st) = self.pending_init.remove(&para_id) {
                let mut st = st;
                st.current_collection_index = if st.current_collection_index == 0xffff_ffff {
                    st.current_collection_index
                } else {
                    st.current_collection_index + 1
                };
                st.after_ring_index = None;
                let ghost v = st@;
                self.pending_init.insert(para_id, st);
                proof {
                    let o = old(self)@.pending_init[para_id];
                    assert(v == PendingInitView {
                        current_collection_index: if o.current_collection_index == 0xffff_ffff {
                            o.current_collection_index
                        } else {
                            (o.current_collection_index + 1) as u32
                        },
                        after_ring_index: None,
                        ..o
                    });
                    assert(self@.pending_init =~= old(self)@.pending_init.insert(para_id, v));
                }
            } else {
                proof {
                    assert(self@.pending_init =~= old(self)@.pending_init);
                }
            }
        } else {
            let _ = self.pending_init.remove(&para_id);
        }
    }

    /// Records one page of the initialisation of `para_id`: with no channel
    /// nothing changes; when every collection was sent the initialisation
    /// ends; when the page was not delivered it is retried later; otherwise
    /// the initialisation moves on, where `returned` roots were read (up to
    /// the plan's limit) and the last of them was ring `last_returned_index`.
    /// Returns the number of roots sent.
    #[verifier::spinoff_prover]
    pub fn send_init_page(
        &mut self,
        origin: NotifierOrigin,
        para_id: ParaId,
        current_collection_index: u32,
        after_ring_index: Option<RingIndex>,
        discriminator: BlockNumber,
        max_message_size: Option<u32>,
        returned: u32,
        last_returned_index: Option<RingIndex>,
        delivered: bool,
    ) -> (r: Result<u32, NotifierError>)
        requires
            old(self).wf(),
        ensures
            final(self).wf(),
            final(self).config() == old(self).config(),
            origin != NotifierOrigin::Authorized ==> r == Err::<u32, NotifierError>(NotifierError::BadOrigin)
                && final(self)@ == old(self)@,
            origin == NotifierOrigin::Authorized ==> match init_plan_spec(old(self)@, old(self).config(), para_id, max_message_size) {
                Err(e) => r == Err::<u32, NotifierError>(e) && final(self)@ == old(self)@,
                Ok(InitPlan::NoChannel) => r == Ok::<u32, NotifierError>(0) && final(self)@ == old(self)@,
                Ok(InitPlan::Complete) => r == Ok::<u32, NotifierError>(0)
                    && final(self)@ == (NotifierView { pending_init: old(self)@.pending_init.remove(para_id), ..old(self)@ }),
                Ok(InitPlan::Page { limit, .. }) => r == Ok::<u32, NotifierError>(returned) && if delivered {
                    final(self)@ == advance_spec(
                        old(self)@,
                        para_id,
                        old(self)@.pending_init[para_id].current_collection_index,
                        old(self)@.pending_init[para_id].collections.len(),
                        returned == limit,
                        last_returned_index,
                    )
                } else {
                    final(self)@ == old(self)@
                },
            },
    {
        if origin != NotifierOrigin::Authorized {
            return Err(NotifierError::BadOrigin);
        }
        let plan = match self.send_init_page_plan(para_id, max_message_size) {
            Ok(p) => p,
            Err(e) => {
                return Err(e);
            },
        };
        match plan {
            InitPlan::NoChannel => Ok(0),
            InitPlan::Complete => {
                let _ = self.pending_init.remove(&para_id);
                Ok(0)
            },
            InitPlan::Page { limit, .. } => {
                if !delivered {
                    return Ok(returned);
                }
                let state = match self.pending_init.get(&para_id) {
                    Some(st) => clone_init(st),
                    None => {
                        return Ok(returned);
                    },
                };
                let total = state.collections.len();
                self.advance_init_pagination(para_id, &state, total, returned == limit, last_returned_index);
                Ok(returned)
            },
        }
    }

    /// Prepares a replay of rings `ring_root_indices` (strictly ascending,
    /// below `next_ring_index`) of collection `identifier` to subscriber
    /// `para_id`, with the roots the collection returned for them, at clock
    /// time `now`. Nothing changes; once the message is delivered,
    /// `replay_sent` records it.
    pub fn request_replay<R>(
        &self,
        origin: NotifierOrigin,
        para_id: ParaId,
        identifier: Identifier,
        ring_root_indices: &[RingIndex],
        next_ring_index: RingIndex,
        max_message_size: Option<u32>,
        now: u64,
        roots: Vec<(RingIndex, R, RevisionIndex)>,
    ) -> (r: Result<ReplayRequest<R>, NotifierError>)
        requires
            self.wf(),
        ensures
            match replay_error(self@, self.config(), origin, para_id, identifier, ring_root_indices@, next_ring_index, max_message_size, now) {
                Some(e) => r == Err::<ReplayRequest<R>, NotifierError>(e),
                None => r matches Ok(req) && {
                    &&& req.batch.identifier == identifier
                    &&& req.batch.sequence == self@.sealed_sequence
                    &&& req.batch.source_time == now
                    &&& req.batch.next_ring_index == next_ring_index
                    &&& req.batch.updates@ == resolve_spec(ring_root_indices@, roots@)
                    &&& req.pallet_index == self@.subscribers[para_id].pallet_index
                    &&& req.indices_count == ring_root_indices@.len()
                },
            },
    {
        if origin != NotifierOrigin::Signed {
            return Err(NotifierError::BadOrigin);
        }
        if ring_root_indices.len() == 0 {
            return Err(NotifierError::EmptyRingIndices);
        }
        let info = match self.subscribers.get(&para_id) {
            Some(i) => i,
            None => {
                return Err(NotifierError::SubscriberNotFound);
            },
        };
        let mut found = false;
        let mut ci: usize = 0;
        while ci < info.collections.len()
            invariant
                ci <= info.collections@.len(),
                found == exists|j: int| 0 <= j < ci && #[trigger] info.collections@[j].0 == identifier,
            decreases info.collections@.len() - ci,
        {
            if id_eq(&info.collections[ci].0, &identifier) {
                found = true;
            }
            ci += 1;
        }
        if !found {
            return Err(NotifierError::NotSubscribedToCollection);
        }
        if !indices_valid(ring_root_indices, next_ring_index) {
            return Err(NotifierError::InvalidRingIndex);
        }
        let m = match self.max_updates_per_xcm(max_message_size) {
            Some(m) => m,
            None => {
                return Err(NotifierError::XcmSendFailed);
            },
        };
        if ring_root_indices.len() > m as usize {
            return Err(NotifierError::ExceedsChannelCapacity);
        }
        if let Some(last) = self.last_replay.get(&ReplayKey { para_id, identifier }) {
            let elapsed = if now >= *last {
                now - *last
            } else {
                0
            };
            if elapsed < self.config.replay_cooldown_seconds {
                return Err(NotifierError::ReplayCooldownActive);
            }
        }
        let indices_count = ring_root_indices.len() as u32;
        let updates = resolve_updates_for_indices(ring_root_indices, roots);
        let batch = RingRootUpdatesBatch {
            identifier,
            sequence: self.sealed_sequence,
            source_time: now,
            updates,
            next_ring_index,
        };
        Ok(ReplayRequest { batch, pallet_index: info.pallet_index, indices_count })
    }

    /// Records a delivered replay of `indices_count` rings of `identifier` to
    /// `para_id` at clock time `now`, which starts its cooldown.
    pub fn replay_sent(&mut self, para_id: ParaId, identifier: Identifier, indices_count: u32, now: u64) -> (r: Vec<NotifierEvent>)
        requires
            old(self).wf(),
        ensures
            final(self).wf(),
            final(self).config() == old(self).config(),
            final(self)@ == (NotifierView {
                last_replay: old(self)@.last_replay.insert(ReplayKey { para_id, identifier }, now),
                ..old(self)@
            }),
            r@ == seq![NotifierEvent::ReplayRequested { para_id, identifier, indices_count }],
    {
        self.last_replay.insert(ReplayKey { para_id, identifier }, now);
        let ev = vec![NotifierEvent::ReplayRequested { para_id, identifier, indices_count }];
        proof {
            assert(ev@ =~= seq![NotifierEvent::ReplayRequested { para_id, identifier, indices_count }]);
        }
        ev
    }

    /// The calls that the offchain worker submits at block `block_number`:
    /// on every `offchain_worker_interval`-th block, sealing a batch when none
    /// is active and work is pending, the current batch to each subscriber
    /// still owed it, its abandonment when it is stuck, and a page for each
    /// pending initialisation.
    pub fn offchain_worker(&self, block_number: BlockNumber) -> (r: Vec<OffchainCall>)
        requires
            self.wf(),
            self.config().offchain_worker_interval > 0,
        ensures
            block_number % self.config().offchain_worker_interval != 0 ==> r@.len() == 0,
            block_number % self.config().offchain_worker_interval == 0 ==> {
                let s = self@;
                let d = (block_number / TX_RETRY_WINDOW) as u32;
                exists|sends: Seq<OffchainCall>, inits: Seq<OffchainCall>| {
                    &&& sends_planned(s, sends, d)
                    &&& inits_planned(s, inits, d)
                    &&& r@ == (if s.current_batch is None && processable(s, self.config(), s.page_state, block_number) {
                        seq![OffchainCall::EnqueueUpdates { send_page: s.page_state.send_page, discriminator: d }]
                    } else {
                        Seq::empty()
                    }) + sends + (match s.current_batch {
                        Some(cb) => if sat_sub(block_number, cb.sealed_at) >= self.config().stuck_batch_timeout {
                            seq![OffchainCall::AbandonStuckBatch { discriminator: d }]
                        } else {
                            Seq::empty()
                        },
                        None => Seq::empty(),
                    }) + inits
                }
            },
    {
        let mut calls: Vec<OffchainCall> = Vec::new();
        if block_number % self.config.offchain_worker_interval != 0 {
            return calls;
        }
        let d = block_number / TX_RETRY_WINDOW;
        let ghost s = self@;
        let cb = self.current_batch;
        if cb.is_none() && self.has_pending_work(block_number) {
            calls.push(OffchainCall::EnqueueUpdates { send_page: self.page_state.send_page, discriminator: d });
        }
        let ghost first = calls@;
        let mut sends: Vec<OffchainCall> = Vec::new();
        if let Some(b) = cb {
            if b.remaining_subscribers > 0 {
                let ps = self.subscribers.keys();
                let mut i: usize = 0;
                while i < ps.len()
                    invariant
                        self.wf(),
                        s == self@,
                        s.current_batch == Some(b),
                        b.remaining_subscribers > 0,
                        i <= ps@.len(),
                        ps@.no_duplicates(),
                        forall|p: ParaId| #[trigger] ps@.contains(p) <==> s.subscribers.contains_key(p),
                        sends@.no_duplicates(),
                        forall|call: OffchainCall| #[trigger] sends@.contains(call) <==> exists|j: int|
                            0 <= j < i && owed_batch(s, b, ps@[j]) && call == (OffchainCall::SendBatch {
                                para_id: ps@[j],
                                sequence: b.sequence,
                                discriminator: d,
                            }),
                    decreases ps@.len() - i,
                {
                    let p = ps[i];
                    proof {
                        assert(ps@.contains(p));
                    }
                    let owed = match self.subscribers.get(&p) {
                        Some(info) => !self.served.contains_key(&p) && info.last_init_sequence < b.sequence,
                        None => false,
                    };
                    let ghost s0 = sends@;
                    if owed {
                        sends.push(OffchainCall::SendBatch { para_id: p, sequence: b.sequence, discriminator: d });
                        proof {
                            assert forall|a: int, c: int| 0 <= a < sends@.len() && 0 <= c < sends@.len() && a != c implies sends@[a] != sends@[c] by {
                                if a == s0.len() || c == s0.len() {
                                    let o = if a == s0.len() { c } else { a };
                                    assert(s0.contains(sends@[o]));
                                    let j = choose|j: int| 0 <= j < i && owed_batch(s, b, ps@[j]) && sends@[o] == (OffchainCall::SendBatch {
                                        para_id: ps@[j],
                                        sequence: b.sequence,
                                        discriminator: d,
                                    });
                                    assert(ps@[j] != ps@[i as int]);
                                }
                            }
                        }
                    }
                    i += 1;
                    proof {
                        assert forall|call: OffchainCall| #[trigger] sends@.contains(call) <==> exists|j: int|
                            0 <= j < i && owed_batch(s, b, ps@[j]) && call == (OffchainCall::SendBatch {
                                para_id: ps@[j],
                                sequence: b.sequence,
                                discriminator: d,
                            }) by {
                            if sends@.contains(call) && !s0.contains(call) {
                                assert(call == sends@[s0.len() as int]);
                            }
                            if exists|j: int| 0 <= j < i && owed_batch(s, b, ps@[j]) && call == (OffchainCall::SendBatch {
                                para_id: ps@[j],
                                sequence: b.sequence,
                                discriminator: d,
                            }) {
                                let j = choose|j: int| 0 <= j < i && owed_batch(s, b, ps@[j]) && call == (OffchainCall::SendBatch {
                                    para_id: ps@[j],
                                    sequence: b.sequence,
                                    discriminator: d,
                                });
                                if j == i - 1 {
                                    assert(sends@[s0.len() as int] == call);
                                } else {
                                    assert(s0.contains(call));
                                    let q = choose|q: int| 0 <= q < s0.len() && s0[q] == call;
                                    assert(sends@[q] == call);
                                }
                            }
                        }
                    }
                }
                proof {
                    assert forall|call: OffchainCall| #[trigger] sends@.contains(call) <==> exists|p: ParaId| #[trigger] planned_send(s, p, call, d) by {
                        if exists|p: ParaId| #[trigger] planned_send(s, p, call, d) {
                            let p = choose|p: ParaId| #[trigger] planned_send(s, p, call, d);
                            assert(ps@.contains(p));
                            let j = choose|j: int| 0 <= j < ps@.len() && ps@[j] == p;
                        }
                        if sends@.contains(call) {
                            let j = choose|j: int| 0 <= j < ps@.len() && owed_batch(s, b, ps@[j]) && call == (OffchainCall::SendBatch {
                                para_id: ps@[j],
                                sequence: b.sequence,
                                discriminator: d,
                            });
                            assert(planned_send(s, ps@[j], call, d));
                        }
                    }
                }
            }
        }
        proof {
            assert(sends_planned(s, sends@, d)) by {
                if !(s.current_batch matches Some(cb) && cb.remaining_subscribers > 0) {
                    assert(sends@ =~= Seq::<OffchainCall>::empty());
                }
            }
        }
        let ghost sends_v = sends@;
        let mut tail: Vec<OffchainCall> = Vec::new();
        if let Some(b) = cb {
            let elapsed = if block_number >= b.sealed_at {
                block_number - b.sealed_at
            } else {
                0
            };
            if elapsed >= self.config.stuck_batch_timeout {
                tail.push(OffchainCall::AbandonStuckBatch { discriminator: d });
            }
        }
        let ghost tail_v = tail@;
        let ps = self.pending_init.keys();
        let mut inits: Vec<OffchainCall> = Vec::new();
        let mut i: usize = 0;
        while i < ps.len()
            invariant
                self.wf(),
                s == self@,
                i <= ps@.len(),
                ps@.no_duplicates(),
                forall|p: ParaId| #[trigger] ps@.contains(p) <==> s.pending_init.contains_key(p),
                inits@.len() == i,
                forall|j: int| 0 <= j < i ==> #[trigger] inits@[j] == (OffchainCall::SendInitPage {
                    para_id: ps@[j],
                    current_collection_index: s.pending_init[ps@[j]].current_collection_index,
                    after_ring_index: s.pending_init[ps@[j]].after_ring_index,
                    discriminator: d,
                }),
            decreases ps@.len() - i,
        {
            let p = ps[i];
            proof {
                assert(ps@.contains(p));
            }
            let (idx, after) = match self.pending_init.get(&p) {
                Some(st) => (st.current_collection_index, st.after_ring_index),
                None => (0, None),
            };
            inits.push(OffchainCall::SendInitPage { para_id: p, current_collection_index: idx, after_ring_index: after, discriminator: d });
            i += 1;
        }
        proof {
            assert(inits_planned(s, inits@, d)) by {
                assert forall|a: int, c: int| 0 <= a < inits@.len() && 0 <= c < inits@.len() && a != c implies inits@[a] != inits@[c] by {
                    assert(inits@[a] == (OffchainCall::SendInitPage {
                        para_id: ps@[a],
                        current_collection_index: s.pending_init[ps@[a]].current_collection_index,
                        after_ring_index: s.pending_init[ps@[a]].after_ring_index,
                        discriminator: d,
                    }));
                    assert(inits@[c] == (OffchainCall::SendInitPage {
                        para_id: ps@[c],
                        current_collection_index: s.pending_init[ps@[c]].current_collection_index,
                        after_ring_index: s.pending_init[ps@[c]].after_ring_index,
                        discriminator: d,
                    }));
                }
                assert forall|call: OffchainCall| #[trigger] inits@.contains(call) <==> exists|p: ParaId| #[trigger] planned_init(s, p, call, d) by {
                    if inits@.contains(call) {
                        let j = choose|j: int| 0 <= j < inits@.len() && inits@[j] == call;
                        assert(ps@.contains(ps@[j]));
                        assert(planned_init(s, ps@[j], call, d));
                    }
                    if exists|p: ParaId| #[trigger] planned_init(s, p, call, d) {
                        let p = choose|p: ParaId| #[trigger] planned_init(s, p, call, d);
                        assert(ps@.contains(p));
                        let j = choose|j: int| 0 <= j < ps@.len() && ps@[j] == p;
                        assert(inits@[j] == call);
                    }
                }
            }
        }
        let ghost inits_v = inits@;
        let mut all = calls;
        let mut sends = sends;
        all.append(&mut sends);
        all.append(&mut tail);
        all.append(&mut inits);
        proof {
            assert(all@ =~= first + sends_v + tail_v + inits_v);
        }
        all
    }
}

/// Whether `ix` is strictly increasing and below `next`.
pub fn indices_valid(ix: &[RingIndex], next: RingIndex) -> (r: bool)
    ensures
        r == valid_indices(ix@, next),
{
    let mut i: usize = 1;
    while i < ix.len()
        invariant
            1 <= i,
            forall|a: int, b: int| 0 <= a < b < i && b < ix@.len() ==> ix@[a] < ix@[b],
        decreases ix@.len() - i,
    {
        if ix[i - 1] >= ix[i] {
            return false;
        }
        i += 1;
    }
    if ix.len() > 0 && ix[ix.len() - 1] >= next {
        return false;
    }
    true
}

/// Whether `a` comes before `b`, `None` before every index.
pub fn option_lt(a: Option<RingIndex>, b: Option<RingIndex>) -> (r: bool)
    ensures
        r == opt_lt(a, b),
{
    match (a, b) {
        (None, Some(_)) => true,
        (Some(x), Some(y)) => x < y,
        _ => false,
    }
}

/// Recording the same ring-root change twice records it once.
pub proof fn lemma_on_change_idempotent(s: NotifierView, c: NotifierConfig, identifier: Identifier, ring_index: RingIndex)
    ensures
        on_change_spec(on_change_spec(s, c, identifier, ring_index), c, identifier, ring_index) == on_change_spec(
            s,
            c,
            identifier,
            ring_index,
        ),
{
}

/// A recorded change is pending on the write page afterwards.
pub proof fn lemma_on_change_pending(s: NotifierView, c: NotifierConfig, identifier: Identifier, ring_index: RingIndex)
    ensures
        ({
            let t = on_change_spec(s, c, identifier, ring_index);
            t.pending.contains(PendingKey { page: t.page_state.write_page, identifier, ring_index })
        }),
{
}

/// Once a replay to a subscriber for a collection is accepted at time `t`
/// and recorded, the same request is refused for the cooldown until the
/// cooldown has passed.
pub proof fn lemma_replay_cooldown(
    s: NotifierView,
    c: NotifierConfig,
    para_id: ParaId,
    identifier: Identifier,
    ix: Seq<RingIndex>,
    next: RingIndex,
    max_message_size: Option<u32>,
    t: u64,
    now: u64,
)
    requires
        replay_error(s, c, NotifierOrigin::Signed, para_id, identifier, ix, next, max_message_size, t) is None,
        t <= now,
    ensures
        ({
            let s2 = NotifierView { last_replay: s.last_replay.insert(ReplayKey { para_id, identifier }, t), ..s };
            replay_error(s2, c, NotifierOrigin::Signed, para_id, identifier, ix, next, max_message_size, now) == if now
                - t < c.replay_cooldown_seconds {
                Some(NotifierError::ReplayCooldownActive)
            } else {
                None::<NotifierError>
            }
        }),
{
}

/// Cooldowns are per subscriber and collection: recording a replay leaves
/// the refusal of any other pair as it was.
pub proof fn lemma_replay_cooldown_separate(
    s: NotifierView,
    c: NotifierConfig,
    para_id: ParaId,
    identifier: Identifier,
    other: ReplayKey,
    ix: Seq<RingIndex>,
    next: RingIndex,
    max_message_size: Option<u32>,
    t: u64,
    now: u64,
)
    requires
        other != (ReplayKey { para_id, identifier }),
    ensures
        ({
            let s2 = NotifierView { last_replay: s.last_replay.insert(ReplayKey { para_id, identifier }, t), ..s };
            replay_error(s2, c, NotifierOrigin::Signed, other.para_id, other.identifier, ix, next, max_message_size, now)
                == replay_error(s, c, NotifierOrigin::Signed, other.para_id, other.identifier, ix, next, max_message_size, now)
        }),
{
    let s2 = NotifierView { last_replay: s.last_replay.insert(ReplayKey { para_id, identifier }, t), ..s };
    assert(s2.last_replay.contains_key(other) == s.last_replay.contains_key(other));
}

/// An unsubscribed chain leaves nothing behind: no record, no pending
/// initialisation and no replay cooldown for its collections.
pub proof fn lemma_unsubscribe_forgets(c: NotifierConfig, s: NotifierView, after: NotifierView, para_id: ParaId)
    requires
        s.subscribers.contains_key(para_id),
        batch_adjusted(c, without_subscriber(s, para_id), after, para_id, s.subscribers[para_id]),
    ensures
        !after.subscribers.contains_key(para_id),
        !after.pending_init.contains_key(para_id),
        forall|id: Identifier| #[trigger] holds_collection(s.subscribers[para_id].collections, id)
            ==> !after.last_replay.contains_key(ReplayKey { para_id, identifier: id }),
{
    assert forall|id: Identifier| #[trigger] holds_collection(s.subscribers[para_id].collections, id)
        implies !after.last_replay.contains_key(ReplayKey { para_id, identifier: id }) by {
        assert(replay_keys(para_id, s.subscribers[para_id].collections).contains(ReplayKey { para_id, identifier: id }));
    }
}

/// Subscribing a chain and then having it unsubscribe itself, with no
/// batch in progress and no initialisation or cooldown of that chain left
/// over, leaves the notifier as it was.
pub proof fn lemma_subscribe_unsubscribe(
    c: NotifierConfig,
    s: NotifierView,
    para_id: ParaId,
    cols: Seq<(Identifier, RingExponent)>,
    pallet_index: u8,
    now: u64,
    after: NotifierView,
)
    requires
        s.current_batch is None,
        !s.pending_init.contains_key(para_id),
        forall|k: ReplayKey| #[trigger] s.last_replay.contains_key(k) ==> k.para_id != para_id,
        subscribe_spec(s, c, NotifierOrigin::Manager, para_id, cols, pallet_index, now) is Ok,
        ({
            let s1 = register_for_init_spec(s, para_id, cols, pallet_index, now);
            batch_adjusted(c, without_subscriber(s1, para_id), after, para_id, s1.subscribers[para_id])
        }),
    ensures
        after == s,
{
    let s1 = register_for_init_spec(s, para_id, cols, pallet_index, now);
    assert(after.subscribers =~= s.subscribers);
    assert(after.pending_init =~= s.pending_init);
    assert(after.last_replay =~= s.last_replay);
}

/// The subscribers still owed the batch `cb`: subscribed, not served, and
/// initialised before it.
pub open spec fn owed_set(s: NotifierView, cb: BatchDistributionState<BlockNumber>) -> Set<ParaId> {
    s.subscribers.dom().filter(|p: ParaId| !s.served.contains(p) && s.subscribers[p].last_init_sequence < cb.sequence)
}

/// The bookkeeping of batch distribution: finitely many subscribers, within
/// the bound; only subscribers are served; every subscriber was initialised
/// at or before the last sealed batch; with no batch nobody is served; and a
/// batch is the last sealed one and counts exactly the subscribers still
/// owed it.
pub open spec fn batch_accounting(s: NotifierView, c: NotifierConfig) -> bool {
    &&& s.subscribers.dom().finite()
    &&& s.subscribers.len() <= c.max_subscribers
    &&& s.served <= s.subscribers.dom()
    &&& forall|p: ParaId| #[trigger] s.subscribers.contains_key(p) ==> s.subscribers[p].last_init_sequence <= s.sealed_sequence
    &&& match s.current_batch {
        None => s.served == Set::<ParaId>::empty(),
        Some(cb) => cb.sequence == s.sealed_sequence && cb.remaining_subscribers == owed_set(s, cb).len(),
    }
}

proof fn lemma_owed_finite(s: NotifierView, cb: BatchDistributionState<BlockNumber>)
    requires
        s.subscribers.dom().finite(),
    ensures
        owed_set(s, cb).finite(),
        owed_set(s, cb).len() <= s.subscribers.len(),
{
    vstd::set_lib::lemma_len_subset(owed_set(s, cb), s.subscribers.dom());
}

/// Clearing the batch of a state whose served subscribers are within the
/// subscriber bound leaves nobody served.
proof fn lemma_clear_empties_served(c: NotifierConfig, before: NotifierView, after: NotifierView)
    requires
        before.subscribers.dom().finite(),
        before.served <= before.subscribers.dom(),
        before.subscribers.len() <= c.max_subscribers,
        batch_cleared(c, before, after),
    ensures
        after.served == Set::<ParaId>::empty(),
{
    vstd::set_lib::lemma_len_subset(before.served, before.subscribers.dom());
    vstd::set_lib::lemma_len_subset(after.served, before.served);
    after.served.lemma_len0_is_empty();
}

/// Subscribing keeps the batch bookkeeping: the new subscriber is initialised
/// with the last sealed batch and is not owed it.
pub proof fn lemma_subscribe_keeps_accounting(
    s: NotifierView,
    c: NotifierConfig,
    origin: NotifierOrigin,
    para_id: ParaId,
    cols: Seq<(Identifier, RingExponent)>,
    pallet_index: u8,
    now: u64,
)
    requires
        batch_accounting(s, c),
        subscribe_spec(s, c, origin, para_id, cols, pallet_index, now) is Ok,
    ensures
        batch_accounting(register_for_init_spec(s, para_id, cols, pallet_index, now), c),
{
    let t = register_for_init_spec(s, para_id, cols, pallet_index, now);
    assert(t.subscribers.dom() =~= s.subscribers.dom().insert(para_id));
    match s.current_batch {
        None => {},
        Some(cb) => {
            assert(owed_set(t, cb) =~= owed_set(s, cb));
        },
    }
}

/// Removing a subscriber keeps the batch bookkeeping: one still owed the
/// batch is no longer counted, and the batch is cleared when it was the
/// last.
pub proof fn lemma_unsubscribe_keeps_accounting(c: NotifierConfig, s: NotifierView, after: NotifierView, para_id: ParaId)
    requires
        batch_accounting(s, c),
        s.subscribers.contains_key(para_id),
        batch_adjusted(c, without_subscriber(s, para_id), after, para_id, s.subscribers[para_id]),
    ensures
        batch_accounting(after, c),
{
    let mid = without_subscriber(s, para_id);
    let info = s.subscribers[para_id];
    assert(mid.subscribers.dom() =~= s.subscribers.dom().remove(para_id));
    match s.current_batch {
        None => {},
        Some(cb) => {
            lemma_owed_finite(s, cb);
            if s.served.contains(para_id) {
                assert(owed_set(after, cb) =~= owed_set(s, cb));
            } else if info.last_init_sequence < cb.sequence && cb.remaining_subscribers > 0 {
                assert(owed_set(s, cb).contains(para_id));
                assert(owed_set(mid, cb) =~= owed_set(s, cb).remove(para_id));
                if cb.remaining_subscribers == 1 {
                    lemma_clear_empties_served(c, mid, after);
                } else {
                    assert(owed_set(after, cb) =~= owed_set(mid, cb));
                }
            } else {
                if info.last_init_sequence < cb.sequence {
                    assert(owed_set(s, cb).contains(para_id));
                }
                assert(owed_set(after, cb) =~= owed_set(s, cb));
            }
        },
    }
}

/// Removing a subscriber keeps the count of the current batch, whatever else
/// holds of the state: when the batch counts exactly the subscribers still
/// owed it, then afterwards either the batch is cleared (the removed
/// subscriber was the last one owed it) or the same batch counts exactly the
/// subscribers still owed it. A removed subscriber that had already received
/// the batch is forgotten from the served ones and the count stays.
pub proof fn lemma_unsubscribe_keeps_count(c: NotifierConfig, s: NotifierView, after: NotifierView, para_id: ParaId)
    requires
        s.subscribers.dom().finite(),
        s.subscribers.contains_key(para_id),
        s.current_batch matches Some(cb) && cb.remaining_subscribers == owed_set(s, cb).len(),
        batch_adjusted(c, without_subscriber(s, para_id), after, para_id, s.subscribers[para_id]),
    ensures
        after.current_batch is None || (after.current_batch matches Some(b2) && b2.sequence
            == s.current_batch->0.sequence && b2.remaining_subscribers == owed_set(after, b2).len()),
        after.current_batch is None ==> s.current_batch->0.remaining_subscribers == 1 && owed_set(
            s,
            s.current_batch->0,
        ) == set![para_id],
        s.served.contains(para_id) ==> after.current_batch == s.current_batch && after.served == s.served.remove(
            para_id,
        ),
{
    let cb = s.current_batch->0;
    let mid = without_subscriber(s, para_id);
    let info = s.subscribers[para_id];
    assert(mid.subscribers.dom() =~= s.subscribers.dom().remove(para_id));
    lemma_owed_finite(s, cb);
    if s.served.contains(para_id) {
        assert(owed_set(after, cb) =~= owed_set(s, cb));
    } else if info.last_init_sequence < cb.sequence && cb.remaining_subscribers > 0 {
        assert(owed_set(s, cb).contains(para_id));
        assert(owed_set(mid, cb) =~= owed_set(s, cb).remove(para_id));
        if cb.remaining_subscribers == 1 {
            assert(owed_set(s, cb) =~= set![para_id]) by {
                assert(owed_set(s, cb).remove(para_id).len() == 0);
                owed_set(s, cb).remove(para_id).lemma_len0_is_empty();
                assert forall|p: ParaId| owed_set(s, cb).contains(p) implies p == para_id by {
                    if p != para_id {
                        assert(owed_set(s, cb).remove(para_id).contains(p));
                    }
                }
            }
        } else {
            assert(owed_set(after, cb) =~= owed_set(mid, cb));
        }
    } else {
        if info.last_init_sequence < cb.sequence {
            assert(owed_set(s, cb).contains(para_id));
        }
        assert(owed_set(after, cb) =~= owed_set(s, cb));
    }
}

/// Serving a subscriber that is owed the current batch keeps the batch
/// bookkeeping, and clears the batch exactly when nobody else is owed it.
pub proof fn lemma_send_batch_keeps_accounting(c: NotifierConfig, s: NotifierView, after: NotifierView, para_id: ParaId)
    requires
        batch_accounting(s, c),
        s.current_batch matches Some(cb) && owed_set(s, cb).contains(para_id),
        batch_processed(c, s, after, para_id),
    ensures
        batch_accounting(after, c),
        after.current_batch is None <==> owed_set(s, s.current_batch->0) == set![para_id],
{
    let cb = s.current_batch->0;
    let s1 = NotifierView { served: s.served.insert(para_id), ..s };
    lemma_owed_finite(s, cb);
    assert(owed_set(s1, cb) =~= owed_set(s, cb).remove(para_id));
    if cb.remaining_subscribers == 1 {
        lemma_clear_empties_served(c, s1, after);
        assert(owed_set(s, cb) =~= set![para_id]) by {
            assert(owed_set(s, cb).remove(para_id).len() == 0);
            owed_set(s, cb).remove(para_id).lemma_len0_is_empty();
            assert forall|p: ParaId| owed_set(s, cb).contains(p) implies p == para_id by {
                if p != para_id {
                    assert(owed_set(s, cb).remove(para_id).contains(p));
                }
            }
        }
    } else {
        assert(owed_set(after, cb) =~= owed_set(s1, cb));
        if owed_set(s, cb) == set![para_id] {
            assert(owed_set(s, cb).len() == 1);
        }
    }
}

/// Sealing a batch while none is active starts the bookkeeping: every
/// subscriber is owed the new batch and counted. This holds while the batch
/// sequence has not reached its largest value.
pub proof fn lemma_enqueue_starts_accounting(
    c: NotifierConfig,
    s: NotifierView,
    after: NotifierView,
    count: u32,
    now: BlockNumber,
    now_secs: u64,
)
    requires
        batch_accounting(s, c),
        s.current_batch is None,
        s.sealed_sequence < u64::MAX,
        enqueued(c, s, after, count, now, now_secs),
    ensures
        batch_accounting(after, c),
        s.subscribers.len() > 0 ==> (after.current_batch matches Some(cb) && owed_set(after, cb) == after.subscribers.dom()),
{
    if s.subscribers.len() > 0 {
        let cb = after.current_batch->0;
        assert(after.subscribers == s.subscribers);
        assert(after.served == s.served);
        assert(owed_set(after, cb) =~= after.subscribers.dom());
    }
}

/// Abandoning the current batch keeps the bookkeeping.
pub proof fn lemma_abandon_keeps_accounting(c: NotifierConfig, s: NotifierView, after: NotifierView)
    requires
        batch_accounting(s, c),
        batch_cleared(c, s, after),
    ensures
        batch_accounting(after, c),
{
    lemma_clear_empties_served(c, s, after);
}

/// A change that leaves the subscribers, the served subscribers, the sealed
/// sequence and the current batch alone (recording a ring-root change, an
/// initialisation page, a replay) keeps the bookkeeping.
pub proof fn lemma_frame_keeps_accounting(c: NotifierConfig, s: NotifierView, after: NotifierView)
    requires
        batch_accounting(s, c),
        after.subscribers == s.subscribers,
        after.served == s.served,
        after.sealed_sequence == s.sealed_sequence,
        after.current_batch == s.current_batch,
    ensures
        batch_accounting(after, c),
{
    match s.current_batch {
        None => {},
        Some(cb) => {
            assert(owed_set(after, cb) =~= owed_set(s, cb));
        },
    }
}

/// A copy of a list of ring indices.
pub fn copy_indices(v: &Vec<RingIndex>) -> (r: Vec<RingIndex>)
    ensures
        r@ == v@,
{
    let mut out: Vec<RingIndex> = Vec::new();
    let mut i: usize = 0;
    while i < v.len()
        invariant
            i <= v@.len(),
            out@ == v@.subrange(0, i as int),
        decreases v@.len() - i,
    {
        out.push(v[i]);
        i += 1;
        assert(out@ =~= v@.subrange(0, i as int));
    }
    assert(out@ =~= v@);
    out
}

/// A copy of a list of collections.
pub fn copy_collections(v: &Vec<(Identifier, RingExponent)>) -> (r: Vec<(Identifier, RingExponent)>)
    ensures
        r@ == v@,
{
    let mut out: Vec<(Identifier, RingExponent)> = Vec::new();
    let mut i: usize = 0;
    while i < v.len()
        invariant
            i <= v@.len(),
            out@ == v@.subrange(0, i as int),
        decreases v@.len() - i,
    {
        let (id, e) = v[i];
        out.push((id, e));
        i += 1;
        assert(out@ =~= v@.subrange(0, i as int));
    }
    assert(out@ =~= v@);
    out
}

/// A copy of a subscriber record.
pub fn clone_subscriber(s: &SubscriberInfo) -> (r: SubscriberInfo)
    ensures
        r@ == s@,
{
    SubscriberInfo {
        collections: copy_collections(&s.collections),
        last_init_sequence: s.last_init_sequence,
        pallet_index: s.pallet_index,
    }
}

/// A copy of an initialisation state.
pub fn clone_init(s: &PendingInitState) -> (r: PendingInitState)
    ensures
        r@ == s@,
{
    PendingInitState {
        collections: copy_collections(&s.collections),
        current_collection_index: s.current_collection_index,
        after_ring_index: s.after_ring_index,
        sequence: s.sequence,
        source_time: s.source_time,
        pallet_index: s.pallet_index,
    }
}

} // verus!
