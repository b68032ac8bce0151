use orbis::notifier::{
    build_init_batch, update_messages, AuthorizeError, CustomInvalidity, InitPlan, Notifier, NotifierConfig,
    NotifierError, NotifierEvent, NotifierOrigin, NotifierWeights, OffchainCall, ParaId, TransactionSource, TX_LONGEVITY,
    TX_RETRY_WINDOW,
};
use orbis::reality::{Identifier, RingExponent, RingIndex, PEOPLE_IDENTIFIER, PEOPLE_LITE_IDENTIFIER};
use orbis::ring_root::{RingRootOp, RingRootUpdatesBatch};
use orbis::weights::Weight;

const TEST_PALLET_INDEX: u8 = 50;
const MAX_UPDATES_PER_BATCH: u32 = 10;
const STUCK_BATCH_TIMEOUT: u32 = 100;

/// A message sent to a subscriber chain.
#[derive(Clone, Debug)]
enum Sent {
    Initialize { para_id: ParaId, ring_exponent: RingExponent, roots: RingRootUpdatesBatch<u32> },
    Update { para_id: ParaId, updates: RingRootUpdatesBatch<u32> },
    Terminate { para_id: ParaId, pallet_index: u8 },
}

/// A notifier with a simulated chain around it: a collection that holds
/// `ring_roots_count` rings, channels to subscribers, a clock and a block
/// number.
struct Chain {
    notifier: Notifier,
    block: u32,
    clock: u64,
    ring_roots_count: u32,
    max_message_size: u32,
    channelless: Vec<ParaId>,
    xcm_fails: bool,
    sent: Vec<Sent>,
    events: Vec<NotifierEvent>,
}

fn config(update_trigger_blocks: u32, update_trigger_threshold: u32) -> NotifierConfig {
    NotifierConfig {
        max_subscribers: 10,
        max_updates_per_batch: MAX_UPDATES_PER_BATCH,
        max_collections_per_subscriber: 5,
        max_collections: 10,
        update_trigger_blocks,
        update_trigger_threshold,
        offchain_worker_interval: 1,
        stuck_batch_timeout: STUCK_BATCH_TIMEOUT,
        replay_cooldown_seconds: 60,
        update_size: 20_000,
        xcm_overhead: 100,
    }
}

impl Chain {
    fn new() -> Chain {
        Chain::with_throttle(0, 1)
    }

    fn with_throttle(blocks: u32, threshold: u32) -> Chain {
        Chain {
            notifier: Notifier::new(config(blocks, threshold)),
            block: 1,
            clock: 1000,
            ring_roots_count: 0,
            max_message_size: 100_000,
            channelless: Vec::new(),
            xcm_fails: false,
            sent: Vec::new(),
            events: Vec::new(),
        }
    }

    fn channel(&self, para_id: ParaId) -> Option<u32> {
        if self.channelless.contains(&para_id) {
            None
        } else {
            Some(self.max_message_size)
        }
    }

    fn deliver(&mut self, message: Sent) -> bool {
        if self.xcm_fails {
            return false;
        }
        self.sent.push(message);
        true
    }

    fn roots(&self, indices: &[RingIndex]) -> Vec<(RingIndex, u32, u32)> {
        indices.iter().map(|&i| (i, 0u32, 1u32)).collect()
    }

    fn roots_paginated(&self, after: Option<RingIndex>, limit: u32) -> Vec<(RingIndex, u32, u32)> {
        let start = match after {
            Some(k) => k.saturating_add(1),
            None => 0,
        };
        if start >= self.ring_roots_count {
            return Vec::new();
        }
        let end = (start + limit).min(self.ring_roots_count);
        (start..end).map(|i| (i, 0u32, 1u32)).collect()
    }

    fn subscribe_with(&mut self, para_id: ParaId, collections: &[(Identifier, RingExponent)]) -> Result<(), NotifierError> {
        let ev = self.notifier.subscribe(NotifierOrigin::Manager, para_id, collections.to_vec(), TEST_PALLET_INDEX, self.clock)?;
        self.events.extend(ev);
        Ok(())
    }

    fn subscribe_to(&mut self, para_id: ParaId, collections: &[Identifier]) {
        let paired: Vec<(Identifier, RingExponent)> = collections.iter().map(|id| (*id, RingExponent::R2e9)).collect();
        self.subscribe_with(para_id, &paired).unwrap();
    }

    fn unsubscribe(&mut self, origin: NotifierOrigin, para_id: Option<ParaId>) -> Result<(), NotifierError> {
        let (ev, notify) = self.notifier.unsubscribe(origin, para_id)?;
        if let Some(pallet_index) = notify {
            let target = para_id.unwrap();
            let _ = self.deliver(Sent::Terminate { para_id: target, pallet_index });
        }
        self.events.extend(ev);
        Ok(())
    }

    fn send_init_page(&mut self, para_id: ParaId) -> Result<u32, NotifierError> {
        let state = self.notifier.pending_init(para_id).ok_or(NotifierError::NoPendingInit)?;
        let plan = self.notifier.send_init_page_plan(para_id, self.channel(para_id))?;
        let (returned, last, delivered) = match plan {
            InitPlan::Page { collection, ring_exponent, after_ring_index, limit, .. } => {
                let roots = self.roots_paginated(after_ring_index, limit);
                let returned = roots.len() as u32;
                let last = roots.last().map(|r| r.0);
                let batch = build_init_batch(&state, collection, roots, self.ring_roots_count, MAX_UPDATES_PER_BATCH);
                let delivered = self.deliver(Sent::Initialize { para_id, ring_exponent, roots: batch });
                (returned, last, delivered)
            },
            _ => (0, None, false),
        };
        self.notifier.send_init_page(
            NotifierOrigin::Authorized,
            para_id,
            state.current_collection_index,
            state.after_ring_index,
            0,
            self.channel(para_id),
            returned,
            last,
            delivered,
        )
    }

    fn finalize_subscriptions(&mut self, paras: &[ParaId]) {
        loop {
            let pending: Vec<ParaId> = paras.iter().copied().filter(|p| self.notifier.pending_init(*p).is_some()).collect();
            if pending.is_empty() {
                break;
            }
            for p in pending {
                let _ = self.send_init_page(p);
            }
        }
        self.events.clear();
    }

    fn add_pending_update(&mut self, identifier: Identifier, ring_index: RingIndex) {
        self.notifier.on_ring_root_change(identifier, ring_index, RingRootOp::Built { revision: 1, root: &0u32 });
    }

    fn enqueue_updates(&mut self) -> Result<u32, NotifierError> {
        let send_page = self.notifier.page_state().send_page;
        self.notifier.enqueue_updates(NotifierOrigin::Authorized, send_page, 0, self.block, self.clock)
    }

    fn current_batch_sequence(&self) -> u64 {
        self.notifier.current_batch().map(|b| b.sequence).unwrap_or(0)
    }

    fn send_batch(&mut self, para_id: ParaId, sequence: u64) -> Result<u32, NotifierError> {
        let channel = self.channel(para_id);
        let mut delivered = Vec::new();
        if let Ok(plan) = self.notifier.send_batch_plan(para_id, channel) {
            for (collection, indices) in plan.parts.iter() {
                let roots = self.roots(indices);
                let messages = update_messages(
                    *collection,
                    sequence,
                    plan.source_time,
                    indices,
                    roots,
                    self.ring_roots_count,
                    plan.max_per_xcm,
                );
                for m in messages {
                    delivered.push(self.deliver(Sent::Update { para_id, updates: m }));
                }
            }
        }
        let (ev, count) = self.notifier.send_batch(NotifierOrigin::Authorized, para_id, sequence, 0, channel, &delivered)?;
        self.events.extend(ev);
        Ok(count)
    }

    fn request_replay(&mut self, para_id: ParaId, identifier: Identifier, indices: &[RingIndex]) -> Result<(), NotifierError> {
        let roots = self.roots(indices);
        let req = self.notifier.request_replay(
            NotifierOrigin::Signed,
            para_id,
            identifier,
            indices,
            self.ring_roots_count,
            self.channel(para_id),
            self.clock,
            roots,
        )?;
        if !self.deliver(Sent::Update { para_id, updates: req.batch }) {
            return Err(NotifierError::XcmSendFailed);
        }
        let ev = self.notifier.replay_sent(para_id, identifier, req.indices_count, self.clock);
        self.events.extend(ev);
        Ok(())
    }

    fn abandon_stuck_batch(&mut self) -> Result<(), NotifierError> {
        let ev = self.notifier.abandon_stuck_batch(NotifierOrigin::Authorized)?;
        self.events.extend(ev);
        Ok(())
    }

    fn apply(&mut self, call: OffchainCall) {
        match call {
            OffchainCall::EnqueueUpdates { send_page, .. } => {
                self.notifier.authorize_enqueue_updates(TransactionSource::InBlock, send_page, self.block).expect("tx valid");
                self.enqueue_updates().expect("tx succeeds");
            },
            OffchainCall::SendBatch { para_id, sequence, .. } => {
                self.notifier.authorize_send_batch(TransactionSource::InBlock, para_id, sequence, self.block).expect("tx valid");
                self.send_batch(para_id, sequence).expect("tx succeeds");
            },
            OffchainCall::AbandonStuckBatch { .. } => {
                self.notifier.authorize_abandon_stuck_batch(TransactionSource::InBlock, self.block).expect("tx valid");
                self.abandon_stuck_batch().expect("tx succeeds");
            },
            OffchainCall::SendInitPage { para_id, current_collection_index, after_ring_index, .. } => {
                self.notifier
                    .authorize_send_init_page(TransactionSource::InBlock, para_id, current_collection_index, after_ring_index, self.block)
                    .expect("tx valid");
                self.send_init_page(para_id).expect("tx succeeds");
            },
        }
    }

    /// Runs the offchain worker at each block up to `target`, applying its
    /// transactions in the following block.
    fn advance_to_block(&mut self, target: u32) {
        while self.block < target {
            let calls = self.notifier.offchain_worker(self.block);
            self.block += 1;
            for call in calls {
                self.apply(call);
            }
        }
    }

    fn updates_sent(&self) -> Vec<(ParaId, u32)> {
        self.events
            .iter()
            .filter_map(|e| match e {
                NotifierEvent::UpdatesSent { para_id, update_count } => Some((*para_id, *update_count)),
                _ => None,
            })
            .collect()
    }

    fn count_events(&self, f: impl Fn(&NotifierEvent) -> bool) -> usize {
        self.events.iter().filter(|e| f(e)).count()
    }

    fn init_calls(&self) -> Vec<(ParaId, RingExponent, RingRootUpdatesBatch<u32>)> {
        self.sent
            .iter()
            .filter_map(|s| match s {
                Sent::Initialize { para_id, ring_exponent, roots } => Some((*para_id, *ring_exponent, roots.clone())),
                _ => None,
            })
            .collect()
    }

    fn terminates(&self) -> usize {
        self.sent.iter().filter(|s| matches!(s, Sent::Terminate { .. })).count()
    }
}

// enqueue_updates

#[test]
fn authorization_rejects_when_no_pending_work() {
    let mut c = Chain::new();
    c.subscribe_to(1000, &[PEOPLE_IDENTIFIER]);
    c.finalize_subscriptions(&[1000]);
    let send_page = c.notifier.page_state().send_page;
    assert!(c.notifier.authorize_enqueue_updates(TransactionSource::Local, send_page, c.block).is_err());
    assert!(c.notifier.current_batch().is_none());
    assert_eq!(c.notifier.sealed_batch_sequence(), 0);
}

#[test]
fn authorization_respects_throttle_limits() {
    let mut c = Chain::with_throttle(5, 100);
    c.subscribe_to(1000, &[PEOPLE_IDENTIFIER]);
    c.finalize_subscriptions(&[1000]);
    c.add_pending_update(PEOPLE_IDENTIFIER, 0);
    let send_page = c.notifier.page_state().send_page;
    assert!(c.notifier.authorize_enqueue_updates(TransactionSource::Local, send_page, 1).is_err(), "throttled");
    assert!(c.notifier.authorize_enqueue_updates(TransactionSource::Local, send_page, 5).is_ok(), "after throttle period");
}

#[test]
fn sealed_pages_bypass_throttle_check() {
    let mut c = Chain::with_throttle(1000, 1000);
    c.subscribe_to(1000, &[PEOPLE_IDENTIFIER]);
    c.finalize_subscriptions(&[1000]);
    for i in 0..MAX_UPDATES_PER_BATCH + 1 {
        c.add_pending_update(PEOPLE_IDENTIFIER, i);
    }
    let ps = c.notifier.page_state();
    assert_ne!(ps.send_page, ps.write_page, "should have sealed pages");
    c.block = 1;
    assert!(c.enqueue_updates().is_ok());
    assert!(c.notifier.current_batch().is_some());
    assert_eq!(c.notifier.sealed_batch_sequence(), 1);
}

#[test]
fn creates_sealed_batch_data() {
    let mut c = Chain::new();
    c.subscribe_to(1000, &[PEOPLE_IDENTIFIER]);
    c.subscribe_to(2000, &[PEOPLE_IDENTIFIER]);
    c.finalize_subscriptions(&[1000, 2000]);
    c.add_pending_update(PEOPLE_IDENTIFIER, 0);
    c.add_pending_update(PEOPLE_IDENTIFIER, 1);
    c.add_pending_update(PEOPLE_LITE_IDENTIFIER, 0);
    assert!(c.enqueue_updates().is_ok());
    assert_eq!(c.notifier.sealed_batch_sequence(), 1);
    let batch = c.notifier.current_batch().expect("batch should exist");
    assert_eq!(batch.sequence, 1);
    assert_eq!(batch.remaining_subscribers, 2);
    let people = c.notifier.sealed_batch_indices(&PEOPLE_IDENTIFIER);
    assert!(people.is_some());
    assert_eq!(people.unwrap().len(), 2);
    let lite = c.notifier.sealed_batch_indices(&PEOPLE_LITE_IDENTIFIER);
    assert!(lite.is_some());
    assert_eq!(lite.unwrap().len(), 1);
}

#[test]
fn skips_sealing_if_zero_subscribers() {
    let mut c = Chain::new();
    let seq_before = c.notifier.sealed_batch_sequence();
    c.add_pending_update(PEOPLE_IDENTIFIER, 5);
    assert!(c.enqueue_updates().is_ok());
    assert!(c.notifier.current_batch().is_none());
    assert_eq!(c.notifier.sealed_batch_sequence(), seq_before);
}

// send_batch

fn setup_batch_with_subscribers(c: &mut Chain, collections: &[Identifier], subscriber_ids: &[u32]) {
    for &id in subscriber_ids {
        c.subscribe_to(id, collections);
    }
    c.finalize_subscriptions(subscriber_ids);
    for coll in collections {
        c.add_pending_update(*coll, 0);
    }
    assert!(c.enqueue_updates().is_ok());
    c.events.clear();
}

#[test]
fn sends_batch_per_collection() {
    let mut c = Chain::new();
    setup_batch_with_subscribers(&mut c, &[PEOPLE_IDENTIFIER, PEOPLE_LITE_IDENTIFIER], &[1000]);
    let seq = c.current_batch_sequence();
    assert!(c.send_batch(1000, seq).is_ok());
    let sent = c.updates_sent();
    assert_eq!(sent.len(), 2);
    assert_eq!(sent.iter().filter(|(p, _)| *p == 1000).map(|(_, n)| n).sum::<u32>(), 2);
}

#[test]
fn portions_updates_by_hrmp_capacity() {
    let mut c = Chain::new();
    c.subscribe_to(1000, &[PEOPLE_IDENTIFIER]);
    c.finalize_subscriptions(&[1000]);
    let max_per_xcm = c.notifier.max_updates_per_xcm(c.channel(1000)).unwrap();
    let total_updates = max_per_xcm + 1;
    for i in 0..total_updates {
        c.add_pending_update(PEOPLE_IDENTIFIER, i);
    }
    assert!(c.enqueue_updates().is_ok());
    c.events.clear();
    let seq = c.current_batch_sequence();
    assert!(c.send_batch(1000, seq).is_ok());
    let sent = c.updates_sent();
    assert_eq!(sent.iter().filter(|(p, _)| *p == 1000).map(|(_, n)| n).sum::<u32>(), total_updates);
    assert_eq!(sent.len(), 2);
}

#[test]
fn xcm_failure_isolated_to_failing_subscriber() {
    let mut c = Chain::new();
    setup_batch_with_subscribers(&mut c, &[PEOPLE_IDENTIFIER], &[1000, 2000]);
    let seq = c.current_batch_sequence();
    c.xcm_fails = true;
    assert!(c.send_batch(1000, seq).is_ok());
    c.xcm_fails = false;
    assert!(c.send_batch(2000, seq).is_ok());
    assert!(!c.notifier.has_current_batch(1000));
    assert!(c.notifier.has_current_batch(2000));
    let batch = c.notifier.current_batch().expect("batch should still exist");
    assert_eq!(batch.remaining_subscribers, 1);
}

#[test]
fn clears_batch_on_last_subscriber() {
    let mut c = Chain::new();
    setup_batch_with_subscribers(&mut c, &[PEOPLE_IDENTIFIER], &[1000, 2000]);
    let seq = c.current_batch_sequence();
    assert!(c.send_batch(1000, seq).is_ok());
    assert!(c.notifier.current_batch().is_some(), "batch still active");
    c.events.clear();
    assert!(c.send_batch(2000, seq).is_ok());
    assert!(c.notifier.current_batch().is_none(), "batch cleared");
    assert!(c.notifier.sealed_batch_indices(&PEOPLE_IDENTIFIER).is_none());
}

#[test]
fn rejects_if_no_batch() {
    let mut c = Chain::new();
    c.subscribe_to(1000, &[PEOPLE_IDENTIFIER]);
    c.finalize_subscriptions(&[1000]);
    let seq = c.current_batch_sequence();
    assert_eq!(c.send_batch(1000, seq), Err(NotifierError::NoBatchActive));
    assert!(c.notifier.current_batch().is_none());
}

#[test]
fn new_subscriber_during_batch_is_rejected_by_authorize() {
    let mut c = Chain::new();
    c.subscribe_to(1000, &[PEOPLE_IDENTIFIER]);
    c.finalize_subscriptions(&[1000]);
    c.add_pending_update(PEOPLE_IDENTIFIER, 0);
    assert!(c.enqueue_updates().is_ok());
    let batch = c.notifier.current_batch().unwrap();
    assert_eq!(batch.remaining_subscribers, 1);
    let seq = batch.sequence;
    c.subscribe_to(2000, &[PEOPLE_IDENTIFIER]);
    assert!(c.notifier.pending_init(2000).is_some());
    assert!(c.notifier.authorize_send_batch(TransactionSource::Local, 2000, seq, c.block).is_err());
    assert!(c.send_batch(1000, seq).is_ok());
    assert!(c.notifier.current_batch().is_none(), "batch cleared after all counted subscribers served");
}

#[test]
fn subscriber_with_pending_init_receives_batch() {
    let mut c = Chain::new();
    c.ring_roots_count = 100;
    c.subscribe_to(1000, &[PEOPLE_IDENTIFIER]);
    c.finalize_subscriptions(&[1000]);
    c.subscribe_to(2000, &[PEOPLE_IDENTIFIER]);
    assert!(c.send_init_page(2000).is_ok());
    assert!(c.notifier.pending_init(2000).is_some(), "init still in progress");
    c.add_pending_update(PEOPLE_IDENTIFIER, 0);
    assert!(c.enqueue_updates().is_ok());
    let batch = c.notifier.current_batch().unwrap();
    assert_eq!(batch.remaining_subscribers, 2, "both subscribers counted");
    let seq = batch.sequence;
    c.events.clear();
    assert!(c.send_batch(2000, seq).is_ok());
    assert!(c.updates_sent().iter().any(|(p, _)| *p == 2000));
    assert_eq!(c.notifier.current_batch().unwrap().remaining_subscribers, 1);
    assert!(c.send_batch(1000, seq).is_ok());
    assert!(c.notifier.current_batch().is_none(), "batch cleared");
}

// send_init_page

#[test]
fn advances_pagination() {
    let mut c = Chain::new();
    c.ring_roots_count = 10000;
    c.subscribe_to(1000, &[PEOPLE_IDENTIFIER]);
    assert!(c.send_init_page(1000).is_ok());
    let state = c.notifier.pending_init(1000).expect("still pending");
    assert!(state.after_ring_index.is_some());
    let inits = c.init_calls();
    assert!(!inits.is_empty(), "init XCM should have been sent");
    let (_, exponent, roots) = inits.last().unwrap();
    assert_eq!(roots.identifier, PEOPLE_IDENTIFIER);
    assert_eq!(*exponent, RingExponent::R2e9);
}

#[test]
fn completes_all_collections() {
    let mut c = Chain::new();
    c.ring_roots_count = 2;
    c.subscribe_to(1000, &[PEOPLE_IDENTIFIER, PEOPLE_LITE_IDENTIFIER]);
    assert!(c.send_init_page(1000).is_ok());
    assert!(c.notifier.pending_init(1000).is_some(), "second collection pending");
    assert!(c.send_init_page(1000).is_ok());
    assert!(c.notifier.pending_init(1000).is_none(), "all done");
}

#[test]
fn forwards_per_collection_exponents_across_multi_collection_init() {
    let mut c = Chain::new();
    c.ring_roots_count = 2;
    c.subscribe_with(1000, &[(PEOPLE_IDENTIFIER, RingExponent::R2e9), (PEOPLE_LITE_IDENTIFIER, RingExponent::R2e14)]).unwrap();
    assert!(c.send_init_page(1000).is_ok());
    assert!(c.send_init_page(1000).is_ok());
    assert!(c.notifier.pending_init(1000).is_none());
    let calls: Vec<(Identifier, RingExponent)> = c.init_calls().into_iter().map(|(_, e, r)| (r.identifier, e)).collect();
    assert!(calls.contains(&(PEOPLE_IDENTIFIER, RingExponent::R2e9)));
    assert!(calls.contains(&(PEOPLE_LITE_IDENTIFIER, RingExponent::R2e14)));
}

#[test]
fn xcm_failure_no_advance() {
    let mut c = Chain::new();
    c.ring_roots_count = 5;
    c.subscribe_to(1000, &[PEOPLE_IDENTIFIER]);
    c.xcm_fails = true;
    assert!(c.send_init_page(1000).is_ok());
    c.xcm_fails = false;
    let state = c.notifier.pending_init(1000).expect("still pending");
    assert_eq!(state.current_collection_index, 0);
    assert!(state.after_ring_index.is_none());
}

#[test]
fn handles_empty_collection() {
    let mut c = Chain::new();
    c.ring_roots_count = 0;
    c.subscribe_to(1000, &[PEOPLE_IDENTIFIER]);
    assert!(c.send_init_page(1000).is_ok());
    assert!(c.notifier.pending_init(1000).is_none());
    let inits = c.init_calls();
    assert_eq!(inits.len(), 1, "exactly one init XCM expected");
    assert_eq!(inits[0].2.identifier, PEOPLE_IDENTIFIER);
    assert!(inits[0].2.updates.is_empty(), "updates should be empty");
}

#[test]
fn handles_all_empty_multi_collection() {
    let mut c = Chain::new();
    c.ring_roots_count = 0;
    c.subscribe_to(1000, &[PEOPLE_IDENTIFIER, PEOPLE_LITE_IDENTIFIER]);
    assert!(c.send_init_page(1000).is_ok());
    assert!(c.notifier.pending_init(1000).is_some());
    assert!(c.send_init_page(1000).is_ok());
    assert!(c.notifier.pending_init(1000).is_none());
    let idents: Vec<(Identifier, usize)> = c.init_calls().into_iter().map(|(_, _, r)| (r.identifier, r.updates.len())).collect();
    assert_eq!(idents.len(), 2);
    assert!(idents.contains(&(PEOPLE_IDENTIFIER, 0)));
    assert!(idents.contains(&(PEOPLE_LITE_IDENTIFIER, 0)));
}

// offchain worker

#[test]
fn processes_init_and_update_to_one_subscriber() {
    let mut c = Chain::new();
    c.ring_roots_count = 5;
    c.subscribe_to(1000, &[PEOPLE_IDENTIFIER]);
    c.advance_to_block(5);
    assert!(c.notifier.pending_init(1000).is_none(), "init should complete");
    c.add_pending_update(PEOPLE_IDENTIFIER, 0);
    c.events.clear();
    c.advance_to_block(10);
    assert!(c.updates_sent().iter().any(|(p, _)| *p == 1000));
}

#[test]
fn multiple_subscribers_receive_updates() {
    let mut c = Chain::new();
    c.subscribe_to(1000, &[PEOPLE_IDENTIFIER]);
    c.subscribe_to(2000, &[PEOPLE_IDENTIFIER]);
    c.subscribe_to(3000, &[PEOPLE_IDENTIFIER]);
    c.finalize_subscriptions(&[1000, 2000, 3000]);
    c.add_pending_update(PEOPLE_IDENTIFIER, 0);
    c.add_pending_update(PEOPLE_IDENTIFIER, 1);
    c.advance_to_block(6);
    let sent = c.updates_sent();
    for p in [1000, 2000, 3000] {
        assert!(sent.iter().any(|(q, _)| *q == p));
    }
}

#[test]
fn xcm_failure_retried_on_next_cycle() {
    let mut c = Chain::new();
    c.subscribe_to(1000, &[PEOPLE_IDENTIFIER]);
    c.finalize_subscriptions(&[1000]);
    c.add_pending_update(PEOPLE_IDENTIFIER, 0);
    c.xcm_fails = true;
    c.advance_to_block(4);
    assert!(c.count_events(|e| matches!(e, NotifierEvent::UpdateSendFailed { para_id: 1000 })) > 0);
    assert!(c.notifier.current_batch().is_some(), "batch still active");
    assert!(!c.notifier.has_current_batch(1000));
    c.xcm_fails = false;
    c.events.clear();
    c.advance_to_block(7);
    assert!(c.updates_sent().iter().any(|(p, _)| *p == 1000));
    assert!(c.notifier.current_batch().is_none(), "batch cleared after retry success");
}

#[test]
fn enqueue_authorize_priority_increases_with_block() {
    let mut c = Chain::new();
    c.subscribe_to(1000, &[PEOPLE_IDENTIFIER]);
    c.finalize_subscriptions(&[1000]);
    c.add_pending_update(PEOPLE_IDENTIFIER, 0);
    let send_page = c.notifier.page_state().send_page;
    let early = c.notifier.authorize_enqueue_updates(TransactionSource::Local, send_page, 7).expect("authorizes with pending work");
    let late = c.notifier.authorize_enqueue_updates(TransactionSource::Local, send_page, 20).expect("authorizes with pending work");
    assert_eq!(early.priority, 7);
    assert_eq!(late.priority, 20);
    assert!(late.priority > early.priority);
    assert_eq!(late.longevity, TX_LONGEVITY);
}

#[test]
fn all_authorized_txs_are_local_only_with_finite_longevity() {
    let mut c = Chain::new();
    c.ring_roots_count = 100;
    c.subscribe_to(1000, &[PEOPLE_IDENTIFIER]);
    c.finalize_subscriptions(&[1000]);
    c.subscribe_to(2000, &[PEOPLE_IDENTIFIER]);
    assert!(c.send_init_page(2000).is_ok());
    c.add_pending_update(PEOPLE_IDENTIFIER, 0);
    c.block = 3;
    let send_page = c.notifier.page_state().send_page;
    let enqueue = c.notifier.authorize_enqueue_updates(TransactionSource::Local, send_page, c.block).expect("enqueue authorizes");
    let state = c.notifier.pending_init(2000).expect("init still pending");
    let init = c
        .notifier
        .authorize_send_init_page(TransactionSource::Local, 2000, state.current_collection_index, state.after_ring_index, c.block)
        .expect("init authorizes");
    assert!(c.enqueue_updates().is_ok());
    let sequence = c.current_batch_sequence();
    let send = c.notifier.authorize_send_batch(TransactionSource::Local, 1000, sequence, c.block).expect("send authorizes");
    c.block = 3 + STUCK_BATCH_TIMEOUT;
    let abandon = c.notifier.authorize_abandon_stuck_batch(TransactionSource::Local, c.block).expect("abandon authorizes");
    for validity in [&enqueue, &init, &send, &abandon] {
        assert!(!validity.propagate);
        assert_eq!(validity.longevity, TX_LONGEVITY);
        assert!(validity.priority > 0);
    }
    assert_eq!(
        c.notifier.authorize_abandon_stuck_batch(TransactionSource::External, c.block),
        Err(AuthorizeError::Custom(CustomInvalidity::TransactionNotLocal))
    );
}

#[test]
fn enqueue_retries_reuse_bytes_within_window() {
    let mut c = Chain::new();
    c.subscribe_to(1000, &[PEOPLE_IDENTIFIER]);
    c.finalize_subscriptions(&[1000]);
    c.add_pending_update(PEOPLE_IDENTIFIER, 0);
    let mut discriminators = Vec::new();
    for bn in 1..=20u32 {
        for call in c.notifier.offchain_worker(bn) {
            match call {
                OffchainCall::EnqueueUpdates { discriminator, .. } => discriminators.push(discriminator),
                other => panic!("unexpected call: {other:?}"),
            }
        }
    }
    let expected: Vec<u32> = (1..=20u32).map(|bn| bn / TX_RETRY_WINDOW).collect();
    assert_eq!(discriminators, expected);
}

// stuck batches

#[test]
fn abandon_stuck_batch_clears_batch() {
    let mut c = Chain::new();
    c.subscribe_to(1000, &[PEOPLE_IDENTIFIER]);
    c.finalize_subscriptions(&[1000]);
    c.add_pending_update(PEOPLE_IDENTIFIER, 0);
    c.block = 10;
    assert!(c.enqueue_updates().is_ok());
    assert!(c.notifier.current_batch().is_some());
    c.block = 50;
    assert!(c.notifier.authorize_abandon_stuck_batch(TransactionSource::Local, c.block).is_err());
    assert!(c.notifier.current_batch().is_some(), "not yet timed out");
    c.block = 111;
    c.events.clear();
    assert!(c.abandon_stuck_batch().is_ok());
    assert!(c.notifier.current_batch().is_none(), "batch should be abandoned");
    assert_eq!(c.count_events(|e| matches!(e, NotifierEvent::BatchAbandoned { .. })), 1);
}

// subscription

#[test]
fn first_init_fails_for_unauthorized_origin() {
    let mut c = Chain::new();
    let r = c.notifier.subscribe(NotifierOrigin::Signed, 1000, vec![(PEOPLE_IDENTIFIER, RingExponent::R2e9)], TEST_PALLET_INDEX, c.clock);
    assert_eq!(r, Err(NotifierError::BadOrigin));
    assert!(c.notifier.subscriber(1000).is_none());
}

#[test]
fn first_init_fails_if_subscribers_list_full() {
    let mut c = Chain::new();
    for i in 0..10 {
        c.subscribe_to(i, &[PEOPLE_IDENTIFIER]);
    }
    assert_eq!(c.notifier.subscriber_count(), 10);
    let r = c.subscribe_with(9999, &[(PEOPLE_IDENTIFIER, RingExponent::R2e9)]);
    assert_eq!(r, Err(NotifierError::TooManySubscribers));
    assert!(c.notifier.subscriber(9999).is_none());
}

#[test]
fn first_init_succeeds() {
    let mut c = Chain::new();
    assert!(c.subscribe_with(1000, &[(PEOPLE_IDENTIFIER, RingExponent::R2e9)]).is_ok());
    assert!(c.notifier.subscriber(1000).is_some());
    assert_eq!(c.events, vec![NotifierEvent::Subscribed { para_id: 1000 }]);
}

#[test]
fn resubscribe_after_unsubscribe_forwards_new_exponent() {
    let mut c = Chain::new();
    c.ring_roots_count = 1;
    c.subscribe_with(1000, &[(PEOPLE_IDENTIFIER, RingExponent::R2e9)]).unwrap();
    assert!(c.send_init_page(1000).is_ok());
    assert!(c.unsubscribe(NotifierOrigin::Manager, Some(1000)).is_ok());
    assert!(c.notifier.subscriber(1000).is_none());
    c.sent.clear();
    c.subscribe_with(1000, &[(PEOPLE_IDENTIFIER, RingExponent::R2e14)]).unwrap();
    assert!(c.send_init_page(1000).is_ok());
    let (_, exponent, roots) = c.init_calls().into_iter().next().expect("init call must be forwarded");
    assert_eq!((roots.identifier, exponent), (PEOPLE_IDENTIFIER, RingExponent::R2e14));
}

#[test]
fn subscribe_rejects_unordered_or_duplicate_collections() {
    let mut c = Chain::new();
    let unordered = [(PEOPLE_LITE_IDENTIFIER, RingExponent::R2e9), (PEOPLE_IDENTIFIER, RingExponent::R2e14)];
    assert_eq!(c.subscribe_with(1000, &unordered), Err(NotifierError::InvalidCollectionsList));
    let duplicated = [(PEOPLE_IDENTIFIER, RingExponent::R2e9), (PEOPLE_IDENTIFIER, RingExponent::R2e14)];
    assert_eq!(c.subscribe_with(1000, &duplicated), Err(NotifierError::InvalidCollectionsList));
    assert!(c.notifier.subscriber(1000).is_none());
}

#[test]
fn subscribe_fails_if_already_subscribed() {
    let mut c = Chain::new();
    c.subscribe_to(1000, &[PEOPLE_IDENTIFIER]);
    assert_eq!(c.count_events(|e| matches!(e, NotifierEvent::Subscribed { .. })), 1);
    let r = c.subscribe_with(1000, &[(PEOPLE_IDENTIFIER, RingExponent::R2e9), (PEOPLE_LITE_IDENTIFIER, RingExponent::R2e9)]);
    assert_eq!(r, Err(NotifierError::AlreadySubscribed));
}

// unsubscription

#[test]
fn fails_for_unauthorized_origin() {
    let mut c = Chain::new();
    c.subscribe_to(1000, &[PEOPLE_IDENTIFIER]);
    assert_eq!(c.unsubscribe(NotifierOrigin::Signed, Some(1000)), Err(NotifierError::BadOrigin));
    assert!(c.notifier.subscriber(1000).is_some());
}

#[test]
fn tests_fails_if_subscriber_not_found() {
    let mut c = Chain::new();
    assert_eq!(c.notifier.subscriber_count(), 0);
    assert_eq!(c.unsubscribe(NotifierOrigin::Manager, Some(9999)), Err(NotifierError::SubscriberNotFound));
}

#[test]
fn governance_sends_terminate_xcm() {
    let mut c = Chain::new();
    c.subscribe_to(1000, &[PEOPLE_IDENTIFIER]);
    c.finalize_subscriptions(&[1000]);
    let before = c.terminates();
    assert!(c.unsubscribe(NotifierOrigin::Manager, Some(1000)).is_ok());
    assert!(c.notifier.subscriber(1000).is_none());
    assert!(c.terminates() > before, "terminate XCM should have been sent");
    assert_eq!(c.events, vec![NotifierEvent::Unsubscribed { para_id: 1000 }]);
}

#[test]
fn subscriber_initiated_does_not_send_terminate_xcm() {
    let mut c = Chain::new();
    c.subscribe_to(1000, &[PEOPLE_IDENTIFIER]);
    c.finalize_subscriptions(&[1000]);
    let before = c.terminates();
    assert!(c.unsubscribe(NotifierOrigin::Subscriber(1000), None).is_ok());
    assert!(c.notifier.subscriber(1000).is_none());
    assert_eq!(c.terminates(), before, "no terminate XCM should be sent back to subscriber");
    assert_eq!(c.events, vec![NotifierEvent::Unsubscribed { para_id: 1000 }]);
}

#[test]
fn governance_succeeds_even_when_terminate_xcm_fails() {
    let mut c = Chain::new();
    c.subscribe_to(1000, &[PEOPLE_IDENTIFIER]);
    c.finalize_subscriptions(&[1000]);
    c.xcm_fails = true;
    assert!(c.unsubscribe(NotifierOrigin::Manager, Some(1000)).is_ok());
    c.xcm_fails = false;
    assert!(c.notifier.subscriber(1000).is_none());
    assert_eq!(c.events, vec![NotifierEvent::Unsubscribed { para_id: 1000 }]);
}

#[test]
fn decrements_remaining_in_batch_and_clears_if_last() {
    let mut c = Chain::new();
    c.subscribe_to(1000, &[PEOPLE_IDENTIFIER]);
    c.subscribe_to(2000, &[PEOPLE_IDENTIFIER]);
    c.finalize_subscriptions(&[1000, 2000]);
    c.add_pending_update(PEOPLE_IDENTIFIER, 0);
    assert!(c.enqueue_updates().is_ok());
    assert_eq!(c.notifier.current_batch().unwrap().remaining_subscribers, 2);
    assert!(c.unsubscribe(NotifierOrigin::Manager, Some(1000)).is_ok());
    assert_eq!(c.notifier.current_batch().unwrap().remaining_subscribers, 1);
    assert!(c.unsubscribe(NotifierOrigin::Manager, Some(2000)).is_ok());
    assert!(c.notifier.current_batch().is_none(), "batch cleared");
}

#[test]
fn already_sent_subscriber_unsubscribe_removes_status() {
    let mut c = Chain::new();
    c.subscribe_to(1000, &[PEOPLE_IDENTIFIER]);
    c.subscribe_to(2000, &[PEOPLE_IDENTIFIER]);
    c.finalize_subscriptions(&[1000, 2000]);
    c.add_pending_update(PEOPLE_IDENTIFIER, 0);
    assert!(c.enqueue_updates().is_ok());
    let seq = c.current_batch_sequence();
    assert!(c.send_batch(1000, seq).is_ok());
    assert!(c.notifier.has_current_batch(1000));
    assert!(c.unsubscribe(NotifierOrigin::Manager, Some(1000)).is_ok());
    assert!(!c.notifier.has_current_batch(1000));
    assert_eq!(c.notifier.current_batch().unwrap().remaining_subscribers, 1);
}

// request_replay

#[test]
fn replay_fails_if_subscriber_not_found() {
    let mut c = Chain::new();
    assert_eq!(c.notifier.subscriber_count(), 0);
    assert_eq!(c.request_replay(9999, PEOPLE_IDENTIFIER, &[0, 1]), Err(NotifierError::SubscriberNotFound));
}

#[test]
fn fails_if_not_subscribed_to_collection() {
    let mut c = Chain::new();
    c.subscribe_to(1000, &[PEOPLE_IDENTIFIER]);
    assert_eq!(c.request_replay(1000, PEOPLE_LITE_IDENTIFIER, &[0, 1]), Err(NotifierError::NotSubscribedToCollection));
}

#[test]
fn fails_with_empty_ring_root_indices() {
    let mut c = Chain::new();
    c.ring_roots_count = 10;
    c.subscribe_to(1000, &[PEOPLE_IDENTIFIER]);
    c.events.clear();
    assert_eq!(c.request_replay(1000, PEOPLE_IDENTIFIER, &[]), Err(NotifierError::EmptyRingIndices));
    assert_eq!(c.count_events(|e| matches!(e, NotifierEvent::ReplayRequested { .. })), 0);
}

#[test]
fn fails_if_ring_index_out_of_range() {
    let mut c = Chain::new();
    c.ring_roots_count = 5;
    c.subscribe_to(1000, &[PEOPLE_IDENTIFIER]);
    assert_eq!(c.request_replay(1000, PEOPLE_IDENTIFIER, &[0, 1, 5]), Err(NotifierError::InvalidRingIndex));
}

#[test]
fn fails_if_exceeds_channel_capacity() {
    let mut c = Chain::new();
    c.ring_roots_count = 10;
    c.subscribe_to(1000, &[PEOPLE_IDENTIFIER]);
    let (mut lo, mut hi) = (1u32, 100_000u32);
    while lo < hi {
        let mid = lo + (hi - lo) / 2;
        c.max_message_size = mid;
        if c.notifier.max_updates_per_xcm(c.channel(1000)).is_some() {
            hi = mid;
        } else {
            lo = mid + 1;
        }
    }
    c.max_message_size = lo;
    assert_eq!(c.notifier.max_updates_per_xcm(c.channel(1000)), Some(1));
    assert_eq!(c.request_replay(1000, PEOPLE_IDENTIFIER, &[0, 1]), Err(NotifierError::ExceedsChannelCapacity));
    assert!(c.request_replay(1000, PEOPLE_IDENTIFIER, &[0]).is_ok());
}

#[test]
fn fails_during_cooldown() {
    let mut c = Chain::new();
    c.ring_roots_count = 10;
    c.subscribe_to(1000, &[PEOPLE_IDENTIFIER]);
    assert!(c.request_replay(1000, PEOPLE_IDENTIFIER, &[0, 1]).is_ok());
    assert_eq!(c.request_replay(1000, PEOPLE_IDENTIFIER, &[0, 1]), Err(NotifierError::ReplayCooldownActive));
}

#[test]
fn succeeds_and_respects_cooldown_window() {
    let mut c = Chain::new();
    c.ring_roots_count = 10;
    c.subscribe_to(1000, &[PEOPLE_IDENTIFIER]);
    c.events.clear();
    assert!(c.request_replay(1000, PEOPLE_IDENTIFIER, &[0]).is_ok());
    c.clock = 1000 + 60;
    assert!(c.request_replay(1000, PEOPLE_IDENTIFIER, &[0]).is_ok());
    assert_eq!(c.count_events(|e| matches!(e, NotifierEvent::ReplayRequested { .. })), 2);
}

#[test]
fn cooldown_is_per_subscriber_and_collection() {
    let mut c = Chain::new();
    c.ring_roots_count = 10;
    c.subscribe_to(1000, &[PEOPLE_IDENTIFIER, PEOPLE_LITE_IDENTIFIER]);
    c.subscribe_to(2000, &[PEOPLE_IDENTIFIER]);
    assert!(c.request_replay(1000, PEOPLE_IDENTIFIER, &[0]).is_ok());
    assert!(c.request_replay(1000, PEOPLE_LITE_IDENTIFIER, &[0]).is_ok());
    assert!(c.request_replay(2000, PEOPLE_IDENTIFIER, &[0]).is_ok());
    assert_eq!(c.request_replay(1000, PEOPLE_IDENTIFIER, &[0]), Err(NotifierError::ReplayCooldownActive));
}

#[test]
fn unsubscribe_clears_cooldown() {
    let mut c = Chain::new();
    c.ring_roots_count = 10;
    c.subscribe_to(1000, &[PEOPLE_IDENTIFIER]);
    assert!(c.request_replay(1000, PEOPLE_IDENTIFIER, &[0]).is_ok());
    assert!(c.notifier.last_replay_time(1000, PEOPLE_IDENTIFIER).is_some());
    assert!(c.unsubscribe(NotifierOrigin::Manager, Some(1000)).is_ok());
    assert!(c.notifier.last_replay_time(1000, PEOPLE_IDENTIFIER).is_none());
}

// on_ring_root_change

#[test]
fn adds_update_to_pending_updates() {
    let mut c = Chain::new();
    let page = c.notifier.page_state().write_page;
    assert_eq!(c.notifier.page_updates_count(page), 0);
    c.add_pending_update(PEOPLE_IDENTIFIER, 5);
    assert!(c.notifier.is_pending(c.notifier.page_state().write_page, PEOPLE_IDENTIFIER, 5));
    assert_eq!(c.notifier.page_updates_count(c.notifier.page_state().write_page), 1);
}

#[test]
fn deduplicates_same_ring_index_and_collection() {
    let mut c = Chain::new();
    c.notifier.on_ring_root_change(PEOPLE_IDENTIFIER, 5, RingRootOp::Built { revision: 1, root: &0u32 });
    assert_eq!(c.notifier.page_updates_count(c.notifier.page_state().write_page), 1);
    c.notifier.on_ring_root_change(PEOPLE_IDENTIFIER, 5, RingRootOp::Built { revision: 2, root: &0u32 });
    assert_eq!(c.notifier.page_updates_count(c.notifier.page_state().write_page), 1);
}

#[test]
fn keeps_different_ring_indices_separate() {
    let mut c = Chain::new();
    c.add_pending_update(PEOPLE_IDENTIFIER, 5);
    c.add_pending_update(PEOPLE_IDENTIFIER, 6);
    assert_eq!(c.notifier.page_updates_count(c.notifier.page_state().write_page), 2);
}

#[test]
fn spills_to_next_page_when_current_full() {
    let mut c = Chain::new();
    for i in 0..MAX_UPDATES_PER_BATCH {
        c.add_pending_update(PEOPLE_IDENTIFIER, i);
    }
    assert_eq!(c.notifier.page_state().write_page, 0);
    assert_eq!(c.notifier.page_updates_count(0), MAX_UPDATES_PER_BATCH);
    c.add_pending_update(PEOPLE_IDENTIFIER, MAX_UPDATES_PER_BATCH);
    assert_eq!(c.notifier.page_state().write_page, 1);
    assert_eq!(c.notifier.page_updates_count(1), 1);
}

// further scenarios

#[test]
fn batch_size_follows_channel_and_cap() {
    let c = Chain::new();
    // (100_000 - 100) / 20_000 = 4 updates per message.
    assert_eq!(c.notifier.max_updates_per_xcm(Some(100_000)), Some(4));
    assert_eq!(c.notifier.max_updates_per_xcm(Some(20_099)), None);
    assert_eq!(c.notifier.max_updates_per_xcm(Some(20_100)), Some(1));
    assert_eq!(c.notifier.max_updates_per_xcm(None), None);
    assert_eq!(c.notifier.get_xcm_update_batch_size(Some(u32::MAX), 0), Some(MAX_UPDATES_PER_BATCH));
}

#[test]
fn channelless_subscriber_is_served_without_updates() {
    let mut c = Chain::new();
    setup_batch_with_subscribers(&mut c, &[PEOPLE_IDENTIFIER], &[1000]);
    c.channelless.push(1000);
    let seq = c.current_batch_sequence();
    assert_eq!(c.send_batch(1000, seq), Ok(0));
    assert_eq!(c.events, vec![NotifierEvent::UpdateSendFailed { para_id: 1000 }]);
    assert!(c.notifier.current_batch().is_none());
}

#[test]
fn replayed_batch_resolves_deleted_rings() {
    let c = Chain::new();
    let updates = orbis::notifier::resolve_updates_for_indices(&[1, 2, 3], vec![(2u32, 7u32, 4u32)]);
    assert_eq!(updates.len(), 3);
    assert_eq!(updates[0].ring_index, 1);
    assert_eq!(updates[0].op, RingRootOp::Deleted);
    assert_eq!(updates[1].op, RingRootOp::Built { revision: 4, root: 7 });
    assert_eq!(updates[2].op, RingRootOp::Deleted);
    assert!(c.notifier.current_batch().is_none());
}

#[test]
fn stuck_batch_is_abandoned_by_offchain_worker() {
    let mut c = Chain::new();
    c.subscribe_to(1000, &[PEOPLE_IDENTIFIER]);
    c.finalize_subscriptions(&[1000]);
    c.add_pending_update(PEOPLE_IDENTIFIER, 0);
    c.channelless.push(1000);
    c.block = 5;
    assert!(c.enqueue_updates().is_ok());
    let calls = c.notifier.offchain_worker(5 + STUCK_BATCH_TIMEOUT);
    assert!(calls.contains(&OffchainCall::AbandonStuckBatch { discriminator: (5 + STUCK_BATCH_TIMEOUT) / TX_RETRY_WINDOW }));
    assert!(calls.iter().any(|call| matches!(call, OffchainCall::SendBatch { para_id: 1000, .. })));
}

fn w(ref_time: u64, proof_size: u64) -> Weight {
    Weight { ref_time, proof_size }
}

fn weights(normal_max: Option<Weight>) -> NotifierWeights {
    NotifierWeights {
        request_replay: w(1_000, 100),
        request_replay_remote: w(10, 1),
        enqueue_updates: w(2_000, 200),
        authorize_enqueue_updates: w(100, 10),
        send_batch: w(3_000, 300),
        authorize_send_batch: w(100, 10),
        send_init_page: w(4_000, 400),
        authorize_send_init_page: w(100, 10),
        normal_max_extrinsic: normal_max,
    }
}

#[test]
fn integrity_test_checks_the_constants() {
    let fits = weights(Some(w(10_000, 1_000)));
    assert!(config(0, 1).integrity_test(&fits));
    assert!(!config(0, MAX_UPDATES_PER_BATCH + 1).integrity_test(&fits));
    let mut bad = config(0, 1);
    bad.stuck_batch_timeout = TX_LONGEVITY as u32;
    assert!(!bad.integrity_test(&fits));
}

#[test]
fn integrity_test_checks_the_worst_case_weights() {
    let c = config(0, 1);
    // No bound for normal extrinsics: nothing can be shown to fit.
    assert!(!c.integrity_test(&weights(None)));
    // send_init_page with its authorization needs 4_100 / 410.
    assert!(c.integrity_test(&weights(Some(w(4_100, 410)))));
    assert!(!c.integrity_test(&weights(Some(w(4_099, 410)))));
    assert!(!c.integrity_test(&weights(Some(w(4_100, 409)))));
    // A replay of a full batch adds the subscriber's weight per update:
    // 1_000 + 10 * 10 = 1_100 fits, a per-update cost of 400 does not.
    let mut heavy = weights(Some(w(4_100, 410)));
    heavy.request_replay_remote = w(400, 1);
    assert!(!c.integrity_test(&heavy));
    heavy.request_replay_remote = w(u64::MAX, 1);
    assert!(!c.integrity_test(&heavy));
}
