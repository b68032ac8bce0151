//! Ring-root updates exchanged between the notifier and its subscribers.
use crate::reality::{Identifier, RevisionIndex, RingIndex};
use vstd::prelude::*;

verus! {

/// Sequence number of a batch, used to order batches and detect gaps.
pub type SequenceNumber = u64;

/// Whether a ring root was built (or rebuilt) or deleted.
#[derive(Clone, PartialEq, Eq, Debug)]
pub enum RingRootOp<R> {
    /// A ring root was built or updated, with its revision and root.
    Built { revision: RevisionIndex, root: R },
    /// A ring root was deleted.
    Deleted,
}

impl<'a, R: Clone> RingRootOp<&'a R> {
    /// Turns an operation on a borrowed root into one on a clone of the root.
    pub fn cloned(&self) -> (r: RingRootOp<R>)
        ensures
            match *self {
                RingRootOp::Built { revision, root } => r matches RingRootOp::Built {
                    revision: rv,
                    root: rr,
                } && rv == revision && cloned(*root, rr),
                RingRootOp::Deleted => r is Deleted,
            },
    {
        match self {
            RingRootOp::Built { revision, root } => RingRootOp::Built {
                revision: *revision,
                root: (*root).clone(),
            },
            RingRootOp::Deleted => RingRootOp::Deleted,
        }
    }
}

/// One ring-root update sent from the notifier to a subscriber.
#[derive(Clone, PartialEq, Eq, Debug)]
pub struct RingRootUpdate<R> {
    /// Ring index within the collection.
    pub ring_index: RingIndex,
    /// The operation on this ring root.
    pub op: RingRootOp<R>,
}

/// A batch of ring-root updates for one collection.
#[derive(Clone, PartialEq, Eq, Debug)]
pub struct RingRootUpdatesBatch<R> {
    /// Collection of all updates in this batch.
    pub identifier: Identifier,
    /// Sequence number of this batch.
    pub sequence: SequenceNumber,
    /// Creation time of this batch, in seconds since the UNIX epoch.
    pub source_time: u64,
    /// The updates, at most the configured batch size.
    pub updates: Vec<RingRootUpdate<R>>,
    /// Index of the next ring that the collection will build; the subscriber
    /// scans `0..next_ring_index` for missing indices.
    pub next_ring_index: u32,
}

/// Read access to the ring roots of collections. The methods are the
/// implementor's; nothing is assumed of them.
pub trait RingRootsProvider<RingRoot> {
    /// The roots of the given rings as `(ring_index, root, revision)`, in the
    /// order of `indices`, leaving out rings without a root.
    fn get_ring_roots(identifier: Identifier, indices: &[RingIndex]) -> Vec<(RingIndex, RingRoot, RevisionIndex)>;

    /// Index of the next ring that the collection will build.
    fn next_ring_index(identifier: Identifier) -> RingIndex;

    /// Up to `limit` roots of the collection after ring `after_key`
    /// (exclusive), or from the first ring when `after_key` is `None`.
    fn get_ring_roots_paginated(
        identifier: Identifier,
        after_key: Option<RingIndex>,
        limit: u32,
    ) -> Vec<(RingIndex, RingRoot, RevisionIndex)>;
}

} // verus!
