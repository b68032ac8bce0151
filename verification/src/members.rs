//! Collections of members, their ring roots, and the self-inclusion of a
//! queued member.
//!
//! A member waiting in the onboarding queue of a collection that allows it
//! may include itself once it has waited long enough, authenticating the
//! transaction by a signature of its member key.
use crate::hashing::{blake2_256, spec_blake2_256, spec_twox_64, twox_64};
use crate::reality::{Identifier, RevisionIndex, RingExponent, RingMembersState, RingMode, RingPosition};
use crate::scale::{encode_bytes, scale_bytes};
use crate::table::extend_bytes;
use crate::weights::Weight;
use verifiable::ring::bandersnatch::BandersnatchVrfVerifiable;
use verifiable::GenerateVerifiable;
use vstd::prelude::*;

verus! {

broadcast use vstd::array::group_array_axioms;

/// A member key.
pub type Member = [u8; 32];

/// A signature by a member key.
pub type Signature = [u8; 64];

/// Ring root record of a ring of a collection.
#[derive(PartialEq, Eq, Clone, Debug)]
pub struct RingRoot<Members, Intermediate> {
    /// The ring root for the current ring.
    pub root: Members,
    /// The revision index of the ring.
    pub revision: RevisionIndex,
    /// An intermediate value if the ring is not full.
    pub intermediate: Intermediate,
}

/// A ring root kept after a revision, during a grace period.
#[derive(PartialEq, Eq, Clone, Debug)]
pub struct OldRoot<Members> {
    /// The ring root of the previous revision.
    pub root: Members,
    /// When it was archived, in seconds since the UNIX epoch.
    pub archived_at: u64,
}

/// Owner of a collection.
#[derive(PartialEq, Eq, Clone, Debug)]
pub enum CollectionOwner<Account, Location> {
    /// Owned from another chain.
    External(Location),
    /// Owned by a local account.
    Local(Account),
}

/// Information about a collection.
#[derive(PartialEq, Eq, Clone, Debug)]
pub struct CollectionInfo<Account, Location> {
    /// The owner of this collection.
    pub owner: CollectionOwner<Account, Location>,
    /// The mode of ring operation for this collection.
    pub mode: RingMode,
    /// The ring size exponent; the ring capacity is `2^exponent - 257`.
    pub ring_size: RingExponent,
    /// Seconds a member must wait in the onboarding queue before it may
    /// include itself; `None` disables self-inclusion.
    pub self_inclusion_delay: Option<u64>,
}

/// Reasons for which a self-inclusion transaction is refused.
#[derive(Clone, Copy, PartialEq, Eq, Debug, Structural)]
pub enum CustomValidity {
    /// The call is not a `self_include` call.
    NotSelfIncludeCall,
    /// The collection does not exist.
    CollectionNotFound,
    /// Self-inclusion is not enabled for this collection.
    SelfInclusionNotEnabled,
    /// The rings are mutating and not append-only.
    RingsMutating,
    /// The member was not found in the collection.
    MemberNotFound,
    /// The member is not in the onboarding queue.
    NotOnboarding,
    /// The member has not waited long enough in the onboarding queue.
    SelfInclusionTooEarly,
}

/// The code of a refusal reason.
pub open spec fn validity_code(c: CustomValidity) -> u8 {
    match c {
        CustomValidity::NotSelfIncludeCall => 200,
        CustomValidity::CollectionNotFound => 201,
        CustomValidity::SelfInclusionNotEnabled => 202,
        CustomValidity::RingsMutating => 203,
        CustomValidity::MemberNotFound => 204,
        CustomValidity::NotOnboarding => 205,
        CustomValidity::SelfInclusionTooEarly => 206,
    }
}

impl CustomValidity {
    /// The code carried by the refusal.
    pub fn code(&self) -> (r: u8)
        ensures
            r == validity_code(*self),
    {
        match self {
            CustomValidity::NotSelfIncludeCall => 200,
            CustomValidity::CollectionNotFound => 201,
            CustomValidity::SelfInclusionNotEnabled => 202,
            CustomValidity::RingsMutating => 203,
            CustomValidity::MemberNotFound => 204,
            CustomValidity::NotOnboarding => 205,
            CustomValidity::SelfInclusionTooEarly => 206,
        }
    }
}

/// The extension's data carried by a transaction.
#[derive(Clone, PartialEq, Eq, Debug)]
pub enum AsMemberInfo {
    /// Include a member from the onboarding queue; the signature is over the
    /// transaction's inherited implication.
    SelfInclude(Signature),
}

/// Transaction extension for the self-inclusion of queued members.
#[derive(Clone, PartialEq, Eq, Debug)]
pub struct AsMember(pub Option<AsMemberInfo>);

/// The `self_include` call of the members pallet.
#[derive(Clone, Copy, PartialEq, Eq, Debug)]
pub struct SelfIncludeCall {
    pub identifier: Identifier,
    pub member: Member,
    /// Clock time, in seconds, at which the call becomes valid.
    pub call_valid_at: u64,
}

/// Why a self-inclusion transaction is refused.
#[derive(Clone, Copy, PartialEq, Eq, Debug, Structural)]
pub enum SelfIncludeError {
    /// The origin was already authorised by another extension.
    BadSigner,
    /// The call is not valid yet.
    Future,
    /// The call's time window has passed.
    Stale,
    /// The signature does not verify.
    BadProof,
    /// A reason of the extension.
    Custom(CustomValidity),
}

/// An accepted self-inclusion: the transaction's deduplication tag and the
/// member that the origin now speaks for.
#[derive(Clone, Copy, PartialEq, Eq, Debug)]
pub struct SelfIncludeValidity {
    pub provides: [u8; 8],
    pub member: Member,
}

/// Whether `signature` is a valid signature of `message` by `member`.
pub uninterp spec fn spec_signature_valid(signature: Seq<u8>, message: Seq<u8>, member: Seq<u8>) -> bool;

/// Calls `GenerateVerifiable::verify_signature` of the Bandersnatch ring-VRF
/// scheme. The contract claims only that the answer is a function of the
/// signature, message and member bytes, named `spec_signature_valid`.
#[verifier::external_body]
fn verify_signature(signature: &Signature, message: &[u8], member: &Member) -> (r: bool)
    ensures
        r == spec_signature_valid(signature@, message@, member@),
{
    <BandersnatchVrfVerifiable as GenerateVerifiable>::verify_signature(signature, message, member)
}

/// The bytes `self-include` that open the preimage of the tag.
pub open spec fn self_include_label() -> Seq<u8> {
    seq![115u8, 101, 108, 102, 45, 105, 110, 99, 108, 117, 100, 101]
}

/// The deduplication tag of a self-inclusion of `member` into `identifier`:
/// the 64-bit XX hash of the SCALE encoding of
/// `("self-include", identifier, member)`.
pub open spec fn self_include_tag(identifier: Identifier, member: Member) -> [u8; 8] {
    spec_twox_64(scale_bytes(self_include_label()) + identifier@ + member@)
}

/// What the extension answers for a transaction with extension data `info`,
/// where `origin_is_none` says whether no other extension authorised the
/// origin, `call` is the transaction's call when it is `self_include`, `now`
/// the clock time, `tolerance` the length of the call's time window, and
/// `collection`, `rings` and `position` what the members pallet holds for the
/// call's collection and member; `implication` is the encoded implication
/// that the signature signs (through its BLAKE2b-256 digest). `Ok(None)`
/// leaves the transaction as it is.
pub open spec fn self_include_spec<A, L>(
    info: Option<AsMemberInfo>,
    origin_is_none: bool,
    call: Option<SelfIncludeCall>,
    now: u64,
    tolerance: u64,
    collection: Option<CollectionInfo<A, L>>,
    rings: RingMembersState,
    position: Option<RingPosition>,
    implication: Seq<u8>,
) -> Result<Option<SelfIncludeValidity>, SelfIncludeError> {
    match info {
        None => Ok(None),
        Some(AsMemberInfo::SelfInclude(signature)) => if !origin_is_none {
            Err(SelfIncludeError::BadSigner)
        } else {
            match call {
                None => Err(SelfIncludeError::Custom(CustomValidity::NotSelfIncludeCall)),
                Some(c) => if now < c.call_valid_at {
                    Err(SelfIncludeError::Future)
                } else if now > sat_add64(c.call_valid_at, tolerance) {
                    Err(SelfIncludeError::Stale)
                } else {
                    match collection {
                        None => Err(SelfIncludeError::Custom(CustomValidity::CollectionNotFound)),
                        Some(ci) => match ci.self_inclusion_delay {
                            None => Err(SelfIncludeError::Custom(CustomValidity::SelfInclusionNotEnabled)),
                            Some(delay) => if rings.mode != crate::reality::RingMutationMode::AppendOnly {
                                Err(SelfIncludeError::Custom(CustomValidity::RingsMutating))
                            } else {
                                match position {
                                    None => Err(SelfIncludeError::Custom(CustomValidity::MemberNotFound)),
                                    Some(RingPosition::Onboarding { queued_at, .. }) => if now < sat_add64(
                                        queued_at,
                                        delay,
                                    ) {
                                        Err(SelfIncludeError::Custom(CustomValidity::SelfInclusionTooEarly))
                                    } else if !spec_signature_valid(
                                        signature@,
                                        spec_blake2_256(implication)@,
                                        c.member@,
                                    ) {
                                        Err(SelfIncludeError::BadProof)
                                    } else {
                                        Ok(
                                            Some(
                                                SelfIncludeValidity {
                                                    provides: self_include_tag(c.identifier, c.member),
                                                    member: c.member,
                                                },
                                            ),
                                        )
                                    },
                                    Some(_) => Err(SelfIncludeError::Custom(CustomValidity::NotOnboarding)),
                                }
                            },
                        },
                    }
                },
            }
        },
    }
}

/// `a + b`, saturating.
pub open spec fn sat_add64(a: u64, b: u64) -> u64 {
    if a + b > u64::MAX {
        u64::MAX
    } else {
        (a + b) as u64
    }
}

impl AsMember {
    /// The extension with the given data.
    pub fn new(info: Option<AsMemberInfo>) -> (r: AsMember)
        ensures
            r.0 == info,
    {
        AsMember(info)
    }

    /// The weight of the extension: nothing without data, the weight of
    /// validating a self-inclusion (`self_include_weight`, from the weight
    /// table) with it.
    pub fn weight(&self, self_include_weight: Weight) -> (r: Weight)
        ensures
            r == (match self.0 {
                None => Weight { ref_time: 0, proof_size: 0 },
                Some(AsMemberInfo::SelfInclude(_)) => self_include_weight,
            }),
    {
        match &self.0 {
            None => Weight { ref_time: 0, proof_size: 0 },
            Some(AsMemberInfo::SelfInclude(_)) => self_include_weight,
        }
    }

    /// Validates a transaction: without extension data nothing is checked;
    /// with a self-inclusion, the origin must be unauthorised, the call must
    /// be `self_include` within its time window, the collection must allow
    /// self-inclusion and have append-only rings, the member must have waited
    /// in the onboarding queue for the collection's delay, and the signature
    /// must verify over the digest of the implication.
    pub fn validate<A, L>(
        &self,
        origin_is_none: bool,
        call: Option<SelfIncludeCall>,
        now: u64,
        tolerance: u64,
        collection: Option<CollectionInfo<A, L>>,
        rings: RingMembersState,
        position: Option<RingPosition>,
        implication: &[u8],
    ) -> (r: Result<Option<SelfIncludeValidity>, SelfIncludeError>)
        ensures
            r == self_include_spec(self.0, origin_is_none, call, now, tolerance, collection, rings, position, implication@),
    {
        let signature = match &self.0 {
            None => {
                return Ok(None);
            },
            Some(AsMemberInfo::SelfInclude(s)) => s,
        };
        if !origin_is_none {
            return Err(SelfIncludeError::BadSigner);
        }
        let c = match call {
            Some(c) => c,
            None => {
                return Err(SelfIncludeError::Custom(CustomValidity::NotSelfIncludeCall));
            },
        };
        if now < c.call_valid_at {
            return Err(SelfIncludeError::Future);
        }
        if now > c.call_valid_at.saturating_add(tolerance) {
            return Err(SelfIncludeError::Stale);
        }
        let ci = match collection {
            Some(ci) => ci,
            None => {
                return Err(SelfIncludeError::Custom(CustomValidity::CollectionNotFound));
            },
        };
        let delay = match ci.self_inclusion_delay {
            Some(d) => d,
            None => {
                return Err(SelfIncludeError::Custom(CustomValidity::SelfInclusionNotEnabled));
            },
        };
        if !rings.append_only() {
            return Err(SelfIncludeError::Custom(CustomValidity::RingsMutating));
        }
        let queued_at = match position {
            None => {
                return Err(SelfIncludeError::Custom(CustomValidity::MemberNotFound));
            },
            Some(RingPosition::Onboarding { queued_at, .. }) => queued_at,
            Some(_) => {
                return Err(SelfIncludeError::Custom(CustomValidity::NotOnboarding));
            },
        };
        if now < queued_at.saturating_add(delay) {
            return Err(SelfIncludeError::Custom(CustomValidity::SelfInclusionTooEarly));
        }
        let msg = blake2_256(implication);
        if !verify_signature(signature, &msg, &c.member) {
            return Err(SelfIncludeError::BadProof);
        }
        let provides = Self::provides_tag(&c.identifier, &c.member);
        Ok(Some(SelfIncludeValidity { provides, member: c.member }))
    }

    /// The deduplication tag of a self-inclusion of `member` into
    /// `identifier`.
    pub fn provides_tag(identifier: &Identifier, member: &Member) -> (r: [u8; 8])
        ensures
            r == self_include_tag(*identifier, *member),
    {
        let label: Vec<u8> = vec![115u8, 101, 108, 102, 45, 105, 110, 99, 108, 117, 100, 101];
        proof {
            assert(label@ =~= self_include_label());
        }
        let mut pre = encode_bytes(label.as_slice());
        extend_bytes(&mut pre, identifier);
        extend_bytes(&mut pre, member);
        twox_64(pre.as_slice())
    }
}

} // verus!
