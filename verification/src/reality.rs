//! Types that model people, rings of members and statements about reality.
use core::marker::PhantomData;
use verifiable::ring::bandersnatch::BandersnatchSha512Ell2;
use verifiable::ring::RingDomainSize;
use vstd::arithmetic::power2::pow2;
use vstd::prelude::*;

verus! {

/// Identity of personhood: a persistent identifier of every individual.
pub type PersonalId = u64;

/// Identifier of an application in which individual people are tracked.
pub type Context = [u8; 32];

/// Identifier of an individual within an application context.
pub type Alias = [u8; 32];

/// Index of a ring within a collection.
pub type RingIndex = u32;

/// The ring index 0.
pub const RI_ZERO: RingIndex = 0;

/// Size of a ring.
pub type RingSize = u32;

/// Identifier of a member collection.
pub type Identifier = [u8; 32];

/// Identifier of the people collection: `pop:polkadot.network/people`,
/// padded with spaces to 32 bytes.
pub const PEOPLE_IDENTIFIER: Identifier = [
    112u8, 111, 112, 58, 112, 111, 108, 107, 97, 100, 111, 116, 46, 110, 101, 116, 119, 111, 114, 107, 47, 112, 101, 111,
    112, 108, 101, 32, 32, 32, 32, 32,
];

/// Identifier of the lite people collection: `pop:polkadot.network/people-lite`.
pub const PEOPLE_LITE_IDENTIFIER: Identifier = [
    112u8, 111, 112, 58, 112, 111, 108, 107, 97, 100, 111, 116, 46, 110, 101, 116, 119, 111, 114, 107, 47, 112, 101, 111,
    112, 108, 101, 45, 108, 105, 116, 101,
];

/// Index of a ring revision.
pub type RevisionIndex = u32;

/// Index of a queue page.
pub type PageIndex = u32;

/// Size bound of a judgement context.
pub const CONTEXT_SIZE: u32 = 64;

/// Allowed exponents of the ring size. The capacity of a ring with exponent
/// `x` is `2^x - 257`: the ring-VRF implementation pads every ring.
#[derive(Clone, Copy, PartialEq, Eq, PartialOrd, Ord, Debug, Structural)]
pub enum RingExponent {
    /// Exponent 9 (capacity 255).
    R2e9,
    /// Exponent 10 (capacity 767).
    R2e10,
    /// Exponent 14 (capacity 16127).
    R2e14,
}

/// The exponent that a ring exponent stands for.
pub open spec fn spec_exponent(e: RingExponent) -> u8 {
    match e {
        RingExponent::R2e9 => 9,
        RingExponent::R2e10 => 10,
        RingExponent::R2e14 => 14,
    }
}

/// The power of two of the proof-system domain that serves rings of exponent
/// `e`: two more than the exponent.
pub open spec fn spec_domain_power(e: RingExponent) -> u32 {
    match e {
        RingExponent::R2e9 => 11,
        RingExponent::R2e10 => 12,
        RingExponent::R2e14 => 16,
    }
}

/// The largest ring that the ring-VRF suite on Bandersnatch handles on a
/// domain of `2^power` points: the largest power of two below a third of the
/// domain, less the proof's overhead of 257 points (4 points and the 253 bits
/// of the suite's scalar field). For the ring exponents this is
/// `2^exponent - 257`.
pub open spec fn spec_max_ring_size(power: u32) -> usize {
    if power == 11 {
        255
    } else if power == 12 {
        767
    } else {
        16127
    }
}

/// Calls `verifiable::ring::RingDomainSize::max_ring_size` for the
/// Bandersnatch suite on the domain of `2^power` points, which the crate
/// computes as the largest power of two in `(2^power - 1) / 3` less the
/// overhead `4 + 253`.
#[verifier::external_body]
fn max_ring_size_for_domain(power: u32) -> (r: usize)
    requires
        power == 11 || power == 12 || power == 16,
    ensures
        r == spec_max_ring_size(power),
{
    let domain = match power {
        11 => RingDomainSize::Domain11,
        12 => RingDomainSize::Domain12,
        _ => RingDomainSize::Domain16,
    };
    domain.max_ring_size::<BandersnatchSha512Ell2>()
}

impl RingExponent {
    /// The exponent as a `u8`.
    pub fn exponent(&self) -> (r: u8)
        ensures
            r == spec_exponent(*self),
    {
        match self {
            RingExponent::R2e9 => 9,
            RingExponent::R2e10 => 10,
            RingExponent::R2e14 => 14,
        }
    }

    /// The power of two of the domain that serves this ring exponent.
    fn domain_power(&self) -> (r: u32)
        ensures
            r == spec_domain_power(*self),
    {
        match self {
            RingExponent::R2e9 => 11,
            RingExponent::R2e10 => 12,
            RingExponent::R2e14 => 16,
        }
    }

    /// The ring capacity: the largest number of members a ring holds,
    /// `2^exponent - 257`.
    pub fn ring_capacity(&self) -> (r: RingSize)
        ensures
            r == spec_max_ring_size(spec_domain_power(*self)) as u32,
            r == pow2(spec_exponent(*self) as nat) - 257,
    {
        let p = self.domain_power();
        proof {
            vstd::arithmetic::power2::lemma2_to64();
            vstd::arithmetic::power2::lemma2_to64_rest();
        }
        max_ring_size_for_domain(p) as u32
    }

    /// The ring exponent whose exponent is `value`, or `Err(value)` when no
    /// ring exponent has it.
    pub fn new_from_exponent(value: u8) -> (r: Result<RingExponent, u8>)
        ensures
            r matches Ok(e) ==> spec_exponent(e) == value,
            r is Err <==> (value != 9 && value != 10 && value != 14),
            r matches Err(n) ==> n == value,
    {
        match value {
            9 => Ok(RingExponent::R2e9),
            10 => Ok(RingExponent::R2e10),
            14 => Ok(RingExponent::R2e14),
            n => Err(n),
        }
    }

    /// The greatest supported ring exponent.
    pub fn max_ring_exponent() -> (r: RingExponent)
        ensures
            r == RingExponent::R2e14,
            forall|e: RingExponent| spec_exponent(e) <= spec_exponent(r),
    {
        RingExponent::R2e14
    }
}

/// Converting a ring exponent to its exponent and back gives the ring exponent.
pub proof fn lemma_exponent_roundtrip(e: RingExponent)
    ensures
        (spec_exponent(e) == 9 && e == RingExponent::R2e9) || (spec_exponent(e) == 10 && e
            == RingExponent::R2e10) || (spec_exponent(e) == 14 && e == RingExponent::R2e14),
{
}

/// An alias in an application context.
#[derive(Clone, PartialEq, Eq, Debug)]
pub struct ContextualAlias {
    pub alias: Alias,
    pub context: Context,
}

/// Mode of ring operation.
#[derive(PartialEq, Eq, Clone, Copy, Debug, Structural)]
pub enum RingMode {
    /// Append-only rings.
    AppendOnly,
    /// Flexible collection where keys may be removed from any ring.
    Flexible,
}

/// Key inclusion status of a ring.
#[derive(PartialEq, Eq, Clone, Debug)]
pub struct RingStatus {
    /// The number of keys in the ring.
    pub total: u32,
    /// The number of keys already baked in.
    pub included: u32,
    /// When present, the time (seconds since the UNIX epoch) at which the ring
    /// became immutable, which happens to append-only rings when full.
    pub immutable_since: Option<u64>,
}

impl Default for RingStatus {
    fn default() -> (r: RingStatus)
        ensures
            r.total == 0 && r.included == 0 && r.immutable_since is None,
    {
        RingStatus { total: 0, included: 0, immutable_since: None }
    }
}

/// The state of a member's key and its position in the relevant structure.
#[derive(PartialEq, Eq, Clone, Copy, Debug, Structural)]
pub enum RingPosition {
    /// A member in the onboarding queue, not yet in a ring.
    Onboarding {
        queue_page: PageIndex,
        /// When the member was queued (seconds since the UNIX epoch).
        queued_at: u64,
    },
    /// A member included in a ring.
    Included { ring_index: RingIndex, ring_page: PageIndex, ring_position: u32 },
    /// A suspended member, in no ring and no queue page.
    Suspended,
}

impl RingPosition {
    /// Whether the member is suspended.
    pub fn suspended(&self) -> (r: bool)
        ensures
            r == (*self is Suspended),
    {
        match self {
            RingPosition::Suspended => true,
            _ => false,
        }
    }

    /// The ring of an included member.
    pub fn ring_index(&self) -> (r: Option<RingIndex>)
        ensures
            match *self {
                RingPosition::Included { ring_index, .. } => r == Some(ring_index),
                _ => r is None,
            },
    {
        match self {
            RingPosition::Included { ring_index, .. } => Some(*ring_index),
            _ => None,
        }
    }
}

/// The mutation mode of member rings.
#[derive(Clone, Copy, PartialEq, Eq, Debug, Structural)]
pub enum RingMutationMode {
    /// Rings accept new members in order while below capacity; roots are built
    /// on top of earlier roots.
    AppendOnly,
    /// A count of the entities that are removing members, which requires whole
    /// rings to be rebuilt.
    Mutating(u8),
}

impl Default for RingMutationMode {
    fn default() -> (r: RingMutationMode)
        ensures
            r == RingMutationMode::AppendOnly,
    {
        RingMutationMode::AppendOnly
    }
}

/// The state of all member rings of a collection.
#[derive(Clone, Copy, PartialEq, Eq, Debug, Structural)]
pub struct RingMembersState {
    /// The current mutation mode of the rings.
    pub mode: RingMutationMode,
}

impl Default for RingMembersState {
    fn default() -> (r: RingMembersState)
        ensures
            r.mode == RingMutationMode::AppendOnly,
    {
        RingMembersState { mode: RingMutationMode::AppendOnly }
    }
}

/// The number of open mutation sessions that a state records.
pub open spec fn sessions(s: RingMembersState) -> nat {
    match s.mode {
        RingMutationMode::AppendOnly => 0,
        RingMutationMode::Mutating(n) => n as nat,
    }
}

/// The state after opening one more mutation session, when the count fits.
pub open spec fn spec_start_session(s: RingMembersState) -> Result<RingMembersState, RingMembersState> {
    match s.mode {
        RingMutationMode::AppendOnly => Ok(RingMembersState { mode: RingMutationMode::Mutating(1) }),
        RingMutationMode::Mutating(n) => if n < 255 {
            Ok(RingMembersState { mode: RingMutationMode::Mutating((n + 1) as u8) })
        } else {
            Err(s)
        },
    }
}

/// The state after closing one mutation session, when one is open.
pub open spec fn spec_end_session(s: RingMembersState) -> Result<RingMembersState, RingMembersState> {
    match s.mode {
        RingMutationMode::AppendOnly => Err(s),
        RingMutationMode::Mutating(n) => if n == 1 {
            Ok(RingMembersState { mode: RingMutationMode::AppendOnly })
        } else if n == 0 {
            Ok(RingMembersState { mode: RingMutationMode::Mutating(0) })
        } else {
            Ok(RingMembersState { mode: RingMutationMode::Mutating((n - 1) as u8) })
        },
    }
}

impl RingMembersState {
    /// Whether the rings only accept additions.
    pub fn append_only(&self) -> (r: bool)
        ensures
            r == (self.mode == RingMutationMode::AppendOnly),
    {
        match self.mode {
            RingMutationMode::AppendOnly => true,
            _ => false,
        }
    }

    /// Whether the member set of the rings may be mutated.
    pub fn mutating(&self) -> (r: bool)
        ensures
            r == (self.mode is Mutating),
    {
        match self.mode {
            RingMutationMode::Mutating(_) => true,
            _ => false,
        }
    }

    /// Opens a mutation session; fails, handing the state back, when 255
    /// sessions are already open.
    pub fn start_mutation_session(self) -> (r: Result<RingMembersState, RingMembersState>)
        ensures
            r == spec_start_session(self),
    {
        match self.mode {
            RingMutationMode::AppendOnly => Ok(RingMembersState { mode: RingMutationMode::Mutating(1) }),
            RingMutationMode::Mutating(n) => {
                if n < 255 {
                    Ok(RingMembersState { mode: RingMutationMode::Mutating(n + 1) })
                } else {
                    Err(self)
                }
            },
        }
    }

    /// Closes a mutation session; the last one returns the rings to
    /// append-only. Fails, handing the state back, when no session is open.
    pub fn end_mutation_session(self) -> (r: Result<RingMembersState, RingMembersState>)
        ensures
            r == spec_end_session(self),
    {
        match self.mode {
            RingMutationMode::AppendOnly => Err(self),
            RingMutationMode::Mutating(n) => {
                if n == 1 {
                    Ok(RingMembersState { mode: RingMutationMode::AppendOnly })
                } else if n == 0 {
                    Ok(RingMembersState { mode: RingMutationMode::Mutating(0) })
                } else {
                    Ok(RingMembersState { mode: RingMutationMode::Mutating(n - 1) })
                }
            },
        }
    }
}

/// Opening a session and then closing one gives back the state, for every
/// state that counts its open sessions (a state is `Mutating(0)` only through
/// an outside write).
pub proof fn lemma_start_end_session(s: RingMembersState)
    requires
        s.mode != RingMutationMode::Mutating(0),
        spec_start_session(s) is Ok,
    ensures
        spec_end_session(spec_start_session(s)->Ok_0) == Ok::<RingMembersState, RingMembersState>(s),
{
}

/// Closing a session and then opening one gives back the state, whenever the
/// close succeeds on a counted state.
pub proof fn lemma_end_start_session(s: RingMembersState)
    requires
        s.mode != RingMutationMode::Mutating(0),
        spec_end_session(s) is Ok,
    ensures
        spec_start_session(spec_end_session(s)->Ok_0) == Ok::<RingMembersState, RingMembersState>(s),
{
}

/// Opening a session adds one to the count of open sessions, closing one
/// takes one away, and the rings are append-only exactly when no session is
/// open.
pub proof fn lemma_session_counting(s: RingMembersState)
    requires
        s.mode != RingMutationMode::Mutating(0),
    ensures
        spec_start_session(s) matches Ok(t) ==> sessions(t) == sessions(s) + 1,
        spec_start_session(s) is Err <==> sessions(s) == 255,
        spec_end_session(s) matches Ok(t) ==> sessions(t) + 1 == sessions(s) && t.mode
            != RingMutationMode::Mutating(0),
        spec_end_session(s) is Err <==> sessions(s) == 0,
        (s.mode == RingMutationMode::AppendOnly) <==> sessions(s) == 0,
{
}

/// An alias used in a specific ring revision.
#[derive(Clone, PartialEq, Eq, Debug)]
pub struct RevisedAlias {
    pub revision: RevisionIndex,
    pub ring: RingIndex,
    pub alias: Alias,
}

/// A contextual alias used in a specific ring revision.
#[derive(Clone, PartialEq, Eq, Debug)]
pub struct RevisedContextualAlias {
    pub revision: RevisionIndex,
    pub ring: RingIndex,
    pub ca: ContextualAlias,
}

/// The truth of a statement as the evidence shows it.
#[derive(Clone, Copy, PartialEq, Eq, Debug, Structural)]
pub enum Truth {
    /// The evidence indicates that the statement is true.
    True,
    /// The evidence contradicts the statement.
    False,
}

/// The judgement of an oracle on a statement.
#[derive(Clone, Copy, PartialEq, Eq, Debug, Structural)]
pub enum Judgement {
    /// A judgement on the truth of a statement.
    Truth(Truth),
    /// The evidence probably implies contempt for the system.
    Contempt,
}

impl Judgement {
    /// Whether `j` expresses the same intent as this judgement.
    pub fn matches_intent(&self, j: Judgement) -> (r: bool)
        ensures
            r == (*self == j),
    {
        match (self, j) {
            (Judgement::Truth(Truth::True), Judgement::Truth(Truth::True)) => true,
            (Judgement::Truth(Truth::False), Judgement::Truth(Truth::False)) => true,
            (Judgement::Contempt, Judgement::Contempt) => true,
            _ => false,
        }
    }
}

/// Hash of a piece of evidence.
pub type EvidenceHash = [u8; 32];

/// Index of a tattoo family.
pub type FamilyIndex = u16;

/// Index of a tattoo design within a family.
pub type DesignIndex = u16;

/// Specification of a tattoo design.
#[derive(Clone, PartialEq, Eq, Debug)]
pub enum InkSpec {
    DesignedElective(FamilyIndex, DesignIndex),
    ProceduralAccount(FamilyIndex, [u8; 32]),
    ProceduralPersonal(FamilyIndex, PersonalId),
    Procedural(FamilyIndex, [u8; 4]),
}

/// Social platforms that statement oracles support. The data are at most 32
/// bytes long.
#[derive(Clone, PartialEq, Eq, Debug)]
pub enum Social {
    Twitter { username: Vec<u8> },
    Github { username: Vec<u8> },
    Discord { display_and_tag: Vec<u8> },
}

impl Social {
    /// Whether both credentials are on the same platform, whatever their data.
    pub fn eq_platform(&self, other: &Social) -> (r: bool)
        ensures
            r == ((*self is Twitter && *other is Twitter) || (*self is Github && *other is Github)
                || (*self is Discord && *other is Discord)),
    {
        match (self, other) {
            (Social::Twitter { .. }, Social::Twitter { .. }) => true,
            (Social::Github { .. }, Social::Github { .. }) => true,
            (Social::Discord { .. }, Social::Discord { .. }) => true,
            _ => false,
        }
    }
}

/// A statement that an oracle judges.
#[derive(Clone, PartialEq, Eq, Debug)]
pub enum Statement {
    /// Whether a tattoo of `design` uniquely exists on somebody's body.
    ProofOfInk { design: InkSpec, evidence: EvidenceHash, probable_acceptable: bool },
    /// Whether a social credential on a platform belongs to a person.
    IdentityCredential { platform: Social, evidence: Vec<u8> },
    /// Whether a username meets the oracle's standards.
    UsernameValid { username: Vec<u8> },
}

/// A call stub: the pallet and call index of a call that takes `Params`.
#[derive(Debug)]
pub struct Callback<Params, RuntimeCall> {
    pallet_index: u8,
    call_index: u8,
    phantom: PhantomData<(Params, RuntimeCall)>,
}

impl<Params, RuntimeCall> Callback<Params, RuntimeCall> {
    /// The pallet index of the stub.
    pub closed spec fn pallet(self) -> u8 {
        self.pallet_index
    }

    /// The call index of the stub.
    pub closed spec fn call(self) -> u8 {
        self.call_index
    }

    /// Builds a stub from its pallet and call index.
    pub fn from_parts(pallet_index: u8, call_index: u8) -> (r: Self)
        ensures
            r.pallet() == pallet_index,
            r.call() == call_index,
    {
        Callback { pallet_index, call_index, phantom: PhantomData }
    }

    /// The SCALE encoding of the call with the arguments whose encoding is
    /// `encoded_args`: the pallet index, the call index, then the arguments.
    pub fn curry(&self, encoded_args: &[u8]) -> (r: Vec<u8>)
        ensures
            r@ == seq![self.pallet(), self.call()] + encoded_args@,
    {
        let mut v: Vec<u8> = Vec::new();
        v.push(self.pallet_index);
        v.push(self.call_index);
        let mut i: usize = 0;
        while i < encoded_args.len()
            invariant
                i <= encoded_args@.len(),
                v@ == seq![self.pallet(), self.call()] + encoded_args@.subrange(0, i as int),
            decreases encoded_args@.len() - i,
        {
            v.push(encoded_args[i]);
            i += 1;
            assert(v@ =~= seq![self.pallet(), self.call()] + encoded_args@.subrange(0, i as int));
        }
        assert(encoded_args@.subrange(0, encoded_args@.len() as int) =~= encoded_args@);
        v
    }
}

impl<Params, RuntimeCall> Clone for Callback<Params, RuntimeCall> {
    fn clone(&self) -> (r: Self)
        ensures
            r.pallet() == self.pallet(),
            r.call() == self.call(),
    {
        Callback { pallet_index: self.pallet_index, call_index: self.call_index, phantom: PhantomData }
    }
}

/// Inputs of a personhood lookup by proof.
pub struct PersonhoodProofRequest<'a, Proof> {
    /// Collection the proof is verified against.
    pub identifier: Identifier,
    /// Ring-signature proof.
    pub proof: Proof,
    /// Alias the proof is claimed to derive in `context`.
    pub alias: Alias,
    /// Index of the ring within the collection.
    pub ring_index: RingIndex,
    /// Application context the alias is derived under.
    pub context: Context,
    /// Revision of the ring root the proof was created against.
    pub revision: RevisionIndex,
    /// Message bound into the proof.
    pub message: &'a [u8],
}

/// Source of per-block randomness for winner selection; `None` when no usable
/// randomness is available.
pub trait CurrentBlockRandomness {
    fn randomness() -> Option<[u8; 32]>;
}

/// Number of active members in a set.
pub trait CountedMembers {
    fn active_count() -> u32;
}

} // verus!
