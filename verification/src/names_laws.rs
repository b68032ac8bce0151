//! Laws of single calls of the names registry, stated over the state before
//! and after and the answer: revision checks of content publication, the
//! expiry of reservations, what a transfer takes away, the life of a
//! commitment, and what may become a primary name.
use vstd::prelude::*;
use crate::names::{
    acct_key, add_controller_spec, commit_spec, controllers_of, force_transfer_spec, pair_key, publish_content_spec,
    register_spec, sat_add, set_address_spec, set_primary_name_spec, spec_name_id, transfer_spec, u64_or_zero,
    BlockNumber, NameId, NamesConfig, NamesError, NamesView, OperationId, Origin, AccountId,
};

verus! {

/// A publication that expects a revision other than the name's current one
/// fails, unless an earlier request with the same operation id is replayed.
/// With the registry running and a valid (or no) content reference, the error
/// is the revision conflict. A fresh publication that succeeds found the
/// expected revision, when one was given, and moves the name to the next
/// revision.
pub proof fn lemma_publish_checks_revision(
    s: NamesView,
    c: NamesConfig,
    who: AccountId,
    name: NameId,
    content: Option<[u8; 32]>,
    expected: Option<u64>,
    op: OperationId,
    content_valid: bool,
    now: BlockNumber,
)
    ensures
        ({
            let r = publish_content_spec(s, c, Origin::Signed(who), name, content, expected, op, content_valid, now);
            let fresh = !s.receipts.contains_key(pair_key(who, op@));
            let current = u64_or_zero(s.content_revisions, name@);
            &&& fresh && expected is Some && expected->0 != current ==> r is Err
            &&& fresh && expected is Some && expected->0 != current && !s.paused && (content is None || content_valid)
                ==> r == Err::<(NamesView, Seq<crate::names::NamesEventView>), NamesError>(
                NamesError::ContentRevisionConflict,
            )
            &&& fresh && r is Ok ==> {
                &&& (expected is Some ==> expected->0 == current)
                &&& current < u64::MAX
                &&& r->Ok_0.0.content_revisions.contains_key(name@)
                &&& r->Ok_0.0.content_revisions[name@] == current + 1
                &&& r->Ok_0.0.names[name@].content == content
            }
        }),
{
}

/// An expired reservation never stops a registration: a registration that is
/// refused as reserved met a reservation of the name that is live at `now`
/// (no expiry, or an expiry after `now`) for another beneficiary, or a
/// genesis reservation of the root label for another beneficiary.
pub proof fn lemma_reserved_only_while_live(
    s: NamesView,
    c: NamesConfig,
    g: [u8; 32],
    who: AccountId,
    parent: Option<NameId>,
    label: Seq<u8>,
    salt: Seq<u8>,
    now: BlockNumber,
)
    ensures
        register_spec(s, c, g, Origin::Signed(who), parent, label, salt, now) == Err::<
            (NamesView, Seq<crate::names::NamesEventView>),
            NamesError,
        >(NamesError::ReservedName) ==> {
            let key = spec_name_id(g, parent, label)@;
            ||| (parent is None && s.bootstrap_reservations.contains_key(label)
                && s.bootstrap_reservations[label].beneficiary != Some(who))
            ||| (s.reservations.contains_key(key) && (s.reservations[key].expires_at is Some ==> now < s.reservations[key].expires_at->0)
                && s.reservations[key].beneficiary != Some(who))
        },
        register_spec(s, c, g, Origin::Signed(who), parent, label, salt, now) is Ok ==> !register_spec(
            s,
            c,
            g,
            Origin::Signed(who),
            parent,
            label,
            salt,
            now,
        )->Ok_0.0.reservations.contains_key(spec_name_id(g, parent, label)@),
{
}

/// A transferred name, by its owner or by the administrator, leaves with no
/// controllers: the new owner holds it alone, and every other account is
/// refused when it writes the name's address.
pub proof fn lemma_transfer_drops_controllers(
    s: NamesView,
    c: NamesConfig,
    origin: Origin,
    name: NameId,
    new_owner: AccountId,
    now: BlockNumber,
    other: AccountId,
    address: Option<Seq<u8>>,
    later: BlockNumber,
)
    requires
        other != new_owner,
    ensures
        transfer_spec(s, c, origin, name, new_owner, now) is Ok ==> {
            let t = transfer_spec(s, c, origin, name, new_owner, now)->Ok_0.0;
            &&& !t.controllers.contains_key(name@)
            &&& controllers_of(t, name).len() == 0
            &&& t.names[name@].owner == new_owner
            &&& set_address_spec(t, Origin::Signed(other), name, address, later) is Err
        },
        force_transfer_spec(s, c, origin, name, new_owner) is Ok ==> {
            let t = force_transfer_spec(s, c, origin, name, new_owner)->Ok_0.0;
            &&& !t.controllers.contains_key(name@)
            &&& controllers_of(t, name).len() == 0
            &&& t.names[name@].owner == new_owner
            &&& set_address_spec(t, Origin::Signed(other), name, address, later) is Err
        },
{
}

/// A commitment that is still live (no older than the maximum commitment
/// age) cannot be committed again: the call fails, and once the registry is
/// running with a valid commitment window it fails as existing. A commit that
/// succeeds stores the commitment at `now`, having found it absent or
/// expired.
pub proof fn lemma_commitment_not_renewed_while_live(
    s: NamesView,
    c: NamesConfig,
    who: AccountId,
    commitment: [u8; 32],
    now: BlockNumber,
)
    ensures
        ({
            let k = pair_key(who, commitment@);
            let r = commit_spec(s, c, Origin::Signed(who), commitment, now);
            &&& s.commitments.contains_key(k) && now <= sat_add(s.commitments[k], c.max_commitment_age) ==> r is Err
            &&& s.commitments.contains_key(k) && now <= sat_add(s.commitments[k], c.max_commitment_age) && !s.paused
                && c.min_commitment_age <= c.max_commitment_age ==> r == Err::<
                (NamesView, Seq<crate::names::NamesEventView>),
                NamesError,
            >(NamesError::CommitmentExists)
            &&& r is Ok ==> {
                &&& (!s.commitments.contains_key(k) || now > sat_add(s.commitments[k], c.max_commitment_age))
                &&& r->Ok_0.0.commitments.contains_key(k)
                &&& r->Ok_0.0.commitments[k] == now
            }
        }),
{
}

/// Only a stored, active name of the signer becomes its primary name: a call
/// that names a primary name succeeds only when the name is stored, owned by
/// the signer and not expired at `now`, and then it is the signer's primary
/// name.
pub proof fn lemma_primary_name_owned_and_active(
    s: NamesView,
    who: AccountId,
    name: NameId,
    now: BlockNumber,
)
    ensures
        set_primary_name_spec(s, Origin::Signed(who), Some(name), now) is Ok ==> {
            let t = set_primary_name_spec(s, Origin::Signed(who), Some(name), now)->Ok_0.0;
            &&& s.names.contains_key(name@)
            &&& s.names[name@].owner == who
            &&& now < s.names[name@].expires_at
            &&& t.primary_name.contains_key(acct_key(who))
            &&& t.primary_name[acct_key(who)] == name@
        },
        s.names.contains_key(name@) && now >= s.names[name@].expires_at ==> set_primary_name_spec(
            s,
            Origin::Signed(who),
            Some(name),
            now,
        ) is Err,
{
}

} // verus!
