//! The invariant of the names registry: every stored name is listed, once,
//! under its owner and under its parent (or among the roots) and nowhere
//! else; the parent of every stored name is stored, and a child lies one
//! level below its parent and expires no later than it; a primary name is
//! owned by its account; every stored list stays within its configured
//! bound. The registry starts with it and every successful call keeps it.
use vstd::prelude::*;
use crate::names::{
    acct_key, add_controller_spec, cancel_commitment_spec, children_of, clear_reservation_spec, commit_spec, first_index,
    force_revoke_spec, force_transfer_spec, genesis_state, is_primary, lemma_acct_key_injective, lemma_remove_value_len,
    names_of, prune_expired_commitment_spec, publish_content_spec, register_spec, release_spec, remove_controller_spec,
    remove_expired_name_spec, remove_value, removed_state, renew_spec, reservation_step, reserve_name_spec,
    seq_or_empty, set_address_spec, set_attestation_spec, set_label_protection_spec, set_paused_spec,
    set_primary_name_spec, set_registrar_spec, set_subject_spec, set_text_spec, signer, spec_name_id, transfer_spec,
    transferred_state, valid_genesis, sat_add32, AccountId, BlockNumber, NameId, NamesConfig, NamesView, OperationId, Origin,
};
use crate::table::lemma_id_view_eq;

verus! {

/// The owner index agrees with the records: an account lists exactly the
/// names whose record it owns, each once.
pub open spec fn owner_index(s: NamesView) -> bool {
    &&& forall|o: AccountId, n: NameId|
        #[trigger] names_of(s, o).contains(n) <==> (s.names.contains_key(n@) && s.names[n@].owner == o)
    &&& forall|o: AccountId| #[trigger] names_of(s, o).no_duplicates()
}

/// What swap-removing `x` from a list without repetitions leaves: the other
/// elements, still without repetitions.
proof fn lemma_remove_value_contents<T>(s: Seq<T>, x: T)
    requires
        s.no_duplicates(),
    ensures
        forall|y: T| #[trigger] remove_value(s, x).contains(y) <==> (s.contains(y) && y != x),
        remove_value(s, x).no_duplicates(),
{
    if s.contains(x) {
        lemma_remove_value_len(s, x);
        let i = first_index(s, x);
        let r = remove_value(s, x);
        let last = s.len() - 1;
        assert(r.len() == last);
        assert forall|j: int| 0 <= j < r.len() implies #[trigger] r[j] == (if j == i { s[last] } else { s[j] }) by {}
        assert forall|y: T| #[trigger] r.contains(y) <==> (s.contains(y) && y != x) by {
            if r.contains(y) {
                let j = choose|j: int| 0 <= j < r.len() && r[j] == y;
                if j == i {
                    assert(s[last] == y);
                    assert(last != i);
                } else {
                    assert(s[j] == y);
                }
            }
            if s.contains(y) && y != x {
                let k = choose|k: int| 0 <= k < s.len() && s[k] == y;
                assert(k != i);
                if k == last {
                    assert(r[i] == y);
                } else {
                    assert(r[k] == y);
                }
            }
        }
        assert forall|a: int, b: int| 0 <= a < r.len() && 0 <= b < r.len() && a != b implies r[a] != r[b] by {
            let pa = if a == i { last } else { a };
            let pb = if b == i { last } else { b };
            assert(r[a] == s[pa]);
            assert(r[b] == s[pb]);
        }
    }
}

/// Appending an element that is not listed keeps a list without repetitions.
proof fn lemma_push_contents<T>(s: Seq<T>, x: T)
    requires
        s.no_duplicates(),
        !s.contains(x),
    ensures
        forall|y: T| #[trigger] s.push(x).contains(y) <==> (s.contains(y) || y == x),
        s.push(x).no_duplicates(),
{
    let r = s.push(x);
    assert forall|y: T| #[trigger] r.contains(y) <==> (s.contains(y) || y == x) by {
        if r.contains(y) {
            let j = choose|j: int| 0 <= j < r.len() && r[j] == y;
            if j < s.len() {
                assert(s[j] == y);
            }
        }
        if s.contains(y) {
            let j = choose|j: int| 0 <= j < s.len() && s[j] == y;
            assert(r[j] == y);
        }
        if y == x {
            assert(r[s.len() as int] == y);
        }
    }
    assert forall|a: int, b: int| 0 <= a < r.len() && 0 <= b < r.len() && a != b implies r[a] != r[b] by {
        if a < s.len() && b == s.len() {
            assert(s[a] == r[a]);
        }
        if b < s.len() && a == s.len() {
            assert(s[b] == r[b]);
        }
    }
}

/// The names of `o` in a table that differs from `s.owner_names` at most in
/// the entry of `a`.
proof fn lemma_names_of_insert(s: NamesView, t: NamesView, a: AccountId, v: Seq<NameId>, o: AccountId)
    requires
        t.owner_names == s.owner_names.insert(acct_key(a), v),
    ensures
        names_of(t, o) == if o == a { v } else { names_of(s, o) },
{
    lemma_acct_key_injective(o, a);
}

/// A change that keeps the owner table, the set of stored names and the owner
/// of each keeps the owner index.
proof fn lemma_owner_index_frame(s: NamesView, t: NamesView)
    requires
        owner_index(s),
        t.owner_names == s.owner_names,
        t.names.dom() == s.names.dom(),
        forall|k: Seq<u8>| #[trigger] s.names.contains_key(k) ==> t.names[k].owner == s.names[k].owner,
    ensures
        owner_index(t),
{
    assert forall|o: AccountId, n: NameId|
        #[trigger] names_of(t, o).contains(n) <==> (t.names.contains_key(n@) && t.names[n@].owner == o) by {
        assert(names_of(t, o) == names_of(s, o));
        assert(names_of(s, o).contains(n) <==> (s.names.contains_key(n@) && s.names[n@].owner == o));
        assert(t.names.contains_key(n@) == s.names.contains_key(n@));
    }
    assert forall|o: AccountId| #[trigger] names_of(t, o).no_duplicates() by {
        assert(names_of(t, o) == names_of(s, o));
    }
}

/// Removing a stored name keeps the owner index.
proof fn lemma_removal_keeps_owner_index(s: NamesView, name: NameId)
    requires
        owner_index(s),
        s.names.contains_key(name@),
    ensures
        owner_index(removed_state(s, name, s.names[name@])),
{
    let r = s.names[name@];
    let t = removed_state(s, name, r);
    let v = remove_value(names_of(s, r.owner), name);
    assert(names_of(s, r.owner).no_duplicates());
    lemma_remove_value_contents(names_of(s, r.owner), name);
    assert forall|o: AccountId, n: NameId|
        #[trigger] names_of(t, o).contains(n) <==> (t.names.contains_key(n@) && t.names[n@].owner == o) by {
        lemma_names_of_insert(s, t, r.owner, v, o);
        lemma_id_view_eq(n, name);
        assert(names_of(s, o).contains(n) <==> (s.names.contains_key(n@) && s.names[n@].owner == o));
        if o == r.owner {
            assert(v.contains(n) <==> (names_of(s, r.owner).contains(n) && n != name));
        }
    }
    assert forall|o: AccountId| #[trigger] names_of(t, o).no_duplicates() by {
        lemma_names_of_insert(s, t, r.owner, v, o);
        assert(names_of(s, o).no_duplicates());
    }
}

/// Moving a stored name to another owner keeps the owner index.
proof fn lemma_transfer_keeps_owner_index(s: NamesView, name: NameId, to: AccountId)
    requires
        owner_index(s),
        s.names.contains_key(name@),
        s.names[name@].owner != to,
    ensures
        owner_index(transferred_state(s, name, s.names[name@], to)),
{
    let r = s.names[name@];
    let from = r.owner;
    let t = transferred_state(s, name, r, to);
    let v1 = remove_value(names_of(s, from), name);
    let mid = NamesView { owner_names: s.owner_names.insert(acct_key(from), v1), ..s };
    lemma_names_of_insert(s, mid, from, v1, to);
    let v2 = names_of(s, to).push(name);
    assert(names_of(s, from).no_duplicates());
    assert(names_of(s, to).no_duplicates());
    lemma_remove_value_contents(names_of(s, from), name);
    assert(!names_of(s, to).contains(name));
    lemma_push_contents(names_of(s, to), name);
    assert forall|o: AccountId, n: NameId|
        #[trigger] names_of(t, o).contains(n) <==> (t.names.contains_key(n@) && t.names[n@].owner == o) by {
        lemma_names_of_insert(mid, t, to, v2, o);
        lemma_names_of_insert(s, mid, from, v1, o);
        lemma_id_view_eq(n, name);
        assert(names_of(s, o).contains(n) <==> (s.names.contains_key(n@) && s.names[n@].owner == o));
        if o == from {
            assert(v1.contains(n) <==> (names_of(s, from).contains(n) && n != name));
        }
        if o == to {
            assert(v2.contains(n) <==> (names_of(s, to).contains(n) || n == name));
        }
    }
    assert forall|o: AccountId| #[trigger] names_of(t, o).no_duplicates() by {
        lemma_names_of_insert(mid, t, to, v2, o);
        lemma_names_of_insert(s, mid, from, v1, o);
        assert(names_of(s, o).no_duplicates());
    }
}

/// The child index agrees with the records: a name lists exactly the stored
/// names whose parent it is, the root list exactly the stored names without
/// parent, each once.
pub open spec fn children_index(s: NamesView) -> bool {
    &&& forall|p: NameId, n: NameId|
        #[trigger] children_of(s, p).contains(n) <==> (s.names.contains_key(n@) && s.names[n@].parent == Some(p))
    &&& forall|p: NameId| #[trigger] children_of(s, p).no_duplicates()
    &&& forall|n: NameId| #[trigger] s.root_names.contains(n) <==> (s.names.contains_key(n@) && s.names[n@].parent is None)
    &&& s.root_names.no_duplicates()
}

/// No orphans: the parent of every stored name is stored.
pub open spec fn parents_stored(s: NamesView) -> bool {
    forall|n: NameId|
        #[trigger] s.names.contains_key(n@) && s.names[n@].parent is Some ==> s.names.contains_key(s.names[n@].parent->0@)
}

/// The primary name of an account is a stored name that it owns.
pub open spec fn primaries_owned(s: NamesView) -> bool {
    forall|o: AccountId|
        #[trigger] s.primary_name.contains_key(acct_key(o)) ==> s.names.contains_key(s.primary_name[acct_key(o)])
            && s.names[s.primary_name[acct_key(o)]].owner == o
}

/// A child lies one level below its parent and expires no later than it; a
/// root lies at level 0.
pub open spec fn nesting(s: NamesView) -> bool {
    forall|n: NameId|
        #[trigger] s.names.contains_key(n@) ==> match s.names[n@].parent {
            Some(p) => s.names.contains_key(p@) ==> {
                &&& s.names[n@].expires_at <= s.names[p@].expires_at
                &&& s.names[n@].depth == sat_add32(s.names[p@].depth, 1)
            },
            None => s.names[n@].depth == 0,
        }
}

/// The indexes of the registry agree with its records, no name is an
/// orphan, every primary name is owned by its account, and names nest.
pub open spec fn consistent(s: NamesView) -> bool {
    &&& owner_index(s)
    &&& children_index(s)
    &&& parents_stored(s)
    &&& primaries_owned(s)
    &&& nesting(s)
}

/// A change that keeps the set of stored names and the parent, expiry and
/// depth of each keeps the nesting.
proof fn lemma_nesting_frame(s: NamesView, t: NamesView)
    requires
        nesting(s),
        t.names.dom() == s.names.dom(),
        forall|k: Seq<u8>|
            #[trigger] s.names.contains_key(k) ==> t.names[k].parent == s.names[k].parent && t.names[k].expires_at
                == s.names[k].expires_at && t.names[k].depth == s.names[k].depth,
    ensures
        nesting(t),
{
    assert forall|n: NameId| #[trigger] t.names.contains_key(n@) implies match t.names[n@].parent {
        Some(p) => t.names.contains_key(p@) ==> {
            &&& t.names[n@].expires_at <= t.names[p@].expires_at
            &&& t.names[n@].depth == sat_add32(t.names[p@].depth, 1)
        },
        None => t.names[n@].depth == 0,
    } by {
        assert(s.names.contains_key(n@));
        if let Some(p) = s.names[n@].parent {
            if t.names.contains_key(p@) {
                assert(s.names.contains_key(p@));
            }
        }
    }
}

/// The children of `p` in a table that differs from `s.children` at most in
/// the entry of `q`.
proof fn lemma_children_of_insert(s: NamesView, t: NamesView, q: NameId, v: Seq<NameId>, p: NameId)
    requires
        t.children == s.children.insert(q@, v),
    ensures
        children_of(t, p) == if p == q { v } else { children_of(s, p) },
{
    lemma_id_view_eq(p, q);
}

/// A change that keeps the child and root lists, the set of stored names and
/// the parent of each keeps the hierarchy.
proof fn lemma_hierarchy_frame(s: NamesView, t: NamesView)
    requires
        children_index(s),
        parents_stored(s),
        t.children == s.children,
        t.root_names == s.root_names,
        t.names.dom() == s.names.dom(),
        forall|k: Seq<u8>| #[trigger] s.names.contains_key(k) ==> t.names[k].parent == s.names[k].parent,
    ensures
        children_index(t),
        parents_stored(t),
{
    assert forall|p: NameId, n: NameId|
        #[trigger] children_of(t, p).contains(n) <==> (t.names.contains_key(n@) && t.names[n@].parent == Some(p)) by {
        assert(children_of(t, p) == children_of(s, p));
        assert(children_of(s, p).contains(n) <==> (s.names.contains_key(n@) && s.names[n@].parent == Some(p)));
        assert(t.names.contains_key(n@) == s.names.contains_key(n@));
    }
    assert forall|p: NameId| #[trigger] children_of(t, p).no_duplicates() by {
        assert(children_of(t, p) == children_of(s, p));
    }
    assert forall|n: NameId| #[trigger] t.root_names.contains(n) <==> (t.names.contains_key(n@) && t.names[n@].parent is None) by {
        assert(s.root_names.contains(n) <==> (s.names.contains_key(n@) && s.names[n@].parent is None));
        assert(t.names.contains_key(n@) == s.names.contains_key(n@));
    }
    assert forall|n: NameId| #[trigger] t.names.contains_key(n@) && t.names[n@].parent is Some implies t.names.contains_key(
        t.names[n@].parent->0@,
    ) by {
        assert(s.names.contains_key(n@));
        assert(s.names.contains_key(s.names[n@].parent->0@));
    }
}

/// A change that keeps the owner table, the primary names, the child and root
/// lists, the set of stored names and the owner, parent, expiry and depth of
/// each keeps the registry consistent.
proof fn lemma_consistent_frame(s: NamesView, t: NamesView)
    requires
        consistent(s),
        t.owner_names == s.owner_names,
        t.primary_name == s.primary_name,
        t.children == s.children,
        t.root_names == s.root_names,
        t.names.dom() == s.names.dom(),
        forall|k: Seq<u8>|
            #[trigger] s.names.contains_key(k) ==> t.names[k].owner == s.names[k].owner && t.names[k].parent
                == s.names[k].parent && t.names[k].expires_at == s.names[k].expires_at && t.names[k].depth
                == s.names[k].depth,
    ensures
        consistent(t),
{
    lemma_owner_index_frame(s, t);
    lemma_hierarchy_frame(s, t);
    lemma_nesting_frame(s, t);
    assert forall|o: AccountId| #[trigger] t.primary_name.contains_key(acct_key(o)) implies t.names.contains_key(
        t.primary_name[acct_key(o)],
    ) && t.names[t.primary_name[acct_key(o)]].owner == o by {
        assert(s.primary_name.contains_key(acct_key(o)));
    }
}

/// Removing a stored name, or moving it to another owner, keeps every other
/// account's primary name and drops the former owner's when it was this name.
proof fn lemma_primaries_after_change(s: NamesView, t: NamesView, name: NameId)
    requires
        primaries_owned(s),
        s.names.contains_key(name@),
        t.primary_name == (if is_primary(s, s.names[name@].owner, name) {
            s.primary_name.remove(acct_key(s.names[name@].owner))
        } else {
            s.primary_name
        }),
        forall|k: Seq<u8>| #[trigger] s.names.contains_key(k) && k != name@ ==> t.names.contains_key(k) && t.names[k] == s.names[k],
    ensures
        primaries_owned(t),
{
    let from = s.names[name@].owner;
    assert forall|o: AccountId| #[trigger] t.primary_name.contains_key(acct_key(o)) implies t.names.contains_key(
        t.primary_name[acct_key(o)],
    ) && t.names[t.primary_name[acct_key(o)]].owner == o by {
        lemma_acct_key_injective(o, from);
        assert(s.primary_name.contains_key(acct_key(o)));
        let k = s.primary_name[acct_key(o)];
        assert(s.names.contains_key(k) && s.names[k].owner == o);
        assert(k != name@);
    }
}

/// Removing a stored name without children keeps the hierarchy.
proof fn lemma_removal_keeps_hierarchy(s: NamesView, name: NameId)
    requires
        children_index(s),
        parents_stored(s),
        s.names.contains_key(name@),
        children_of(s, name).len() == 0,
    ensures
        children_index(removed_state(s, name, s.names[name@])),
        parents_stored(removed_state(s, name, s.names[name@])),
{
    let r = s.names[name@];
    let t = removed_state(s, name, r);
    assert(!children_of(s, name).contains(name));
    assert forall|n: NameId| s.names.contains_key(n@) && s.names[n@].parent == Some(name) implies false by {
        assert(children_of(s, name).contains(n));
    }
    match r.parent {
        Some(q) => {
            let v = remove_value(children_of(s, q), name);
            let mid = NamesView { children: s.children.insert(q@, v), ..s };
            assert(children_of(s, q).no_duplicates());
            lemma_remove_value_contents(children_of(s, q), name);
            assert(q != name);
            assert forall|p: NameId, n: NameId|
                #[trigger] children_of(t, p).contains(n) <==> (t.names.contains_key(n@) && t.names[n@].parent == Some(p)) by {
                lemma_id_view_eq(n, name);
                lemma_id_view_eq(p, name);
                lemma_children_of_insert(s, mid, q, v, p);
                assert(children_of(s, p).contains(n) <==> (s.names.contains_key(n@) && s.names[n@].parent == Some(p)));
                if p == q {
                    assert(v.contains(n) <==> (children_of(s, q).contains(n) && n != name));
                }
                if p == name {
                    assert(children_of(t, p) == Seq::<NameId>::empty());
                }
            }
            assert forall|p: NameId| #[trigger] children_of(t, p).no_duplicates() by {
                lemma_id_view_eq(p, name);
                lemma_children_of_insert(s, mid, q, v, p);
                assert(children_of(s, p).no_duplicates());
            }
            assert forall|n: NameId| #[trigger] t.root_names.contains(n) <==> (t.names.contains_key(n@) && t.names[n@].parent is None) by {
                lemma_id_view_eq(n, name);
                assert(s.root_names.contains(n) <==> (s.names.contains_key(n@) && s.names[n@].parent is None));
            }
        },
        None => {
            lemma_remove_value_contents(s.root_names, name);
            assert forall|p: NameId, n: NameId|
                #[trigger] children_of(t, p).contains(n) <==> (t.names.contains_key(n@) && t.names[n@].parent == Some(p)) by {
                lemma_id_view_eq(n, name);
                lemma_id_view_eq(p, name);
                assert(children_of(s, p).contains(n) <==> (s.names.contains_key(n@) && s.names[n@].parent == Some(p)));
                if p == name {
                    assert(children_of(t, p) == Seq::<NameId>::empty());
                }
            }
            assert forall|p: NameId| #[trigger] children_of(t, p).no_duplicates() by {
                lemma_id_view_eq(p, name);
                assert(children_of(s, p).no_duplicates());
            }
            assert forall|n: NameId| #[trigger] t.root_names.contains(n) <==> (t.names.contains_key(n@) && t.names[n@].parent is None) by {
                lemma_id_view_eq(n, name);
                assert(s.root_names.contains(n) <==> (s.names.contains_key(n@) && s.names[n@].parent is None));
            }
        },
    }
    assert forall|n: NameId| #[trigger] t.names.contains_key(n@) && t.names[n@].parent is Some implies t.names.contains_key(
        t.names[n@].parent->0@,
    ) by {
        lemma_id_view_eq(n, name);
        let q = s.names[n@].parent->0;
        assert(s.names.contains_key(q@));
        lemma_id_view_eq(q, name);
    }
}

/// Removing a stored name without children keeps the registry consistent.
proof fn lemma_removal_keeps_consistency(s: NamesView, name: NameId)
    requires
        consistent(s),
        s.names.contains_key(name@),
        children_of(s, name).len() == 0,
    ensures
        consistent(removed_state(s, name, s.names[name@])),
{
    lemma_removal_keeps_owner_index(s, name);
    lemma_removal_keeps_hierarchy(s, name);
    let t = removed_state(s, name, s.names[name@]);
    lemma_primaries_after_change(s, t, name);
    assert forall|n: NameId| #[trigger] t.names.contains_key(n@) implies match t.names[n@].parent {
        Some(p) => t.names.contains_key(p@) ==> {
            &&& t.names[n@].expires_at <= t.names[p@].expires_at
            &&& t.names[n@].depth == sat_add32(t.names[p@].depth, 1)
        },
        None => t.names[n@].depth == 0,
    } by {
        assert(s.names.contains_key(n@));
    }
}

/// Storing a new name under its owner keeps the owner index.
proof fn lemma_insert_keeps_owner_index(s: NamesView, t: NamesView, name: NameId, owner: AccountId)
    requires
        owner_index(s),
        !s.names.contains_key(name@),
        t.names.dom() == s.names.dom().insert(name@),
        t.names[name@].owner == owner,
        forall|k: Seq<u8>| #[trigger] s.names.contains_key(k) && k != name@ ==> t.names[k] == s.names[k],
        t.owner_names == s.owner_names.insert(acct_key(owner), names_of(s, owner).push(name)),
    ensures
        owner_index(t),
{
    let v = names_of(s, owner).push(name);
    assert(names_of(s, owner).no_duplicates());
    assert(!names_of(s, owner).contains(name));
    lemma_push_contents(names_of(s, owner), name);
    assert forall|o: AccountId, n: NameId|
        #[trigger] names_of(t, o).contains(n) <==> (t.names.contains_key(n@) && t.names[n@].owner == o) by {
        lemma_names_of_insert(s, t, owner, v, o);
        lemma_id_view_eq(n, name);
        assert(names_of(s, o).contains(n) <==> (s.names.contains_key(n@) && s.names[n@].owner == o));
        assert(t.names.contains_key(n@) == (s.names.contains_key(n@) || n@ == name@));
        if o == owner {
            assert(v.contains(n) <==> (names_of(s, owner).contains(n) || n == name));
        }
    }
    assert forall|o: AccountId| #[trigger] names_of(t, o).no_duplicates() by {
        lemma_names_of_insert(s, t, owner, v, o);
        assert(names_of(s, o).no_duplicates());
    }
}

/// Storing a new name under its stored parent, or among the roots, keeps the
/// hierarchy.
proof fn lemma_insert_keeps_hierarchy(s: NamesView, t: NamesView, name: NameId)
    requires
        children_index(s),
        parents_stored(s),
        !s.names.contains_key(name@),
        t.names.dom() == s.names.dom().insert(name@),
        forall|k: Seq<u8>| #[trigger] s.names.contains_key(k) && k != name@ ==> t.names[k] == s.names[k],
        match t.names[name@].parent {
            Some(p) => {
                &&& s.names.contains_key(p@)
                &&& t.children == s.children.insert(p@, children_of(s, p).push(name))
                &&& t.root_names == s.root_names
            },
            None => t.children == s.children && t.root_names == s.root_names.push(name),
        },
    ensures
        children_index(t),
        parents_stored(t),
{
    assert forall|p: NameId| !children_of(s, p).contains(name) by {
        assert(children_of(s, p).contains(name) <==> (s.names.contains_key(name@) && s.names[name@].parent == Some(p)));
    }
    assert(!s.root_names.contains(name));
    match t.names[name@].parent {
        Some(q) => {
            let v = children_of(s, q).push(name);
            assert(children_of(s, q).no_duplicates());
            lemma_push_contents(children_of(s, q), name);
            assert forall|p: NameId, n: NameId|
                #[trigger] children_of(t, p).contains(n) <==> (t.names.contains_key(n@) && t.names[n@].parent == Some(p)) by {
                lemma_id_view_eq(n, name);
                lemma_children_of_insert(s, t, q, v, p);
                assert(children_of(s, p).contains(n) <==> (s.names.contains_key(n@) && s.names[n@].parent == Some(p)));
                assert(t.names.contains_key(n@) == (s.names.contains_key(n@) || n@ == name@));
                if p == q {
                    assert(v.contains(n) <==> (children_of(s, q).contains(n) || n == name));
                }
            }
            assert forall|p: NameId| #[trigger] children_of(t, p).no_duplicates() by {
                lemma_children_of_insert(s, t, q, v, p);
                assert(children_of(s, p).no_duplicates());
            }
            assert forall|n: NameId| #[trigger] t.root_names.contains(n) <==> (t.names.contains_key(n@) && t.names[n@].parent is None) by {
                lemma_id_view_eq(n, name);
                assert(s.root_names.contains(n) <==> (s.names.contains_key(n@) && s.names[n@].parent is None));
            }
        },
        None => {
            lemma_push_contents(s.root_names, name);
            assert forall|p: NameId, n: NameId|
                #[trigger] children_of(t, p).contains(n) <==> (t.names.contains_key(n@) && t.names[n@].parent == Some(p)) by {
                lemma_id_view_eq(n, name);
                assert(children_of(t, p) == children_of(s, p));
                assert(children_of(s, p).contains(n) <==> (s.names.contains_key(n@) && s.names[n@].parent == Some(p)));
            }
            assert forall|p: NameId| #[trigger] children_of(t, p).no_duplicates() by {
                assert(children_of(t, p) == children_of(s, p));
                assert(children_of(s, p).no_duplicates());
            }
            assert forall|n: NameId| #[trigger] t.root_names.contains(n) <==> (t.names.contains_key(n@) && t.names[n@].parent is None) by {
                lemma_id_view_eq(n, name);
                assert(s.root_names.contains(n) <==> (s.names.contains_key(n@) && s.names[n@].parent is None));
                assert(t.root_names.contains(n) <==> (s.root_names.contains(n) || n == name));
            }
        },
    }
    assert forall|n: NameId| #[trigger] t.names.contains_key(n@) && t.names[n@].parent is Some implies t.names.contains_key(
        t.names[n@].parent->0@,
    ) by {
        lemma_id_view_eq(n, name);
        if n != name {
            assert(s.names.contains_key(s.names[n@].parent->0@));
        }
    }
}

/// Every stored list, and the commitment count of every account, is within
/// the bound the configuration sets for it.
pub open spec fn within_bounds(s: NamesView, c: NamesConfig) -> bool {
    &&& forall|k: Seq<u8>| #[trigger] s.owner_names.contains_key(k) ==> s.owner_names[k].len() <= c.max_names_per_owner
    &&& forall|k: Seq<u8>| #[trigger] s.children.contains_key(k) ==> s.children[k].len() <= c.max_children_per_name
    &&& s.root_names.len() <= c.max_root_names
    &&& forall|k: Seq<u8>| #[trigger] s.controllers.contains_key(k) ==> s.controllers[k].len() <= c.max_controllers
    &&& s.registrars.len() <= c.max_registrars
    &&& forall|k: Seq<u8>| #[trigger] s.text_keys.contains_key(k) ==> s.text_keys[k].len() <= c.max_text_records
    &&& forall|k: Seq<u8>|
        #[trigger] s.receipt_ids.contains_key(k) ==> s.receipt_ids[k].len() <= c.max_content_operation_receipts
    &&& forall|k: Seq<u8>|
        #[trigger] s.commitment_count.contains_key(k) ==> s.commitment_count[k] <= c.max_commitments_per_account
}

/// The registry is consistent and within its bounds.
pub open spec fn registry_invariant(s: NamesView, c: NamesConfig) -> bool {
    consistent(s) && within_bounds(s, c)
}

/// Swap-removing never lengthens a list.
proof fn lemma_remove_value_shorter<T>(s: Seq<T>, x: T)
    ensures
        remove_value(s, x).len() <= s.len(),
{
    lemma_remove_value_len(s, x);
}

/// Removing a stored name keeps every list within its bound.
proof fn lemma_removal_keeps_bounds(s: NamesView, c: NamesConfig, name: NameId)
    requires
        within_bounds(s, c),
        s.names.contains_key(name@),
    ensures
        within_bounds(removed_state(s, name, s.names[name@]), c),
{
    let r = s.names[name@];
    let t = removed_state(s, name, r);
    lemma_remove_value_shorter(names_of(s, r.owner), name);
    lemma_remove_value_shorter(s.root_names, name);
    if let Some(q) = r.parent {
        lemma_remove_value_shorter(children_of(s, q), name);
    }
    assert forall|k: Seq<u8>| #[trigger] t.owner_names.contains_key(k) implies t.owner_names[k].len()
        <= c.max_names_per_owner by {
        if k != acct_key(r.owner) {
            assert(s.owner_names.contains_key(k));
        }
    }
    assert forall|k: Seq<u8>| #[trigger] t.children.contains_key(k) implies t.children[k].len()
        <= c.max_children_per_name by {
        if r.parent is None || k != r.parent->0@ {
            assert(s.children.contains_key(k));
        }
    }
    assert forall|k: Seq<u8>| #[trigger] t.controllers.contains_key(k) implies t.controllers[k].len()
        <= c.max_controllers by {
        assert(s.controllers.contains_key(k));
    }
    assert forall|k: Seq<u8>| #[trigger] t.text_keys.contains_key(k) implies t.text_keys[k].len()
        <= c.max_text_records by {
        assert(s.text_keys.contains_key(k));
    }
}

/// The registry starts consistent and within its bounds: it holds no names
/// and admits no more registrars than the configuration allows.
pub proof fn lemma_genesis_invariant(c: NamesConfig, registrars: Seq<AccountId>, rr: Seq<(Vec<u8>, Option<AccountId>)>)
    requires
        valid_genesis(c, registrars, rr),
    ensures
        registry_invariant(genesis_state(registrars, rr), c),
{
}

/// The name indexes agree with the records: the owner index and the child
/// index list every stored name exactly once, in its owner's list and in its
/// parent's list (or among the roots), and list nothing else; and every
/// parent is stored.
pub open spec fn indexes(s: NamesView) -> bool {
    &&& owner_index(s)
    &&& children_index(s)
    &&& parents_stored(s)
}

/// A registration keeps the name indexes, whatever else holds of the state:
/// the new name is listed once under its owner and once under its parent (or
/// among the roots), and an expired name it replaces is first removed from
/// every index.
pub proof fn lemma_register_keeps_indexes(
    s: NamesView,
    c: NamesConfig,
    g: [u8; 32],
    origin: Origin,
    parent: Option<NameId>,
    label: Seq<u8>,
    salt: Seq<u8>,
    now: BlockNumber,
)
    requires
        indexes(s),
    ensures
        register_spec(s, c, g, origin, parent, label, salt, now) is Ok
            ==> indexes(register_spec(s, c, g, origin, parent, label, salt, now)->Ok_0.0),
{
    if register_spec(s, c, g, origin, parent, label, salt, now) is Ok {
        let owner = signer(origin)->0;
        let nid = spec_name_id(g, parent, label);
        let replacing = s.names.contains_key(nid@);
        let s1 = reservation_step(s, nid@, owner, now)->Ok_0;
        lemma_owner_index_frame(s, s1);
        lemma_hierarchy_frame(s, s1);
        let s2 = if replacing { removed_state(s1, nid, s.names[nid@]) } else { s1 };
        if replacing {
            lemma_removal_keeps_owner_index(s1, nid);
            lemma_removal_keeps_hierarchy(s1, nid);
        }
        if let Some(p) = parent {
            lemma_id_view_eq(p, nid);
            assert(s2.names.contains_key(p@));
        }
        let t = register_spec(s, c, g, origin, parent, label, salt, now)->Ok_0.0;
        assert(t.names.dom() =~= s2.names.dom().insert(nid@));
        lemma_insert_keeps_owner_index(s2, t, nid, owner);
        lemma_insert_keeps_hierarchy(s2, t, nid);
    }
}

/// A registration keeps the registry consistent and within its bounds: the
/// new name is listed under its owner and under its parent (or among the
/// roots), and an expired name it replaces leaves every list.
pub proof fn lemma_register_keeps_invariant(
    s: NamesView,
    c: NamesConfig,
    g: [u8; 32],
    origin: Origin,
    parent: Option<NameId>,
    label: Seq<u8>,
    salt: Seq<u8>,
    now: BlockNumber,
)
    requires
        registry_invariant(s, c),
    ensures
        register_spec(s, c, g, origin, parent, label, salt, now) is Ok
            ==> registry_invariant(register_spec(s, c, g, origin, parent, label, salt, now)->Ok_0.0, c),
{
    if register_spec(s, c, g, origin, parent, label, salt, now) is Ok {
        let owner = signer(origin)->0;
        let nid = spec_name_id(g, parent, label);
        let replacing = s.names.contains_key(nid@);
        let s1 = reservation_step(s, nid@, owner, now)->Ok_0;
        lemma_consistent_frame(s, s1);
        let s2 = if replacing { removed_state(s1, nid, s.names[nid@]) } else { s1 };
        if replacing {
            lemma_removal_keeps_consistency(s1, nid);
            lemma_removal_keeps_bounds(s1, c, nid);
        }
        if let Some(p) = parent {
            lemma_id_view_eq(p, nid);
            assert(s2.names.contains_key(p@));
        }
        let t = register_spec(s, c, g, origin, parent, label, salt, now)->Ok_0.0;
        assert(t.names.dom() =~= s2.names.dom().insert(nid@));
        lemma_insert_keeps_owner_index(s2, t, nid, owner);
        lemma_insert_keeps_hierarchy(s2, t, nid);
        assert forall|o: AccountId| #[trigger] t.primary_name.contains_key(acct_key(o)) implies t.names.contains_key(
            t.primary_name[acct_key(o)],
        ) && t.names[t.primary_name[acct_key(o)]].owner == o by {
            assert(s2.primary_name.contains_key(acct_key(o)));
        }
        assert forall|k: Seq<u8>| #[trigger] t.owner_names.contains_key(k) implies t.owner_names[k].len()
            <= c.max_names_per_owner by {
            if k != acct_key(owner) {
                assert(s2.owner_names.contains_key(k));
            }
        }
        assert forall|k: Seq<u8>| #[trigger] t.children.contains_key(k) implies t.children[k].len()
            <= c.max_children_per_name by {
            if parent is None || k != parent->0@ {
                assert(s2.children.contains_key(k));
            }
        }
        assert forall|k: Seq<u8>| #[trigger] t.commitment_count.contains_key(k) implies t.commitment_count[k]
            <= c.max_commitments_per_account by {
            if k != acct_key(owner) {
                assert(s2.commitment_count.contains_key(k));
            }
        }
    }
}

/// Releasing, removing an expired name and revoking keep the registry
/// consistent and within its bounds.
pub proof fn lemma_removals_keep_invariant(s: NamesView, c: NamesConfig, origin: Origin, name: NameId, now: BlockNumber)
    requires
        registry_invariant(s, c),
    ensures
        release_spec(s, origin, name) is Ok ==> registry_invariant(release_spec(s, origin, name)->Ok_0.0, c),
        remove_expired_name_spec(s, origin, name, now) is Ok
            ==> registry_invariant(remove_expired_name_spec(s, origin, name, now)->Ok_0.0, c),
        force_revoke_spec(s, origin, name) is Ok ==> registry_invariant(force_revoke_spec(s, origin, name)->Ok_0.0, c),
{
    if s.names.contains_key(name@) && children_of(s, name).len() == 0 {
        lemma_removal_keeps_consistency(s, name);
        lemma_removal_keeps_bounds(s, c, name);
    }
}

/// Transfers, by the owner or by the administrator, keep the registry
/// consistent and within its bounds.
pub proof fn lemma_transfers_keep_invariant(
    s: NamesView,
    c: NamesConfig,
    origin: Origin,
    name: NameId,
    new_owner: AccountId,
    now: BlockNumber,
)
    requires
        registry_invariant(s, c),
    ensures
        transfer_spec(s, c, origin, name, new_owner, now) is Ok
            ==> registry_invariant(transfer_spec(s, c, origin, name, new_owner, now)->Ok_0.0, c),
        force_transfer_spec(s, c, origin, name, new_owner) is Ok
            ==> registry_invariant(force_transfer_spec(s, c, origin, name, new_owner)->Ok_0.0, c),
{
    if s.names.contains_key(name@) && s.names[name@].owner != new_owner && names_of(s, new_owner).len()
        < c.max_names_per_owner {
        let from = s.names[name@].owner;
        lemma_transfer_keeps_owner_index(s, name, new_owner);
        let t = transferred_state(s, name, s.names[name@], new_owner);
        assert(t.names.dom() =~= s.names.dom());
        lemma_hierarchy_frame(s, t);
        lemma_nesting_frame(s, t);
        lemma_primaries_after_change(s, t, name);
        lemma_remove_value_shorter(names_of(s, from), name);
        let mid = NamesView { owner_names: s.owner_names.insert(acct_key(from), remove_value(names_of(s, from), name)), ..s };
        lemma_names_of_insert(s, mid, from, remove_value(names_of(s, from), name), new_owner);
        assert forall|k: Seq<u8>| #[trigger] t.owner_names.contains_key(k) implies t.owner_names[k].len()
            <= c.max_names_per_owner by {
            if k != acct_key(from) && k != acct_key(new_owner) {
                assert(s.owner_names.contains_key(k));
            }
        }
        assert forall|k: Seq<u8>| #[trigger] t.controllers.contains_key(k) implies t.controllers[k].len()
            <= c.max_controllers by {
            assert(s.controllers.contains_key(k));
        }
    }
}

/// The commitment calls keep the registry consistent and within its bounds.
pub proof fn lemma_commitment_calls_keep_invariant(
    s: NamesView,
    c: NamesConfig,
    origin: Origin,
    owner: AccountId,
    commitment: [u8; 32],
    now: BlockNumber,
)
    requires
        registry_invariant(s, c),
    ensures
        commit_spec(s, c, origin, commitment, now) is Ok
            ==> registry_invariant(commit_spec(s, c, origin, commitment, now)->Ok_0.0, c),
        cancel_commitment_spec(s, origin, commitment) is Ok
            ==> registry_invariant(cancel_commitment_spec(s, origin, commitment)->Ok_0.0, c),
        prune_expired_commitment_spec(s, c, origin, owner, commitment, now) is Ok
            ==> registry_invariant(prune_expired_commitment_spec(s, c, origin, owner, commitment, now)->Ok_0.0, c),
{
    if commit_spec(s, c, origin, commitment, now) is Ok {
        let t = commit_spec(s, c, origin, commitment, now)->Ok_0.0;
        lemma_consistent_frame(s, t);
        assert forall|k: Seq<u8>| #[trigger] t.commitment_count.contains_key(k) implies t.commitment_count[k]
            <= c.max_commitments_per_account by {
            if k != acct_key(signer(origin)->0) {
                assert(s.commitment_count.contains_key(k));
            }
        }
    }
    if cancel_commitment_spec(s, origin, commitment) is Ok {
        let t = cancel_commitment_spec(s, origin, commitment)->Ok_0.0;
        lemma_consistent_frame(s, t);
        assert forall|k: Seq<u8>| #[trigger] t.commitment_count.contains_key(k) implies t.commitment_count[k]
            <= c.max_commitments_per_account by {
            if k != acct_key(signer(origin)->0) {
                assert(s.commitment_count.contains_key(k));
            }
        }
    }
    if prune_expired_commitment_spec(s, c, origin, owner, commitment, now) is Ok {
        let t = prune_expired_commitment_spec(s, c, origin, owner, commitment, now)->Ok_0.0;
        lemma_consistent_frame(s, t);
        assert forall|k: Seq<u8>| #[trigger] t.commitment_count.contains_key(k) implies t.commitment_count[k]
            <= c.max_commitments_per_account by {
            if k != acct_key(owner) {
                assert(s.commitment_count.contains_key(k));
            }
        }
    }
}

/// The administrative calls keep the registry consistent and within its
/// bounds: pausing, registrars, label protection and reservations.
pub proof fn lemma_admin_calls_keep_invariant(
    s: NamesView,
    c: NamesConfig,
    g: [u8; 32],
    origin: Origin,
    paused: bool,
    registrar: AccountId,
    enabled: bool,
    name: NameId,
    label: Seq<u8>,
    protected: bool,
    parent: Option<NameId>,
    beneficiary: Option<AccountId>,
    expires_at: Option<BlockNumber>,
    now: BlockNumber,
)
    requires
        registry_invariant(s, c),
    ensures
        set_paused_spec(s, origin, paused) is Ok ==> registry_invariant(set_paused_spec(s, origin, paused)->Ok_0.0, c),
        set_registrar_spec(s, c, origin, registrar, enabled) is Ok
            ==> registry_invariant(set_registrar_spec(s, c, origin, registrar, enabled)->Ok_0.0, c),
        clear_reservation_spec(s, origin, name) is Ok
            ==> registry_invariant(clear_reservation_spec(s, origin, name)->Ok_0.0, c),
        set_label_protection_spec(s, origin, label, protected) is Ok
            ==> registry_invariant(set_label_protection_spec(s, origin, label, protected)->Ok_0.0, c),
        reserve_name_spec(s, g, origin, parent, label, beneficiary, expires_at, now) is Ok
            ==> registry_invariant(reserve_name_spec(s, g, origin, parent, label, beneficiary, expires_at, now)->Ok_0.0, c),
{
    if set_paused_spec(s, origin, paused) is Ok {
        lemma_consistent_frame(s, set_paused_spec(s, origin, paused)->Ok_0.0);
    }
    if set_registrar_spec(s, c, origin, registrar, enabled) is Ok {
        lemma_consistent_frame(s, set_registrar_spec(s, c, origin, registrar, enabled)->Ok_0.0);
        lemma_remove_value_shorter(s.registrars, registrar);
    }
    if clear_reservation_spec(s, origin, name) is Ok {
        lemma_consistent_frame(s, clear_reservation_spec(s, origin, name)->Ok_0.0);
    }
    if set_label_protection_spec(s, origin, label, protected) is Ok {
        lemma_consistent_frame(s, set_label_protection_spec(s, origin, label, protected)->Ok_0.0);
    }
    if reserve_name_spec(s, g, origin, parent, label, beneficiary, expires_at, now) is Ok {
        lemma_consistent_frame(s, reserve_name_spec(s, g, origin, parent, label, beneficiary, expires_at, now)->Ok_0.0);
    }
}

/// The calls on a name's records keep the registry consistent and within its
/// bounds: controllers, address, subject, attestation, primary name, renewal,
/// text records and content.
pub proof fn lemma_record_calls_keep_invariant(
    s: NamesView,
    c: NamesConfig,
    origin: Origin,
    name: NameId,
    controller: AccountId,
    address: Option<Seq<u8>>,
    subject: Option<[u8; 32]>,
    subject_known: bool,
    attestation: Option<[u8; 32]>,
    attestation_live: bool,
    primary: Option<NameId>,
    additional: BlockNumber,
    key: Seq<u8>,
    value: Option<Seq<u8>>,
    content: Option<[u8; 32]>,
    expected: Option<u64>,
    op: OperationId,
    content_valid: bool,
    now: BlockNumber,
)
    requires
        registry_invariant(s, c),
    ensures
        add_controller_spec(s, c, origin, name, controller, now) is Ok
            ==> registry_invariant(add_controller_spec(s, c, origin, name, controller, now)->Ok_0.0, c),
        remove_controller_spec(s, origin, name, controller, now) is Ok
            ==> registry_invariant(remove_controller_spec(s, origin, name, controller, now)->Ok_0.0, c),
        set_address_spec(s, origin, name, address, now) is Ok
            ==> registry_invariant(set_address_spec(s, origin, name, address, now)->Ok_0.0, c),
        set_subject_spec(s, origin, name, subject, subject_known, now) is Ok
            ==> registry_invariant(set_subject_spec(s, origin, name, subject, subject_known, now)->Ok_0.0, c),
        set_attestation_spec(s, origin, name, attestation, attestation_live, now) is Ok
            ==> registry_invariant(set_attestation_spec(s, origin, name, attestation, attestation_live, now)->Ok_0.0, c),
        set_primary_name_spec(s, origin, primary, now) is Ok
            ==> registry_invariant(set_primary_name_spec(s, origin, primary, now)->Ok_0.0, c),
        renew_spec(s, c, origin, name, additional, now) is Ok
            ==> registry_invariant(renew_spec(s, c, origin, name, additional, now)->Ok_0.0, c),
        set_text_spec(s, c, origin, name, key, value, now) is Ok
            ==> registry_invariant(set_text_spec(s, c, origin, name, key, value, now)->Ok_0.0, c),
        publish_content_spec(s, c, origin, name, content, expected, op, content_valid, now) is Ok
            ==> registry_invariant(
            publish_content_spec(s, c, origin, name, content, expected, op, content_valid, now)->Ok_0.0,
            c,
        ),
{
    let dom = s.names.dom();
    if add_controller_spec(s, c, origin, name, controller, now) is Ok {
        let t = add_controller_spec(s, c, origin, name, controller, now)->Ok_0.0;
        lemma_consistent_frame(s, t);
        assert forall|k: Seq<u8>| #[trigger] t.controllers.contains_key(k) implies t.controllers[k].len()
            <= c.max_controllers by {
            if k != name@ {
                assert(s.controllers.contains_key(k));
            }
        }
    }
    if remove_controller_spec(s, origin, name, controller, now) is Ok {
        let t = remove_controller_spec(s, origin, name, controller, now)->Ok_0.0;
        lemma_consistent_frame(s, t);
        lemma_remove_value_shorter(seq_or_empty(s.controllers, name@), controller);
        assert forall|k: Seq<u8>| #[trigger] t.controllers.contains_key(k) implies t.controllers[k].len()
            <= c.max_controllers by {
            if k != name@ {
                assert(s.controllers.contains_key(k));
            }
        }
    }
    if set_address_spec(s, origin, name, address, now) is Ok {
        let t = set_address_spec(s, origin, name, address, now)->Ok_0.0;
        assert(t.names.dom() =~= dom);
        lemma_consistent_frame(s, t);
    }
    if set_subject_spec(s, origin, name, subject, subject_known, now) is Ok {
        let t = set_subject_spec(s, origin, name, subject, subject_known, now)->Ok_0.0;
        assert(t.names.dom() =~= dom);
        lemma_consistent_frame(s, t);
    }
    if set_attestation_spec(s, origin, name, attestation, attestation_live, now) is Ok {
        let t = set_attestation_spec(s, origin, name, attestation, attestation_live, now)->Ok_0.0;
        assert(t.names.dom() =~= dom);
        lemma_consistent_frame(s, t);
    }
    if set_primary_name_spec(s, origin, primary, now) is Ok {
        let t = set_primary_name_spec(s, origin, primary, now)->Ok_0.0;
        let owner = signer(origin)->0;
        lemma_owner_index_frame(s, t);
        lemma_hierarchy_frame(s, t);
        lemma_nesting_frame(s, t);
        assert forall|o: AccountId| #[trigger] t.primary_name.contains_key(acct_key(o)) implies t.names.contains_key(
            t.primary_name[acct_key(o)],
        ) && t.names[t.primary_name[acct_key(o)]].owner == o by {
            lemma_acct_key_injective(o, owner);
            if o != owner {
                assert(s.primary_name.contains_key(acct_key(o)));
            }
        }
    }
    if renew_spec(s, c, origin, name, additional, now) is Ok {
        let t = renew_spec(s, c, origin, name, additional, now)->Ok_0.0;
        assert(t.names.dom() =~= dom);
        lemma_owner_index_frame(s, t);
        lemma_hierarchy_frame(s, t);
        assert forall|o: AccountId| #[trigger] t.primary_name.contains_key(acct_key(o)) implies t.names.contains_key(
            t.primary_name[acct_key(o)],
        ) && t.names[t.primary_name[acct_key(o)]].owner == o by {
            assert(s.primary_name.contains_key(acct_key(o)));
        }
        let r = s.names[name@];
        assert(t.names[name@].expires_at > r.expires_at);
        assert forall|n: NameId| #[trigger] t.names.contains_key(n@) implies match t.names[n@].parent {
            Some(p) => t.names.contains_key(p@) ==> {
                &&& t.names[n@].expires_at <= t.names[p@].expires_at
                &&& t.names[n@].depth == sat_add32(t.names[p@].depth, 1)
            },
            None => t.names[n@].depth == 0,
        } by {
            assert(s.names.contains_key(n@));
            lemma_id_view_eq(n, name);
            if let Some(p) = s.names[n@].parent {
                lemma_id_view_eq(p, name);
                if s.names.contains_key(p@) {
                    assert(s.names[n@].expires_at <= s.names[p@].expires_at);
                }
            }
        }
    }
    if set_text_spec(s, c, origin, name, key, value, now) is Ok {
        let t = set_text_spec(s, c, origin, name, key, value, now)->Ok_0.0;
        lemma_consistent_frame(s, t);
        lemma_remove_value_shorter(seq_or_empty(s.text_keys, name@), key);
        assert forall|k: Seq<u8>| #[trigger] t.text_keys.contains_key(k) implies t.text_keys[k].len()
            <= c.max_text_records by {
            if k != name@ {
                assert(s.text_keys.contains_key(k));
            }
        }
    }
    if publish_content_spec(s, c, origin, name, content, expected, op, content_valid, now) is Ok {
        let t = publish_content_spec(s, c, origin, name, content, expected, op, content_valid, now)->Ok_0.0;
        assert(t.names.dom() =~= dom);
        lemma_consistent_frame(s, t);
        assert forall|k: Seq<u8>| #[trigger] t.receipt_ids.contains_key(k) implies t.receipt_ids[k].len()
            <= c.max_content_operation_receipts by {
            if k != acct_key(signer(origin)->0) {
                assert(s.receipt_ids.contains_key(k));
            }
        }
    }
}

} // verus!
