//! A finite map keyed by small plain values (integers, identifiers and
//! tuples of them), with the keys in insertion order up to removals.
use crate::table::id_eq;
use vstd::prelude::*;

verus! {

/// A key whose equality can be decided at run time and agrees with equality
/// of values.
pub trait TableKey: Copy + Sized {
    /// Whether `self` and `other` are the same key.
    fn same(&self, other: &Self) -> (r: bool)
        ensures
            r == (*self == *other),
    ;
}

impl TableKey for u16 {
    fn same(&self, other: &Self) -> (r: bool) {
        *self == *other
    }
}

impl TableKey for u32 {
    fn same(&self, other: &Self) -> (r: bool) {
        *self == *other
    }
}

impl TableKey for [u8; 32] {
    fn same(&self, other: &Self) -> (r: bool) {
        id_eq(self, other)
    }
}

/// A finite map from keys to values.
#[verifier::reject_recursive_types(K)]
pub struct KeyTable<K: TableKey, V: View> {
    keys: Vec<K>,
    vals: Vec<V>,
    m: Ghost<Map<K, V::V>>,
}

impl<K: TableKey, V: View> View for KeyTable<K, V> {
    type V = Map<K, V::V>;

    closed spec fn view(&self) -> Map<K, V::V> {
        self.m@
    }
}

impl<K: TableKey, V: View> KeyTable<K, V> {
    /// The keys and values are in step, keys are distinct and the ghost map
    /// holds exactly the stored entries.
    pub closed spec fn wf(&self) -> bool {
        &&& self.keys@.len() == self.vals@.len()
        &&& forall|i: int, j: int| 0 <= i < j < self.keys@.len() ==> self.keys@[i] != self.keys@[j]
        &&& forall|i: int|
            0 <= i < self.keys@.len() ==> #[trigger] self.m@.contains_key(self.keys@[i])
                && self.m@[self.keys@[i]] == self.vals@[i]@
        &&& forall|k: K|
            #[trigger] self.m@.contains_key(k) ==> exists|i: int|
                0 <= i < self.keys@.len() && self.keys@[i] == k
    }

    /// An empty table.
    pub fn new() -> (r: KeyTable<K, V>)
        ensures
            r.wf(),
            r@ == Map::<K, V::V>::empty(),
    {
        KeyTable { keys: Vec::new(), vals: Vec::new(), m: Ghost(Map::empty()) }
    }

    /// The index at which `k` is stored.
    fn find(&self, k: &K) -> (r: Option<usize>)
        requires
            self.wf(),
        ensures
            r matches Some(i) ==> i < self.keys@.len() && self.keys@[i as int] == *k,
            r is None ==> !self@.contains_key(*k),
    {
        let mut i: usize = 0;
        while i < self.keys.len()
            invariant
                self.wf(),
                i <= self.keys@.len(),
                forall|j: int| 0 <= j < i ==> self.keys@[j] != *k,
            decreases self.keys@.len() - i,
        {
            if self.keys[i].same(k) {
                return Some(i);
            }
            i += 1;
        }
        None
    }

    /// The value stored under `k`.
    pub fn get(&self, k: &K) -> (r: Option<&V>)
        requires
            self.wf(),
        ensures
            r matches Some(v) ==> self@.contains_key(*k) && v@ == self@[*k],
            r is None ==> !self@.contains_key(*k),
    {
        match self.find(k) {
            Some(i) => {
                proof {
                    assert(self.m@.contains_key(self.keys@[i as int]));
                }
                Some(&self.vals[i])
            },
            None => None,
        }
    }

    /// Whether a value is stored under `k`.
    pub fn contains_key(&self, k: &K) -> (r: bool)
        requires
            self.wf(),
        ensures
            r == self@.contains_key(*k),
    {
        self.find(k).is_some()
    }

    /// Stores `v` under `k`, replacing any value there.
    pub fn insert(&mut self, k: K, v: V)
        requires
            old(self).wf(),
        ensures
            final(self).wf(),
            final(self)@ == old(self)@.insert(k, v@),
    {
        let ghost vv = v@;
        match self.find(&k) {
            Some(i) => {
                self.vals.set(i, v);
                proof {
                    self.m@ = self.m@.insert(k, vv);
                    assert forall|j: int| 0 <= j < self.keys@.len() implies #[trigger] self.m@.contains_key(self.keys@[j])
                        && self.m@[self.keys@[j]] == self.vals@[j]@ by {
                        if j != i {
                            assert(old(self).m@.contains_key(old(self).keys@[j]));
                            if j < i {
                                assert(self.keys@[j] != self.keys@[i as int]);
                            } else {
                                assert(self.keys@[i as int] != self.keys@[j]);
                            }
                        }
                    }
                    assert forall|k2: K| #[trigger] self.m@.contains_key(k2) implies exists|j: int|
                        0 <= j < self.keys@.len() && self.keys@[j] == k2 by {
                        if k2 == k {
                            assert(self.keys@[i as int] == k2);
                        } else {
                            assert(old(self).m@.contains_key(k2));
                            let j = choose|j: int| 0 <= j < old(self).keys@.len() && old(self).keys@[j] == k2;
                            assert(self.keys@[j] == k2);
                        }
                    }
                }
            },
            None => {
                self.keys.push(k);
                self.vals.push(v);
                proof {
                    self.m@ = self.m@.insert(k, vv);
                    let n = self.keys@.len() - 1;
                    assert forall|k2: K| #[trigger] self.m@.contains_key(k2) implies exists|i: int|
                        0 <= i < self.keys@.len() && self.keys@[i] == k2 by {
                        if k2 != k {
                            let i = choose|i: int| 0 <= i < n && old(self).keys@[i] == k2;
                            assert(self.keys@[i] == old(self).keys@[i]);
                        } else {
                            assert(self.keys@[n] == k);
                        }
                    }
                    assert forall|i: int| 0 <= i < self.keys@.len() implies #[trigger] self.m@.contains_key(self.keys@[i])
                        && self.m@[self.keys@[i]] == self.vals@[i]@ by {
                        if i < n {
                            assert(self.keys@[i] == old(self).keys@[i]);
                            assert(old(self).m@.contains_key(old(self).keys@[i]));
                        }
                    }
                }
            },
        }
    }

    /// Removes and returns the value stored under `k`.
    pub fn remove(&mut self, k: &K) -> (r: Option<V>)
        requires
            old(self).wf(),
        ensures
            final(self).wf(),
            final(self)@ == old(self)@.remove(*k),
            r matches Some(v) ==> old(self)@.contains_key(*k) && v@ == old(self)@[*k],
            r is None ==> !old(self)@.contains_key(*k),
    {
        match self.find(k) {
            None => None,
            Some(i) => {
                let ghost n = self.keys@.len() - 1;
                let _ = self.keys.swap_remove(i);
                let v = self.vals.swap_remove(i);
                proof {
                    assert(old(self).m@.contains_key(old(self).keys@[i as int]));
                    self.m@ = self.m@.remove(*k);
                    assert forall|a: int, b: int| 0 <= a < b < self.keys@.len() implies self.keys@[a]
                        != self.keys@[b] by {
                        let oa = if a == i { n } else { a };
                        let ob = if b == i { n } else { b };
                        assert(self.keys@[a] == old(self).keys@[oa]);
                        assert(self.keys@[b] == old(self).keys@[ob]);
                    }
                    assert forall|j: int| 0 <= j < self.keys@.len() implies #[trigger] self.m@.contains_key(self.keys@[j])
                        && self.m@[self.keys@[j]] == self.vals@[j]@ by {
                        let oj = if j == i { n } else { j };
                        assert(self.keys@[j] == old(self).keys@[oj]);
                        assert(self.vals@[j] == old(self).vals@[oj]);
                        assert(old(self).m@.contains_key(old(self).keys@[oj]));
                        assert(oj != i);
                    }
                    assert forall|k2: K| #[trigger] self.m@.contains_key(k2) implies exists|j: int|
                        0 <= j < self.keys@.len() && self.keys@[j] == k2 by {
                        let oj = choose|oj: int| 0 <= oj < old(self).keys@.len() && old(self).keys@[oj] == k2;
                        assert(oj != i);
                        if oj == n {
                            assert(self.keys@[i as int] == old(self).keys@[n]);
                        } else {
                            assert(self.keys@[oj] == old(self).keys@[oj]);
                        }
                    }
                }
                Some(v)
            },
        }
    }

    /// The keys, each once, in storage order.
    pub fn keys(&self) -> (r: Vec<K>)
        requires
            self.wf(),
        ensures
            r@.no_duplicates(),
            r@.len() == self@.len(),
            forall|k: K| #[trigger] r@.contains(k) <==> self@.contains_key(k),
    {
        proof {
            self.lemma_len();
        }
        let mut out: Vec<K> = Vec::new();
        let mut i: usize = 0;
        while i < self.keys.len()
            invariant
                self.wf(),
                i <= self.keys@.len(),
                out@ == self.keys@.subrange(0, i as int),
            decreases self.keys@.len() - i,
        {
            out.push(self.keys[i]);
            i += 1;
            assert(out@ =~= self.keys@.subrange(0, i as int));
        }
        proof {
            assert(out@ =~= self.keys@);
            assert forall|a: int, b: int| 0 <= a < out@.len() && 0 <= b < out@.len() && a != b implies out@[a]
                != out@[b] by {
                if a < b {
                } else {
                }
            }
            assert forall|k: K| #[trigger] out@.contains(k) <==> self@.contains_key(k) by {
                if self@.contains_key(k) {
                    let j = choose|j: int| 0 <= j < self.keys@.len() && self.keys@[j] == k;
                    assert(out@[j] == k);
                }
                if out@.contains(k) {
                    let j = choose|j: int| 0 <= j < out@.len() && out@[j] == k;
                    assert(self@.contains_key(self.keys@[j]));
                }
            }
        }
        out
    }

    /// Removes the first `limit` entries in storage order, or all of them
    /// when there are no more.
    pub fn clear_bounded(&mut self, limit: u32)
        requires
            old(self).wf(),
        ensures
            final(self).wf(),
            final(self)@ <= old(self)@,
            final(self)@.len() == if old(self)@.len() <= limit {
                0
            } else {
                (old(self)@.len() - limit) as nat
            },
    {
        let ks = self.keys();
        let n: usize = if (limit as usize) < ks.len() {
            limit as usize
        } else {
            ks.len()
        };
        let mut i: usize = 0;
        proof {
            self.lemma_len();
            assert forall|j: int| 0 <= j < ks@.len() implies #[trigger] self@.contains_key(ks@[j]) by {
                assert(ks@.contains(ks@[j]));
            }
        }
        while i < n
            invariant
                self.wf(),
                i <= n,
                n <= ks@.len(),
                n == (if old(self)@.len() <= limit { old(self)@.len() } else { limit as nat }),
                ks@.no_duplicates(),
                ks@.len() == old(self)@.len(),
                self@ <= old(self)@,
                self@.dom().finite(),
                self@.len() == old(self)@.len() - i,
                forall|j: int| i <= j < ks@.len() ==> #[trigger] self@.contains_key(ks@[j]),
            decreases n - i,
        {
            let k = ks[i];
            proof {
                assert(self@.contains_key(ks@[i as int]));
            }
            let ghost prev = self@;
            let _ = self.remove(&k);
            proof {
                self.lemma_len();
                assert forall|k2: K| #[trigger] self@.contains_key(k2) implies old(self)@.contains_key(k2)
                    && self@[k2] == old(self)@[k2] by {
                    assert(prev.contains_key(k2));
                }
                assert forall|j: int| i + 1 <= j < ks@.len() implies #[trigger] self@.contains_key(ks@[j]) by {
                    assert(ks@[j] != ks@[i as int]);
                    assert(old(self)@.contains_key(ks@[j]) || true);
                }
            }
            i += 1;
        }
    }

    /// The number of entries.
    pub fn len(&self) -> (r: usize)
        requires
            self.wf(),
        ensures
            r == self@.len(),
    {
        proof {
            self.lemma_len();
        }
        self.keys.len()
    }

    /// A well-formed table has a finite domain.
    pub proof fn lemma_dom_finite(&self)
        requires
            self.wf(),
        ensures
            self@.dom().finite(),
    {
        self.lemma_len();
    }

    proof fn lemma_len(&self)
        requires
            self.wf(),
        ensures
            self@.dom().finite(),
            self@.len() == self.keys@.len(),
    {
        let n = self.keys@.len() as int;
        let r = vstd::set_lib::set_int_range(0, n);
        let f = |i: int| self.keys@[i];
        vstd::set_lib::lemma_int_range(0, n);
        assert(r.map(f) =~= self@.dom()) by {
            assert forall|k: K| self@.dom().contains(k) implies r.map(f).contains(k) by {
                let i = choose|i: int| 0 <= i < n && self.keys@[i] == k;
                assert(r.contains(i));
            }
        }
        assert(vstd::relations::injective_on(f, r)) by {
            assert forall|a: int, b: int| r.contains(a) && r.contains(b) && #[trigger] f(a) == #[trigger] f(b) implies a == b by {
                if a < b {
                } else if b < a {
                }
            }
        }
        vstd::set_lib::lemma_map_size(r, self@.dom(), f);
    }
}

} // verus!
