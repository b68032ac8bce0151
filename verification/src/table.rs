//! A finite map keyed by byte strings, and byte-string helpers.
use vstd::prelude::*;

verus! {

broadcast use vstd::array::group_array_axioms;

/// Whether two byte slices hold the same bytes.
pub fn bytes_eq(a: &[u8], b: &[u8]) -> (r: bool)
    ensures
        r == (a@ == b@),
{
    if a.len() != b.len() {
        return false;
    }
    let mut i: usize = 0;
    while i < a.len()
        invariant
            a@.len() == b@.len(),
            i <= a@.len(),
            forall|j: int| 0 <= j < i ==> a@[j] == b@[j],
        decreases a@.len() - i,
    {
        if a[i] != b[i] {
            return false;
        }
        i += 1;
    }
    assert(a@ =~= b@);
    true
}

/// Whether two 32-byte values are equal.
pub fn id_eq(a: &[u8; 32], b: &[u8; 32]) -> (r: bool)
    ensures
        r == (*a == *b),
{
    let mut i: usize = 0;
    while i < 32
        invariant
            i <= 32,
            forall|j: int| 0 <= j < i ==> a[j] == b[j],
        decreases 32 - i,
    {
        if a[i] != b[i] {
            return false;
        }
        i += 1;
    }
    assert(*a =~= *b);
    true
}

/// Whether two 16-byte values are equal.
pub fn id16_eq(a: &[u8; 16], b: &[u8; 16]) -> (r: bool)
    ensures
        r == (*a == *b),
{
    let mut i: usize = 0;
    while i < 16
        invariant
            i <= 16,
            forall|j: int| 0 <= j < i ==> a[j] == b[j],
        decreases 16 - i,
    {
        if a[i] != b[i] {
            return false;
        }
        i += 1;
    }
    assert(*a =~= *b);
    true
}

/// Two 32-byte values are equal exactly when their bytes are.
pub proof fn lemma_id_view_eq(a: [u8; 32], b: [u8; 32])
    ensures
        (a@ == b@) == (a == b),
{
    if a@ == b@ {
        assert forall|i: int| 0 <= i < 32 implies a[i] == b[i] by {
            assert(a@[i] == b@[i]);
        }
        assert(a =~= b);
    }
}

/// The bytes of a 32-byte value, in a vector.
pub fn array32_to_vec(a: &[u8; 32]) -> (r: Vec<u8>)
    ensures
        r@ == a@,
{
    let mut v: Vec<u8> = Vec::new();
    let mut i: usize = 0;
    while i < 32
        invariant
            i <= 32,
            v@ == a@.subrange(0, i as int),
        decreases 32 - i,
    {
        v.push(a[i]);
        i += 1;
        assert(v@ =~= a@.subrange(0, i as int));
    }
    assert(a@.subrange(0, 32) =~= a@);
    v
}

/// Appends the bytes of `b` to `v`.
pub fn extend_bytes(v: &mut Vec<u8>, b: &[u8])
    ensures
        final(v)@ == old(v)@ + b@,
{
    let ghost v0 = v@;
    let mut i: usize = 0;
    while i < b.len()
        invariant
            i <= b@.len(),
            v@ == v0 + b@.subrange(0, i as int),
        decreases b@.len() - i,
    {
        v.push(b[i]);
        i += 1;
        assert(v@ =~= v0 + b@.subrange(0, i as int));
    }
    assert(b@.subrange(0, b@.len() as int) =~= b@);
}

/// A finite map from byte strings to values.
pub struct Table<V: View> {
    keys: Vec<Vec<u8>>,
    vals: Vec<V>,
    m: Ghost<Map<Seq<u8>, V::V>>,
}

impl<V: View> View for Table<V> {
    type V = Map<Seq<u8>, V::V>;

    closed spec fn view(&self) -> Map<Seq<u8>, V::V> {
        self.m@
    }
}

impl<V: View> Table<V> {
    /// The keys and values are in step, keys are distinct and the ghost map
    /// holds exactly the stored entries.
    pub closed spec fn wf(&self) -> bool {
        &&& self.keys@.len() == self.vals@.len()
        &&& forall|i: int, j: int|
            0 <= i < j < self.keys@.len() ==> self.keys@[i]@ != self.keys@[j]@
        &&& forall|i: int|
            0 <= i < self.keys@.len() ==> #[trigger] self.m@.contains_key(self.keys@[i]@)
                && self.m@[self.keys@[i]@] == self.vals@[i]@
        &&& forall|k: Seq<u8>|
            #[trigger] self.m@.contains_key(k) ==> exists|i: int|
                0 <= i < self.keys@.len() && self.keys@[i]@ == k
    }

    /// An empty table.
    pub fn new() -> (r: Table<V>)
        ensures
            r.wf(),
            r@ == Map::<Seq<u8>, V::V>::empty(),
    {
        Table { keys: Vec::new(), vals: Vec::new(), m: Ghost(Map::empty()) }
    }

    /// The index at which `k` is stored.
    fn find(&self, k: &[u8]) -> (r: Option<usize>)
        requires
            self.wf(),
        ensures
            r matches Some(i) ==> i < self.keys@.len() && self.keys@[i as int]@ == k@,
            r is None ==> !self@.contains_key(k@),
    {
        let mut i: usize = 0;
        while i < self.keys.len()
            invariant
                self.wf(),
                i <= self.keys@.len(),
                forall|j: int| 0 <= j < i ==> self.keys@[j]@ != k@,
            decreases self.keys@.len() - i,
        {
            if bytes_eq(self.keys[i].as_slice(), k) {
                return Some(i);
            }
            i += 1;
        }
        None
    }

    /// The value stored under `k`.
    pub fn get(&self, k: &[u8]) -> (r: Option<&V>)
        requires
            self.wf(),
        ensures
            r matches Some(v) ==> self@.contains_key(k@) && v@ == self@[k@],
            r is None ==> !self@.contains_key(k@),
    {
        match self.find(k) {
            Some(i) => Some(&self.vals[i]),
            None => None,
        }
    }

    /// Whether a value is stored under `k`.
    pub fn contains_key(&self, k: &[u8]) -> (r: bool)
        requires
            self.wf(),
        ensures
            r == self@.contains_key(k@),
    {
        self.find(k).is_some()
    }

    /// Stores `v` under `k`, replacing any value there.
    pub fn insert(&mut self, k: Vec<u8>, v: V)
        requires
            old(self).wf(),
        ensures
            final(self).wf(),
            final(self)@ == old(self)@.insert(k@, v@),
    {
        let ghost kv = k@;
        let ghost vv = v@;
        match self.find(k.as_slice()) {
            Some(i) => {
                self.vals.set(i, v);
                proof {
                    self.m@ = self.m@.insert(kv, vv);
                    assert forall|j: int| 0 <= j < self.keys@.len() implies #[trigger] self.m@.contains_key(self.keys@[j]@)
                        && self.m@[self.keys@[j]@] == self.vals@[j]@ by {
                        if j != i {
                            assert(old(self).m@.contains_key(old(self).keys@[j]@));
                            if j < i {
                                assert(self.keys@[j]@ != self.keys@[i as int]@);
                            } else {
                                assert(self.keys@[i as int]@ != self.keys@[j]@);
                            }
                        }
                    }
                    assert forall|k2: Seq<u8>| #[trigger] self.m@.contains_key(k2) implies exists|j: int|
                        0 <= j < self.keys@.len() && self.keys@[j]@ == k2 by {
                        if k2 == kv {
                            assert(self.keys@[i as int]@ == k2);
                        } else {
                            assert(old(self).m@.contains_key(k2));
                            let j = choose|j: int| 0 <= j < old(self).keys@.len() && old(self).keys@[j]@ == k2;
                            assert(self.keys@[j]@ == k2);
                        }
                    }
                }
            },
            None => {
                self.keys.push(k);
                self.vals.push(v);
                proof {
                    self.m@ = self.m@.insert(kv, vv);
                    let n = self.keys@.len() - 1;
                    assert forall|k2: Seq<u8>| #[trigger] self.m@.contains_key(k2) implies exists|i: int|
                        0 <= i < self.keys@.len() && self.keys@[i]@ == k2 by {
                        if k2 != kv {
                            let i = choose|i: int| 0 <= i < n && old(self).keys@[i]@ == k2;
                            assert(self.keys@[i] == old(self).keys@[i]);
                        } else {
                            assert(self.keys@[n]@ == kv);
                        }
                    }
                    assert forall|i: int| 0 <= i < self.keys@.len() implies #[trigger] self.m@.contains_key(self.keys@[i]@)
                        && self.m@[self.keys@[i]@] == self.vals@[i]@ by {
                        if i < n {
                            assert(self.keys@[i] == old(self).keys@[i]);
                            assert(old(self).m@.contains_key(old(self).keys@[i]@));
                        }
                    }
                }
            },
        }
    }

    /// Removes and returns the value stored under `k`.
    pub fn remove(&mut self, k: &[u8]) -> (r: Option<V>)
        requires
            old(self).wf(),
        ensures
            final(self).wf(),
            final(self)@ == old(self)@.remove(k@),
            r matches Some(v) ==> old(self)@.contains_key(k@) && v@ == old(self)@[k@],
            r is None ==> !old(self)@.contains_key(k@),
    {
        match self.find(k) {
            None => None,
            Some(i) => {
                let ghost n = self.keys@.len() - 1;
                let ghost last_key = self.keys@[n]@;
                let _ = self.keys.swap_remove(i);
                let v = self.vals.swap_remove(i);
                proof {
                    assert(old(self).m@.contains_key(old(self).keys@[i as int]@));
                    self.m@ = self.m@.remove(k@);
                    assert forall|a: int, b: int| 0 <= a < b < self.keys@.len() implies self.keys@[a]@
                        != self.keys@[b]@ by {
                        let oa = if a == i { n } else { a };
                        let ob = if b == i { n } else { b };
                        assert(self.keys@[a] == old(self).keys@[oa]);
                        assert(self.keys@[b] == old(self).keys@[ob]);
                    }
                    assert forall|j: int| 0 <= j < self.keys@.len() implies #[trigger] self.m@.contains_key(self.keys@[j]@)
                        && self.m@[self.keys@[j]@] == self.vals@[j]@ by {
                        let oj = if j == i { n } else { j };
                        assert(self.keys@[j] == old(self).keys@[oj]);
                        assert(self.vals@[j] == old(self).vals@[oj]);
                        assert(old(self).m@.contains_key(old(self).keys@[oj]@));
                        assert(oj != i);
                    }
                    assert forall|k2: Seq<u8>| #[trigger] self.m@.contains_key(k2) implies exists|j: int|
                        0 <= j < self.keys@.len() && self.keys@[j]@ == k2 by {
                        let oj = choose|oj: int| 0 <= oj < old(self).keys@.len() && old(self).keys@[oj]@ == k2;
                        assert(oj != i);
                        if oj == n {
                            assert(self.keys@[i as int] == old(self).keys@[n]);
                        } else {
                            assert(self.keys@[oj] == old(self).keys@[oj]);
                        }
                    }
                }
                Some(v)
            },
        }
    }

    /// The number of entries.
    pub fn len(&self) -> (r: usize)
        requires
            self.wf(),
        ensures
            r == self@.len(),
    {
        proof {
            self.lemma_len();
        }
        self.keys.len()
    }

    /// A well-formed table has a finite domain.
    pub proof fn lemma_dom_finite(&self)
        requires
            self.wf(),
        ensures
            self@.dom().finite(),
    {
        self.lemma_len();
    }

    proof fn lemma_len(&self)
        requires
            self.wf(),
        ensures
            self@.dom().finite(),
            self@.len() == self.keys@.len(),
    {
        let n = self.keys@.len() as int;
        let r = vstd::set_lib::set_int_range(0, n);
        let f = |i: int| self.keys@[i]@;
        vstd::set_lib::lemma_int_range(0, n);
        assert(r.map(f) =~= self@.dom()) by {
            assert forall|k: Seq<u8>| self@.dom().contains(k) implies r.map(f).contains(k) by {
                let i = choose|i: int| 0 <= i < n && self.keys@[i]@ == k;
                assert(r.contains(i));
            }
        }
        assert(vstd::relations::injective_on(f, r)) by {
            assert forall|a: int, b: int| r.contains(a) && r.contains(b) && #[trigger] f(a) == #[trigger] f(b) implies a == b by {
                if a < b {
                } else if b < a {
                }
            }
        }
        vstd::set_lib::lemma_map_size(r, self@.dom(), f);
    }
}

} // verus!
