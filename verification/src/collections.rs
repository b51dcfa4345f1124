//! Ordered maps and sets over keys with a numeric rank.

use vstd::prelude::*;

verus! {

/// A key that is ordered by a number, and determined by it.
pub trait Key: Sized + Copy {
    /// The number by which keys are ordered.
    spec fn rank(self) -> nat;

    /// Keys of equal rank are equal.
    proof fn lemma_rank_injective(self, other: Self)
        ensures
            self.rank() == other.rank() ==> self == other,
    ;

    /// Whether `self` comes before `other`.
    fn precedes(&self, other: &Self) -> (r: bool)
        ensures
            r == (self.rank() < other.rank()),
    ;
}

/// The entries of a map, each once, in ascending order of their keys.
pub open spec fn lists_map<K: Key, V>(s: Seq<(K, V)>, m: Map<K, V>) -> bool {
    &&& forall|i: int, j: int| 0 <= i < j < s.len() ==> s[i].0.rank() < s[j].0.rank()
    &&& forall|i: int| 0 <= i < s.len() ==> m.contains_key(#[trigger] s[i].0) && m[s[i].0] == s[i].1
    &&& forall|k: K| m.contains_key(k) ==> exists|i: int| 0 <= i < s.len() && #[trigger] s[i].0 == k
}

/// The entries of `m` in ascending order of their keys.
pub open spec fn ascending<K: Key, V>(m: Map<K, V>) -> Seq<(K, V)> {
    choose|s: Seq<(K, V)>| lists_map(s, m)
}

/// A sequence that lists a map is the map's ascending sequence.
pub proof fn lemma_ascending<K: Key, V>(s: Seq<(K, V)>, m: Map<K, V>)
    requires
        lists_map(s, m),
    ensures
        ascending(m) == s,
{
    lemma_lists_map_order(ascending(m), s, m);
}

/// The elements of a set, each once, in ascending order.
pub open spec fn lists_set<K: Key>(s: Seq<K>, m: Set<K>) -> bool {
    &&& forall|i: int, j: int| 0 <= i < j < s.len() ==> s[i].rank() < s[j].rank()
    &&& forall|i: int| 0 <= i < s.len() ==> m.contains(#[trigger] s[i])
    &&& forall|k: K| m.contains(k) ==> exists|i: int| 0 <= i < s.len() && #[trigger] s[i] == k
}

/// A sequence lists one map only.
pub proof fn lemma_lists_map_unique<K: Key, V>(s: Seq<(K, V)>, m: Map<K, V>, n: Map<K, V>)
    requires
        lists_map(s, m),
        lists_map(s, n),
    ensures
        m == n,
{
    assert forall|k: K| m.contains_key(k) implies n.contains_key(k) && m[k] == n[k] by {
        let i = choose|i: int| 0 <= i < s.len() && #[trigger] s[i].0 == k;
        assert(s[i].0 == k);
    }
    assert forall|k: K| n.contains_key(k) implies m.contains_key(k) by {
        let i = choose|i: int| 0 <= i < s.len() && #[trigger] s[i].0 == k;
        assert(s[i].0 == k);
    }
    assert(m =~= n);
}

/// A map is listed by one sequence only: the order of the keys fixes it.
pub proof fn lemma_lists_map_order<K: Key, V>(s: Seq<(K, V)>, t: Seq<(K, V)>, m: Map<K, V>)
    requires
        lists_map(s, m),
        lists_map(t, m),
    ensures
        s == t,
    decreases s.len(),
{
    if s.len() == 0 {
        if t.len() > 0 {
            assert(m.contains_key(t[0].0));
        }
        assert(s =~= t);
    } else {
        let k = s.last().0;
        assert(m.contains_key(s[s.len() - 1].0));
        let n = choose|n: int| 0 <= n < t.len() && #[trigger] t[n].0 == k;
        assert(t[n].0 == k);
        let last = t[t.len() - 1].0;
        assert(m.contains_key(last));
        let i = choose|i: int| 0 <= i < s.len() && #[trigger] s[i].0 == last;
        assert(s[i].0 == last);
        assert(n == t.len() - 1);
        lemma_lists_map_drop_last(s, m);
        lemma_lists_map_drop_last(t, m);
        lemma_lists_map_order(s.drop_last(), t.drop_last(), m.remove(k));
        assert(s.last() == t.last());
        assert(s =~= s.drop_last().push(s.last()));
        assert(t =~= t.drop_last().push(t.last()));
    }
}

proof fn lemma_lists_map_drop_last<K: Key, V>(s: Seq<(K, V)>, m: Map<K, V>)
    requires
        lists_map(s, m),
        s.len() > 0,
    ensures
        lists_map(s.drop_last(), m.remove(s.last().0)),
{
    let k = s.last().0;
    let t = s.drop_last();
    assert forall|i: int| 0 <= i < t.len() implies m.remove(k).contains_key(#[trigger] t[i].0)
        && m.remove(k)[t[i].0] == t[i].1 by {
        assert(t[i] == s[i]);
        assert(s[i].0.rank() < s[s.len() - 1].0.rank());
    }
    assert forall|x: K| m.remove(k).contains_key(x) implies exists|i: int|
        0 <= i < t.len() && #[trigger] t[i].0 == x by {
        let i = choose|i: int| 0 <= i < s.len() && #[trigger] s[i].0 == x;
        assert(t[i].0 == x);
    }
}

/// The ascending sequence of a map whose values were all replaced by `f`.
pub proof fn lemma_ascending_values<K: Key, V, W>(s: Seq<(K, V)>, m: Map<K, V>, f: spec_fn(V) -> W)
    requires
        lists_map(s, m),
    ensures
        ascending(m.map_values(f)) == s.map_values(|e: (K, V)| (e.0, f(e.1))),
{
    let t = s.map_values(|e: (K, V)| (e.0, f(e.1)));
    let n = m.map_values(f);
    assert forall|i: int| 0 <= i < t.len() implies n.contains_key(#[trigger] t[i].0) && n[t[i].0]
        == t[i].1 by {
        assert(t[i].0 == s[i].0);
    }
    assert forall|k: K| n.contains_key(k) implies exists|i: int|
        0 <= i < t.len() && #[trigger] t[i].0 == k by {
        let i = choose|i: int| 0 <= i < s.len() && #[trigger] s[i].0 == k;
        assert(t[i].0 == k);
    }
    lemma_ascending(t, n);
}

proof fn lemma_lists_map_update<K: Key, V>(s: Seq<(K, V)>, m: Map<K, V>, i: int, value: V)
    requires
        lists_map(s, m),
        0 <= i < s.len(),
    ensures
        lists_map(s.update(i, (s[i].0, value)), m.insert(s[i].0, value)),
{
    let key = s[i].0;
    let t = s.update(i, (key, value));
    assert(forall|n: int| 0 <= n < s.len() ==> t[n].0 == #[trigger] s[n].0);
    assert forall|k: K| m.insert(key, value).contains_key(k) implies exists|n: int|
        0 <= n < t.len() && #[trigger] t[n].0 == k by {
        let n = choose|n: int| 0 <= n < s.len() && #[trigger] s[n].0 == k;
        assert(t[n].0 == k);
    }
}

proof fn lemma_lists_map_insert<K: Key, V>(
    s: Seq<(K, V)>,
    m: Map<K, V>,
    i: int,
    key: K,
    value: V,
)
    requires
        lists_map(s, m),
        0 <= i <= s.len(),
        forall|n: int| 0 <= n < i ==> #[trigger] s[n].0.rank() < key.rank(),
        forall|n: int| i <= n < s.len() ==> #[trigger] s[n].0.rank() > key.rank(),
    ensures
        lists_map(s.insert(i, (key, value)), m.insert(key, value)),
        !m.contains_key(key),
{
    let t = s.insert(i, (key, value));
    assert(forall|n: int| 0 <= n < i ==> t[n] == #[trigger] s[n]);
    assert(forall|n: int| i <= n < s.len() ==> t[n + 1] == #[trigger] s[n]);
    assert forall|n: int| 0 <= n < t.len() && n != i implies #[trigger] t[n] == if n < i {
        s[n]
    } else {
        s[n - 1]
    } by {}
    assert(t[i] == (key, value));
    assert forall|k: K| m.insert(key, value).contains_key(k) implies exists|n: int|
        0 <= n < t.len() && #[trigger] t[n].0 == k by {
        if k == key {
            assert(t[i].0 == k);
        } else {
            let n = choose|n: int| 0 <= n < s.len() && #[trigger] s[n].0 == k;
            if n < i {
                assert(t[n].0 == k);
            } else {
                assert(t[n + 1].0 == k);
            }
        }
    }
}

/// A map whose entries are kept in ascending order of their keys.
#[verifier::reject_recursive_types(K)]
pub struct SortedMap<K: Key, V> {
    entries: Vec<(K, V)>,
}

impl<K: Key, V> SortedMap<K, V> {
    #[verifier::type_invariant]
    spec fn sorted(self) -> bool {
        forall|i: int, j: int|
            0 <= i < j < self.entries@.len() ==> self.entries@[i].0.rank()
                < self.entries@[j].0.rank()
    }

    /// The entries in the order in which they are kept.
    pub closed spec fn in_order(self) -> Seq<(K, V)> {
        self.entries@
    }

    /// What the map maps.
    pub closed spec fn view(self) -> Map<K, V> {
        let s = self.entries@;
        Map::new(
            |k: K| exists|i: int| 0 <= i < s.len() && #[trigger] s[i].0 == k,
            |k: K| s[choose|i: int| 0 <= i < s.len() && #[trigger] s[i].0 == k].1,
        )
    }

    pub fn new() -> (r: Self)
        ensures
            r@ == Map::<K, V>::empty(),
            r.in_order() == Seq::<(K, V)>::empty(),
    {
        let r = SortedMap { entries: Vec::new() };
        assert(r@ =~= Map::<K, V>::empty());
        r
    }

    /// The number of keys.
    pub fn len(&self) -> (r: usize)
        ensures
            r == self.in_order().len(),
            self.in_order() == ascending(self@),
            lists_map(self.in_order(), self@),
    {
        proof {
            use_type_invariant(self);
            self.lemma_lists();
            lemma_ascending(self.entries@, self@);
        }
        self.entries.len()
    }

    /// The entry at position `i` of the ascending order of keys.
    pub fn entry_at(&self, i: usize) -> (r: (K, &V))
        requires
            i < self.in_order().len(),
        ensures
            r.0 == self.in_order()[i as int].0,
            *r.1 == self.in_order()[i as int].1,
            self@.contains_key(r.0),
            self@[r.0] == *r.1,
    {
        proof {
            use_type_invariant(self);
            self.lemma_lists();
        }
        let e = &self.entries[i];
        (e.0, &e.1)
    }

    /// The value of `key`.
    pub fn get(&self, key: &K) -> (r: Option<&V>)
        ensures
            match r {
                Some(v) => self@.contains_key(*key) && *v == self@[*key],
                None => !self@.contains_key(*key),
            },
    {
        proof {
            use_type_invariant(self);
            self.lemma_lists();
        }
        let i: usize = Self::position(&self.entries, key);
        if i < self.entries.len() && !key.precedes(&self.entries[i].0) {
            proof {
                key.lemma_rank_injective(self.entries@[i as int].0);
            }
            Some(&self.entries[i].1)
        } else {
            None
        }
    }

    /// Maps `key` to `value`; gives back what `key` was mapped to.
    pub fn insert(&mut self, key: K, value: V) -> (r: Option<V>)
        ensures
            final(self)@ == old(self)@.insert(key, value),
            match r {
                Some(v) => old(self)@.contains_key(key) && v == old(self)@[key],
                None => !old(self)@.contains_key(key),
            },
    {
        proof {
            use_type_invariant(&*self);
            self.lemma_lists();
        }
        let i: usize = Self::position(&self.entries, &key);
        let ghost before = self.entries@;
        let mut entries: Vec<(K, V)> = Vec::new();
        core::mem::swap(&mut entries, &mut self.entries);
        let r = if i < entries.len() && !key.precedes(&entries[i].0) {
            proof {
                key.lemma_rank_injective(before[i as int].0);
            }
            let e = entries.remove(i);
            entries.insert(i, (key, value));
            assert(entries@ =~= before.update(i as int, (key, value)));
            proof {
                lemma_lists_map_update(before, old(self)@, i as int, value);
            }
            Some(e.1)
        } else {
            entries.insert(i, (key, value));
            assert(entries@ =~= before.insert(i as int, (key, value)));
            proof {
                lemma_lists_map_insert(before, old(self)@, i as int, key, value);
            }
            None
        };
        self.entries = entries;
        proof {
            self.lemma_lists();
            lemma_lists_map_unique(self.entries@, self@, old(self)@.insert(key, value));
        }
        r
    }

    /// The first position whose key does not come before `key`.
    fn position(entries: &Vec<(K, V)>, key: &K) -> (r: usize)
        requires
            forall|i: int, j: int|
                0 <= i < j < entries@.len() ==> entries@[i].0.rank() < entries@[j].0.rank(),
        ensures
            r <= entries@.len(),
            forall|i: int| 0 <= i < r ==> #[trigger] entries@[i].0.rank() < key.rank(),
            forall|i: int| r <= i < entries@.len() ==> #[trigger] entries@[i].0.rank() >= key.rank(),
    {
        let mut i: usize = 0;
        while i < entries.len() && entries[i].0.precedes(key)
            invariant
                i <= entries@.len(),
                forall|j: int| 0 <= j < i ==> #[trigger] entries@[j].0.rank() < key.rank(),
            decreases entries.len() - i,
        {
            i = i + 1;
        }
        i
    }

    proof fn lemma_lists(&self)
        requires
            self.sorted(),
        ensures
            lists_map(self.entries@, self@),
    {
        let s = self.entries@;
        assert forall|i: int| 0 <= i < s.len() implies self@.contains_key(#[trigger] s[i].0)
            && self@[s[i].0] == s[i].1 by {
            let n = choose|n: int| 0 <= n < s.len() && #[trigger] s[n].0 == s[i].0;
            assert(s[n].0 == s[i].0);
            assert(n == i);
        }
    }
}

impl<K: Key, V: Clone> Clone for SortedMap<K, V> {
    fn clone(&self) -> (r: SortedMap<K, V>)
        ensures
            r@.dom() == self@.dom(),
            forall|k: K| #[trigger] r@.contains_key(k) ==> cloned(self@[k], r@[k]),
    {
        proof {
            use_type_invariant(self);
            self.lemma_lists();
        }
        let ghost all = self.entries@;
        let mut entries: Vec<(K, V)> = Vec::new();
        let mut i: usize = 0;
        while i < self.entries.len()
            invariant
                all == self.entries@,
                i <= all.len(),
                entries@.len() == i,
                forall|j: int|
                    0 <= j < i ==> (#[trigger] entries@[j]).0 == all[j].0 && cloned(
                        all[j].1,
                        entries@[j].1,
                    ),
            decreases self.entries.len() - i,
        {
            let value = self.entries[i].1.clone();
            entries.push((self.entries[i].0, value));
            i = i + 1;
        }
        let r = SortedMap { entries };
        proof {
            r.lemma_lists();
            assert forall|k: K| #[trigger] r@.contains_key(k) implies self@.contains_key(k)
                && cloned(self@[k], r@[k]) by {
                let j = choose|j: int| 0 <= j < entries@.len() && #[trigger] entries@[j].0 == k;
                assert(entries@[j].0 == all[j].0);
            }
            assert forall|k: K| #[trigger] self@.contains_key(k) implies r@.contains_key(k) by {
                let j = choose|j: int| 0 <= j < all.len() && #[trigger] all[j].0 == k;
                assert(entries@[j].0 == all[j].0);
            }
            assert(r@.dom() =~= self@.dom());
        }
        r
    }
}

/// A set whose elements are kept in ascending order.
#[verifier::reject_recursive_types(K)]
pub struct SortedSet<K: Key> {
    elements: SortedMap<K, ()>,
}

impl<K: Key> SortedSet<K> {
    /// The elements in the order in which they are kept.
    pub closed spec fn in_order(self) -> Seq<K> {
        self.elements.in_order().map_values(|e: (K, ())| e.0)
    }

    /// What the set holds.
    pub closed spec fn view(self) -> Set<K> {
        self.elements@.dom()
    }

    pub fn new() -> (r: Self)
        ensures
            r@ == Set::<K>::empty(),
    {
        let r = SortedSet { elements: SortedMap::new() };
        assert(r@ =~= Set::<K>::empty());
        r
    }

    /// The number of elements.
    pub fn len(&self) -> (r: usize)
        ensures
            r == self.in_order().len(),
            lists_set(self.in_order(), self@),
    {
        let r: usize = self.elements.len();
        proof {
            let s = self.elements.in_order();
            assert forall|k: K| self@.contains(k) implies exists|i: int|
                0 <= i < self.in_order().len() && #[trigger] self.in_order()[i] == k by {
                assert(self.elements@.contains_key(k));
                let i = choose|i: int| 0 <= i < s.len() && #[trigger] s[i].0 == k;
                assert(self.in_order()[i] == k);
            }
        }
        r
    }

    /// The element at position `i` of the ascending order.
    pub fn element_at(&self, i: usize) -> (r: K)
        requires
            i < self.in_order().len(),
        ensures
            r == self.in_order()[i as int],
            self@.contains(r),
    {
        self.elements.entry_at(i).0
    }

    /// Whether `key` is an element.
    pub fn contains(&self, key: &K) -> (r: bool)
        ensures
            r == self@.contains(*key),
    {
        self.elements.get(key).is_some()
    }

    /// Adds `key`; says whether it is new.
    pub fn insert(&mut self, key: K) -> (r: bool)
        ensures
            final(self)@ == old(self)@.insert(key),
            r == !old(self)@.contains(key),
    {
        let r = self.elements.insert(key, ()).is_none();
        assert(self@ =~= old(self)@.insert(key));
        r
    }
}

impl<K: Key> Clone for SortedSet<K> {
    fn clone(&self) -> (r: SortedSet<K>)
        ensures
            r@ == self@,
    {
        let r = SortedSet { elements: self.elements.clone() };
        assert(r@ =~= self@);
        r
    }
}

/// Of two entries the one with the lower key comes first, in whatever order they
/// came into the map.
pub proof fn law_lower_key_comes_first<K: Key, V>(a: K, x: V, b: K, y: V)
    requires
        a.rank() < b.rank(),
    ensures
        ascending(Map::<K, V>::empty().insert(a, x).insert(b, y)) == seq![(a, x), (b, y)],
        ascending(Map::<K, V>::empty().insert(b, y).insert(a, x)) == seq![(a, x), (b, y)],
        ascending(Map::<K, V>::empty()) == Seq::<(K, V)>::empty(),
{
    let s = seq![(a, x), (b, y)];
    let m = Map::<K, V>::empty().insert(a, x).insert(b, y);
    assert(Map::<K, V>::empty().insert(b, y).insert(a, x) =~= m);
    assert forall|k: K| m.contains_key(k) implies exists|i: int|
        0 <= i < s.len() && #[trigger] s[i].0 == k by {
        if k == a {
            assert(s[0].0 == k);
        } else {
            assert(s[1].0 == k);
        }
    }
    assert(lists_map(s, m));
    lemma_ascending(s, m);
    let none = Seq::<(K, V)>::empty();
    assert(lists_map(none, Map::<K, V>::empty()));
    lemma_ascending(none, Map::<K, V>::empty());
}

} // verus!
