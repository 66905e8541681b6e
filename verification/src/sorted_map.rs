//! An ordered map held as a vector of entries with strictly increasing keys.

use vstd::prelude::*;

verus! {

/// A key with a total order given by an integer rank.
pub trait SortKey: Copy {
    /// The position of the key in the order; distinct keys have distinct ranks.
    spec fn rank(self) -> int;

    proof fn rank_injective(a: Self, b: Self)
        requires
            a.rank() == b.rank(),
        ensures
            a == b,
    ;

    /// Whether `self` comes strictly before `other`.
    fn precedes(&self, other: &Self) -> (b: bool)
        ensures
            b == (self.rank() < other.rank()),
    ;
}

impl SortKey for i64 {
    open spec fn rank(self) -> int {
        self as int
    }

    proof fn rank_injective(a: Self, b: Self) {
    }

    fn precedes(&self, other: &Self) -> (b: bool) {
        *self < *other
    }
}

/// Keys strictly increase along the sequence.
pub open spec fn keys_increase<K: SortKey, V>(s: Seq<(K, V)>) -> bool {
    forall|i: int, j: int|
        0 <= i < j < s.len() ==> (#[trigger] s[i]).0.rank() < (#[trigger] s[j]).0.rank()
}

/// Whether some entry of the sequence has the key `k`.
pub open spec fn has_key<K: SortKey, V>(s: Seq<(K, V)>, k: K) -> bool {
    exists|i: int| 0 <= i < s.len() && (#[trigger] s[i]).0 == k
}

/// The index of an entry with key `k`, where there is one.
pub open spec fn index_of<K: SortKey, V>(s: Seq<(K, V)>, k: K) -> int {
    choose|i: int| 0 <= i < s.len() && (#[trigger] s[i]).0 == k
}

/// The map that a sequence of entries stands for.
pub open spec fn entries_map<K: SortKey, V>(s: Seq<(K, V)>) -> Map<K, V> {
    Map::new(|k: K| has_key(s, k), |k: K| s[index_of(s, k)].1)
}

/// In a sequence with increasing keys, an entry is found at its own index.
pub proof fn lemma_index_of_entry<K: SortKey, V>(s: Seq<(K, V)>, i: int)
    requires
        keys_increase(s),
        0 <= i < s.len(),
    ensures
        has_key(s, s[i].0),
        index_of(s, s[i].0) == i,
        entries_map(s).dom().contains(s[i].0),
        entries_map(s)[s[i].0] == s[i].1,
{
    let j = index_of(s, s[i].0);
    assert(s[j].0 == s[i].0);
    if j < i {
        assert(s[j].0.rank() < s[i].0.rank());
    } else if i < j {
        assert(s[i].0.rank() < s[j].0.rank());
    }
}

/// An ordered map from `K` to `V`.
#[derive(Clone, Debug)]
pub struct SortedMap<K: SortKey, V> {
    entries: Vec<(K, V)>,
}

impl<K: SortKey, V> SortedMap<K, V> {
    /// The entries in key order.
    pub closed spec fn entries(self) -> Seq<(K, V)> {
        self.entries@
    }

    /// The invariant of the type: keys strictly increase.
    pub open spec fn wf(self) -> bool {
        keys_increase(self.entries())
    }

    /// The map that the value stands for.
    pub open spec fn view(self) -> Map<K, V> {
        entries_map(self.entries())
    }

    pub fn new() -> (m: Self)
        ensures
            m.wf(),
            m.entries() == Seq::<(K, V)>::empty(),
            m@ == Map::<K, V>::empty(),
    {
        let m = SortedMap { entries: Vec::new() };
        assert(m@ =~= Map::<K, V>::empty());
        m
    }

    pub fn len(&self) -> (n: usize)
        ensures
            n == self.entries().len(),
    {
        self.entries.len()
    }

    /// The key of the entry at position `i` in key order.
    pub fn key_at(&self, i: usize) -> (k: K)
        requires
            i < self.entries().len(),
        ensures
            k == self.entries()[i as int].0,
    {
        self.entries[i].0
    }

    /// The value of the entry at position `i` in key order.
    pub fn value_at(&self, i: usize) -> (v: &V)
        requires
            i < self.entries().len(),
        ensures
            *v == self.entries()[i as int].1,
    {
        &self.entries[i].1
    }

    /// Whether the keys strictly increase, as the invariant of the type asks.
    pub fn is_ordered(&self) -> (b: bool)
        ensures
            b == self.wf(),
    {
        let n = self.entries.len();
        if n < 2 {
            return true;
        }
        let mut i: usize = 0;
        while i + 1 < n
            invariant
                i + 1 <= n,
                n == self.entries@.len(),
                forall|a: int, b: int|
                    0 <= a < b <= i ==> (#[trigger] self.entries@[a]).0.rank() < (
                    #[trigger] self.entries@[b]).0.rank(),
            decreases n - i,
        {
            if !self.entries[i].0.precedes(&self.entries[i + 1].0) {
                assert(!(self.entries()[i as int].0.rank() < self.entries()[i + 1].0.rank()));
                return false;
            }
            proof {
                assert forall|a: int, b: int| 0 <= a < b <= i + 1 implies (
                #[trigger] self.entries@[a]).0.rank() < (#[trigger] self.entries@[b]).0.rank() by {
                    if b == i + 1 && a < i {
                        assert(self.entries@[a].0.rank() < self.entries@[i as int].0.rank());
                    }
                }
            }
            i = i + 1;
        }
        true
    }

    /// The number of entries whose key comes before `k`.
    fn lower_bound(&self, k: &K) -> (p: usize)
        requires
            self.wf(),
        ensures
            p <= self.entries().len(),
            forall|i: int| 0 <= i < p ==> (#[trigger] self.entries()[i]).0.rank() < k.rank(),
            forall|i: int|
                p <= i < self.entries().len() ==> (#[trigger] self.entries()[i]).0.rank()
                    >= k.rank(),
    {
        let mut p: usize = 0;
        while p < self.entries.len() && self.entries[p].0.precedes(k)
            invariant
                self.wf(),
                p <= self.entries@.len(),
                forall|i: int| 0 <= i < p ==> (#[trigger] self.entries@[i]).0.rank() < k.rank(),
            decreases self.entries@.len() - p,
        {
            p = p + 1;
        }
        assert forall|i: int| p <= i < self.entries().len() implies (
        #[trigger] self.entries()[i]).0.rank() >= k.rank() by {
            if p < i {
                assert(self.entries()[p as int].0.rank() < self.entries()[i].0.rank());
            }
        }
        p
    }

    /// The position of the entry with key `k`, if there is one.
    pub fn find(&self, k: &K) -> (r: Option<usize>)
        requires
            self.wf(),
        ensures
            match r {
                Some(i) => i < self.entries().len() && self.entries()[i as int].0 == *k
                    && self@.dom().contains(*k) && self@[*k] == self.entries()[i as int].1,
                None => !self@.dom().contains(*k),
            },
    {
        let p = self.lower_bound(k);
        if p < self.entries.len() && !k.precedes(&self.entries[p].0) {
            proof {
                K::rank_injective(self.entries()[p as int].0, *k);
                lemma_index_of_entry(self.entries(), p as int);
            }
            Some(p)
        } else {
            assert(!has_key(self.entries(), *k)) by {
                if has_key(self.entries(), *k) {
                    let j = index_of(self.entries(), *k);
                    assert(self.entries()[j].0 == *k);
                    if j < p {
                        assert(self.entries()[j].0.rank() < k.rank());
                    } else if j > p {
                        assert(self.entries()[p as int].0.rank() < self.entries()[j].0.rank());
                    }
                }
            }
            None
        }
    }

    pub fn contains_key(&self, k: &K) -> (b: bool)
        requires
            self.wf(),
        ensures
            b == self@.dom().contains(*k),
    {
        self.find(k).is_some()
    }

    /// The value stored under `k`, if there is one.
    pub fn get(&self, k: &K) -> (r: Option<&V>)
        requires
            self.wf(),
        ensures
            match r {
                Some(v) => self@.dom().contains(*k) && *v == self@[*k],
                None => !self@.dom().contains(*k),
            },
    {
        match self.find(k) {
            Some(i) => Some(&self.entries[i].1),
            None => None,
        }
    }

    /// Stores `v` under `k`, in place of what was stored there before.
    pub fn insert(&mut self, k: K, v: V)
        requires
            old(self).wf(),
        ensures
            final(self).wf(),
            final(self)@ == old(self)@.insert(k, v),
            final(self).entries().len() == old(self).entries().len() + (if old(self)@.dom().contains(
                k,
            ) {
                0int
            } else {
                1int
            }),
    {
        let p = self.lower_bound(&k);
        let ghost before = self.entries();
        if p < self.entries.len() && !k.precedes(&self.entries[p].0) {
            proof {
                K::rank_injective(before[p as int].0, k);
                lemma_index_of_entry(before, p as int);
            }
            self.entries.set(p, (k, v));
            proof {
                let after = self.entries();
                assert(after == before.update(p as int, (k, v)));
                assert(keys_increase(after)) by {
                    assert forall|i: int, j: int| 0 <= i < j < after.len() implies (
                    #[trigger] after[i]).0.rank() < (#[trigger] after[j]).0.rank() by {
                        assert(before[i].0.rank() < before[j].0.rank());
                    }
                }
                lemma_update_map(before, p as int, v);
            }
        } else {
            self.entries.insert(p, (k, v));
            proof {
                let after = self.entries();
                assert(after == before.insert(p as int, (k, v)));
                assert(!has_key(before, k)) by {
                    if has_key(before, k) {
                        let j = index_of(before, k);
                        assert(before[j].0 == k);
                        if j < p {
                            assert(before[j].0.rank() < k.rank());
                        } else if j > p {
                            assert(before[p as int].0.rank() < before[j].0.rank());
                        }
                    }
                }
                lemma_insert_map(before, p as int, k, v);
            }
        }
    }

    /// Adds an entry whose key comes after every key of the map.
    pub fn append(&mut self, k: K, v: V)
        requires
            old(self).wf(),
            forall|i: int|
                0 <= i < old(self).entries().len() ==> (#[trigger] old(self).entries()[i]).0.rank()
                    < k.rank(),
        ensures
            final(self).wf(),
            final(self).entries() == old(self).entries().push((k, v)),
            final(self)@ == old(self)@.insert(k, v),
    {
        let ghost before = self.entries();
        self.entries.push((k, v));
        proof {
            assert(before.push((k, v)) =~= before.insert(before.len() as int, (k, v)));
            lemma_insert_map(before, before.len() as int, k, v);
        }
    }

    /// Removes the entry under `k`, if there is one.
    pub fn remove(&mut self, k: &K)
        requires
            old(self).wf(),
        ensures
            final(self).wf(),
            final(self)@ == old(self)@.remove(*k),
    {
        let ghost before = self.entries();
        match self.find(k) {
            Some(i) => {
                self.entries.remove(i);
                proof {
                    assert(self.entries() == before.remove(i as int));
                    lemma_remove_map(before, i as int);
                }
            },
            None => {
                assert(self@ =~= old(self)@.remove(*k));
            },
        }
    }
}

impl<K: SortKey, V: Copy> SortedMap<K, V> {
    /// A copy of the map.
    pub fn duplicate(&self) -> (m: Self)
        requires
            self.wf(),
        ensures
            m.wf(),
            m.entries() == self.entries(),
            m@ == self@,
    {
        let mut m: SortedMap<K, V> = SortedMap::new();
        let mut i: usize = 0;
        while i < self.entries.len()
            invariant
                i <= self.entries@.len(),
                self.wf(),
                m.wf(),
                m.entries() == self.entries().take(i as int),
            decreases self.entries@.len() - i,
        {
            let k = self.entries[i].0;
            let v = self.entries[i].1;
            proof {
                assert forall|j: int| 0 <= j < m.entries().len() implies (
                #[trigger] m.entries()[j]).0.rank() < k.rank() by {
                    assert(self.entries()[j].0.rank() < self.entries()[i as int].0.rank());
                }
                assert(self.entries().take(i as int).push((k, v)) =~= self.entries().take(i + 1));
            }
            m.append(k, v);
            i = i + 1;
        }
        proof {
            assert(self.entries().take(self.entries().len() as int) =~= self.entries());
        }
        m
    }
}

/// Replacing the value of the entry at `p` replaces it in the map.
pub proof fn lemma_update_map<K: SortKey, V>(s: Seq<(K, V)>, p: int, v: V)
    requires
        keys_increase(s),
        0 <= p < s.len(),
    ensures
        keys_increase(s.update(p, (s[p].0, v))),
        entries_map(s.update(p, (s[p].0, v))) == entries_map(s).insert(s[p].0, v),
{
    let k = s[p].0;
    let t = s.update(p, (k, v));
    assert forall|i: int, j: int| 0 <= i < j < t.len() implies (#[trigger] t[i]).0.rank() < (
    #[trigger] t[j]).0.rank() by {
        assert(s[i].0.rank() < s[j].0.rank());
    }
    assert forall|x: K| has_key(t, x) == (has_key(s, x) || x == k) by {
        if has_key(t, x) {
            let i = index_of(t, x);
            assert(s[i].0 == x);
        }
        if has_key(s, x) {
            let i = index_of(s, x);
            assert(t[i].0 == x);
        }
        if x == k {
            assert(t[p].0 == x);
        }
    }
    assert forall|x: K| has_key(t, x) implies #[trigger] entries_map(t)[x] == entries_map(
        s,
    ).insert(k, v)[x] by {
        let i = index_of(t, x);
        lemma_index_of_entry(t, i);
        if x != k {
            assert(s[i].0 == x);
            lemma_index_of_entry(s, i);
        } else {
            lemma_index_of_entry(t, p);
        }
    }
    assert(entries_map(t) =~= entries_map(s).insert(k, v));
}

/// Inserting an entry with a new key at its place in the order inserts it in the map.
pub proof fn lemma_insert_map<K: SortKey, V>(s: Seq<(K, V)>, p: int, k: K, v: V)
    requires
        keys_increase(s),
        0 <= p <= s.len(),
        forall|i: int| 0 <= i < p ==> (#[trigger] s[i]).0.rank() < k.rank(),
        forall|i: int| p <= i < s.len() ==> (#[trigger] s[i]).0.rank() > k.rank(),
    ensures
        keys_increase(s.insert(p, (k, v))),
        entries_map(s.insert(p, (k, v))) == entries_map(s).insert(k, v),
        !has_key(s, k),
{
    let t = s.insert(p, (k, v));
    assert forall|i: int, j: int| 0 <= i < j < t.len() implies (#[trigger] t[i]).0.rank() < (
    #[trigger] t[j]).0.rank() by {
        let si = if i < p { i } else { i - 1 };
        let sj = if j < p { j } else { j - 1 };
        if i != p && j != p {
            assert(s[si].0.rank() < s[sj].0.rank());
        } else if i == p {
            assert(s[sj].0.rank() > k.rank());
        } else {
            assert(s[si].0.rank() < k.rank());
        }
    }
    assert(!has_key(s, k)) by {
        if has_key(s, k) {
            let j = index_of(s, k);
            assert(s[j].0 == k);
        }
    }
    assert forall|x: K| has_key(t, x) == (has_key(s, x) || x == k) by {
        if has_key(t, x) {
            let i = index_of(t, x);
            if i < p {
                assert(s[i].0 == x);
            } else if i > p {
                assert(s[i - 1].0 == x);
            }
        }
        if has_key(s, x) {
            let i = index_of(s, x);
            if i < p {
                assert(t[i].0 == x);
            } else {
                assert(t[i + 1].0 == x);
            }
        }
        if x == k {
            assert(t[p].0 == x);
        }
    }
    assert forall|x: K| has_key(t, x) implies #[trigger] entries_map(t)[x] == entries_map(
        s,
    ).insert(k, v)[x] by {
        let i = index_of(t, x);
        lemma_index_of_entry(t, i);
        if i < p {
            assert(s[i].0 == x);
            lemma_index_of_entry(s, i);
        } else if i > p {
            assert(s[i - 1].0 == x);
            lemma_index_of_entry(s, i - 1);
        }
    }
    assert(entries_map(t) =~= entries_map(s).insert(k, v));
}

/// Removing the entry at `p` removes its key from the map.
pub proof fn lemma_remove_map<K: SortKey, V>(s: Seq<(K, V)>, p: int)
    requires
        keys_increase(s),
        0 <= p < s.len(),
    ensures
        keys_increase(s.remove(p)),
        entries_map(s.remove(p)) == entries_map(s).remove(s[p].0),
{
    let k = s[p].0;
    let t = s.remove(p);
    assert forall|i: int, j: int| 0 <= i < j < t.len() implies (#[trigger] t[i]).0.rank() < (
    #[trigger] t[j]).0.rank() by {
        let si = if i < p { i } else { i + 1 };
        let sj = if j < p { j } else { j + 1 };
        assert(s[si].0.rank() < s[sj].0.rank());
    }
    assert forall|x: K| has_key(t, x) == (has_key(s, x) && x != k) by {
        if has_key(t, x) {
            let i = index_of(t, x);
            let si = if i < p { i } else { i + 1 };
            assert(s[si].0 == x);
            if si < p {
                assert(s[si].0.rank() < s[p].0.rank());
            } else {
                assert(s[p].0.rank() < s[si].0.rank());
            }
        }
        if has_key(s, x) && x != k {
            let i = index_of(s, x);
            if i < p {
                assert(t[i].0 == x);
            } else {
                assert(t[i - 1].0 == x);
            }
        }
    }
    assert forall|x: K| has_key(t, x) implies #[trigger] entries_map(t)[x] == entries_map(
        s,
    ).remove(k)[x] by {
        let i = index_of(t, x);
        lemma_index_of_entry(t, i);
        let si = if i < p { i } else { i + 1 };
        assert(s[si].0 == x);
        lemma_index_of_entry(s, si);
    }
    assert(entries_map(t) =~= entries_map(s).remove(k));
}

/// The entries of an ordered map are determined by the map: two sequences
/// with increasing keys that stand for the same map are the same sequence.
pub proof fn lemma_entries_determined<K: SortKey, V>(a: Seq<(K, V)>, b: Seq<(K, V)>)
    requires
        keys_increase(a),
        keys_increase(b),
        entries_map(a) == entries_map(b),
    ensures
        a == b,
    decreases a.len(),
{
    if a.len() == 0 {
        if b.len() > 0 {
            lemma_index_of_entry(b, 0);
            assert(entries_map(a).dom().contains(b[0].0));
            let j = index_of(a, b[0].0);
        }
        assert(a =~= b);
    } else {
        lemma_index_of_entry(a, 0);
        assert(entries_map(b).dom().contains(a[0].0));
        let j = index_of(b, a[0].0);
        assert(b[j].0 == a[0].0);
        lemma_index_of_entry(b, 0);
        assert(entries_map(a).dom().contains(b[0].0));
        let i = index_of(a, b[0].0);
        assert(a[i].0 == b[0].0);
        if j > 0 {
            assert(b[0].0.rank() < b[j].0.rank());
            if i > 0 {
                assert(a[0].0.rank() < a[i].0.rank());
            }
        }
        K::rank_injective(a[0].0, b[0].0);
        assert(a[0].1 == entries_map(a)[a[0].0]);
        assert(b[0].1 == entries_map(b)[b[0].0]);
        lemma_remove_map(a, 0);
        lemma_remove_map(b, 0);
        lemma_entries_determined(a.remove(0), b.remove(0));
        assert forall|k: int| 0 <= k < a.len() implies a[k] == b[k] by {
            if k > 0 {
                assert(a.remove(0)[k - 1] == a[k]);
                assert(b.remove(0)[k - 1] == b[k]);
            }
        }
        assert(a.remove(0).len() == b.remove(0).len());
        assert(a =~= b);
    }
}

} // verus!
