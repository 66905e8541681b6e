//! Daily counts: for each calendar day the largest valid count seen on it.

use crate::date::Date;
use crate::sorted_map::{entries_map, keys_increase, lemma_insert_map, SortKey, SortedMap};
use vstd::prelude::*;

verus! {

/// The largest valid count of each day, ordered by date.
pub type DailyCounts = SortedMap<Date, i64>;

/// The map after one more count for `date`: the larger of the stored count
/// and the new one stays.
pub open spec fn max_merge(m: Map<Date, i64>, date: Date, value: i64) -> Map<Date, i64> {
    if m.dom().contains(date) && m[date] >= value {
        m
    } else {
        m.insert(date, value)
    }
}

/// The day by day maximum of two maps.
pub open spec fn merge_maps(a: Map<Date, i64>, b: Map<Date, i64>) -> Map<Date, i64> {
    Map::new(
        |d: Date| a.dom().contains(d) || b.dom().contains(d),
        |d: Date|
            if a.dom().contains(d) && b.dom().contains(d) {
                if a[d] >= b[d] {
                    a[d]
                } else {
                    b[d]
                }
            } else if a.dom().contains(d) {
                a[d]
            } else {
                b[d]
            },
    )
}

/// Records `value` for `date` unless a count at least as large is stored.
pub fn merge_max(counts: &mut DailyCounts, date: Date, value: i64)
    requires
        old(counts).wf(),
    ensures
        final(counts).wf(),
        final(counts)@ == max_merge(old(counts)@, date, value),
{
    let keep = match counts.get(&date) {
        Some(stored) => *stored >= value,
        None => false,
    };
    if !keep {
        counts.insert(date, value);
    }
}

/// Merges every day of `newer` into `counts`, keeping the larger count.
pub fn merge_counts(counts: &mut DailyCounts, newer: &DailyCounts)
    requires
        old(counts).wf(),
        newer.wf(),
    ensures
        final(counts).wf(),
        final(counts)@ == merge_maps(old(counts)@, newer@),
{
    let n = newer.len();
    let mut i: usize = 0;
    let ghost entries = newer.entries();
    while i < n
        invariant
            i <= n,
            n == entries.len(),
            entries == newer.entries(),
            newer.wf(),
            counts.wf(),
            counts@ == merge_maps(old(counts)@, entries_map(entries.take(i as int))),
        decreases n - i,
    {
        let date = newer.key_at(i);
        let value = *newer.value_at(i);
        let ghost before = counts@;
        merge_max(counts, date, value);
        proof {
            let head = entries.take(i as int);
            let next = entries.take(i + 1);
            assert(next =~= head.push(entries[i as int]));
            lemma_take_increases(entries, i + 1);
            lemma_take_increases(entries, i as int);
            assert(head.push((date, value)) =~= head.insert(head.len() as int, (date, value)));
            assert forall|j: int| 0 <= j < head.len() implies (#[trigger] head[j]).0.rank()
                < date.rank() by {
                assert(entries[j].0.rank() < entries[i as int].0.rank());
            }
            lemma_insert_map(head, head.len() as int, date, value);
            assert(counts@ =~= merge_maps(old(counts)@, entries_map(next)));
        }
        i = i + 1;
    }
    proof {
        assert(entries.take(n as int) =~= entries);
    }
}

/// A prefix of a sequence with increasing keys has increasing keys.
pub proof fn lemma_take_increases<K: SortKey, V>(s: Seq<(K, V)>, n: int)
    requires
        keys_increase(s),
        0 <= n <= s.len(),
    ensures
        keys_increase(s.take(n)),
{
    let t = s.take(n);
    assert forall|i: int, j: int| 0 <= i < j < t.len() implies (#[trigger] t[i]).0.rank() < (
    #[trigger] t[j]).0.rank() by {
        assert(s[i].0.rank() < s[j].0.rank());
    }
}

} // verus!
