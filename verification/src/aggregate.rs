//! Validating the counts of a run of messages and folding them into daily
//! maxima.

use crate::counts::{max_merge, merge_maps, merge_max, DailyCounts};
use crate::date::{local_date, local_date_of, Date};
use crate::parse::{parse_count, parse_count_spec};
use crate::sorted_map::SortedMap;
use vstd::prelude::*;

verus! {

/// A message of the counting channel, as far as the engine reads it.
pub struct Message {
    /// The identity of the message.
    pub id: u64,
    /// Whether a bot or the system wrote it.
    pub from_bot: bool,
    /// The body of the message.
    pub content: String,
    /// When it was posted, in seconds since the Unix epoch.
    pub timestamp: i64,
}

/// A count read from a message, with the calendar day it was posted on.
#[derive(Clone, Copy, Debug, PartialEq, Eq, Structural)]
pub struct Observation {
    pub value: i64,
    pub date: Date,
}

/// What a message contributes: nothing where a bot wrote it, where its body
/// is no integer, or where its instant has no calendar date.
pub open spec fn observation_of(m: Message, utc: i8) -> Option<Observation> {
    if m.from_bot {
        None
    } else {
        match (parse_count_spec(m.content@), local_date_of(m.timestamp, utc)) {
            (Some(value), Some(date)) => Some(Observation { value, date }),
            _ => None,
        }
    }
}

/// The observations of a run of messages, in the order of the messages.
pub open spec fn observations(msgs: Seq<Message>, utc: i8) -> Seq<Observation>
    decreases msgs.len(),
{
    if msgs.len() == 0 {
        Seq::empty()
    } else {
        match observation_of(msgs.last(), utc) {
            Some(o) => observations(msgs.drop_last(), utc).push(o),
            None => observations(msgs.drop_last(), utc),
        }
    }
}

/// The observation at `i` is valid: it is the first of the run, or it is one
/// more than the observation before it, valid or not.
pub open spec fn valid_at(obs: Seq<Observation>, i: int) -> bool {
    i == 0 || obs[i].value == obs[i - 1].value + 1
}

/// The observation at `i` exists and is valid, so it is aggregated.
pub open spec fn counted(obs: Seq<Observation>, i: int) -> bool {
    0 <= i < obs.len() && valid_at(obs, i)
}

/// The number of observations that are not valid.
pub open spec fn invalid_count(obs: Seq<Observation>) -> nat
    decreases obs.len(),
{
    if obs.len() == 0 {
        0
    } else if valid_at(obs, obs.len() - 1) {
        invalid_count(obs.drop_last())
    } else {
        invalid_count(obs.drop_last()) + 1
    }
}

/// `m` holds, for each day with a valid observation, the largest valid value
/// observed on that day, and nothing else.
pub open spec fn is_daily_maximum(obs: Seq<Observation>, m: Map<Date, i64>) -> bool {
    &&& forall|d: Date| #[trigger]
        m.dom().contains(d) ==> exists|i: int| #[trigger]
            counted(obs, i) && obs[i].date == d && obs[i].value == m[d]
    &&& forall|i: int| #[trigger]
        counted(obs, i) ==> m.dom().contains(obs[i].date) && obs[i].value <= m[obs[i].date]
}

/// The daily maxima of a run of observations: each valid observation is
/// merged into its day by maximum, in order.
pub open spec fn daily_maximum(obs: Seq<Observation>) -> Map<Date, i64>
    decreases obs.len(),
{
    if obs.len() == 0 {
        Map::empty()
    } else if valid_at(obs, obs.len() - 1) {
        max_merge(daily_maximum(obs.drop_last()), obs.last().date, obs.last().value)
    } else {
        daily_maximum(obs.drop_last())
    }
}

/// The outcome of aggregating a run of messages.
pub struct Tally {
    /// The largest valid count of each day.
    pub counts: DailyCounts,
    /// How many counts broke the sequence.
    pub invalid: u64,
    /// The first count read, valid by definition.
    pub first_value: Option<i64>,
    /// The last count read, valid or not.
    pub last_value: Option<i64>,
}

/// Reads what one message contributes.
pub fn observe(m: &Message, utc: i8) -> (r: Option<Observation>)
    ensures
        r == observation_of(*m, utc),
{
    if m.from_bot {
        return None;
    }
    match parse_count(m.content.as_str()) {
        None => None,
        Some(value) => match local_date(m.timestamp, utc) {
            None => None,
            Some(date) => Some(Observation { value, date }),
        },
    }
}

/// Whether `value` continues the sequence after `last`.
pub fn is_valid_num(last: i64, value: i64) -> (b: bool)
    ensures
        b == (last + 1 == value),
{
    last < i64::MAX && last + 1 == value
}

/// Adding one observation to a run: the daily maxima take it in if it is
/// valid and stay as they are if it is not.
pub proof fn lemma_tally_step(obs: Seq<Observation>, m: Map<Date, i64>, o: Observation)
    requires
        is_daily_maximum(obs, m),
    ensures
        valid_at(obs.push(o), obs.len() as int) ==> is_daily_maximum(
            obs.push(o),
            max_merge(m, o.date, o.value),
        ),
        !valid_at(obs.push(o), obs.len() as int) ==> is_daily_maximum(obs.push(o), m),
{
    let obs2 = obs.push(o);
    let n = obs.len() as int;
    assert forall|i: int| 0 <= i < n implies counted(obs2, i) == counted(obs, i) by {
        assert(obs2[i] == obs[i]);
        if i > 0 {
            assert(obs2[i - 1] == obs[i - 1]);
        }
    }
    assert forall|i: int| counted(obs, i) implies #[trigger] counted(obs2, i) && obs2[i]
        == obs[i] by {}
    if valid_at(obs2, n) {
        let m2 = max_merge(m, o.date, o.value);
        assert(counted(obs2, n));
        assert forall|d: Date| #[trigger] m2.dom().contains(d) implies exists|i: int| #[trigger]
            counted(obs2, i) && obs2[i].date == d && obs2[i].value == m2[d] by {
            if d == o.date && m2[d] == o.value {
                assert(counted(obs2, n) && obs2[n].date == d && obs2[n].value == m2[d]);
            } else {
                assert(m.dom().contains(d));
                let i = choose|i: int| #[trigger]
                    counted(obs, i) && obs[i].date == d && obs[i].value == m[d];
                assert(counted(obs2, i) && obs2[i].date == d && obs2[i].value == m2[d]);
            }
        }
        assert forall|i: int| #[trigger] counted(obs2, i) implies m2.dom().contains(obs2[i].date)
            && obs2[i].value <= m2[obs2[i].date] by {
            if i < n {
                assert(counted(obs, i));
            }
        }
    } else {
        assert forall|d: Date| #[trigger] m.dom().contains(d) implies exists|i: int| #[trigger]
            counted(obs2, i) && obs2[i].date == d && obs2[i].value == m[d] by {
            let i = choose|i: int| #[trigger]
                counted(obs, i) && obs[i].date == d && obs[i].value == m[d];
            assert(counted(obs2, i) && obs2[i].date == d && obs2[i].value == m[d]);
        }
        assert forall|i: int| #[trigger] counted(obs2, i) implies m.dom().contains(obs2[i].date)
            && obs2[i].value <= m[obs2[i].date] by {
            assert(i < n);
            assert(counted(obs, i));
        }
    }
}

/// The daily maxima hold, for each day, the largest valid value observed on
/// it, and no day without a valid observation.
pub proof fn lemma_daily_maximum(obs: Seq<Observation>)
    ensures
        is_daily_maximum(obs, daily_maximum(obs)),
    decreases obs.len(),
{
    if obs.len() > 0 {
        let head = obs.drop_last();
        lemma_daily_maximum(head);
        lemma_tally_step(head, daily_maximum(head), obs.last());
        assert(head.push(obs.last()) =~= obs);
    }
}

/// The first value of a run of observations, if there is one.
pub open spec fn first_value_of(obs: Seq<Observation>) -> Option<i64> {
    if obs.len() > 0 {
        Some(obs.first().value)
    } else {
        None
    }
}

/// The last value of a run of observations, if there is one.
pub open spec fn last_value_of(obs: Seq<Observation>) -> Option<i64> {
    if obs.len() > 0 {
        Some(obs.last().value)
    } else {
        None
    }
}

/// Reads what each message of a run contributes: the observations of the
/// run, in its order.
pub fn observe_all(messages: &Vec<Message>, utc: i8) -> (obs: Vec<Observation>)
    ensures
        obs@ == observations(messages@, utc),
{
    let mut obs: Vec<Observation> = Vec::new();
    let mut i: usize = 0;
    while i < messages.len()
        invariant
            i <= messages.len(),
            obs@ == observations(messages@.take(i as int), utc),
        decreases messages.len() - i,
    {
        proof {
            let next = messages@.take(i + 1);
            assert(next.drop_last() =~= messages@.take(i as int));
            assert(next.last() == messages@[i as int]);
        }
        match observe(&messages[i], utc) {
            Some(o) => {
                obs.push(o);
            },
            None => {},
        }
        i = i + 1;
    }
    proof {
        assert(messages@.take(i as int) =~= messages@);
    }
    obs
}

/// Aggregates a run of observations given in chronological order: one that
/// does not continue the sequence is left out and tallied; each valid one is
/// merged into its day by maximum.
pub fn tally_observations(obs: &Vec<Observation>) -> (t: Tally)
    ensures
        t.counts.wf(),
        t.counts@ == daily_maximum(obs@),
        is_daily_maximum(obs@, t.counts@),
        t.invalid == invalid_count(obs@),
        t.first_value == first_value_of(obs@),
        t.last_value == last_value_of(obs@),
{
    let mut counts: DailyCounts = SortedMap::new();
    let mut invalid: u64 = 0;
    let mut last_value: Option<i64> = None;
    let mut i: usize = 0;
    while i < obs.len()
        invariant
            i <= obs.len(),
            counts.wf(),
            counts@ == daily_maximum(obs@.take(i as int)),
            is_daily_maximum(obs@.take(i as int), counts@),
            invalid == invalid_count(obs@.take(i as int)),
            invalid <= i,
            last_value == last_value_of(obs@.take(i as int)),
        decreases obs.len() - i,
    {
        let o = obs[i];
        let valid = match last_value {
            None => true,
            Some(last) => is_valid_num(last, o.value),
        };
        proof {
            let seen = obs@.take(i as int);
            let next = obs@.take(i + 1);
            assert(next =~= seen.push(o));
            assert(next.drop_last() =~= seen);
            assert(next.last() == o);
            lemma_tally_step(seen, counts@, o);
            assert(valid == valid_at(next, i as int));
        }
        if valid {
            merge_max(&mut counts, o.date, o.value);
        } else {
            invalid = invalid + 1;
        }
        last_value = Some(o.value);
        i = i + 1;
    }
    proof {
        assert(obs@.take(i as int) =~= obs@);
    }
    let first_value = if obs.len() > 0 {
        Some(obs[0].value)
    } else {
        None
    };
    Tally { counts, invalid, first_value, last_value }
}

/// Aggregates a run of messages given in chronological order: bot messages
/// and bodies that are no integer are skipped; a count that does not continue
/// the sequence is left out and tallied; each valid count is merged into its
/// day by maximum.
pub fn tally(messages: &Vec<Message>, utc: i8) -> (t: Tally)
    ensures
        t.counts.wf(),
        t.counts@ == daily_maximum(observations(messages@, utc)),
        is_daily_maximum(observations(messages@, utc), t.counts@),
        t.invalid == invalid_count(observations(messages@, utc)),
        t.first_value == first_value_of(observations(messages@, utc)),
        t.last_value == last_value_of(observations(messages@, utc)),
{
    let obs = observe_all(messages, utc);
    tally_observations(&obs)
}

/// The daily counts after a run of syncs, each of which aggregates its own
/// observations and merges them into the stored counts by maximum.
pub open spec fn merged_syncs(initial: Map<Date, i64>, syncs: Seq<Seq<Observation>>) -> Map<
    Date,
    i64,
>
    decreases syncs.len(),
{
    if syncs.len() == 0 {
        initial
    } else {
        merge_maps(merged_syncs(initial, syncs.drop_last()), daily_maximum(syncs.last()))
    }
}

/// The sync `k` has, at `i`, a valid observation for the day `d`.
pub open spec fn observed(syncs: Seq<Seq<Observation>>, k: int, i: int, d: Date) -> bool {
    0 <= k < syncs.len() && counted(syncs[k], i) && syncs[k][i].date == d
}

/// Max-merge: after any run of syncs, whatever their ranges share, a day has
/// a count if it had one before or a sync observed a valid value for it, and
/// its count is the largest of the count it had before and all valid values
/// that the syncs observed for it.
pub proof fn lemma_max_merge_monotone(
    initial: Map<Date, i64>,
    syncs: Seq<Seq<Observation>>,
    d: Date,
)
    ensures
        merged_syncs(initial, syncs).dom().contains(d) <==> (initial.dom().contains(d)
            || exists|k: int, i: int| observed(syncs, k, i, d)),
        initial.dom().contains(d) ==> merged_syncs(initial, syncs)[d] >= initial[d],
        forall|k: int, i: int| #[trigger]
            observed(syncs, k, i, d) ==> merged_syncs(initial, syncs)[d] >= syncs[k][i].value,
        merged_syncs(initial, syncs).dom().contains(d) ==> (initial.dom().contains(d)
            && merged_syncs(initial, syncs)[d] == initial[d]) || exists|k: int, i: int|
            observed(syncs, k, i, d) && syncs[k][i].value == merged_syncs(initial, syncs)[d],
    decreases syncs.len(),
{
    let m = merged_syncs(initial, syncs);
    if syncs.len() == 0 {
        assert forall|k: int, i: int| !observed(syncs, k, i, d) by {}
    } else {
        let head = syncs.drop_last();
        let last = syncs.last();
        let n = syncs.len() - 1;
        let before = merged_syncs(initial, head);
        let fresh = daily_maximum(last);
        lemma_max_merge_monotone(initial, head, d);
        lemma_daily_maximum(last);
        assert forall|k: int, i: int| observed(head, k, i, d) implies observed(syncs, k, i, d) by {
            assert(head[k] == syncs[k]);
        }
        assert forall|k: int, i: int| observed(syncs, k, i, d) && k < n implies observed(
            head,
            k,
            i,
            d,
        ) by {
            assert(head[k] == syncs[k]);
        }
        // a day of the last sync has a witness in it
        if fresh.dom().contains(d) {
            let i = choose|i: int| #[trigger]
                counted(last, i) && last[i].date == d && last[i].value == fresh[d];
            assert(observed(syncs, n, i, d) && syncs[n][i].value == fresh[d]);
        }
        if exists|k: int, i: int| observed(syncs, k, i, d) {
            let (k, i) = choose|k: int, i: int| observed(syncs, k, i, d);
            if k < n {
                assert(observed(head, k, i, d));
            } else {
                assert(counted(last, i));
            }
        }
        if exists|k: int, i: int| observed(head, k, i, d) {
            let (k, i) = choose|k: int, i: int| observed(head, k, i, d);
            assert(observed(syncs, k, i, d));
        }
        assert forall|k: int, i: int| #[trigger] observed(syncs, k, i, d) implies m[d]
            >= syncs[k][i].value by {
            if k < n {
                assert(observed(head, k, i, d));
            } else {
                assert(counted(last, i));
            }
        }
        if m.dom().contains(d) && !(initial.dom().contains(d) && m[d] == initial[d]) {
            if fresh.dom().contains(d) && m[d] == fresh[d] {
                let i = choose|i: int| #[trigger]
                    counted(last, i) && last[i].date == d && last[i].value == fresh[d];
                assert(observed(syncs, n, i, d) && syncs[n][i].value == m[d]);
            } else {
                assert(before.dom().contains(d) && m[d] == before[d]);
                let (k, i) = choose|k: int, i: int|
                    observed(head, k, i, d) && head[k][i].value == before[d];
                assert(observed(syncs, k, i, d) && syncs[k][i].value == m[d]);
            }
        }
    }
}

} // verus!
