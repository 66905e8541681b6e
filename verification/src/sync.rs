//! The two synchronisations of a guild. A full rescan reads the whole
//! history and rebuilds every report; an incremental sync reads what is new
//! and rebuilds the report of the current year. Both leave the state of the
//! guild untouched until they commit.

use crate::aggregate::{
    daily_maximum, invalid_count, observations, tally, Message, Observation,
};
use crate::counts::{merge_counts, merge_maps, DailyCounts};
use crate::data::{GuildData, PageIds, ReportIndex, IDs};
use crate::date::{local_date, local_date_of, Date};
use crate::paginate::all_lines;
use crate::progress::RescanProgress;
use crate::report::{
    generate_log_messages, is_report, is_year_list, second_lang, year_counts, year_entries, years,
};
use crate::render::LabelTexts;
use crate::reconcile::{
    all_edited, lemma_reconcile_twice, next_action, outcome_of, page_numbers, reconcile_run,
    start_of, ReconcileAction, ReconcileReply, Reconciler,
};
use crate::scan::{resume_cursor_of, scan_step, Direction, FetchRequest, Scan, ScanView};
use crate::session::SyncFailure;
use crate::sorted_map::{lemma_entries_determined, SortedMap};
use crate::words::{header_labels_spec, Dictionary};
use std::collections::BTreeMap;
use vstd::prelude::*;

verus! {

/// The number of seconds between two automatic synchronisations.
pub const AUTO_SYNC_PERIOD_SECS: u64 = 300;

/// The rendered report of one year.
pub struct YearReport {
    pub year: i32,
    pub messages: SortedMap<i64, String>,
}

/// The years of a run of reports.
pub open spec fn report_years(reports: Seq<YearReport>) -> Seq<i32> {
    Seq::new(reports.len(), |k: int| reports[k].year)
}

/// The count that the report of the `k`-th year grows from: the final count
/// of the year before, and zero for the first year.
pub open spec fn carry_into(entries: Seq<(Date, i64)>, years: Seq<i32>, k: int) -> i64
    decreases k,
{
    if k <= 0 {
        0
    } else if year_entries(entries, years[k - 1]).len() > 0 {
        year_entries(entries, years[k - 1]).last().1
    } else {
        carry_into(entries, years, k - 1)
    }
}

/// `reports` holds the report of each year that has counts, in increasing
/// order of the years, each growing from the final count of the year before.
pub open spec fn is_yearly_report(
    reports: Seq<YearReport>,
    entries: Seq<(Date, i64)>,
    labels: LabelTexts,
    utc: i8,
) -> bool {
    &&& is_year_list(report_years(reports), entries)
    &&& forall|k: int|
        0 <= k < reports.len() ==> (#[trigger] reports[k]).messages.wf() && is_report(
            reports[k].messages.entries(),
            labels,
            utc,
            all_lines(
                year_entries(entries, reports[k].year),
                carry_into(entries, report_years(reports), k),
            ),
        )
}

/// The words of the page headers of a guild.
pub open spec fn guild_labels(dictionary: Dictionary, guild_data: GuildData) -> LabelTexts {
    header_labels_spec(
        dictionary,
        guild_data.settings.lang@,
        second_lang(guild_data.settings.lang2),
    )
}

/// Renders the report of every year that has counts.
pub fn yearly_reports(dictionary: &Dictionary, guild_data: &GuildData, counts: &DailyCounts) -> (reports:
    Vec<YearReport>)
    requires
        counts.wf(),
    ensures
        is_yearly_report(
            reports@,
            counts.entries(),
            guild_labels(*dictionary, *guild_data),
            guild_data.settings.utc,
        ),
{
    let ys = years(counts);
    let ghost entries = counts.entries();
    let ghost labels = guild_labels(*dictionary, *guild_data);
    let utc = guild_data.settings.utc;
    let mut reports: Vec<YearReport> = Vec::new();
    let mut carry: i64 = 0;
    let mut k: usize = 0;
    while k < ys.len()
        invariant
            k <= ys.len(),
            counts.wf(),
            entries == counts.entries(),
            labels == guild_labels(*dictionary, *guild_data),
            utc == guild_data.settings.utc,
            is_year_list(ys@, entries),
            carry == carry_into(entries, ys@, k as int),
            reports@.len() == k,
            forall|j: int| 0 <= j < k ==> (#[trigger] reports@[j]).year == ys@[j],
            forall|j: int|
                0 <= j < k ==> (#[trigger] reports@[j]).messages.wf() && is_report(
                    reports@[j].messages.entries(),
                    labels,
                    utc,
                    all_lines(year_entries(entries, ys@[j]), carry_into(entries, ys@, j)),
                ),
        decreases ys.len() - k,
    {
        let year = ys[k];
        let part = year_counts(counts, year);
        let messages = generate_log_messages(dictionary, guild_data, &part, Some(carry));
        let n = part.len();
        let ghost done = reports@;
        reports.push(YearReport { year, messages });
        if n > 0 {
            carry = *part.value_at(n - 1);
        }
        proof {
            assert forall|j: int| 0 <= j < k + 1 implies (#[trigger] reports@[j]).year
                == ys@[j] by {
                if j < k {
                    assert(reports@[j] == done[j]);
                }
            }
            assert forall|j: int| 0 <= j < k + 1 implies (#[trigger] reports@[j]).messages.wf()
                && is_report(
                reports@[j].messages.entries(),
                labels,
                utc,
                all_lines(year_entries(entries, ys@[j]), carry_into(entries, ys@, j)),
            ) by {
                if j < k {
                    assert(reports@[j] == done[j]);
                }
            }
        }
        k = k + 1;
    }
    proof {
        assert(report_years(reports@) =~= ys@);
    }
    reports
}

/// The message ids recorded for a year; none where the year has no
/// published report.
pub open spec fn prior_ids(index: Map<i32, PageIds>, year: i32) -> Map<i64, u64> {
    if index.dom().contains(year) {
        index[year]@
    } else {
        Map::empty()
    }
}

/// A copy of the message ids recorded for a year.
pub fn prior_page_ids(index: &ReportIndex, year: i32) -> (prior: PageIds)
    ensures
        prior@ == prior_ids(index@, year),
{
    match index.get(&year) {
        Some(ids) => ids.clone(),
        None => BTreeMap::new(),
    }
}

/// A full rescan in its scanning phase. The state of the guild is carried
/// along untouched.
pub struct FullRescan {
    pub baseline: GuildData,
    pub scan: Scan,
}

/// A synchronisation in its scanning phase, as plain values.
pub struct ScanningView {
    pub baseline: GuildData,
    pub scan: ScanView,
}

impl View for FullRescan {
    type V = ScanningView;

    open spec fn view(&self) -> ScanningView {
        ScanningView { baseline: self.baseline, scan: self.scan@ }
    }
}

/// The scanning phase after a page has come: only the scan moves.
pub open spec fn scanning_step(v: ScanningView, page: Seq<Message>) -> ScanningView {
    ScanningView { baseline: v.baseline, scan: scan_step(v.scan, page) }
}

/// The scanning phase after a run of pages.
pub open spec fn scanning_after(v: ScanningView, pages: Seq<Seq<Message>>) -> ScanningView
    decreases pages.len(),
{
    if pages.len() == 0 {
        v
    } else {
        scanning_step(scanning_after(v, pages.drop_last()), pages.last())
    }
}

/// Cancellation safety: whatever pages have come before a synchronisation is
/// given up, the state that `cancel` hands back is the state that the
/// synchronisation began with.
pub proof fn lemma_cancel_restores(v: ScanningView, pages: Seq<Seq<Message>>)
    ensures
        scanning_after(v, pages).baseline == v.baseline,
    decreases pages.len(),
{
    if pages.len() > 0 {
        lemma_cancel_restores(v, pages.drop_last());
    }
}

/// A full rescan after its scan: what it will commit, and the reports that
/// are to be reconciled first.
pub struct RescanPlan {
    pub baseline: GuildData,
    /// The daily counts of the whole history.
    pub counts: DailyCounts,
    /// The cursor that the scan leaves behind.
    pub cursor: Option<u64>,
    /// How many counts broke the sequence.
    pub invalid: u64,
    /// The reports of the years that are still to be published, in
    /// increasing order of the years.
    pub reports: Vec<YearReport>,
    /// The message ids of the years that have been published.
    pub published: ReportIndex,
    /// The year whose pages are being reconciled.
    pub outstanding: Option<i32>,
    /// Why the plan was given up, where a reconciliation did not come to
    /// its end.
    pub failure: Option<SyncFailure>,
}

/// The index `after` is `before` with the ids `ids` recorded for `year`,
/// and every other year as it was.
pub open spec fn year_recorded(
    after: Map<i32, PageIds>,
    before: Map<i32, PageIds>,
    year: i32,
    ids: Map<i64, u64>,
) -> bool {
    &&& after.dom() == before.dom().insert(year)
    &&& after[year]@ == ids
    &&& forall|y: i32| y != year && before.dom().contains(y) ==> #[trigger] after[y] == before[y]
}

/// The state of a guild after a synchronisation has committed: the counts,
/// the cursor and the index of published pages are replaced, and what the
/// guild has set up stays.
pub open spec fn committed(
    g: GuildData,
    baseline: GuildData,
    counts: DailyCounts,
    cursor: Option<u64>,
    index: ReportIndex,
) -> bool {
    &&& g.is_setup == baseline.is_setup
    &&& g.settings == baseline.settings
    &&& g.ids.log_channel_id == baseline.ids.log_channel_id
    &&& g.ids.counting_channel_id == baseline.ids.counting_channel_id
    &&& g.ids.log_helper_msg_id == baseline.ids.log_helper_msg_id
    &&& g.ids.last_scanned_msg_id == cursor
    &&& g.ids.log_msg_map == index
    &&& g.daily_counts == counts
}

impl FullRescan {
    /// Begins a full rescan: the scan starts at the newest message, with no
    /// cursor, and walks back.
    pub fn start(guild_data: GuildData) -> (r: FullRescan)
        ensures
            r.baseline == guild_data,
            r.scan@ == (ScanView {
                direction: Direction::Before,
                boundary: None,
                finished: false,
                history: Seq::empty(),
                first_count: None,
                latest_count: None,
            }),
    {
        FullRescan { baseline: guild_data, scan: Scan::begin(Direction::Before, None) }
    }

    /// The next fetch, unless the scan has ended.
    pub fn next_request(&self) -> (r: Option<FetchRequest>)
        ensures
            r is None <==> self.scan.finished,
            r matches Some(q) ==> q.direction == self.scan.direction && q.cursor
                == self.scan.boundary && q.limit == crate::scan::FETCH_LIMIT,
    {
        self.scan.next_request()
    }

    /// Takes in a page as the platform returned it.
    pub fn accept_page(&mut self, page: Vec<Message>)
        ensures
            final(self)@ == scanning_step(old(self)@, page@),
    {
        self.scan.accept_page(page);
    }

    /// The figures for a progress report, once a count has been read.
    pub fn progress(&self) -> (p: Option<RescanProgress>)
        ensures
            match p {
                Some(figures) => self.scan.latest_count == Some(figures.current)
                    && self.scan.first_count == Some(figures.total) && figures.invalid
                    == invalid_count(
                    observations(self.scan.history@, self.baseline.settings.utc),
                ),
                None => self.scan.latest_count is None || self.scan.first_count is None,
            },
    {
        match (self.scan.latest_count, self.scan.first_count) {
            (Some(current), Some(total)) => {
                let t = tally(&self.scan.history, self.baseline.settings.utc);
                Some(RescanProgress { current, total, invalid: t.invalid })
            },
            _ => None,
        }
    }

    /// Gives the rescan up, after a cancellation or a failure: what was
    /// gathered is dropped, and the state of the guild is as it was when the
    /// rescan began.
    pub fn cancel(self) -> (g: GuildData)
        ensures
            g == self@.baseline,
    {
        self.baseline
    }

    /// Ends the scanning phase: aggregates the history and renders the
    /// report of every year.
    pub fn finish_scan(self, dictionary: &Dictionary) -> (plan: RescanPlan)
        requires
            self.baseline.wf(),
        ensures
            plan.wf(),
            plan.baseline == self.baseline,
            plan.published@ == Map::<i32, PageIds>::empty(),
            plan.outstanding is None,
            plan.failure is None,
            plan.counts@ == daily_maximum(
                observations(self.scan.history@, self.baseline.settings.utc),
            ),
            plan.invalid == invalid_count(
                observations(self.scan.history@, self.baseline.settings.utc),
            ),
            plan.cursor == resume_cursor_of(self.scan@),
            is_yearly_report(
                plan.reports@,
                plan.counts.entries(),
                guild_labels(*dictionary, self.baseline),
                self.baseline.settings.utc,
            ),
    {
        let FullRescan { baseline, scan } = self;
        let t = tally(&scan.history, baseline.settings.utc);
        let cursor = scan.resume_cursor();
        let reports = yearly_reports(dictionary, &baseline, &t.counts);
        RescanPlan {
            baseline,
            counts: t.counts,
            cursor,
            invalid: t.invalid,
            reports,
            published: BTreeMap::new(),
            outstanding: None,
            failure: None,
        }
    }
}

impl RescanPlan {
    /// The invariant of the type: every map is in key order.
    pub open spec fn wf(self) -> bool {
        &&& self.baseline.wf()
        &&& self.counts.wf()
        &&& forall|k: int|
            0 <= k < self.reports@.len() ==> (#[trigger] self.reports@[k]).messages.wf()
    }

    /// What stays while the years are published one by one.
    pub open spec fn same_outcome(self, before: RescanPlan) -> bool {
        &&& self.baseline == before.baseline
        &&& self.counts == before.counts
        &&& self.cursor == before.cursor
        &&& self.invalid == before.invalid
    }

    /// Gives the rescan up: the state of the guild is as it was when the
    /// rescan began.
    pub fn cancel(self) -> (g: GuildData)
        ensures
            g == self.baseline,
    {
        self.baseline
    }

    /// Whether every year has been published, so that the plan can commit.
    pub open spec fn is_complete(self) -> bool {
        self.failure is None && self.outstanding is None && self.reports@.len() == 0
    }

    /// Takes the next year that is to be published, and begins the
    /// reconciliation of its pages with the message ids that the guild has
    /// recorded for that year. `None` when every year has been taken, while
    /// a year is being reconciled, and after a failure.
    pub fn next_year(&mut self) -> (next: Option<Reconciler>)
        requires
            old(self).wf(),
        ensures
            final(self).wf(),
            final(self).same_outcome(*old(self)),
            final(self).published == old(self).published,
            final(self).failure == old(self).failure,
            next is Some <==> (old(self).failure is None && old(self).outstanding is None && old(
                self,
            ).reports@.len() > 0),
            next is None ==> final(self).reports == old(self).reports && final(self).outstanding
                == old(self).outstanding,
            next matches Some(reconciler) ==> final(self).outstanding == Some(
                old(self).reports@[0].year,
            ) && final(self).reports@ == old(self).reports@.remove(0) && reconciler.wf()
                && reconciler.rendered == old(self).reports@[0].messages && reconciler@
                == start_of(
                prior_ids(old(self).baseline.ids.log_msg_map@, old(self).reports@[0].year),
                page_numbers(old(self).reports@[0].messages.entries()),
            ),
    {
        if self.failure.is_some() || self.outstanding.is_some() || self.reports.len() == 0 {
            return None;
        }
        let ghost before = self.reports@;
        let report = self.reports.remove(0);
        proof {
            assert forall|k: int| 0 <= k < self.reports@.len() implies (
            #[trigger] self.reports@[k]).messages.wf() by {
                assert(self.reports@[k] == before[k + 1]);
            }
        }
        self.outstanding = Some(report.year);
        let prior = prior_page_ids(&self.baseline.ids.log_msg_map, report.year);
        Some(Reconciler::begin(prior, report.messages))
    }

    /// Takes back the reconciliation of the year that was handed out. Where
    /// it has dealt with every page, the ids it recorded are kept for the
    /// year. Where it has not, the plan is given up: no further year is
    /// handed out and the plan does not commit. Returns the failure of the
    /// plan, if there is one.
    pub fn finish_year(&mut self, reconciler: Reconciler) -> (r: Result<(), SyncFailure>)
        requires
            old(self).wf(),
            reconciler.wf(),
        ensures
            final(self).wf(),
            final(self).same_outcome(*old(self)),
            final(self).reports == old(self).reports,
            r == (match final(self).failure {
                Some(e) => Err::<(), SyncFailure>(e),
                None => Ok::<(), SyncFailure>(()),
            }),
            match (old(self).outstanding, outcome_of(reconciler@)) {
                (Some(year), Ok(ids)) => final(self).outstanding is None && final(self).failure
                    == old(self).failure && year_recorded(
                    final(self).published@,
                    old(self).published@,
                    year,
                    ids,
                ),
                (Some(_), Err(e)) => final(self).outstanding is None && final(self).failure
                    == Some(e) && final(self).published == old(self).published,
                (None, _) => final(self).outstanding is None && final(self).failure == old(
                    self,
                ).failure && final(self).published == old(self).published,
            },
    {
        match self.outstanding {
            Some(year) => {
                self.outstanding = None;
                match reconciler.into_page_ids() {
                    Ok(ids) => {
                        self.published.insert(year, ids);
                    },
                    Err(e) => {
                        self.failure = Some(e);
                    },
                }
            },
            None => {},
        }
        match self.failure {
            Some(e) => Err(e),
            None => Ok(()),
        }
    }

    /// Commits the rescan where every year has been published: the counts,
    /// the cursor and the index of published pages are replaced by what the
    /// rescan has found and published. A plan that is not complete does not
    /// commit: the state of the guild is handed back as it was when the
    /// rescan began.
    pub fn commit(self) -> (r: Result<GuildData, GuildData>)
        requires
            self.wf(),
        ensures
            match r {
                Ok(g) => self.is_complete() && g.wf() && committed(
                    g,
                    self.baseline,
                    self.counts,
                    self.cursor,
                    self.published,
                ),
                Err(g) => !self.is_complete() && g == self.baseline,
            },
    {
        if self.failure.is_some() || self.outstanding.is_some() || self.reports.len() > 0 {
            return Err(self.baseline);
        }
        let RescanPlan {
            baseline,
            counts,
            cursor,
            invalid: _,
            reports: _,
            published,
            outstanding: _,
            failure: _,
        } = self;
        Ok(
            GuildData {
                is_setup: baseline.is_setup,
                settings: baseline.settings,
                ids: IDs {
                    log_channel_id: baseline.ids.log_channel_id,
                    counting_channel_id: baseline.ids.counting_channel_id,
                    log_msg_map: published,
                    last_scanned_msg_id: cursor,
                    log_helper_msg_id: baseline.ids.log_helper_msg_id,
                },
                daily_counts: counts,
            },
        )
    }
}

/// Rescanning twice: the daily counts that a rescan commits are determined
/// by the observations of the history, entry by entry, so a second rescan of
/// the same history commits the counts that the first committed.
pub proof fn lemma_rescan_counts_determined(
    first: DailyCounts,
    second: DailyCounts,
    history: Seq<Observation>,
)
    requires
        first.wf(),
        second.wf(),
        first@ == daily_maximum(history),
        second@ == daily_maximum(history),
    ensures
        first.entries() == second.entries(),
{
    lemma_entries_determined(first.entries(), second.entries());
}

/// Rescanning twice: where a first rescan has published a year, whatever
/// the replies of the platform were, and committed, a second rescan that
/// renders the same pages for that year and finds every message of it sends
/// no new message, edits each page under the id stored for it, and leaves
/// the ids of the year as the first rescan stored them.
pub proof fn lemma_rescan_twice(
    stored: Map<i32, PageIds>,
    year: i32,
    prior: Map<i64, u64>,
    numbers: Seq<i64>,
    replies: Seq<ReconcileReply>,
)
    requires
        next_action(reconcile_run(start_of(prior, numbers), replies))
            == ReconcileAction::Finished,
        stored.dom().contains(year),
        stored[year]@ == reconcile_run(start_of(prior, numbers), replies).result,
    ensures
        outcome_of(
            reconcile_run(start_of(prior_ids(stored, year), numbers), all_edited(numbers.len())),
        ) == Ok::<Map<i64, u64>, SyncFailure>(stored[year]@),
        forall|k: int|
            0 <= k < numbers.len() ==> #[trigger] next_action(
                reconcile_run(start_of(prior_ids(stored, year), numbers), all_edited(k as nat)),
            ) == (ReconcileAction::Edit { page: numbers[k], message_id: stored[year]@[numbers[k]] }),
{
    lemma_reconcile_twice(prior, numbers, replies);
}

/// An incremental sync in its scanning phase.
pub struct IncrementalSync {
    pub baseline: GuildData,
    pub scan: Scan,
}

impl View for IncrementalSync {
    type V = ScanningView;

    open spec fn view(&self) -> ScanningView {
        ScanningView { baseline: self.baseline, scan: self.scan@ }
    }
}

/// An incremental sync after its scan.
pub struct SyncPlan {
    /// The state of the guild with the new counts merged in and the cursor
    /// advanced.
    pub merged: GuildData,
    /// The current year in the guild's time, whose report is rebuilt.
    pub year: Option<i32>,
    /// The rendered pages of the current year.
    pub messages: SortedMap<i64, String>,
}

/// Whether a full rescan can run for the guild: it has a counting channel
/// to read and a log channel to publish in.
pub fn can_rescan(guild_data: &GuildData) -> (b: bool)
    ensures
        b == (guild_data.ids.counting_channel_id is Some && guild_data.ids.log_channel_id
            is Some),
{
    guild_data.ids.counting_channel_id.is_some() && guild_data.ids.log_channel_id.is_some()
}

/// Whether the periodic tick synchronises the guild: it has asked for it and
/// has both channels.
pub fn should_auto_sync(guild_data: &GuildData) -> (b: bool)
    ensures
        b == (guild_data.settings.auto_relog && guild_data.ids.counting_channel_id is Some
            && guild_data.ids.log_channel_id is Some),
{
    guild_data.settings.auto_relog && guild_data.ids.counting_channel_id.is_some()
        && guild_data.ids.log_channel_id.is_some()
}

/// The year of a date, if there is one.
pub open spec fn year_of(date: Option<Date>) -> Option<i32> {
    match date {
        Some(d) => Some(d.year),
        None => None,
    }
}

impl IncrementalSync {
    /// Begins an incremental sync: the scan goes forward from the stored
    /// cursor.
    pub fn start(guild_data: GuildData) -> (r: IncrementalSync)
        ensures
            r.baseline == guild_data,
            r.scan@ == (ScanView {
                direction: Direction::After,
                boundary: guild_data.ids.last_scanned_msg_id,
                finished: false,
                history: Seq::empty(),
                first_count: None,
                latest_count: None,
            }),
    {
        let cursor = guild_data.ids.last_scanned_msg_id;
        IncrementalSync { baseline: guild_data, scan: Scan::begin(Direction::After, cursor) }
    }

    /// The next fetch, unless the scan has ended.
    pub fn next_request(&self) -> (r: Option<FetchRequest>)
        ensures
            r is None <==> self.scan.finished,
            r matches Some(q) ==> q.direction == self.scan.direction && q.cursor
                == self.scan.boundary && q.limit == crate::scan::FETCH_LIMIT,
    {
        self.scan.next_request()
    }

    /// Takes in a page as the platform returned it.
    pub fn accept_page(&mut self, page: Vec<Message>)
        ensures
            final(self)@ == scanning_step(old(self)@, page@),
    {
        self.scan.accept_page(page);
    }

    /// Gives the sync up: the state of the guild is as it was when the sync
    /// began.
    pub fn cancel(self) -> (g: GuildData)
        ensures
            g == self@.baseline,
    {
        self.baseline
    }

    /// Ends the scanning phase: merges the new counts into the stored ones
    /// by maximum, advances the cursor, and renders the report of the year
    /// that `now` lies in. The reports of other years are not rendered.
    pub fn finish_scan(self, dictionary: &Dictionary, now: i64) -> (plan: SyncPlan)
        requires
            self.baseline.wf(),
        ensures
            plan.wf(),
            plan.merged.daily_counts@ == merge_maps(
                self.baseline.daily_counts@,
                daily_maximum(observations(self.scan.history@, self.baseline.settings.utc)),
            ),
            plan.merged.ids.last_scanned_msg_id == resume_cursor_of(self.scan@),
            plan.merged.ids.log_msg_map == self.baseline.ids.log_msg_map,
            plan.merged.is_setup == self.baseline.is_setup,
            plan.merged.settings == self.baseline.settings,
            plan.merged.ids.log_channel_id == self.baseline.ids.log_channel_id,
            plan.merged.ids.counting_channel_id == self.baseline.ids.counting_channel_id,
            plan.merged.ids.log_helper_msg_id == self.baseline.ids.log_helper_msg_id,
            plan.year == year_of(local_date_of(now, self.baseline.settings.utc)),
            match plan.year {
                Some(year) => is_report(
                    plan.messages.entries(),
                    guild_labels(*dictionary, self.baseline),
                    self.baseline.settings.utc,
                    all_lines(year_entries(plan.merged.daily_counts.entries(), year), 0),
                ),
                None => plan.messages.entries().len() == 0,
            },
    {
        let IncrementalSync { baseline, scan } = self;
        let mut merged = baseline;
        let t = tally(&scan.history, merged.settings.utc);
        merge_counts(&mut merged.daily_counts, &t.counts);
        merged.ids.last_scanned_msg_id = scan.resume_cursor();
        match local_date(now, merged.settings.utc) {
            Some(today) => {
                let part = year_counts(&merged.daily_counts, today.year);
                let messages = generate_log_messages(dictionary, &merged, &part, None);
                SyncPlan { merged, year: Some(today.year), messages }
            },
            None => SyncPlan { merged, year: None, messages: SortedMap::new() },
        }
    }
}

impl SyncPlan {
    /// The invariant of the type: every map is in key order.
    pub open spec fn wf(self) -> bool {
        self.merged.wf() && self.messages.wf()
    }

    /// The message ids that the guild has recorded for the current year.
    pub open spec fn prior(self) -> Map<i64, u64> {
        match self.year {
            Some(year) => prior_ids(self.merged.ids.log_msg_map@, year),
            None => Map::empty(),
        }
    }

    /// Takes the rendered pages of the current year out of the plan, and
    /// begins their reconciliation with the message ids that the guild has
    /// recorded for that year.
    pub fn reconciler(&mut self) -> (reconciler: Reconciler)
        requires
            old(self).wf(),
        ensures
            final(self).wf(),
            final(self).merged == old(self).merged,
            final(self).year == old(self).year,
            final(self).messages.entries().len() == 0,
            reconciler.wf(),
            reconciler.rendered == old(self).messages,
            reconciler@ == start_of(old(self).prior(), page_numbers(old(self).messages.entries())),
    {
        let prior = match self.year {
            Some(year) => prior_page_ids(&self.merged.ids.log_msg_map, year),
            None => BTreeMap::new(),
        };
        let mut rendered: SortedMap<i64, String> = SortedMap::new();
        std::mem::swap(&mut self.messages, &mut rendered);
        Reconciler::begin(prior, rendered)
    }

    /// Commits the sync with what the reconciliation of the current year
    /// has left. Where it has dealt with every page, the ids it recorded
    /// are kept for the year, and the published pages of other years stay
    /// as they are. Where it has not, nothing is committed.
    pub fn commit(self, reconciler: Reconciler) -> (r: Result<GuildData, SyncFailure>)
        requires
            self.wf(),
            reconciler.wf(),
        ensures
            match (r, outcome_of(reconciler@)) {
                (Ok(g), Ok(ids)) => {
                    &&& g.wf()
                    &&& g.is_setup == self.merged.is_setup
                    &&& g.settings == self.merged.settings
                    &&& g.daily_counts == self.merged.daily_counts
                    &&& g.ids.log_channel_id == self.merged.ids.log_channel_id
                    &&& g.ids.counting_channel_id == self.merged.ids.counting_channel_id
                    &&& g.ids.log_helper_msg_id == self.merged.ids.log_helper_msg_id
                    &&& g.ids.last_scanned_msg_id == self.merged.ids.last_scanned_msg_id
                    &&& match self.year {
                        Some(year) => year_recorded(
                            g.ids.log_msg_map@,
                            self.merged.ids.log_msg_map@,
                            year,
                            ids,
                        ),
                        None => g.ids.log_msg_map == self.merged.ids.log_msg_map,
                    }
                },
                (Err(e), Err(why)) => e == why,
                _ => false,
            },
    {
        let SyncPlan { merged, year, messages: _ } = self;
        match reconciler.into_page_ids() {
            Err(e) => Err(e),
            Ok(page_ids) => {
                let mut g = merged;
                match year {
                    Some(y) => {
                        g.ids.log_msg_map.insert(y, page_ids);
                    },
                    None => {},
                }
                Ok(g)
            },
        }
    }
}

} // verus!
