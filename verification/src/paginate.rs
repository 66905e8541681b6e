//! Cutting the daily counts of a year into report pages of bounded size.

use crate::counts::DailyCounts;
use crate::date::Date;
use vstd::prelude::*;

verus! {

/// The largest number of data lines on one report page.
pub const PAGE_LINE_LIMIT: usize = 40;

/// A data line of a report: a day, its count, and the growth since the line
/// before it.
#[derive(Clone, Copy, Debug, PartialEq, Eq, Structural)]
pub struct ReportLine {
    pub date: Date,
    pub count: i64,
    pub increment: i128,
}

/// One page of a report: its number, from 1, and its data lines.
pub struct ReportPage {
    pub number: i64,
    pub lines: Vec<ReportLine>,
}

/// The count that the line at `i` grows from: the carry-over for the first
/// line, else the count of the entry before.
pub open spec fn previous_count(entries: Seq<(Date, i64)>, carry: i64, i: int) -> int {
    if i == 0 {
        carry as int
    } else {
        entries[i - 1].1 as int
    }
}

/// The data line of the entry at `i`.
pub open spec fn line_at(entries: Seq<(Date, i64)>, carry: i64, i: int) -> ReportLine {
    ReportLine {
        date: entries[i].0,
        count: entries[i].1,
        increment: (entries[i].1 - previous_count(entries, carry, i)) as i128,
    }
}

/// The data lines of all entries, in order.
pub open spec fn all_lines(entries: Seq<(Date, i64)>, carry: i64) -> Seq<ReportLine> {
    Seq::new(entries.len(), |i: int| line_at(entries, carry, i))
}

/// The number of pages that `n` data lines fill.
pub open spec fn page_count(n: nat) -> nat {
    ((n + PAGE_LINE_LIMIT - 1) / (PAGE_LINE_LIMIT as int)) as nat
}

/// The number of data lines on the page at index `p`, from 0, of `n` lines.
pub open spec fn page_len(n: nat, p: int) -> int {
    if (p + 1) * PAGE_LINE_LIMIT <= n {
        PAGE_LINE_LIMIT as int
    } else {
        n - p * PAGE_LINE_LIMIT
    }
}

/// `pages` is the pagination of `lines`: every page but the last is full, no
/// page is empty, the pages are numbered from 1 without a gap, and the lines
/// stand on them in order.
pub open spec fn is_pagination(lines: Seq<ReportLine>, pages: Seq<ReportPage>) -> bool {
    &&& pages.len() == page_count(lines.len())
    &&& forall|p: int|
        0 <= p < pages.len() ==> (#[trigger] pages[p]).number == p + 1 && pages[p].lines@
            == lines.subrange(
            p * PAGE_LINE_LIMIT,
            p * PAGE_LINE_LIMIT + page_len(lines.len(), p),
        )
}

/// The data lines of a run of pages, in page order.
pub open spec fn concat_lines(pages: Seq<ReportPage>) -> Seq<ReportLine>
    decreases pages.len(),
{
    if pages.len() == 0 {
        Seq::empty()
    } else {
        concat_lines(pages.drop_last()) + pages.last().lines@
    }
}

/// The dates of a run of data lines.
pub open spec fn line_dates(lines: Seq<ReportLine>) -> Seq<Date> {
    Seq::new(lines.len(), |i: int| lines[i].date)
}

/// The dates of a run of entries.
pub open spec fn entry_dates(entries: Seq<(Date, i64)>) -> Seq<Date> {
    Seq::new(entries.len(), |i: int| entries[i].0)
}

/// Arithmetic of the page grid: where the pages start and end.
pub proof fn lemma_page_grid(n: nat, p: int)
    requires
        0 <= p < page_count(n),
    ensures
        0 <= p * PAGE_LINE_LIMIT < n,
        1 <= page_len(n, p) <= PAGE_LINE_LIMIT,
        p * PAGE_LINE_LIMIT + page_len(n, p) <= n,
        p + 1 < page_count(n) ==> page_len(n, p) == PAGE_LINE_LIMIT,
        p + 1 == page_count(n) ==> p * PAGE_LINE_LIMIT + page_len(n, p) == n,
{
    assert(PAGE_LINE_LIMIT == 40);
}

/// The first `p` pages of a pagination hold the first lines, up to the start
/// of page `p`.
pub proof fn lemma_concat_prefix(lines: Seq<ReportLine>, pages: Seq<ReportPage>, p: int)
    requires
        is_pagination(lines, pages),
        0 <= p <= pages.len(),
    ensures
        p < pages.len() ==> concat_lines(pages.take(p)) == lines.take(p * PAGE_LINE_LIMIT),
        p == pages.len() ==> concat_lines(pages.take(p)) == lines,
    decreases p,
{
    assert(PAGE_LINE_LIMIT == 40);
    if p == 0 {
        assert(concat_lines(pages.take(0)) =~= lines.take(0));
        if pages.len() == 0 {
            assert(lines.len() == 0);
            assert(lines.take(0) =~= lines);
        }
    } else {
        lemma_concat_prefix(lines, pages, p - 1);
        lemma_page_grid(lines.len(), p - 1);
        let head = pages.take(p);
        assert(head.drop_last() =~= pages.take(p - 1));
        assert(head.last() == pages[p - 1]);
        let start = (p - 1) * PAGE_LINE_LIMIT;
        let end = start + page_len(lines.len(), p - 1);
        assert(lines.take(start) + lines.subrange(start, end) =~= lines.take(end));
        if p == pages.len() {
            assert(lines.take(end) =~= lines);
        }
    }
}

/// Round trip: the data lines of all pages of a pagination, taken in page
/// order, are the entries it was made from, date by date and in the same
/// order.
pub proof fn lemma_round_trip(entries: Seq<(Date, i64)>, carry: i64, pages: Seq<ReportPage>)
    requires
        is_pagination(all_lines(entries, carry), pages),
    ensures
        concat_lines(pages) == all_lines(entries, carry),
        line_dates(concat_lines(pages)) == entry_dates(entries),
{
    lemma_concat_prefix(all_lines(entries, carry), pages, pages.len() as int);
    assert(pages.take(pages.len() as int) =~= pages);
    assert(line_dates(all_lines(entries, carry)) =~= entry_dates(entries));
}

/// The boundary: as many entries as a page holds fill exactly one page, and
/// one entry more gives a second page with that one line.
pub proof fn lemma_page_boundary(lines: Seq<ReportLine>, pages: Seq<ReportPage>)
    requires
        is_pagination(lines, pages),
    ensures
        lines.len() == PAGE_LINE_LIMIT ==> pages.len() == 1 && pages[0].lines@.len()
            == PAGE_LINE_LIMIT,
        lines.len() == PAGE_LINE_LIMIT + 1 ==> pages.len() == 2 && pages[0].lines@.len()
            == PAGE_LINE_LIMIT && pages[1].lines@.len() == 1,
{
    assert(PAGE_LINE_LIMIT == 40);
    if lines.len() == PAGE_LINE_LIMIT {
        assert(pages[0].number == 1);
    }
    if lines.len() == PAGE_LINE_LIMIT + 1 {
        assert(pages[0].number == 1);
        assert(pages[1].number == 2);
    }
}

/// Cuts the counts into pages. The first line grows from `carry`.
pub fn paginate(counts: &DailyCounts, carry: i64) -> (pages: Vec<ReportPage>)
    ensures
        is_pagination(all_lines(counts.entries(), carry), pages@),
{
    let n = counts.len();
    let ghost entries = counts.entries();
    let ghost lines = all_lines(entries, carry);
    let mut pages: Vec<ReportPage> = Vec::new();
    let mut current: Vec<ReportLine> = Vec::new();
    let mut previous: i64 = carry;
    let mut i: usize = 0;
    while i < n
        invariant
            i <= n,
            n == entries.len(),
            entries == counts.entries(),
            lines == all_lines(entries, carry),
            PAGE_LINE_LIMIT == 40,
            previous == previous_count(entries, carry, i as int),
            pages@.len() == i / PAGE_LINE_LIMIT,
            current@.len() == i % PAGE_LINE_LIMIT,
            current@ == lines.subrange(i - current@.len(), i as int),
            forall|p: int|
                0 <= p < pages@.len() ==> (#[trigger] pages@[p]).number == p + 1 && pages@[p].lines@
                    == lines.subrange(p * PAGE_LINE_LIMIT, p * PAGE_LINE_LIMIT + PAGE_LINE_LIMIT),
        decreases n - i,
    {
        let date = counts.key_at(i);
        let count = *counts.value_at(i);
        let increment: i128 = (count as i128) - (previous as i128);
        let ghost before = current@;
        current.push(ReportLine { date, count, increment });
        previous = count;
        proof {
            assert(lines[i as int] == line_at(entries, carry, i as int));
            assert(before.push(lines[i as int]) =~= lines.subrange(i - before.len(), i + 1));
        }
        if current.len() >= PAGE_LINE_LIMIT {
            let number: i64 = (pages.len() + 1) as i64;
            let ghost full = current@;
            let ghost done = pages@;
            pages.push(ReportPage { number, lines: current });
            current = Vec::new();
            proof {
                assert(current@ =~= lines.subrange(i + 1, i + 1));
                assert forall|p: int| 0 <= p < pages@.len() implies (#[trigger] pages@[p]).number
                    == p + 1 && pages@[p].lines@ == lines.subrange(
                    p * PAGE_LINE_LIMIT,
                    p * PAGE_LINE_LIMIT + PAGE_LINE_LIMIT,
                ) by {
                    if p < done.len() {
                        assert(pages@[p] == done[p]);
                    }
                }
            }
        }
        i = i + 1;
    }
    if current.len() > 0 {
        let number: i64 = (pages.len() + 1) as i64;
        pages.push(ReportPage { number, lines: current });
    }
    proof {
        assert forall|p: int| 0 <= p < pages@.len() implies (#[trigger] pages@[p]).number == p + 1
            && pages@[p].lines@ == lines.subrange(
            p * PAGE_LINE_LIMIT,
            p * PAGE_LINE_LIMIT + page_len(lines.len(), p),
        ) by {}
    }
    pages
}

} // verus!
