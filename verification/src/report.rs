//! The report of a guild: its daily counts split by year and rendered as
//! numbered pages.

use crate::counts::DailyCounts;
use crate::data::GuildData;
use crate::date::Date;
use crate::paginate::{
    all_lines, concat_lines, entry_dates, is_pagination, lemma_round_trip, line_dates,
    page_count, page_len, paginate, ReportLine, ReportPage, PAGE_LINE_LIMIT,
};
use crate::render::{
    data_lines, lemma_rows_hold_lines, page_rows, page_text, render_page, HeaderLabels,
    LabelTexts,
};
use crate::sorted_map::{keys_increase, SortKey, SortedMap};
use crate::words::{get_word, header_labels_spec, CharaCase, Dictionary};
use vstd::prelude::*;

verus! {

/// The entries of the year `year`, in order.
pub open spec fn year_entries(entries: Seq<(Date, i64)>, year: i32) -> Seq<(Date, i64)>
    decreases entries.len(),
{
    if entries.len() == 0 {
        Seq::empty()
    } else if entries.last().0.year == year {
        year_entries(entries.drop_last(), year).push(entries.last())
    } else {
        year_entries(entries.drop_last(), year)
    }
}

/// Whether some entry lies in the year `year`.
pub open spec fn has_year(entries: Seq<(Date, i64)>, year: i32) -> bool {
    exists|i: int| 0 <= i < entries.len() && (#[trigger] entries[i]).0.year == year
}

/// `years` lists the years of the entries: each year that has an entry, once,
/// in increasing order.
pub open spec fn is_year_list(years: Seq<i32>, entries: Seq<(Date, i64)>) -> bool {
    &&& forall|a: int, b: int| 0 <= a < b < years.len() ==> years[a] < years[b]
    &&& forall|a: int| 0 <= a < years.len() ==> has_year(entries, #[trigger] years[a])
    &&& forall|i: int| 0 <= i < entries.len() ==> years.contains((#[trigger] entries[i]).0.year)
}

/// The optional second language as a text.
pub open spec fn second_lang(lang2: Option<String>) -> Option<Seq<char>> {
    match lang2 {
        Some(l) => Some(l@),
        None => None,
    }
}

/// `messages` is the rendered report of `lines`: one text for each page of
/// the pagination, under the page's number, numbered from 1 without a gap.
pub open spec fn is_report(
    messages: Seq<(i64, String)>,
    labels: LabelTexts,
    utc: i8,
    lines: Seq<ReportLine>,
) -> bool {
    &&& messages.len() == page_count(lines.len())
    &&& forall|p: int|
        0 <= p < messages.len() ==> (#[trigger] messages[p]).0 == p + 1 && messages[p].1@
            == page_text(
            labels,
            utc,
            (p + 1) as i64,
            lines.subrange(p * PAGE_LINE_LIMIT, p * PAGE_LINE_LIMIT + page_len(lines.len(), p)),
        )
}

/// The count that a report grows from: the carry-over where one is given,
/// else zero.
pub open spec fn carry_of(offset_count: Option<i64>) -> i64 {
    match offset_count {
        Some(c) => c,
        None => 0,
    }
}

/// Looks up the words of a page header in the languages of a guild.
pub fn header_labels(dictionary: &Dictionary, guild_data: &GuildData) -> (labels: HeaderLabels)
    ensures
        labels@ == header_labels_spec(
            *dictionary,
            guild_data.settings.lang@,
            second_lang(guild_data.settings.lang2),
        ),
{
    let lang1 = guild_data.settings.lang.as_str();
    let lang2: Option<&str> = match &guild_data.settings.lang2 {
        Some(l) => Some(l.as_str()),
        None => None,
    };
    HeaderLabels {
        year: get_word(dictionary, "Year", lang1, lang2, CharaCase::Normal),
        count_log: get_word(dictionary, "Count Log", lang1, None, CharaCase::Normal),
        date: get_word(dictionary, "Date", lang1, lang2, CharaCase::Normal),
        sum: get_word(dictionary, "Sum", lang1, lang2, CharaCase::Normal),
        interval: get_word(dictionary, "5 minutes change", lang1, None, CharaCase::Normal),
    }
}

/// Renders the counts of one year as numbered report pages. The first line
/// grows from `offset_count`, the final count of the year before, or from
/// zero where none is given. No counts give no page.
pub fn generate_log_messages(
    dictionary: &Dictionary,
    guild_data: &GuildData,
    counts: &DailyCounts,
    offset_count: Option<i64>,
) -> (messages: SortedMap<i64, String>)
    ensures
        messages.wf(),
        is_report(
            messages.entries(),
            header_labels_spec(
                *dictionary,
                guild_data.settings.lang@,
                second_lang(guild_data.settings.lang2),
            ),
            guild_data.settings.utc,
            all_lines(counts.entries(), carry_of(offset_count)),
        ),
{
    let carry: i64 = match offset_count {
        Some(c) => c,
        None => 0,
    };
    let labels = header_labels(dictionary, guild_data);
    let utc = guild_data.settings.utc;
    let pages = paginate(counts, carry);
    let ghost lines = all_lines(counts.entries(), carry);
    let mut messages: SortedMap<i64, String> = SortedMap::new();
    let mut p: usize = 0;
    while p < pages.len()
        invariant
            p <= pages.len(),
            is_pagination(lines, pages@),
            messages.wf(),
            messages.entries().len() == p,
            forall|q: int|
                0 <= q < p ==> (#[trigger] messages.entries()[q]).0 == q + 1
                    && messages.entries()[q].1@ == page_text(
                    labels@,
                    utc,
                    (q + 1) as i64,
                    lines.subrange(
                        q * PAGE_LINE_LIMIT,
                        q * PAGE_LINE_LIMIT + page_len(lines.len(), q),
                    ),
                ),
        decreases pages.len() - p,
    {
        let text = render_page(&labels, utc, &pages[p]);
        let number = pages[p].number;
        let ghost before = messages.entries();
        proof {
            assert(pages@[p as int].number == p + 1);
            assert forall|i: int| 0 <= i < before.len() implies (#[trigger] before[i]).0.rank()
                < number.rank() by {}
        }
        messages.append(number, text);
        proof {
            assert forall|q: int| 0 <= q < p + 1 implies (#[trigger] messages.entries()[q]).0 == q
                + 1 && messages.entries()[q].1@ == page_text(
                labels@,
                utc,
                (q + 1) as i64,
                lines.subrange(q * PAGE_LINE_LIMIT, q * PAGE_LINE_LIMIT + page_len(lines.len(), q)),
            ) by {
                if q < p {
                    assert(messages.entries()[q] == before[q]);
                }
            }
        }
        p = p + 1;
    }
    messages
}

/// Dates in order have years in order.
pub proof fn lemma_year_order(a: Date, b: Date)
    requires
        a.rank() < b.rank(),
    ensures
        a.year <= b.year,
{
}

/// The years that have counts, in increasing order.
pub fn years(counts: &DailyCounts) -> (ys: Vec<i32>)
    requires
        counts.wf(),
    ensures
        is_year_list(ys@, counts.entries()),
{
    let n = counts.len();
    let ghost entries = counts.entries();
    let mut ys: Vec<i32> = Vec::new();
    let mut i: usize = 0;
    while i < n
        invariant
            i <= n,
            n == entries.len(),
            entries == counts.entries(),
            keys_increase(entries),
            forall|a: int, b: int| 0 <= a < b < ys@.len() ==> ys@[a] < ys@[b],
            forall|a: int|
                0 <= a < ys@.len() ==> exists|k: int|
                    0 <= k < i && (#[trigger] entries[k]).0.year == #[trigger] ys@[a],
            forall|k: int| 0 <= k < i ==> ys@.contains((#[trigger] entries[k]).0.year),
            i > 0 ==> ys@.len() > 0 && ys@.last() == entries[i - 1].0.year,
            i == 0 ==> ys@.len() == 0,
        decreases n - i,
    {
        let year = counts.key_at(i).year;
        let ghost before = ys@;
        let is_new = if i == 0 {
            true
        } else {
            ys[ys.len() - 1] != year
        };
        proof {
            if i > 0 {
                lemma_year_order(entries[i - 1].0, entries[i as int].0);
            }
        }
        if is_new {
            ys.push(year);
            proof {
                assert forall|a: int| 0 <= a < ys@.len() implies exists|k: int|
                    0 <= k < i + 1 && (#[trigger] entries[k]).0.year == #[trigger] ys@[a] by {
                    if a < before.len() {
                        let k = choose|k: int|
                            0 <= k < i && (#[trigger] entries[k]).0.year == before[a];
                        assert(entries[k].0.year == ys@[a]);
                    } else {
                        assert(entries[i as int].0.year == ys@[a]);
                    }
                }
                assert forall|k: int| 0 <= k < i + 1 implies ys@.contains(
                    (#[trigger] entries[k]).0.year,
                ) by {
                    if k < i {
                        let a = choose|a: int|
                            0 <= a < before.len() && before[a] == entries[k].0.year;
                        assert(ys@[a] == entries[k].0.year);
                    } else {
                        assert(ys@[before.len() as int] == year);
                    }
                }
            }
        } else {
            proof {
                assert forall|a: int| 0 <= a < ys@.len() implies exists|k: int|
                    0 <= k < i + 1 && (#[trigger] entries[k]).0.year == #[trigger] ys@[a] by {
                    let k = choose|k: int|
                        0 <= k < i && (#[trigger] entries[k]).0.year == ys@[a];
                    assert(entries[k].0.year == ys@[a]);
                }
                assert forall|k: int| 0 <= k < i + 1 implies ys@.contains(
                    (#[trigger] entries[k]).0.year,
                ) by {
                    if k == i {
                        assert(ys@[ys@.len() - 1] == year);
                    }
                }
            }
        }
        i = i + 1;
    }
    proof {
        assert forall|a: int| 0 <= a < ys@.len() implies has_year(entries, #[trigger] ys@[a]) by {
            let k = choose|k: int| 0 <= k < n && (#[trigger] entries[k]).0.year == ys@[a];
            assert(entries[k].0.year == ys@[a]);
        }
    }
    ys
}

/// The counts of the year `year`.
pub fn year_counts(counts: &DailyCounts, year: i32) -> (part: DailyCounts)
    requires
        counts.wf(),
    ensures
        part.wf(),
        part.entries() == year_entries(counts.entries(), year),
{
    let n = counts.len();
    let ghost entries = counts.entries();
    let mut part: DailyCounts = SortedMap::new();
    let mut i: usize = 0;
    while i < n
        invariant
            i <= n,
            n == entries.len(),
            entries == counts.entries(),
            keys_increase(entries),
            part.wf(),
            part.entries() == year_entries(entries.take(i as int), year),
            forall|j: int|
                0 <= j < part.entries().len() ==> exists|k: int|
                    0 <= k < i && #[trigger] entries[k] == #[trigger] part.entries()[j],
        decreases n - i,
    {
        let date = counts.key_at(i);
        let value = *counts.value_at(i);
        let ghost before = part.entries();
        proof {
            let taken = entries.take(i + 1);
            assert(taken.drop_last() =~= entries.take(i as int));
            assert(taken.last() == entries[i as int]);
        }
        if date.year == year {
            proof {
                assert forall|j: int| 0 <= j < before.len() implies (#[trigger] before[j]).0.rank()
                    < date.rank() by {
                    let k = choose|k: int| 0 <= k < i && #[trigger] entries[k] == before[j];
                    assert(entries[k].0.rank() < entries[i as int].0.rank());
                }
            }
            part.append(date, value);
            proof {
                assert forall|j: int| 0 <= j < part.entries().len() implies exists|k: int|
                    0 <= k < i + 1 && #[trigger] entries[k] == #[trigger] part.entries()[j] by {
                    if j < before.len() {
                        let k = choose|k: int| 0 <= k < i && #[trigger] entries[k] == before[j];
                        assert(entries[k] == part.entries()[j]);
                    } else {
                        assert(entries[i as int] == part.entries()[j]);
                    }
                }
            }
        } else {
            proof {
                assert forall|j: int| 0 <= j < part.entries().len() implies exists|k: int|
                    0 <= k < i + 1 && #[trigger] entries[k] == #[trigger] part.entries()[j] by {
                    let k = choose|k: int| 0 <= k < i && #[trigger] entries[k] == before[j];
                    assert(entries[k] == part.entries()[j]);
                }
            }
        }
        i = i + 1;
    }
    proof {
        assert(entries.take(n as int) =~= entries);
    }
    part
}

/// The data lines that the rows of a run of pages show, separators left
/// out, in page order.
pub open spec fn shown_lines(pages: Seq<ReportPage>) -> Seq<ReportLine>
    decreases pages.len(),
{
    if pages.len() == 0 {
        Seq::empty()
    } else {
        shown_lines(pages.drop_last()) + data_lines(page_rows(pages.last().lines@))
    }
}

/// The rows of a run of pages show the data lines of the pages.
pub proof fn lemma_shown_lines(pages: Seq<ReportPage>)
    ensures
        shown_lines(pages) == concat_lines(pages),
    decreases pages.len(),
{
    if pages.len() > 0 {
        lemma_shown_lines(pages.drop_last());
        lemma_rows_hold_lines(pages.last().lines@);
    }
}

/// Round trip: the data lines that the pages of a year show, separators and
/// headers left out, taken in page order, name the dates of the counts that
/// the pages were made from, in the same order.
pub proof fn lemma_rendered_round_trip(
    entries: Seq<(Date, i64)>,
    carry: i64,
    pages: Seq<ReportPage>,
)
    requires
        is_pagination(all_lines(entries, carry), pages),
    ensures
        shown_lines(pages) == all_lines(entries, carry),
        line_dates(shown_lines(pages)) == entry_dates(entries),
{
    lemma_shown_lines(pages);
    lemma_round_trip(entries, carry, pages);
}

/// The boundary: as many counts as a page holds are rendered as exactly one
/// page, and one count more gives a second page that shows that one count.
pub proof fn lemma_report_boundary(
    messages: Seq<(i64, String)>,
    labels: LabelTexts,
    utc: i8,
    lines: Seq<ReportLine>,
)
    requires
        is_report(messages, labels, utc, lines),
    ensures
        lines.len() == PAGE_LINE_LIMIT ==> messages.len() == 1 && messages[0].1@ == page_text(
            labels,
            utc,
            1,
            lines,
        ),
        lines.len() == PAGE_LINE_LIMIT + 1 ==> messages.len() == 2 && messages[1].1@
            == page_text(labels, utc, 2, seq![lines.last()]),
{
    assert(PAGE_LINE_LIMIT == 40);
    if lines.len() == PAGE_LINE_LIMIT {
        assert(messages[0].0 == 1);
        assert(lines.subrange(0, 40) =~= lines);
    }
    if lines.len() == PAGE_LINE_LIMIT + 1 {
        assert(messages[1].0 == 2);
        assert(lines.subrange(40, 41) =~= seq![lines.last()]);
    }
}

} // verus!
