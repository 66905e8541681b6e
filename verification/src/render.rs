//! Rendering report pages as text.

use crate::paginate::{ReportLine, ReportPage};
use crate::text::{
    decimal, decimal_nat, decimal_two, push_decimal, push_decimal_nat, push_decimal_two,
    push_year, year_text,
};
use vstd::prelude::*;
use vstd::string::StringExecFns;

verus! {

/// After how many data lines a separator is set.
pub const SEPARATOR_INTERVAL: usize = 5;

/// The localized words of a page header.
pub struct HeaderLabels {
    pub year: String,
    pub count_log: String,
    pub date: String,
    pub sum: String,
    pub interval: String,
}

/// The words of a page header as texts.
pub struct LabelTexts {
    pub year: Seq<char>,
    pub count_log: Seq<char>,
    pub date: Seq<char>,
    pub sum: Seq<char>,
    pub interval: Seq<char>,
}

impl View for HeaderLabels {
    type V = LabelTexts;

    open spec fn view(&self) -> LabelTexts {
        LabelTexts {
            year: self.year@,
            count_log: self.count_log@,
            date: self.date@,
            sum: self.sum@,
            interval: self.interval@,
        }
    }
}

/// The offset from UTC with its sign: `+3`, `+0`, `-5`.
pub open spec fn utc_format(utc: i8) -> Seq<char> {
    if utc < 0 {
        decimal(utc as int)
    } else {
        "+"@ + decimal(utc as int)
    }
}

/// The text of a data line: the month and day, the count, the increment.
pub open spec fn line_text(line: ReportLine) -> Seq<char> {
    decimal_two(line.date.month as nat) + "-"@ + decimal_two(line.date.day as nat) + " : "@
        + decimal(line.count as int) + " (+"@ + decimal(line.increment as int) + ")"@
}

/// The text of the separator that follows the `n`-th data line of a page.
pub open spec fn separator_text(n: nat) -> Seq<char> {
    "-"@ + decimal_nat(n) + "-"@
}

/// A row of a page: a data line, or the separator that follows the `n`-th
/// data line.
pub enum Row {
    Line(ReportLine),
    Separator(nat),
}

/// The text of a row.
pub open spec fn row_text(row: Row) -> Seq<char> {
    match row {
        Row::Line(line) => line_text(line),
        Row::Separator(n) => separator_text(n),
    }
}

/// The rows of a page while it is open: each data line, and a separator
/// after every fifth.
pub open spec fn open_rows(lines: Seq<ReportLine>) -> Seq<Row>
    decreases lines.len(),
{
    if lines.len() == 0 {
        Seq::empty()
    } else if lines.len() % (SEPARATOR_INTERVAL as nat) == 0 {
        open_rows(lines.drop_last()).push(Row::Line(lines.last())).push(
            Row::Separator(lines.len()),
        )
    } else {
        open_rows(lines.drop_last()).push(Row::Line(lines.last()))
    }
}

/// The rows of a closed page: a separator is forced at the end where the
/// last data line did not bring one.
pub open spec fn page_rows(lines: Seq<ReportLine>) -> Seq<Row> {
    if lines.len() % (SEPARATOR_INTERVAL as nat) == 0 {
        open_rows(lines)
    } else {
        open_rows(lines).push(Row::Separator(lines.len()))
    }
}

/// The data lines among the rows, in order.
pub open spec fn data_lines(rows: Seq<Row>) -> Seq<ReportLine>
    decreases rows.len(),
{
    if rows.len() == 0 {
        Seq::empty()
    } else {
        match rows.last() {
            Row::Line(line) => data_lines(rows.drop_last()).push(line),
            Row::Separator(_) => data_lines(rows.drop_last()),
        }
    }
}

/// The rows as text, joined by line breaks, with none after the last.
pub open spec fn join_rows(rows: Seq<Row>) -> Seq<char>
    decreases rows.len(),
{
    if rows.len() == 0 {
        Seq::empty()
    } else if rows.len() == 1 {
        row_text(rows[0])
    } else {
        join_rows(rows.drop_last()) + "\n"@ + row_text(rows.last())
    }
}

/// The header of a page: the year and the page number, then the column
/// labels with the offset from UTC.
pub open spec fn header_text(labels: LabelTexts, utc: i8, year: i32, number: i64) -> Seq<char> {
    "## **\u{1F4CA} `"@ + labels.year + " "@ + year_text(year) + " ("@ + decimal(number as int)
        + ")` "@ + labels.count_log + "**\n`"@ + labels.date + " (UTC "@ + utc_format(utc)
        + ") : "@ + labels.sum + "  ("@ + labels.interval + ")`\n"@
}

/// The year that a page is headed with: that of its last data line.
pub open spec fn page_year(lines: Seq<ReportLine>) -> i32 {
    if lines.len() == 0 {
        0
    } else {
        lines.last().date.year
    }
}

/// The whole text of a page.
pub open spec fn page_text(labels: LabelTexts, utc: i8, number: i64, lines: Seq<ReportLine>) -> Seq<
    char,
> {
    header_text(labels, utc, page_year(lines), number) + join_rows(page_rows(lines))
}

/// The offset from UTC with its sign.
pub fn get_utc_format(utc: &i8) -> (s: String)
    ensures
        s@ == utc_format(*utc),
{
    let mut s = String::new();
    if *utc >= 0 {
        s.append("+");
    }
    push_decimal(&mut s, *utc as i128);
    proof {
        assert(Seq::<char>::empty() + decimal(*utc as int) =~= decimal(*utc as int));
        assert(Seq::<char>::empty() + "+"@ + decimal(*utc as int) =~= "+"@ + decimal(
            *utc as int,
        ));
    }
    s
}

fn push_line(out: &mut String, line: &ReportLine)
    ensures
        final(out)@ == old(out)@ + line_text(*line),
{
    let ghost start = out@;
    push_decimal_two(out, line.date.month);
    out.append("-");
    push_decimal_two(out, line.date.day);
    out.append(" : ");
    push_decimal(out, line.count as i128);
    out.append(" (+");
    push_decimal(out, line.increment);
    out.append(")");
    proof {
        assert(out@ =~= start + line_text(*line));
    }
}

fn push_separator(out: &mut String, n: usize)
    ensures
        final(out)@ == old(out)@ + separator_text(n as nat),
{
    let ghost start = out@;
    out.append("-");
    push_decimal_nat(out, n as u128);
    out.append("-");
    proof {
        assert(out@ =~= start + separator_text(n as nat));
    }
}

fn push_header(out: &mut String, labels: &HeaderLabels, utc: i8, year: i32, number: i64)
    ensures
        final(out)@ == old(out)@ + header_text(labels@, utc, year, number),
{
    let ghost start = out@;
    out.append("## **\u{1F4CA} `");
    out.append(labels.year.as_str());
    out.append(" ");
    push_year(out, year);
    out.append(" (");
    push_decimal(out, number as i128);
    out.append(")` ");
    out.append(labels.count_log.as_str());
    out.append("**\n`");
    out.append(labels.date.as_str());
    out.append(" (UTC ");
    let offset = get_utc_format(&utc);
    out.append(offset.as_str());
    out.append(") : ");
    out.append(labels.sum.as_str());
    out.append("  (");
    out.append(labels.interval.as_str());
    out.append(")`\n");
    proof {
        assert(out@ =~= start + header_text(labels@, utc, year, number));
    }
}

/// Joining one more row: the text so far, a line break unless it is the
/// first row, and the row.
pub proof fn lemma_join_push(rows: Seq<Row>, row: Row)
    ensures
        join_rows(rows.push(row)) == (if rows.len() == 0 {
            row_text(row)
        } else {
            join_rows(rows) + "\n"@ + row_text(row)
        }),
{
    assert(rows.push(row).drop_last() =~= rows);
}

/// Renders a page: the header, then the data lines with a separator after
/// every fifth and at the end of the page.
pub fn render_page(labels: &HeaderLabels, utc: i8, page: &ReportPage) -> (text: String)
    ensures
        text@ == page_text(labels@, utc, page.number, page.lines@),
{
    let n = page.lines.len();
    let year: i32 = if n == 0 {
        0
    } else {
        page.lines[n - 1].date.year
    };
    let mut out = String::new();
    push_header(&mut out, labels, utc, year, page.number);
    let ghost head = header_text(labels@, utc, year, page.number);
    assert(out@ =~= head);
    let ghost mut rows: Seq<Row> = Seq::empty();
    let mut i: usize = 0;
    while i < n
        invariant
            i <= n,
            n == page.lines@.len(),
            SEPARATOR_INTERVAL == 5,
            rows == open_rows(page.lines@.take(i as int)),
            rows.len() == 0 <==> i == 0,
            out@ == head + join_rows(rows),
        decreases n - i,
    {
        let ghost before = out@;
        if i > 0 {
            out.append("\n");
        }
        push_line(&mut out, &page.lines[i]);
        proof {
            let taken = page.lines@.take(i + 1);
            assert(taken.drop_last() =~= page.lines@.take(i as int));
            assert(taken.last() == page.lines@[i as int]);
            let row = Row::Line(page.lines@[i as int]);
            lemma_join_push(rows, row);
            assert(out@ =~= head + join_rows(rows.push(row)));
            rows = rows.push(row);
        }
        if (i + 1) % SEPARATOR_INTERVAL == 0 {
            out.append("\n");
            push_separator(&mut out, i + 1);
            proof {
                let row = Row::Separator((i + 1) as nat);
                lemma_join_push(rows, row);
                assert(out@ =~= head + join_rows(rows.push(row)));
                rows = rows.push(row);
            }
        }
        i = i + 1;
    }
    proof {
        assert(page.lines@.take(n as int) =~= page.lines@);
    }
    if n % SEPARATOR_INTERVAL != 0 {
        out.append("\n");
        push_separator(&mut out, n);
        proof {
            let row = Row::Separator(n as nat);
            lemma_join_push(rows, row);
            assert(out@ =~= head + join_rows(rows.push(row)));
        }
    }
    out
}

/// Leaving the separators out of the rows of a page gives back its data
/// lines, in order.
pub proof fn lemma_rows_hold_lines(lines: Seq<ReportLine>)
    ensures
        data_lines(open_rows(lines)) == lines,
        data_lines(page_rows(lines)) == lines,
    decreases lines.len(),
{
    if lines.len() == 0 {
        assert(data_lines(open_rows(lines)) =~= lines);
    } else {
        let head = lines.drop_last();
        lemma_rows_hold_lines(head);
        let with_line = open_rows(head).push(Row::Line(lines.last()));
        assert(with_line.drop_last() =~= open_rows(head));
        assert(data_lines(with_line) =~= lines);
        let with_separator = with_line.push(Row::Separator(lines.len()));
        assert(with_separator.drop_last() =~= with_line);
        assert(data_lines(with_separator) =~= lines);
    }
    let closed = open_rows(lines).push(Row::Separator(lines.len()));
    assert(closed.drop_last() =~= open_rows(lines));
}

} // verus!
