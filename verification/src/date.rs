//! Calendar dates and the order on them.

use crate::parse::{all_digits, digit_of_char, digit_value, digits_value, is_digit};
use crate::sorted_map::SortKey;
use crate::text::{
    decimal_four, decimal_nat, decimal_two, digit_char, push_decimal_two, push_year, year_text,
};
use chrono::{DateTime, Datelike, FixedOffset};
use vstd::prelude::*;
use vstd::string::{StrSliceExecFns, StringExecFns};

verus! {

/// The number of seconds in one hour of offset from UTC.
pub const SECONDS_PER_HOUR: i32 = 3600;

/// The smallest offset from UTC, in hours, that a guild can be configured
/// with.
pub const MIN_UTC_OFFSET: i8 = -12;

/// The largest offset from UTC, in hours, that a guild can be configured
/// with.
pub const MAX_UTC_OFFSET: i8 = 14;

/// What chrono gives as the local calendar date (year, month, day) of the
/// instant `unix_seconds` after the Unix epoch, seen under a fixed offset of
/// `offset_seconds` east of UTC; `None` where chrono cannot represent the
/// offset, the instant or the local date.
pub uninterp spec fn chrono_local_date(unix_seconds: int, offset_seconds: int) -> Option<
    (int, int, int),
>;

/// A calendar date, as the year, the month and the day of the month.
#[derive(Clone, Copy, Debug, PartialEq, Eq, Structural)]
pub struct Date {
    pub year: i32,
    pub month: u8,
    pub day: u8,
}

impl SortKey for Date {
    /// Dates compare by year, then month, then day: the rank weighs the
    /// three so that it orders them in that way.
    open spec fn rank(self) -> int {
        self.year * 65536 + self.month * 256 + self.day
    }

    proof fn rank_injective(a: Self, b: Self) {
    }

    fn precedes(&self, other: &Self) -> (b: bool) {
        if self.year != other.year {
            self.year < other.year
        } else if self.month != other.month {
            self.month < other.month
        } else {
            self.day < other.day
        }
    }
}

impl Date {
    /// Whether the month and the day name a slot of the calendar grid.
    pub open spec fn in_calendar(self) -> bool {
        1 <= self.month <= 12 && 1 <= self.day <= 31
    }

    pub fn new(year: i32, month: u8, day: u8) -> (d: Date)
        ensures
            d.year == year,
            d.month == month,
            d.day == day,
    {
        Date { year, month, day }
    }
}

/// The offset, clamped into the configurable range of hours.
pub open spec fn clamp_utc_offset(utc: i8) -> int {
    if utc < MIN_UTC_OFFSET {
        MIN_UTC_OFFSET as int
    } else if utc > MAX_UTC_OFFSET {
        MAX_UTC_OFFSET as int
    } else {
        utc as int
    }
}

/// The date that `local_date` computes, over the named result of chrono.
pub open spec fn local_date_of(unix_seconds: i64, utc: i8) -> Option<Date> {
    match chrono_local_date(unix_seconds as int, clamp_utc_offset(utc) * SECONDS_PER_HOUR) {
        Some(ymd) => Some(Date { year: ymd.0 as i32, month: ymd.1 as u8, day: ymd.2 as u8 }),
        None => None,
    }
}

/// Calls chrono's `DateTime::from_timestamp`, `FixedOffset::east_opt` and
/// `NaiveDateTime::checked_add_offset`, and reads the year, month and day of
/// the local date through `Datelike`. The contract names the result, and
/// claims of it what chrono documents of `month()` and `day()`: the month is
/// in 1..=12 and the day in 1..=31.
#[verifier::external_body]
fn chrono_date_at(unix_seconds: i64, offset_seconds: i32) -> (r: Option<(i32, u8, u8)>)
    ensures
        r matches Some(d) ==> chrono_local_date(unix_seconds as int, offset_seconds as int)
            == Some((d.0 as int, d.1 as int, d.2 as int)) && 1 <= d.1 <= 12 && 1 <= d.2 <= 31,
        r is None ==> chrono_local_date(unix_seconds as int, offset_seconds as int) is None,
{
    let offset = FixedOffset::east_opt(offset_seconds)?;
    let utc = DateTime::from_timestamp(unix_seconds, 0)?;
    let local = utc.naive_utc().checked_add_offset(offset)?;
    Some((local.year(), local.month() as u8, local.day() as u8))
}

/// The calendar date of the instant `unix_seconds` for a guild whose clock
/// runs `utc` hours east of UTC. An offset outside the configurable range is
/// clamped into it. `None` where the instant has no representable date.
pub fn local_date(unix_seconds: i64, utc: i8) -> (d: Option<Date>)
    ensures
        d == local_date_of(unix_seconds, utc),
        d matches Some(date) ==> date.in_calendar(),
{
    let hours: i8 = if utc < MIN_UTC_OFFSET {
        MIN_UTC_OFFSET
    } else if utc > MAX_UTC_OFFSET {
        MAX_UTC_OFFSET
    } else {
        utc
    };
    let offset_seconds: i32 = (hours as i32) * SECONDS_PER_HOUR;
    match chrono_date_at(unix_seconds, offset_seconds) {
        Some((year, month, day)) => Some(Date { year, month, day }),
        None => None,
    }
}

/// The date in the form `YYYY-MM-DD`.
pub open spec fn iso_text(d: Date) -> Seq<char> {
    year_text(d.year) + "-"@ + decimal_two(d.month as nat) + "-"@ + decimal_two(d.day as nat)
}

/// The date that a text of the form `YYYY-MM-DD` stands for: four digits,
/// two digits and two digits, with a hyphen between them.
pub open spec fn iso_date_of(s: Seq<char>) -> Option<Date> {
    if s.len() == 10 && s[4] == '-' && s[7] == '-' && all_digits(s.subrange(0, 4)) && all_digits(
        s.subrange(5, 7),
    ) && all_digits(s.subrange(8, 10)) {
        Some(
            Date {
                year: digits_value(s.subrange(0, 4)) as i32,
                month: digits_value(s.subrange(5, 7)) as u8,
                day: digits_value(s.subrange(8, 10)) as u8,
            },
        )
    } else {
        None
    }
}

/// Reads the digits of `s` from `from` up to `to`, at most four of them.
fn digits_between(s: &str, from: usize, to: usize) -> (r: Option<u32>)
    requires
        from <= to <= s@.len(),
        to - from <= 4,
    ensures
        match r {
            Some(v) => all_digits(s@.subrange(from as int, to as int)) && v == digits_value(
                s@.subrange(from as int, to as int),
            ) && v <= 9999,
            None => !all_digits(s@.subrange(from as int, to as int)),
        },
{
    let ghost part = s@.subrange(from as int, to as int);
    let mut acc: u32 = 0;
    let mut i: usize = from;
    let ghost mut bound: int = 0;
    while i < to
        invariant
            from <= i <= to <= s@.len(),
            to - from <= 4,
            part == s@.subrange(from as int, to as int),
            all_digits(part.take(i - from)),
            acc == digits_value(part.take(i - from)),
            acc <= bound,
            bound == (if i - from == 0 {
                0int
            } else if i - from == 1 {
                9
            } else if i - from == 2 {
                99
            } else if i - from == 3 {
                999
            } else {
                9999
            }),
        decreases to - i,
    {
        let c = s.get_char(i);
        let ghost taken = part.take(i - from);
        let ghost next = part.take(i - from + 1);
        proof {
            assert(part[i - from] == c);
            assert(next.drop_last() =~= taken);
            assert(next.last() == c);
        }
        match digit_of_char(c) {
            None => {
                assert(!is_digit(part[i - from]));
                assert(!all_digits(part));
                return None;
            },
            Some(d) => {
                proof {
                    assert forall|j: int| 0 <= j < next.len() implies is_digit(
                        #[trigger] next[j],
                    ) by {
                        if j < taken.len() {
                            assert(taken[j] == next[j]);
                        }
                    }
                }
                acc = acc * 10 + d as u32;
                proof {
                    bound = bound * 10 + 9;
                }
            },
        }
        i = i + 1;
    }
    proof {
        assert(part.take(to - from) =~= part);
    }
    Some(acc)
}

impl Date {
    /// The date as text, in the form `YYYY-MM-DD`.
    pub fn to_iso(&self) -> (text: String)
        ensures
            text@ == iso_text(*self),
    {
        let mut out = String::new();
        push_year(&mut out, self.year);
        out.append("-");
        push_decimal_two(&mut out, self.month);
        out.append("-");
        push_decimal_two(&mut out, self.day);
        proof {
            assert(out@ =~= iso_text(*self));
        }
        out
    }

    /// Reads a date from a text of the form `YYYY-MM-DD`.
    pub fn from_iso(text: &str) -> (d: Option<Date>)
        ensures
            d == iso_date_of(text@),
    {
        if text.unicode_len() != 10 {
            return None;
        }
        if text.get_char(4) != '-' || text.get_char(7) != '-' {
            return None;
        }
        match (digits_between(text, 0, 4), digits_between(text, 5, 7), digits_between(text, 8, 10)) {
            (Some(year), Some(month), Some(day)) => {
                assert(month <= 99 && day <= 99) by {
                    lemma_two_digits_bound(text@.subrange(5, 7));
                    lemma_two_digits_bound(text@.subrange(8, 10));
                }
                Some(Date { year: year as i32, month: month as u8, day: day as u8 })
            },
            _ => None,
        }
    }
}

/// Two digits stand for a number below one hundred.
pub proof fn lemma_two_digits_bound(s: Seq<char>)
    requires
        s.len() == 2,
        all_digits(s),
    ensures
        0 <= digits_value(s) <= 99,
{
    assert(is_digit(s[0]) && is_digit(s[1]));
    let one = s.drop_last();
    assert(one.len() == 1);
    assert(one.drop_last().len() == 0);
    assert(one.last() == s[0]);
    assert(digits_value(one.drop_last()) == 0);
    assert(digits_value(one) == digit_value(s[0]));
}

/// The decimal digits of a number are digits, and stand for the number.
pub proof fn lemma_decimal_nat_value(n: nat)
    ensures
        all_digits(decimal_nat(n)),
        digits_value(decimal_nat(n)) == n,
        decimal_nat(n).len() >= 1,
        n < 10 ==> decimal_nat(n).len() == 1,
        10 <= n < 100 ==> decimal_nat(n).len() == 2,
        100 <= n < 1000 ==> decimal_nat(n).len() == 3,
        1000 <= n < 10000 ==> decimal_nat(n).len() == 4,
    decreases n,
{
    let s = decimal_nat(n);
    let last = digit_char((n % 10) as int);
    assert(is_digit(last) && digit_value(last) == n % 10);
    if n < 10 {
        assert(s.drop_last() =~= Seq::<char>::empty());
        assert(digits_value(s.drop_last()) == 0);
    } else {
        lemma_decimal_nat_value(n / 10);
        let head = decimal_nat(n / 10);
        assert(s.drop_last() =~= head);
        assert forall|i: int| 0 <= i < s.len() implies is_digit(#[trigger] s[i]) by {
            if i < head.len() {
                assert(s[i] == head[i]);
            }
        }
    }
}

/// Leading zeros do not change what a run of digits stands for.
pub proof fn lemma_leading_zero(s: Seq<char>)
    requires
        all_digits(s),
    ensures
        all_digits(seq!['0'] + s),
        digits_value(seq!['0'] + s) == digits_value(s),
    decreases s.len(),
{
    let z = seq!['0'] + s;
    assert forall|i: int| 0 <= i < z.len() implies is_digit(#[trigger] z[i]) by {
        if i > 0 {
            assert(z[i] == s[i - 1]);
        }
    }
    if s.len() == 0 {
        assert(z.drop_last() =~= Seq::<char>::empty());
        assert(digits_value(z.drop_last()) == 0);
    } else {
        assert(all_digits(s.drop_last())) by {
            assert forall|i: int| 0 <= i < s.drop_last().len() implies is_digit(
                #[trigger] s.drop_last()[i],
            ) by {
                assert(s.drop_last()[i] == s[i]);
            }
        }
        lemma_leading_zero(s.drop_last());
        assert(z.drop_last() =~= seq!['0'] + s.drop_last());
        assert(z.last() == s.last());
    }
}

/// A number below ten thousand in four digits: four digits that stand for
/// the number.
pub proof fn lemma_decimal_four_value(n: nat)
    requires
        n <= 9999,
    ensures
        decimal_four(n).len() == 4,
        all_digits(decimal_four(n)),
        digits_value(decimal_four(n)) == n,
{
    lemma_decimal_nat_value(n);
    let s = decimal_nat(n);
    if n < 1000 {
        lemma_leading_zero(s);
        let s1 = seq!['0'] + s;
        if n < 100 {
            lemma_leading_zero(s1);
            let s2 = seq!['0'] + s1;
            assert(s2 =~= seq!['0', '0'] + s);
            if n < 10 {
                lemma_leading_zero(s2);
                assert(seq!['0'] + s2 =~= seq!['0', '0', '0'] + s);
            }
        }
    }
}

/// A number below one hundred in two digits: two digits that stand for the
/// number.
pub proof fn lemma_decimal_two_value(n: nat)
    requires
        n <= 99,
    ensures
        decimal_two(n).len() == 2,
        all_digits(decimal_two(n)),
        digits_value(decimal_two(n)) == n,
{
    lemma_decimal_nat_value(n);
    if n < 10 {
        lemma_leading_zero(decimal_nat(n));
    }
}

/// Round trip: the text of a date with a year of four digits reads back as
/// the date.
pub proof fn lemma_iso_round_trip(d: Date)
    requires
        0 <= d.year <= 9999,
        d.month <= 99,
        d.day <= 99,
    ensures
        iso_date_of(iso_text(d)) == Some(d),
{
    reveal_strlit("-");
    lemma_decimal_four_value(d.year as nat);
    lemma_decimal_two_value(d.month as nat);
    lemma_decimal_two_value(d.day as nat);
    let s = iso_text(d);
    let y = decimal_four(d.year as nat);
    let m = decimal_two(d.month as nat);
    let dd = decimal_two(d.day as nat);
    assert(year_text(d.year) == y);
    assert("-"@.len() == 1 && "-"@[0] == '-');
    assert(s.len() == 10);
    assert(s.subrange(0, 4) =~= y);
    assert(s.subrange(5, 7) =~= m);
    assert(s.subrange(8, 10) =~= dd);
    assert(s[4] == '-');
    assert(s[7] == '-');
}

} // verus!
