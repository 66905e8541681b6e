//! Reading a count out of a message body.

use vstd::prelude::*;
use vstd::string::StrSliceExecFns;

verus! {

pub open spec fn is_digit(c: char) -> bool {
    '0' <= c <= '9'
}

/// The value of a decimal digit.
pub open spec fn digit_value(c: char) -> int {
    c as int - '0' as int
}

/// The number that a run of decimal digits stands for.
pub open spec fn digits_value(s: Seq<char>) -> int
    decreases s.len(),
{
    if s.len() == 0 {
        0
    } else {
        digits_value(s.drop_last()) * 10 + digit_value(s.last())
    }
}

pub open spec fn all_digits(s: Seq<char>) -> bool {
    forall|i: int| 0 <= i < s.len() ==> is_digit(#[trigger] s[i])
}

/// Whether the body starts with a sign.
pub open spec fn has_sign(s: Seq<char>) -> bool {
    s.len() > 0 && (s[0] == '-' || s[0] == '+')
}

/// The digits of the body, after the sign if there is one.
pub open spec fn unsigned_part(s: Seq<char>) -> Seq<char> {
    if has_sign(s) {
        s.skip(1)
    } else {
        s
    }
}

/// The integer that the body stands for, before any check of its size.
pub open spec fn signed_value(s: Seq<char>) -> int {
    if s.len() > 0 && s[0] == '-' {
        -digits_value(unsigned_part(s))
    } else {
        digits_value(unsigned_part(s))
    }
}

/// The count that a message body holds: an optional sign followed by one or
/// more decimal digits and nothing else, with a value that fits `i64`.
pub open spec fn parse_count_spec(s: Seq<char>) -> Option<i64> {
    if unsigned_part(s).len() > 0 && all_digits(unsigned_part(s)) && i64::MIN <= signed_value(s)
        <= i64::MAX {
        Some(signed_value(s) as i64)
    } else {
        None
    }
}

/// A longer run of digits stands for a number at least as large.
pub proof fn lemma_digits_value_grows(s: Seq<char>, n: int)
    requires
        all_digits(s),
        0 <= n <= s.len(),
    ensures
        0 <= digits_value(s.take(n)) <= digits_value(s),
    decreases s.len() - n,
{
    lemma_digits_value_nonnegative(s.take(n));
    if n == s.len() {
        assert(s.take(n) =~= s);
    } else {
        lemma_digits_value_grows(s, n + 1);
        let t = s.take(n + 1);
        assert(t.drop_last() =~= s.take(n));
        assert(is_digit(s[n]));
        assert(t.last() == s[n]);
    }
}

pub proof fn lemma_digits_value_nonnegative(s: Seq<char>)
    requires
        all_digits(s),
    ensures
        0 <= digits_value(s),
    decreases s.len(),
{
    if s.len() > 0 {
        lemma_digits_value_nonnegative(s.drop_last());
        assert(is_digit(s[s.len() - 1]));
    }
}

pub(crate) fn digit_of_char(c: char) -> (d: Option<u8>)
    ensures
        match d {
            Some(v) => is_digit(c) && v == digit_value(c),
            None => !is_digit(c),
        },
{
    if '0' <= c && c <= '9' {
        Some(((c as u32) - ('0' as u32)) as u8)
    } else {
        None
    }
}

/// Reads the count that a message body holds, if it holds one.
pub fn parse_count(body: &str) -> (r: Option<i64>)
    ensures
        r == parse_count_spec(body@),
{
    let n = body.unicode_len();
    if n == 0 {
        return None;
    }
    let first = body.get_char(0);
    let negative = first == '-';
    let start: usize = if first == '-' || first == '+' {
        1
    } else {
        0
    };
    if start == n {
        return None;
    }
    let ghost digits = unsigned_part(body@);
    assert(digits == body@.skip(start as int));
    // The magnitude is gathered as a non-positive number, whose range holds
    // the magnitude of the smallest `i64`.
    let mut acc: i64 = 0;
    let mut i: usize = start;
    while i < n
        invariant
            start <= i <= n,
            n == body@.len(),
            digits == body@.skip(start as int),
            digits == unsigned_part(body@),
            negative == (body@.len() > 0 && body@[0] == '-'),
            all_digits(digits.take(i - start)),
            acc == -digits_value(digits.take(i - start)),
            negative ==> i64::MIN <= acc,
            !negative ==> -i64::MAX <= acc,
            acc <= 0,
        decreases n - i,
    {
        let c = body.get_char(i);
        let ghost taken = digits.take(i - start);
        let ghost next = digits.take(i - start + 1);
        proof {
            assert(digits[i - start] == c);
            assert(next.drop_last() =~= taken);
            assert(next.last() == c);
        }
        match digit_of_char(c) {
            None => {
                assert(!is_digit(digits[i - start]));
                assert(!all_digits(digits));
                return None;
            },
            Some(d) => {
                proof {
                    assert forall|j: int| 0 <= j < next.len() implies is_digit(
                        #[trigger] next[j],
                    ) by {
                        if j < taken.len() {
                            assert(taken[j] == next[j]);
                        }
                    }
                }
                let floor: i64 = if negative {
                    i64::MIN
                } else {
                    -i64::MAX
                };
                let wide: i128 = (acc as i128) * 10 - (d as i128);
                if wide < floor as i128 {
                    proof {
                        if all_digits(digits) {
                            lemma_digits_value_grows(digits, i - start + 1);
                        }
                    }
                    return None;
                }
                acc = wide as i64;
            },
        }
        i = i + 1;
    }
    proof {
        assert(digits.take(n - start) =~= digits);
    }
    if negative {
        Some(acc)
    } else {
        Some(-acc)
    }
}

} // verus!
