//! Building text: decimal numbers and characters appended to a `String`.

use vstd::prelude::*;
use vstd::string::StringExecFns;

verus! {

/// The character of the decimal digit `d`.
pub open spec fn digit_char(d: int) -> char {
    if d == 0 {
        '0'
    } else if d == 1 {
        '1'
    } else if d == 2 {
        '2'
    } else if d == 3 {
        '3'
    } else if d == 4 {
        '4'
    } else if d == 5 {
        '5'
    } else if d == 6 {
        '6'
    } else if d == 7 {
        '7'
    } else if d == 8 {
        '8'
    } else {
        '9'
    }
}

/// The decimal digits of `n`, most significant first, without leading zeros.
pub open spec fn decimal_nat(n: nat) -> Seq<char>
    decreases n,
{
    if n < 10 {
        seq![digit_char(n as int)]
    } else {
        decimal_nat(n / 10).push(digit_char((n % 10) as int))
    }
}

/// The decimal form of `n`, with a minus sign where it is negative.
pub open spec fn decimal(n: int) -> Seq<char> {
    if n < 0 {
        seq!['-'] + decimal_nat((-n) as nat)
    } else {
        decimal_nat(n as nat)
    }
}

/// The decimal form of `n`, with a leading zero where it has one digit.
pub open spec fn decimal_two(n: nat) -> Seq<char> {
    if n < 10 {
        seq!['0'] + decimal_nat(n)
    } else {
        decimal_nat(n)
    }
}

/// The decimal form of `n`, with leading zeros up to four digits.
pub open spec fn decimal_four(n: nat) -> Seq<char> {
    if n < 10 {
        seq!['0', '0', '0'] + decimal_nat(n)
    } else if n < 100 {
        seq!['0', '0'] + decimal_nat(n)
    } else if n < 1000 {
        seq!['0'] + decimal_nat(n)
    } else {
        decimal_nat(n)
    }
}

/// Calls `String::push`, which appends one character.
#[verifier::external_body]
pub(crate) fn push_char(out: &mut String, c: char)
    ensures
        final(out)@ == old(out)@.push(c),
{
    out.push(c);
}

fn digit_of(d: u8) -> (c: char)
    requires
        d < 10,
    ensures
        c == digit_char(d as int),
{
    if d == 0 {
        '0'
    } else if d == 1 {
        '1'
    } else if d == 2 {
        '2'
    } else if d == 3 {
        '3'
    } else if d == 4 {
        '4'
    } else if d == 5 {
        '5'
    } else if d == 6 {
        '6'
    } else if d == 7 {
        '7'
    } else if d == 8 {
        '8'
    } else {
        '9'
    }
}

/// Appends the decimal digits of `n`.
pub fn push_decimal_nat(out: &mut String, n: u128)
    ensures
        final(out)@ == old(out)@ + decimal_nat(n as nat),
    decreases n,
{
    if n >= 10 {
        push_decimal_nat(out, n / 10);
    }
    let d: u8 = (n % 10) as u8;
    push_char(out, digit_of(d));
    proof {
        if n >= 10 {
            assert(old(out)@ + decimal_nat((n / 10) as nat).push(digit_char((n % 10) as int))
                =~= (old(out)@ + decimal_nat((n / 10) as nat)).push(digit_char((n % 10) as int)));
        } else {
            assert(old(out)@ + seq![digit_char(n as int)] =~= old(out)@.push(digit_char(n as int)));
        }
    }
}

/// Appends the decimal form of `n`.
pub fn push_decimal(out: &mut String, n: i128)
    ensures
        final(out)@ == old(out)@ + decimal(n as int),
{
    if n < 0 {
        push_char(out, '-');
        let magnitude: u128 = ((-(n + 1)) as u128) + 1;
        push_decimal_nat(out, magnitude);
        assert(old(out)@.push('-') + decimal_nat(magnitude as nat) =~= old(out)@ + (seq!['-']
            + decimal_nat((-n) as nat)));
    } else {
        push_decimal_nat(out, n as u128);
    }
}

/// Appends `n` in at least two digits.
pub fn push_decimal_two(out: &mut String, n: u8)
    ensures
        final(out)@ == old(out)@ + decimal_two(n as nat),
{
    if n < 10 {
        push_char(out, '0');
        push_decimal_nat(out, n as u128);
        assert(old(out)@.push('0') + decimal_nat(n as nat) =~= old(out)@ + (seq!['0']
            + decimal_nat(n as nat)));
    } else {
        push_decimal_nat(out, n as u128);
    }
}

/// The decimal form of `n` as a new `String`.
pub fn decimal_string(n: i128) -> (s: String)
    ensures
        s@ == decimal(n as int),
{
    let mut s = String::new();
    push_decimal(&mut s, n);
    assert(Seq::<char>::empty() + decimal(n as int) =~= decimal(n as int));
    s
}

/// The year in four digits; a year outside 0..=9999 carries its sign.
pub open spec fn year_text(year: i32) -> Seq<char> {
    if year < 0 {
        "-"@ + decimal_four((-year) as nat)
    } else if year > 9999 {
        "+"@ + decimal_nat(year as nat)
    } else {
        decimal_four(year as nat)
    }
}

/// Appends the year in four digits, with its sign where it lies outside
/// 0..=9999.
pub fn push_year(out: &mut String, year: i32)
    ensures
        final(out)@ == old(out)@ + year_text(year),
{
    let ghost start = out@;
    if year < 0 {
        out.append("-");
        push_four(out, (-(year as i64)) as u32);
        proof {
            assert(start + "-"@ + decimal_four((-year) as nat) =~= start + ("-"@ + decimal_four(
                (-year) as nat,
            )));
        }
    } else if year > 9999 {
        out.append("+");
        push_decimal_nat(out, year as u128);
        proof {
            assert(start + "+"@ + decimal_nat(year as nat) =~= start + ("+"@ + decimal_nat(
                year as nat,
            )));
        }
    } else {
        push_four(out, year as u32);
    }
}

/// Appends `n` in at least four digits.
pub fn push_four(out: &mut String, n: u32)
    ensures
        final(out)@ == old(out)@ + decimal_four(n as nat),
{
    let ghost start = out@;
    if n < 10 {
        push_char(out, '0');
        push_char(out, '0');
        push_char(out, '0');
        push_decimal_nat(out, n as u128);
        assert(start.push('0').push('0').push('0') + decimal_nat(n as nat) =~= start + (seq![
            '0',
            '0',
            '0',
        ] + decimal_nat(n as nat)));
    } else if n < 100 {
        push_char(out, '0');
        push_char(out, '0');
        push_decimal_nat(out, n as u128);
        assert(start.push('0').push('0') + decimal_nat(n as nat) =~= start + (seq!['0', '0']
            + decimal_nat(n as nat)));
    } else if n < 1000 {
        push_char(out, '0');
        push_decimal_nat(out, n as u128);
        assert(start.push('0') + decimal_nat(n as nat) =~= start + (seq!['0'] + decimal_nat(
            n as nat,
        )));
    } else {
        push_decimal_nat(out, n as u128);
    }
}

} // verus!
