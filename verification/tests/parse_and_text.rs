use countlogger::parse::parse_count;
use countlogger::render::get_utc_format;
use countlogger::text::{decimal_string, push_decimal_two};

#[test]
fn parse_plain_digits() {
    assert_eq!(parse_count("5"), Some(5));
    assert_eq!(parse_count("150"), Some(150));
    assert_eq!(parse_count("0"), Some(0));
    assert_eq!(parse_count("007"), Some(7));
}

#[test]
fn parse_signs() {
    assert_eq!(parse_count("+5"), Some(5));
    assert_eq!(parse_count("-5"), Some(-5));
    assert_eq!(parse_count("-0"), Some(0));
    assert_eq!(parse_count("-"), None);
    assert_eq!(parse_count("+"), None);
    assert_eq!(parse_count("+-5"), None);
    assert_eq!(parse_count("--5"), None);
}

#[test]
fn parse_rejects_what_is_no_integer() {
    assert_eq!(parse_count(""), None);
    assert_eq!(parse_count("cat"), None);
    assert_eq!(parse_count(" 5"), None);
    assert_eq!(parse_count("5 "), None);
    assert_eq!(parse_count("1_000"), None);
    assert_eq!(parse_count("12a"), None);
    assert_eq!(parse_count("1.5"), None);
    assert_eq!(parse_count("\u{ff15}"), None);
}

#[test]
fn parse_limits_of_the_range() {
    assert_eq!(parse_count("9223372036854775807"), Some(i64::MAX));
    assert_eq!(parse_count("9223372036854775808"), None);
    assert_eq!(parse_count("-9223372036854775808"), Some(i64::MIN));
    assert_eq!(parse_count("-9223372036854775809"), None);
    assert_eq!(parse_count("00000000000000000000000000000000042"), Some(42));
    assert_eq!(parse_count("99999999999999999999999999"), None);
}

#[test]
fn parse_agrees_with_std() {
    let samples = vec![
        "0", "1", "-1", "+1", "42", "0042", "-0042", "x", "4x", "", "-", "+", "9223372036854775807",
        "-9223372036854775808", "9223372036854775808", "18446744073709551616", " 1", "1\n",
    ];
    for s in samples {
        assert_eq!(parse_count(s), s.parse::<i64>().ok());
    }
}

#[test]
fn decimal_of_numbers() {
    assert_eq!(decimal_string(0), "0");
    assert_eq!(decimal_string(7), "7");
    assert_eq!(decimal_string(10), "10");
    assert_eq!(decimal_string(-1), "-1");
    assert_eq!(decimal_string(1234567890), "1234567890");
    assert_eq!(decimal_string(i64::MIN as i128), "-9223372036854775808");
    assert_eq!(decimal_string(i128::MIN), i128::MIN.to_string());
    assert_eq!(decimal_string(i128::MAX), i128::MAX.to_string());
}

#[test]
fn decimal_in_two_digits() {
    let mut s = String::from("x");
    push_decimal_two(&mut s, 3);
    push_decimal_two(&mut s, 12);
    push_decimal_two(&mut s, 0);
    push_decimal_two(&mut s, 255);
    assert_eq!(s, "x031200255");
}

#[test]
fn utc_offsets_carry_their_sign() {
    assert_eq!(get_utc_format(&0), "+0");
    assert_eq!(get_utc_format(&14), "+14");
    assert_eq!(get_utc_format(&-12), "-12");
    assert_eq!(get_utc_format(&-1), "-1");
}
