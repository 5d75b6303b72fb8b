use supermailer::decimal::{format_decimal, format_fixed, parse_decimal};

#[test]
fn format_writes_exact_numerals() {
    assert_eq!(format_decimal(0), "0");
    assert_eq!(format_decimal(7), "7");
    assert_eq!(format_decimal(10), "10");
    assert_eq!(format_decimal(-1), "-1");
    assert_eq!(format_decimal(1700000000), "1700000000");
    assert_eq!(format_decimal(i64::MAX), "9223372036854775807");
    assert_eq!(format_decimal(i64::MIN), "-9223372036854775808");
}

#[test]
fn parse_reads_exact_values() {
    assert_eq!(parse_decimal("0"), Some(0));
    assert_eq!(parse_decimal("-0"), Some(0));
    assert_eq!(parse_decimal("+15"), Some(15));
    assert_eq!(parse_decimal("007"), Some(7));
    assert_eq!(parse_decimal("9223372036854775807"), Some(i64::MAX));
    assert_eq!(parse_decimal("-9223372036854775808"), Some(i64::MIN));
    assert_eq!(parse_decimal("0000000000000000000000000000000000042"), Some(42));
}

#[test]
fn parse_rejects_what_is_no_numeral() {
    assert_eq!(parse_decimal(""), None);
    assert_eq!(parse_decimal("-"), None);
    assert_eq!(parse_decimal("+"), None);
    assert_eq!(parse_decimal(" 1"), None);
    assert_eq!(parse_decimal("1 "), None);
    assert_eq!(parse_decimal("1.5"), None);
    assert_eq!(parse_decimal("--1"), None);
    assert_eq!(parse_decimal("12a"), None);
    assert_eq!(parse_decimal("\u{0661}"), None);
}

#[test]
fn parse_rejects_what_is_out_of_range() {
    assert_eq!(parse_decimal("9223372036854775808"), None);
    assert_eq!(parse_decimal("-9223372036854775809"), None);
    assert_eq!(parse_decimal("99999999999999999999999999999999999999999999"), None);
}

#[test]
fn parse_inverts_format() {
    let values = [0, 1, -1, 9, 10, 99, 100, -100, 1234567890123, i64::MAX, i64::MIN, i64::MIN + 1];
    for v in values {
        assert_eq!(parse_decimal(&format_decimal(v)), Some(v));
    }
}

#[test]
fn format_and_parse_agree_with_std() {
    let mut x: u64 = 0x9E3779B97F4A7C15;
    let mut i = 0;
    while i < 2000 {
        x ^= x << 13;
        x ^= x >> 7;
        x ^= x << 17;
        let v = (x as i64) >> (i % 64);
        assert_eq!(format_decimal(v), v.to_string());
        assert_eq!(parse_decimal(&v.to_string()), Some(v));
        i += 1;
    }
    let texts = ["", "+", "-", "+0", "-0", "00", "1_000", "0x10", "١٢", "9223372036854775808", "+9223372036854775807"];
    for text in texts {
        assert_eq!(parse_decimal(text), text.parse::<i64>().ok(), "{:?}", text);
    }
}

#[test]
fn format_fixed_pads_with_zeros() {
    assert_eq!(format_fixed(0, 20), "00000000000000000000");
    assert_eq!(format_fixed(42, 5), "00042");
    assert_eq!(format_fixed(u64::MAX, 20), "18446744073709551615");
    assert_eq!(format_fixed(7, 0), "");
}

#[test]
fn format_fixed_keeps_the_last_digits_of_a_wider_number() {
    assert_eq!(format_fixed(123456, 3), "456");
}
