use optirust::parse::{fixed_to_string, parse_fixed, parse_u16};

const SCALE: i64 = 1_000_000;

#[test]
fn decimal_strings_parse_exactly() {
    assert_eq!(parse_fixed("105.5"), Some(105_500_000));
    assert_eq!(parse_fixed("100.0"), Some(100_000_000));
    assert_eq!(parse_fixed("0.05"), Some(50_000));
    assert_eq!(parse_fixed("0.25"), Some(250_000));
    assert_eq!(parse_fixed("42"), Some(42 * SCALE));
    assert_eq!(parse_fixed("12."), Some(12 * SCALE));
    assert_eq!(parse_fixed("-3.25"), Some(-3_250_000));
    assert_eq!(parse_fixed("+7.5"), Some(7_500_000));
    assert_eq!(parse_fixed("0.123456789"), Some(123_456));
    assert_eq!(parse_fixed("0.000001"), Some(1));
}

#[test]
fn malformed_decimal_strings_are_rejected() {
    assert_eq!(parse_fixed(""), None);
    assert_eq!(parse_fixed("."), None);
    assert_eq!(parse_fixed(".5"), None);
    assert_eq!(parse_fixed("1e3"), None);
    assert_eq!(parse_fixed("1.2.3"), None);
    assert_eq!(parse_fixed("12a"), None);
    assert_eq!(parse_fixed("--1"), None);
    assert_eq!(parse_fixed(" 1"), None);
    assert_eq!(parse_fixed("not a number"), None);
}

#[test]
fn decimal_values_beyond_the_range_are_rejected() {
    assert_eq!(parse_fixed("1000000"), Some(1_000_000_000_000));
    assert_eq!(parse_fixed("1000001"), None);
    assert_eq!(parse_fixed("99999999999999999999"), None);
    assert_eq!(parse_fixed("-1000000.000001"), None);
}

#[test]
fn counters_parse_exactly() {
    assert_eq!(parse_u16("1000"), Some(1000));
    assert_eq!(parse_u16("0"), Some(0));
    assert_eq!(parse_u16("+25"), Some(25));
    assert_eq!(parse_u16("65535"), Some(65535));
    assert_eq!(parse_u16("65536"), None);
    assert_eq!(parse_u16("70000"), None);
    assert_eq!(parse_u16("-5"), None);
    assert_eq!(parse_u16("10.5"), None);
    assert_eq!(parse_u16(""), None);
}

#[test]
fn rendering_is_canonical() {
    assert_eq!(fixed_to_string(105_500_000), "105.500000");
    assert_eq!(fixed_to_string(0), "0.000000");
    assert_eq!(fixed_to_string(1), "0.000001");
    assert_eq!(fixed_to_string(-3_250_000), "-3.250000");
    assert_eq!(fixed_to_string(123_456_789), "123.456789");
}

#[test]
fn rendering_then_parsing_round_trips() {
    for &v in &[0i64, 1, -1, 105_500_000, -3_250_000, 999_999, 1_000_000_000_000] {
        assert_eq!(parse_fixed(&fixed_to_string(v)), Some(v), "round trip of {v}");
    }
}
