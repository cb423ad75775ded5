use btc_updown::fixed::{parse_decimal, Ratio, MAX_UNITS, SCALE};

#[test]
fn parses_exchange_prices() {
    assert_eq!(parse_decimal(b"67123.45000000"), Some(6_712_345_000_000));
    assert_eq!(parse_decimal(b"0.00000001"), Some(1));
    assert_eq!(parse_decimal(b"12"), Some(12 * SCALE));
}

#[test]
fn parses_signs_and_short_forms() {
    assert_eq!(parse_decimal(b"-0.41"), Some(-41_000_000));
    assert_eq!(parse_decimal(b"+3.5"), Some(350_000_000));
    assert_eq!(parse_decimal(b".5"), Some(50_000_000));
    assert_eq!(parse_decimal(b"1."), Some(SCALE));
}

#[test]
fn drops_digits_beyond_the_eighth() {
    assert_eq!(parse_decimal(b"0.123456789"), Some(12_345_678));
    assert_eq!(parse_decimal(b"-0.123456789"), Some(-12_345_678));
}

#[test]
fn refuses_what_is_no_decimal() {
    assert_eq!(parse_decimal(b""), None);
    assert_eq!(parse_decimal(b"."), None);
    assert_eq!(parse_decimal(b"+"), None);
    assert_eq!(parse_decimal(b"-."), None);
    assert_eq!(parse_decimal(b"1.2.3"), None);
    assert_eq!(parse_decimal(b"abc"), None);
    assert_eq!(parse_decimal(b"1e5"), None);
    assert_eq!(parse_decimal(b" 1"), None);
}

#[test]
fn refuses_values_beyond_the_range() {
    assert_eq!(parse_decimal(b"10000000"), Some(MAX_UNITS));
    assert_eq!(parse_decimal(b"-10000000"), Some(-MAX_UNITS));
    assert_eq!(parse_decimal(b"10000000.00000001"), None);
    assert_eq!(parse_decimal(b"10000001"), None);
    assert_eq!(parse_decimal(b"99999999999999999999999"), None);
    assert_eq!(parse_decimal(b"00000000000000000000000012"), Some(12 * SCALE));
}

#[test]
fn compares_ratios_exactly() {
    let a = Ratio { num: 1, den: 3 };
    let b = Ratio { num: 33, den: 100 };
    assert!(b.less_than(&a));
    assert!(!a.less_than(&b));
    assert!(a.at_most(&Ratio { num: 2, den: 6 }));
    assert!(!a.less_than(&Ratio { num: 2, den: 6 }));
    let big = Ratio { num: i64::MAX, den: 1 };
    let small = Ratio { num: i64::MIN, den: i64::MAX };
    assert!(small.less_than(&big));
}
