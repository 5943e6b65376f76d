use weather::decimal::parse_decimal;
use weather::temperature::Temperature;

fn millis(text: &str) -> Option<i64> {
    parse_decimal(text.as_bytes()).map(|t| t.millidegrees)
}

#[test]
fn reads_plain_decimals() {
    assert_eq!(millis("-9.8"), Some(-9800));
    assert_eq!(millis("-41"), Some(-41000));
    assert_eq!(millis("0"), Some(0));
    assert_eq!(millis("-0.0"), Some(0));
    assert_eq!(millis("12.345"), Some(12345));
    assert_eq!(millis("007.5"), Some(7500));
}

#[test]
fn rounds_to_the_nearest_millidegree_ties_to_even() {
    assert_eq!(millis("1.0004"), Some(1000));
    assert_eq!(millis("1.0005"), Some(1000));
    assert_eq!(millis("1.0015"), Some(1002));
    assert_eq!(millis("1.00050001"), Some(1001));
    assert_eq!(millis("1.0006"), Some(1001));
    assert_eq!(millis("-1.0015"), Some(-1002));
    assert_eq!(millis("0.0005"), Some(0));
    assert_eq!(millis("0.00051"), Some(1));
    assert_eq!(millis("0.00000000000000000000000000000000000000000001"), Some(0));
}

#[test]
fn reads_exponents() {
    assert_eq!(millis("1e1"), Some(10000));
    assert_eq!(millis("1.5E+2"), Some(150000));
    assert_eq!(millis("25e-1"), Some(2500));
    assert_eq!(millis("1e-7"), Some(0));
    assert_eq!(millis("5e-4"), Some(0));
    assert_eq!(millis("15e-4"), Some(2));
    assert_eq!(millis("0e99999999999999999999999999999999999999999"), Some(0));
    assert_eq!(millis("1e-99999999999999999999999999999999999999999"), Some(0));
    assert_eq!(millis("1e99999999999999999999999999999999999999999"), None);
    assert_eq!(millis("1e16"), None);
    assert_eq!(millis("1e15"), Some(1_000_000_000_000_000_000));
}

#[test]
fn keeps_to_64_bits() {
    assert_eq!(millis("9223372036854775.807"), Some(i64::MAX));
    assert_eq!(millis("9223372036854775.808"), None);
    assert_eq!(millis("-9223372036854775.808"), Some(i64::MIN));
    assert_eq!(millis("-9223372036854775.8085"), Some(i64::MIN));
    assert_eq!(millis("-9223372036854775.809"), None);
    assert_eq!(millis("9223372036854775.8074"), Some(i64::MAX));
    assert_eq!(millis("9223372036854775.8075"), None);
    assert_eq!(millis("123456789012345678901234567890"), None);
}

#[test]
fn rejects_what_is_no_decimal_number() {
    for text in ["", "-", ".5", "5.", "1e", "1e+", "+1", "1.5x", " 1", "1 ", "abc", "1.2.3", "--1", "1e1.5", "NaN", "inf"] {
        assert_eq!(millis(text), None, "{:?}", text);
    }
}

#[test]
fn from_decimal_reads_text() {
    assert_eq!(Temperature::from_decimal("-14.0"), Some(Temperature { millidegrees: -14000 }));
    assert_eq!(Temperature::from_decimal("°"), None);
}
