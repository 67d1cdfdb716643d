use time_sync::coerce::{coerce_text, parse_rounded, value_to_i64};
use time_sync::payload::JsonValue;

#[test]
fn scenario_string_and_number_coercion() {
    assert_eq!(value_to_i64(&JsonValue::Text("42.6".to_string())), Some(43));
    assert_eq!(value_to_i64(&JsonValue::Decimal("42.4".to_string())), Some(42));
}

#[test]
fn halves_round_away_from_zero() {
    assert_eq!(parse_rounded("2.5"), Some(3));
    assert_eq!(parse_rounded("-2.5"), Some(-3));
    assert_eq!(parse_rounded("2.4999"), Some(2));
    assert_eq!(parse_rounded("-0.4"), Some(0));
    assert_eq!(parse_rounded("0.5"), Some(1));
}

#[test]
fn decimal_forms() {
    assert_eq!(parse_rounded("17"), Some(17));
    assert_eq!(parse_rounded("+17"), Some(17));
    assert_eq!(parse_rounded("5."), Some(5));
    assert_eq!(parse_rounded(".5"), Some(1));
    assert_eq!(parse_rounded("007"), Some(7));
}

#[test]
fn non_decimals_give_nothing() {
    for t in ["", ".", "-", "+", "abc", "1.2.3", "1a", "--1", " 1", "1e", "1e+", "e5", ".e1", "1e5x", "inf", "NaN", "é"] {
        assert_eq!(parse_rounded(t), None, "{t}");
    }
}

#[test]
fn limits_of_i64() {
    assert_eq!(parse_rounded("9223372036854775807"), Some(i64::MAX));
    assert_eq!(parse_rounded("-9223372036854775808"), Some(i64::MIN));
    assert_eq!(parse_rounded("9223372036854775808"), None);
    assert_eq!(parse_rounded("9223372036854775807.5"), None);
    assert_eq!(parse_rounded("-9223372036854775808.5"), None);
    assert_eq!(parse_rounded("123456789012345678901234567890"), None);
}

#[test]
fn text_is_trimmed_before_reading() {
    assert_eq!(coerce_text("  42.6\n"), Some(43));
    assert_eq!(coerce_text("\t-8 "), Some(-8));
    assert_eq!(coerce_text("   "), None);
}

#[test]
fn other_values_do_not_coerce() {
    assert_eq!(value_to_i64(&JsonValue::Integer(-5)), Some(-5));
    assert_eq!(value_to_i64(&JsonValue::Null), None);
    assert_eq!(value_to_i64(&JsonValue::Bool(true)), None);
    assert_eq!(value_to_i64(&JsonValue::Array(vec![])), None);
    assert_eq!(value_to_i64(&JsonValue::Object(vec![])), None);
}

#[test]
fn exponents_shift_the_point() {
    assert_eq!(parse_rounded("1e3"), Some(1000));
    assert_eq!(parse_rounded("1E+3"), Some(1000));
    assert_eq!(parse_rounded("2.5e1"), Some(25));
    assert_eq!(parse_rounded("1.25e1"), Some(13));
    assert_eq!(parse_rounded("-1.25e1"), Some(-13));
    assert_eq!(parse_rounded("1.5e-7"), Some(0));
    assert_eq!(parse_rounded("5e-1"), Some(1));
    assert_eq!(parse_rounded("4.9e-1"), Some(0));
    assert_eq!(parse_rounded("1.7e9"), Some(1700000000));
    assert_eq!(parse_rounded("0e999999999999999999999"), Some(0));
    assert_eq!(parse_rounded("1e-999999999999999999999"), Some(0));
    assert_eq!(parse_rounded("1e999999999999999999999"), None);
    assert_eq!(parse_rounded("1e19"), None);
    assert_eq!(parse_rounded("9.223372036854775807e18"), Some(i64::MAX));
}
