use time_sync::extract::extract_epoch_millis;
use time_sync::payload::JsonValue;
use time_sync::timestamp::utc_millis_from_parts;

fn object(fields: Vec<(&str, JsonValue)>) -> JsonValue {
    JsonValue::Object(fields.into_iter().map(|(k, v)| (k.to_string(), v)).collect())
}

fn text(s: &str) -> JsonValue {
    JsonValue::Text(s.to_string())
}

fn components(year: i64, month: i64, day: i64, hour: i64, minute: i64, seconds: i64) -> Vec<(&'static str, JsonValue)> {
    vec![
        ("year", JsonValue::Integer(year)),
        ("month", JsonValue::Integer(month)),
        ("day", JsonValue::Integer(day)),
        ("hour", JsonValue::Integer(hour)),
        ("minute", JsonValue::Integer(minute)),
        ("seconds", JsonValue::Integer(seconds)),
    ]
}

#[test]
fn scenario_unix_time_seconds() {
    let p = object(vec![("unixTime", JsonValue::Integer(1700000000))]);
    assert_eq!(extract_epoch_millis(&p), Some(1700000000000));
}

#[test]
fn scenario_date_time_utc_text() {
    let p = object(vec![("dateTimeUtc", text("2023-11-14T22:13:20.000Z"))]);
    assert_eq!(extract_epoch_millis(&p), Some(1700000000000));
}

#[test]
fn scenario_calendar_components() {
    let mut fields = components(2023, 11, 14, 22, 13, 20);
    fields.push(("milliSeconds", JsonValue::Integer(0)));
    assert_eq!(extract_epoch_millis(&object(fields)), Some(1700000000000));
}

#[test]
fn scenario_unparseable_date_time_gives_nothing() {
    let p = object(vec![("dateTime", text("not-a-date"))]);
    assert_eq!(extract_epoch_millis(&p), None);
}

#[test]
fn unix_time_of_any_integer_is_scaled() {
    for n in [0i64, 1, -1, 1234567890, -86400, 9_223_372_036_854_775] {
        let p = object(vec![("unixTime", JsonValue::Integer(n))]);
        assert_eq!(extract_epoch_millis(&p), Some(n * 1000));
    }
}

#[test]
fn unix_time_as_string_or_decimal_is_coerced() {
    let p = object(vec![("unixTime", text(" 1700000000 "))]);
    assert_eq!(extract_epoch_millis(&p), Some(1700000000000));
    let p = object(vec![("unixTime", JsonValue::Decimal("1699999999.6".to_string()))]);
    assert_eq!(extract_epoch_millis(&p), Some(1700000000000));
}

#[test]
fn unix_time_too_large_falls_through() {
    let p = object(vec![
        ("unixTime", JsonValue::Integer(i64::MAX)),
        ("dateTime", text("2023-11-14T22:13:20Z")),
    ]);
    assert_eq!(extract_epoch_millis(&p), Some(1700000000000));
    let p = object(vec![("unixTime", JsonValue::Integer(i64::MAX))]);
    assert_eq!(extract_epoch_millis(&p), None);
}

#[test]
fn unix_time_wins_over_date_time() {
    let p = object(vec![
        ("dateTime", text("2001-09-09T01:46:40Z")),
        ("unixTime", JsonValue::Integer(1700000000)),
    ]);
    assert_eq!(extract_epoch_millis(&p), Some(1700000000000));
}

#[test]
fn unparseable_earlier_key_does_not_block_later_key() {
    let p = object(vec![
        ("dateTime", text("garbage")),
        ("currentUtcTime", text("2023-11-14 22:13:20")),
    ]);
    assert_eq!(extract_epoch_millis(&p), Some(1700000000000));
}

#[test]
fn date_time_keys_are_probed_in_order() {
    let p = object(vec![
        ("currentUtcTime", text("2001-09-09T01:46:40Z")),
        ("dateTimeUtc", text("2023-11-14T22:13:20Z")),
    ]);
    assert_eq!(extract_epoch_millis(&p), Some(1700000000000));
}

#[test]
fn non_text_date_time_is_skipped() {
    let p = object(vec![
        ("dateTime", JsonValue::Integer(5)),
        ("currentLocalTime", text("2023-11-14T22:13:20.250")),
    ]);
    assert_eq!(extract_epoch_millis(&p), Some(1700000000250));
}

#[test]
fn components_match_direct_construction() {
    let cases = [(2024, 2, 29, 12, 0, 0, 999), (1970, 1, 1, 0, 0, 0, 0), (1969, 12, 31, 23, 59, 59, 999), (2000, 3, 1, 1, 2, 3, 4)];
    for (y, mo, d, h, mi, s, ms) in cases {
        let mut fields = components(y, mo, d, h, mi, s);
        fields.push(("milliSeconds", JsonValue::Integer(ms)));
        let direct = utc_millis_from_parts(y, mo, d, h, mi, s, ms);
        assert!(direct.is_some());
        assert_eq!(extract_epoch_millis(&object(fields)), direct);
    }
}

#[test]
fn components_without_millis_default_to_zero() {
    let p = object(components(2023, 11, 14, 22, 13, 20));
    assert_eq!(extract_epoch_millis(&p), Some(1700000000000));
}

#[test]
fn components_as_strings_are_coerced() {
    let p = object(vec![
        ("year", text("2023")),
        ("month", text("11")),
        ("day", text("14")),
        ("hour", text("22")),
        ("minute", text("13")),
        ("seconds", JsonValue::Decimal("19.5".to_string())),
    ]);
    assert_eq!(extract_epoch_millis(&p), Some(1700000000000));
}

#[test]
fn invalid_components_give_nothing() {
    assert_eq!(extract_epoch_millis(&object(components(2023, 13, 14, 22, 13, 20))), None);
    assert_eq!(extract_epoch_millis(&object(components(2023, 2, 30, 0, 0, 0))), None);
    assert_eq!(extract_epoch_millis(&object(components(2023, 2, 29, 0, 0, 0))), None);
    assert_eq!(extract_epoch_millis(&object(components(2023, 11, 14, 24, 0, 0))), None);
    assert_eq!(extract_epoch_millis(&object(components(2023, 11, 14, 22, 60, 0))), None);
    assert_eq!(extract_epoch_millis(&object(components(2023, 11, 14, 22, 13, 60))), None);
    assert_eq!(extract_epoch_millis(&object(components(2023, 0, 14, 22, 13, 20))), None);
    assert_eq!(extract_epoch_millis(&object(components(2023, 11, -1, 22, 13, 20))), None);
    let mut fields = components(2023, 11, 14, 22, 13, 20);
    fields.push(("milliSeconds", JsonValue::Integer(1000)));
    assert_eq!(extract_epoch_millis(&object(fields)), None);
}

#[test]
fn missing_component_gives_nothing() {
    let mut fields = components(2023, 11, 14, 22, 13, 20);
    fields.retain(|(k, _)| *k != "minute");
    assert_eq!(extract_epoch_millis(&object(fields)), None);
    assert_eq!(extract_epoch_millis(&JsonValue::Null), None);
    assert_eq!(extract_epoch_millis(&JsonValue::Array(vec![JsonValue::Integer(1)])), None);
}

#[test]
fn same_payload_gives_same_instant() {
    let p = object(vec![("dateTime", text("2023-11-14T22:13:20+00:00"))]);
    assert_eq!(extract_epoch_millis(&p), extract_epoch_millis(&p));
}
