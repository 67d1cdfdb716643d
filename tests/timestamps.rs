use time_sync::timestamp::{parse_iso_candidate, utc_millis_from_parts};

#[test]
fn rfc3339_with_offset_is_converted_to_utc() {
    assert_eq!(parse_iso_candidate("2023-11-14T23:13:20+01:00"), Some(1700000000000));
    assert_eq!(parse_iso_candidate("2023-11-14T22:13:20.123Z"), Some(1700000000123));
    assert_eq!(parse_iso_candidate("1969-12-31T23:59:59Z"), Some(-1000));
}

#[test]
fn naive_date_times_are_read_as_utc() {
    assert_eq!(parse_iso_candidate("2023-11-14T22:13:20"), Some(1700000000000));
    assert_eq!(parse_iso_candidate("2023-11-14 22:13:20.5"), Some(1700000000500));
    assert_eq!(parse_iso_candidate("2023-11-14T22:13:20.1234567"), Some(1700000000123));
}

#[test]
fn non_date_times_give_nothing() {
    assert_eq!(parse_iso_candidate("not-a-date"), None);
    assert_eq!(parse_iso_candidate(""), None);
    assert_eq!(parse_iso_candidate("2023-11-14"), None);
}

#[test]
fn parts_give_epoch_millis() {
    assert_eq!(utc_millis_from_parts(1970, 1, 1, 0, 0, 0, 0), Some(0));
    assert_eq!(utc_millis_from_parts(2001, 9, 9, 1, 46, 40, 555), Some(1_000_000_000_555));
    assert_eq!(utc_millis_from_parts(1600, 2, 29, 0, 0, 0, 0), Some(-11670998400000));
    assert_eq!(utc_millis_from_parts(1900, 2, 29, 0, 0, 0, 0), None);
    assert_eq!(utc_millis_from_parts(2023, 4, 31, 0, 0, 0, 0), None);
    assert_eq!(utc_millis_from_parts(2023, 1, 1, 0, 0, 0, -1), None);
    assert_eq!(utc_millis_from_parts(5_000_000_000, 1, 1, 0, 0, 0, 0), None);
}
