//! Locating the instant in a loosely shaped time-service payload.
//!
//! Three strategies are tried in order and the first that yields an instant
//! wins: an epoch `unixTime` in seconds; the date-time texts under
//! `dateTime`, `dateTimeUtc`, `currentLocalTime` and `currentUtcTime`; the
//! calendar components `year`, `month`, `day`, `hour`, `minute`, `seconds`
//! and an optional `milliSeconds`.

use vstd::prelude::*;
use crate::coerce::{coerced, value_to_i64};
use crate::payload::{field_of, JsonValue};
use crate::timestamp::{
    component_instant, parse_iso_candidate, timestamp_of, utc_millis, utc_millis_from_parts, valid_date,
    valid_time,
};

verus! {

/// The integer that the field `key` of `p` coerces to.
pub open spec fn field_integer(p: JsonValue, key: Seq<char>) -> Option<i64> {
    match field_of(p, key) {
        Some(v) => coerced(v),
        None => None,
    }
}

/// `unixTime` seconds as milliseconds, when that product fits in `i64`.
pub open spec fn unix_time_instant(p: JsonValue) -> Option<i64> {
    match field_integer(p, "unixTime"@) {
        Some(n) => if i64::MIN <= n * 1000 <= i64::MAX {
            Some((n * 1000) as i64)
        } else {
            None
        },
        None => None,
    }
}

/// The instant that the text field `key` of `p` denotes.
pub open spec fn text_field_instant(p: JsonValue, key: Seq<char>) -> Option<i64> {
    match field_of(p, key) {
        Some(JsonValue::Text(t)) => timestamp_of(t@),
        _ => None,
    }
}

/// The first of the four date-time text fields that denotes an instant.
pub open spec fn date_time_instant(p: JsonValue) -> Option<i64> {
    if text_field_instant(p, "dateTime"@) is Some {
        text_field_instant(p, "dateTime"@)
    } else if text_field_instant(p, "dateTimeUtc"@) is Some {
        text_field_instant(p, "dateTimeUtc"@)
    } else if text_field_instant(p, "currentLocalTime"@) is Some {
        text_field_instant(p, "currentLocalTime"@)
    } else {
        text_field_instant(p, "currentUtcTime"@)
    }
}

/// The instant of the calendar components of `p`: all six must coerce, the
/// milliseconds count 0 unless they coerce.
pub open spec fn components_instant(p: JsonValue) -> Option<i64> {
    let year = field_integer(p, "year"@);
    let month = field_integer(p, "month"@);
    let day = field_integer(p, "day"@);
    let hour = field_integer(p, "hour"@);
    let minute = field_integer(p, "minute"@);
    let second = field_integer(p, "seconds"@);
    let milli = match field_integer(p, "milliSeconds"@) {
        Some(ms) => ms as int,
        None => 0,
    };
    if year is Some && month is Some && day is Some && hour is Some && minute is Some
        && second is Some {
        component_instant(
            year->0 as int,
            month->0 as int,
            day->0 as int,
            hour->0 as int,
            minute->0 as int,
            second->0 as int,
            milli,
        )
    } else {
        None
    }
}

/// The instant of a payload: the first strategy that yields one.
pub open spec fn extracted(p: JsonValue) -> Option<i64> {
    if unix_time_instant(p) is Some {
        unix_time_instant(p)
    } else if date_time_instant(p) is Some {
        date_time_instant(p)
    } else {
        components_instant(p)
    }
}

fn field_to_i64(payload: &JsonValue, key: &str) -> (r: Option<i64>)
    ensures
        r == field_integer(*payload, key@),
{
    match payload.get(key) {
        Some(v) => value_to_i64(v),
        None => None,
    }
}

fn text_field_to_millis(payload: &JsonValue, key: &str) -> (r: Option<i64>)
    ensures
        r == text_field_instant(*payload, key@),
{
    match payload.get(key) {
        Some(v) => match v.as_str() {
            Some(text) => parse_iso_candidate(text),
            None => None,
        },
        None => None,
    }
}

/// Extracts the instant, in milliseconds since the epoch, that a time-service
/// payload reports; `None` when no strategy yields one.
pub fn extract_epoch_millis(payload: &JsonValue) -> (r: Option<i64>)
    ensures
        r == extracted(*payload),
{
    let unix_seconds = field_to_i64(payload, "unixTime");
    match unix_seconds {
        Some(n) => {
            if -9_223_372_036_854_775 <= n && n <= 9_223_372_036_854_775 {
                return Some(n * 1000);
            }
        },
        None => {},
    }
    let a = text_field_to_millis(payload, "dateTime");
    if a.is_some() {
        return a;
    }
    let b = text_field_to_millis(payload, "dateTimeUtc");
    if b.is_some() {
        return b;
    }
    let c = text_field_to_millis(payload, "currentLocalTime");
    if c.is_some() {
        return c;
    }
    let d = text_field_to_millis(payload, "currentUtcTime");
    if d.is_some() {
        return d;
    }
    let year = field_to_i64(payload, "year");
    let month = field_to_i64(payload, "month");
    let day = field_to_i64(payload, "day");
    let hour = field_to_i64(payload, "hour");
    let minute = field_to_i64(payload, "minute");
    let second = field_to_i64(payload, "seconds");
    let milli = match field_to_i64(payload, "milliSeconds") {
        Some(ms) => ms,
        None => 0,
    };
    match (year, month, day, hour, minute, second) {
        (Some(y), Some(mo), Some(dd), Some(h), Some(mi), Some(s)) => utc_millis_from_parts(
            y,
            mo,
            dd,
            h,
            mi,
            s,
            milli,
        ),
        _ => None,
    }
}

/// No strategy before the calendar components applies to `p`: it has no
/// `unixTime` field and none of the four date-time text fields.
pub open spec fn only_components_apply(p: JsonValue) -> bool {
    &&& field_of(p, "unixTime"@) is None
    &&& field_of(p, "dateTime"@) is None
    &&& field_of(p, "dateTimeUtc"@) is None
    &&& field_of(p, "currentLocalTime"@) is None
    &&& field_of(p, "currentUtcTime"@) is None
}

/// A payload whose one field is an integer `unixTime` of `n` seconds yields
/// `n * 1000` milliseconds, wherever that product fits in `i64`.
pub proof fn law_unix_time_in_millis(p: JsonValue, n: i64)
    requires
        p is Object,
        p->Object_0@.len() == 1,
        p->Object_0@[0].0@ == "unixTime"@,
        p->Object_0@[0].1 == JsonValue::Integer(n),
        i64::MIN <= n * 1000 <= i64::MAX,
    ensures
        extracted(p) == Some((n * 1000) as i64),
{
    assert(field_of(p, "unixTime"@) == Some(JsonValue::Integer(n)));
}

/// Where only the calendar components apply and they name a valid UTC date
/// and time, the payload yields the instant of that date and time.
pub proof fn law_components_give_their_instant(
    p: JsonValue,
    year: i64,
    month: i64,
    day: i64,
    hour: i64,
    minute: i64,
    second: i64,
    milli: i64,
)
    requires
        only_components_apply(p),
        field_integer(p, "year"@) == Some(year),
        field_integer(p, "month"@) == Some(month),
        field_integer(p, "day"@) == Some(day),
        field_integer(p, "hour"@) == Some(hour),
        field_integer(p, "minute"@) == Some(minute),
        field_integer(p, "seconds"@) == Some(second),
        field_integer(p, "milliSeconds"@) == Some(milli),
        valid_date(year as int, month as int, day as int),
        valid_time(hour as int, minute as int, second as int, milli as int),
    ensures
        extracted(p) == Some(
            utc_millis(
                year as int,
                month as int,
                day as int,
                hour as int,
                minute as int,
                second as int,
                milli as int,
            ) as i64,
        ),
{
}

/// Where only the calendar components apply and they all coerce, but name
/// no valid date or time of day, the payload yields nothing.
pub proof fn law_invalid_components_yield_nothing(
    p: JsonValue,
    year: i64,
    month: i64,
    day: i64,
    hour: i64,
    minute: i64,
    second: i64,
    milli: int,
)
    requires
        only_components_apply(p),
        field_integer(p, "year"@) == Some(year),
        field_integer(p, "month"@) == Some(month),
        field_integer(p, "day"@) == Some(day),
        field_integer(p, "hour"@) == Some(hour),
        field_integer(p, "minute"@) == Some(minute),
        field_integer(p, "seconds"@) == Some(second),
        milli == match field_integer(p, "milliSeconds"@) {
            Some(ms) => ms as int,
            None => 0,
        },
        !valid_date(year as int, month as int, day as int) || !valid_time(
            hour as int,
            minute as int,
            second as int,
            milli,
        ),
    ensures
        extracted(p) is None,
{
}

} // verus!
