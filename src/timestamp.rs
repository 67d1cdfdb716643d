//! Instants from date-time text and from calendar components, as
//! milliseconds since 1970-01-01T00:00:00Z.

use vstd::prelude::*;

verus! {

pub open spec fn is_leap_year(year: int) -> bool {
    (year % 4 == 0 && year % 100 != 0) || year % 400 == 0
}

pub open spec fn days_in_month(year: int, month: int) -> int {
    if month == 2 {
        if is_leap_year(year) {
            29
        } else {
            28
        }
    } else if month == 4 || month == 6 || month == 9 || month == 11 {
        30
    } else {
        31
    }
}

/// A day of the proleptic Gregorian calendar, within the years that a date
/// can hold (-262143 to 262142).
pub open spec fn valid_date(year: int, month: int, day: int) -> bool {
    -262143 <= year <= 262142 && 1 <= month <= 12 && 1 <= day <= days_in_month(year, month)
}

/// A time of day without leap seconds, to the millisecond.
pub open spec fn valid_time(hour: int, minute: int, second: int, milli: int) -> bool {
    0 <= hour < 24 && 0 <= minute < 60 && 0 <= second < 60 && 0 <= milli < 1000
}

/// Days from 1970-01-01 to the given day (negative before it).
pub open spec fn days_from_civil(year: int, month: int, day: int) -> int {
    let y = if month <= 2 {
        year - 1
    } else {
        year
    };
    let shifted_month = if month > 2 {
        month - 3
    } else {
        month + 9
    };
    365 * y + y / 4 - y / 100 + y / 400 + (153 * shifted_month + 2) / 5 + day - 1 - 719468
}

/// Milliseconds since the epoch of the given UTC date and time.
pub open spec fn utc_millis(
    year: int,
    month: int,
    day: int,
    hour: int,
    minute: int,
    second: int,
    milli: int,
) -> int {
    days_from_civil(year, month, day) * 86_400_000 + hour * 3_600_000 + minute * 60_000 + second
        * 1000 + milli
}

/// The instant of a UTC date and time given by components, when they name one.
pub open spec fn component_instant(
    year: int,
    month: int,
    day: int,
    hour: int,
    minute: int,
    second: int,
    milli: int,
) -> Option<i64> {
    if valid_date(year, month, day) && valid_time(hour, minute, second, milli) {
        Some(utc_millis(year, month, day, hour, minute, second, milli) as i64)
    } else {
        None
    }
}

/// What an offset-aware RFC 3339 date-time denotes, in UTC milliseconds.
pub uninterp spec fn rfc3339_instant(s: Seq<char>) -> Option<i64>;

/// What a date-time without offset denotes under a chrono format, read as UTC.
pub uninterp spec fn naive_instant(s: Seq<char>, format: Seq<char>) -> Option<i64>;

pub open spec fn first_parsed(a: Option<i64>, b: Option<i64>, c: Option<i64>) -> Option<i64> {
    if a is Some {
        a
    } else if b is Some {
        b
    } else {
        c
    }
}

/// The instant a date-time text denotes: as RFC 3339 first, then as a naive
/// date-time with `T` or a space between date and time, read as UTC.
pub open spec fn timestamp_of(s: Seq<char>) -> Option<i64> {
    first_parsed(
        rfc3339_instant(s),
        naive_instant(s, "%Y-%m-%dT%H:%M:%S%.f"@),
        naive_instant(s, "%Y-%m-%d %H:%M:%S%.f"@),
    )
}

/// Relies on chrono's `NaiveDate::from_ymd_opt` (a date exists when the
/// day exists in the month and the year is in chrono's range),
/// `NaiveTime::from_hms_milli_opt` (hour below 24, minute and second below 60,
/// the milliseconds here below 1000) and `DateTime::timestamp_millis` on the
/// UTC date-time (the non-leap milliseconds since the epoch).
#[verifier::external_body]
fn chrono_utc_millis(
    year: i32,
    month: u32,
    day: u32,
    hour: u32,
    minute: u32,
    second: u32,
    milli: u32,
) -> (r: Option<i64>)
    requires
        milli < 1000,
    ensures
        r is Some <==> (valid_date(year as int, month as int, day as int) && valid_time(hour as int, minute as int, second as int, milli as int)),
        r is Some ==> r->0 == utc_millis(year as int, month as int, day as int, hour as int, minute as int, second as int, milli as int),
{
    let date = chrono::NaiveDate::from_ymd_opt(year, month, day)?;
    let time = chrono::NaiveTime::from_hms_milli_opt(hour, minute, second, milli)?;
    Some(chrono::NaiveDateTime::new(date, time).and_utc().timestamp_millis())
}

/// Relies on chrono's `DateTime::parse_from_rfc3339` and
/// `DateTime::timestamp_millis`: the result depends on the text alone.
#[verifier::external_body]
fn chrono_rfc3339_millis(s: &str) -> (r: Option<i64>)
    ensures
        r == rfc3339_instant(s@),
{
    match chrono::DateTime::parse_from_rfc3339(s) {
        Ok(t) => Some(t.timestamp_millis()),
        Err(_) => None,
    }
}

/// Relies on chrono's `NaiveDateTime::parse_from_str` and, on the result taken
/// as UTC, `DateTime::timestamp_millis`: the result depends on the text and the
/// format alone.
#[verifier::external_body]
fn chrono_naive_millis(s: &str, format: &str) -> (r: Option<i64>)
    ensures
        r == naive_instant(s@, format@),
{
    match chrono::NaiveDateTime::parse_from_str(s, format) {
        Ok(t) => Some(t.and_utc().timestamp_millis()),
        Err(_) => None,
    }
}

/// The UTC instant of the given calendar components; `None` when they name
/// no day or no time of day (month 1 to 12, the days of that month, hour 0 to
/// 23, minute and second 0 to 59, milliseconds 0 to 999).
pub fn utc_millis_from_parts(
    year: i64,
    month: i64,
    day: i64,
    hour: i64,
    minute: i64,
    second: i64,
    milli: i64,
) -> (r: Option<i64>)
    ensures
        r == component_instant(
            year as int,
            month as int,
            day as int,
            hour as int,
            minute as int,
            second as int,
            milli as int,
        ),
{
    if year < i32::MIN as i64 || year > i32::MAX as i64 {
        return None;
    }
    if month < 0 || day < 0 || hour < 0 || minute < 0 || second < 0 || milli < 0 {
        return None;
    }
    if month > u32::MAX as i64 || day > u32::MAX as i64 || hour > u32::MAX as i64 || minute
        > u32::MAX as i64 || second > u32::MAX as i64 || milli >= 1000 {
        return None;
    }
    chrono_utc_millis(
        year as i32,
        month as u32,
        day as u32,
        hour as u32,
        minute as u32,
        second as u32,
        milli as u32,
    )
}

/// Reads a date-time text: as RFC 3339 with an offset or `Z` first, then as
/// `YYYY-MM-DDTHH:MM:SS[.fraction]` or `YYYY-MM-DD HH:MM:SS[.fraction]` taken
/// as UTC.
pub fn parse_iso_candidate(value: &str) -> (r: Option<i64>)
    ensures
        r == timestamp_of(value@),
        rfc3339_instant(value@) is Some ==> r == rfc3339_instant(value@),
{
    let offset_aware = chrono_rfc3339_millis(value);
    if offset_aware.is_some() {
        return offset_aware;
    }
    let with_t = chrono_naive_millis(value, "%Y-%m-%dT%H:%M:%S%.f");
    if with_t.is_some() {
        return with_t;
    }
    chrono_naive_millis(value, "%Y-%m-%d %H:%M:%S%.f")
}

} // verus!
