//! The time-sync service: the request it makes, and how a reply, or the lack
//! of one, becomes an instant. A reply that yields no instant is replaced by
//! the local clock's reading, so resolution never fails.

use vstd::prelude::*;
use vstd::string::{StringExecFns, StringSliceAdditionalSpecFns};
use crate::extract::{extract_epoch_millis, extracted};
use crate::payload::JsonValue;

verus! {

/// Why the remote service gave no instant.
#[derive(Debug)]
pub enum TimeSyncError {
    /// The request could not be made or was not answered in time.
    Request(String),
    /// The service answered with a status outside 200 to 299.
    Status(u16),
    /// The answer was no payload, or no instant could be found in it.
    Parse,
}

/// What came back from the one request to the remote service.
#[derive(Debug)]
pub enum Reply {
    /// No answer: a connection error or a timeout, with its description.
    Failed(String),
    /// An answer with its status and, when the body decoded, its payload.
    Received { status: u16, payload: Option<JsonValue> },
}

pub open spec fn is_success(status: u16) -> bool {
    200 <= status <= 299
}

/// Whether `b` stands for itself in a URL: an ASCII letter or digit, `-`,
/// `.`, `_` or `~`.
pub open spec fn is_unreserved(b: u8) -> bool {
    (48 <= b <= 57) || (65 <= b <= 90) || (97 <= b <= 122) || b == 45 || b == 46 || b == 95
        || b == 126
}

pub open spec fn hex_digit(n: u8) -> char {
    if n < 10 {
        (48 + n) as char
    } else {
        (55 + n) as char
    }
}

pub open spec fn byte_encoded(b: u8) -> Seq<char> {
    if is_unreserved(b) {
        seq![b as char]
    } else {
        seq!['%', hex_digit(b / 16), hex_digit(b % 16)]
    }
}

/// Percent-encoding of a byte string: unreserved bytes kept, every other
/// byte written `%XX` in upper-case hexadecimal.
pub open spec fn percent_encoded(b: Seq<u8>) -> Seq<char>
    decreases b.len(),
{
    if b.len() == 0 {
        Seq::empty()
    } else {
        byte_encoded(b[0]) + percent_encoded(b.drop_first())
    }
}

pub open spec fn time_endpoint() -> Seq<char> {
    "https://timeapi.io/api/Time/current/zone?timeZone="@
}

/// The outcome of the remote request, given what came back.
pub open spec fn reply_outcome(reply: Reply) -> Result<i64, TimeSyncError> {
    match reply {
        Reply::Failed(detail) => Err(TimeSyncError::Request(detail)),
        Reply::Received { status, payload } => if !is_success(status) {
            Err(TimeSyncError::Status(status))
        } else {
            match payload {
                Some(p) => match extracted(p) {
                    Some(t) => Ok(t),
                    None => Err(TimeSyncError::Parse),
                },
                None => Err(TimeSyncError::Parse),
            }
        },
    }
}

/// The instant that the service reports: the remote one, or the local
/// clock's reading when there is none.
pub open spec fn resolved(reply: Reply, local_now_millis: i64) -> i64 {
    match reply_outcome(reply) {
        Ok(t) => t,
        Err(_) => local_now_millis,
    }
}

/// Relies on `urlencoding::encode`: each byte of the UTF-8 text is kept when
/// it is an ASCII letter or digit, `-`, `.`, `_` or `~`, and written as `%`
/// and two upper-case hexadecimal digits otherwise.
#[verifier::external_body]
fn url_encode(s: &str) -> (r: String)
    ensures
        r@ == percent_encoded(s.spec_bytes()),
{
    urlencoding::encode(s).into_owned()
}

/// The zone asked for, or `Etc/UTC` when none is given.
pub fn zone_or_default(time_zone: Option<String>) -> (r: String)
    ensures
        r@ == match time_zone {
            Some(z) => z@,
            None => "Etc/UTC"@,
        },
{
    match time_zone {
        Some(z) => z,
        None => String::from_str("Etc/UTC"),
    }
}

/// The address of the remote time endpoint for `zone`, the zone
/// percent-encoded as a query parameter.
pub fn request_url(zone: &str) -> (r: String)
    ensures
        r@ == time_endpoint() + percent_encoded(zone.spec_bytes()),
{
    let mut url = String::from_str("https://timeapi.io/api/Time/current/zone?timeZone=");
    let encoded = url_encode(zone);
    url.append(encoded.as_str());
    url
}

/// Whether an HTTP status is a success (200 to 299).
pub fn status_is_success(status: u16) -> (r: bool)
    ensures
        r == is_success(status),
{
    200 <= status && status <= 299
}

/// The outcome of the remote request: the instant in a successful reply's
/// payload, or why there is none.
pub fn remote_outcome(reply: Reply) -> (r: Result<i64, TimeSyncError>)
    ensures
        r == reply_outcome(reply),
{
    match reply {
        Reply::Failed(detail) => Err(TimeSyncError::Request(detail)),
        Reply::Received { status, payload } => {
            if !status_is_success(status) {
                return Err(TimeSyncError::Status(status));
            }
            match payload {
                Some(p) => match extract_epoch_millis(&p) {
                    Some(t) => Ok(t),
                    None => Err(TimeSyncError::Parse),
                },
                None => Err(TimeSyncError::Parse),
            }
        },
    }
}

/// The remote instant where there is one, else the local clock's reading.
pub fn time_or_fallback(outcome: Result<i64, TimeSyncError>, local_now_millis: i64) -> (r: i64)
    ensures
        r == match outcome {
            Ok(t) => t,
            Err(_) => local_now_millis,
        },
{
    match outcome {
        Ok(t) => t,
        Err(_) => local_now_millis,
    }
}

/// Resolves the current instant from what came back from the remote service
/// and the local clock's reading; never fails.
pub fn resolve_reply(reply: Reply, local_now_millis: i64) -> (r: i64)
    ensures
        r == resolved(reply, local_now_millis),
{
    time_or_fallback(remote_outcome(reply), local_now_millis)
}

/// Resolution is a pure function of the payload: a successful reply whose
/// payload yields an instant resolves to that instant whatever the local clock
/// reads, so two resolutions against the same payload agree.
pub proof fn law_resolution_is_pure(
    status: u16,
    payload: JsonValue,
    now_a: i64,
    now_b: i64,
)
    requires
        is_success(status),
        extracted(payload) is Some,
    ensures
        resolved(Reply::Received { status, payload: Some(payload) }, now_a) == resolved(
            Reply::Received { status, payload: Some(payload) },
            now_b,
        ),
        resolved(Reply::Received { status, payload: Some(payload) }, now_a) == extracted(
            payload,
        )->0,
{
}

} // verus!
