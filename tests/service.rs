use time_sync::payload::JsonValue;
use time_sync::service::{
    remote_outcome, request_url, resolve_reply, status_is_success, time_or_fallback, zone_or_default, Reply,
    TimeSyncError,
};

fn payload(key: &str, value: JsonValue) -> Option<JsonValue> {
    Some(JsonValue::Object(vec![(key.to_string(), value)]))
}

#[test]
fn scenario_unparseable_payload_uses_local_clock() {
    let reply = Reply::Received { status: 200, payload: payload("dateTime", JsonValue::Text("not-a-date".to_string())) };
    assert_eq!(resolve_reply(reply, 1234), 1234);
}

#[test]
fn scenario_timeout_uses_local_clock() {
    let reply = Reply::Failed("operation timed out".to_string());
    assert_eq!(resolve_reply(reply, 987654321), 987654321);
}

#[test]
fn remote_instant_is_preferred() {
    let reply = Reply::Received { status: 200, payload: payload("unixTime", JsonValue::Integer(1700000000)) };
    assert_eq!(resolve_reply(reply, 5), 1700000000000);
}

#[test]
fn same_payload_resolves_the_same_way_twice() {
    let make = || Reply::Received { status: 200, payload: payload("dateTimeUtc", JsonValue::Text("2023-11-14T22:13:20.000Z".to_string())) };
    assert_eq!(resolve_reply(make(), 1), resolve_reply(make(), 2));
    assert_eq!(resolve_reply(make(), 1), 1700000000000);
}

#[test]
fn outcome_errors() {
    assert!(matches!(remote_outcome(Reply::Failed("refused".to_string())), Err(TimeSyncError::Request(m)) if m == "refused"));
    let reply = Reply::Received { status: 503, payload: payload("unixTime", JsonValue::Integer(1)) };
    assert!(matches!(remote_outcome(reply), Err(TimeSyncError::Status(503))));
    assert!(matches!(remote_outcome(Reply::Received { status: 200, payload: None }), Err(TimeSyncError::Parse)));
    let reply = Reply::Received { status: 204, payload: Some(JsonValue::Null) };
    assert!(matches!(remote_outcome(reply), Err(TimeSyncError::Parse)));
    let reply = Reply::Received { status: 299, payload: payload("unixTime", JsonValue::Integer(2)) };
    assert!(matches!(remote_outcome(reply), Ok(2000)));
}

#[test]
fn fallback_only_on_error() {
    assert_eq!(time_or_fallback(Ok(10), 20), 10);
    assert_eq!(time_or_fallback(Err(TimeSyncError::Parse), 20), 20);
}

#[test]
fn success_statuses() {
    assert!(status_is_success(200));
    assert!(status_is_success(299));
    assert!(!status_is_success(199));
    assert!(!status_is_success(300));
    assert!(!status_is_success(404));
}

#[test]
fn zone_defaults_to_utc() {
    assert_eq!(zone_or_default(None), "Etc/UTC");
    assert_eq!(zone_or_default(Some("Europe/Paris".to_string())), "Europe/Paris");
}

#[test]
fn zone_is_percent_encoded_in_url() {
    assert_eq!(request_url("Etc/UTC"), "https://timeapi.io/api/Time/current/zone?timeZone=Etc%2FUTC");
    assert_eq!(
        request_url("America/Port-au-Prince"),
        "https://timeapi.io/api/Time/current/zone?timeZone=America%2FPort-au-Prince"
    );
    assert_eq!(request_url("a b~é"), "https://timeapi.io/api/Time/current/zone?timeZone=a%20b~%C3%A9");
    assert_eq!(request_url(""), "https://timeapi.io/api/Time/current/zone?timeZone=");
}
