use instrument::lifecycle::{init, stop, Phase};
use instrument::outcome::{FailureClass, OtelOnFailure, OtelOnResponse};
use instrument::store::{FieldValue, Store};

fn text(store: &Store, key: &str) -> Option<String> {
    match store.get(key) {
        Some(FieldValue::Text(t)) => Some(t.clone()),
        _ => None,
    }
}

fn outcome(status: u16) -> Store {
    let mut span = Store::new();
    let mut update = OtelOnResponse.on_response(&span, status);
    span.port_all(&mut update);
    let mut failure = OtelOnFailure.on_failure(&FailureClass::StatusCode(status));
    span.port_all(&mut failure);
    span
}

#[test]
fn status_500_is_an_error() {
    let span = outcome(500);
    assert_eq!(text(&span, "http.status_code").as_deref(), Some("500"));
    assert_eq!(text(&span, "otel.status_code").as_deref(), Some("ERROR"));
    assert_eq!(
        text(&span, "otel.status_message").as_deref(),
        Some("HTTP request failed: Status code: 500 Internal Server Error")
    );
}

#[test]
fn status_200_is_ok() {
    let span = outcome(200);
    assert_eq!(text(&span, "http.status_code").as_deref(), Some("200"));
    assert_eq!(text(&span, "otel.status_code").as_deref(), Some("OK"));
    assert!(span.get("otel.status_message").is_none());
}

#[test]
fn status_404_is_ok() {
    let span = outcome(404);
    assert_eq!(text(&span, "http.status_code").as_deref(), Some("404"));
    assert_eq!(text(&span, "otel.status_code").as_deref(), Some("OK"));
}

#[test]
fn handler_error_is_an_error() {
    let update = OtelOnFailure.on_failure(&FailureClass::Error("boom".to_string()));
    assert_eq!(text(&update, "otel.status_code").as_deref(), Some("ERROR"));
    assert_eq!(text(&update, "otel.status_message").as_deref(), Some("HTTP request failed: Error: boom"));
    assert!(OtelOnFailure.on_failure(&FailureClass::StatusCode(404)).is_empty());
}

#[test]
fn error_is_not_downgraded_by_a_later_response() {
    let mut span = Store::new();
    span.record_str("otel.status_code", "ERROR");
    let update = OtelOnResponse.on_response(&span, 200);
    assert!(update.get("otel.status_code").is_none());
    assert_eq!(text(&update, "http.status_code").as_deref(), Some("200"));
    let mut update = update;
    span.port_all(&mut update);
    assert_eq!(text(&span, "otel.status_code").as_deref(), Some("ERROR"));
}

#[test]
fn status_code_digits() {
    assert_eq!(text(&OtelOnResponse.on_response(&Store::new(), 999), "http.status_code").as_deref(), Some("999"));
    assert_eq!(text(&OtelOnResponse.on_response(&Store::new(), 7), "http.status_code").as_deref(), Some("7"));
}

#[test]
fn exporters_start_and_stop_once() {
    let (p, install) = init(Phase::Idle);
    assert!(install);
    let (p, again) = init(p);
    assert!(!again);
    let (p, flush) = stop(p);
    assert!(flush);
    assert_eq!(p, Phase::Stopped);
    let (p, flush_again) = stop(p);
    assert!(!flush_again);
    let (p, late) = init(p);
    assert!(!late);
    assert_eq!(p, Phase::Stopped);
    let (p, nothing) = stop(Phase::Idle);
    assert!(!nothing);
    assert_eq!(p, Phase::Stopped);
}
