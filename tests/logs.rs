use instrument::logs::{format_event, CallSite, Level, Live, PanicReport};
use instrument::outcome::panic_status;
use instrument::store::{FieldValue, Store};

fn text(store: &Store, key: &str) -> Option<String> {
    match store.get(key) {
        Some(FieldValue::Text(t)) => Some(t.clone()),
        _ => None,
    }
}

fn group<'a>(store: &'a Store, key: &str) -> Option<&'a Store> {
    match store.get(key) {
        Some(FieldValue::Object(g)) => Some(g),
        _ => None,
    }
}

fn call_site(level: Level) -> Store {
    CallSite {
        target: "app::handler".to_string(),
        level,
        line: Some(99),
        file: Some("src/handler.rs".to_string()),
    }
    .fields()
}

fn live() -> Store {
    Live { thread: 3, timestamp: "2024-01-01T00:00:00.000Z".to_string() }.fields()
}

#[test]
fn level_names_are_lower_case() {
    assert_eq!(Level::Trace.name(), "trace");
    assert_eq!(Level::Debug.name(), "debug");
    assert_eq!(Level::Info.name(), "info");
    assert_eq!(Level::Warn.name(), "warn");
    assert_eq!(Level::Error.name(), "error");
}

#[test]
fn call_site_fields() {
    let s = call_site(Level::Warn);
    assert_eq!(text(&s, "target").as_deref(), Some("app::handler"));
    assert_eq!(text(&s, "level").as_deref(), Some("warn"));
    assert!(matches!(s.get("line"), Some(FieldValue::UInt(99))));
    assert_eq!(text(&s, "file").as_deref(), Some("src/handler.rs"));
    let bare = CallSite { target: "t".to_string(), level: Level::Info, line: None, file: None }.fields();
    assert!(matches!(bare.get("line"), Some(FieldValue::Null)));
    assert!(matches!(bare.get("file"), Some(FieldValue::Null)));
    assert_eq!(bare.len(), 4);
}

#[test]
fn live_snapshot_has_thread_and_utc_millisecond_time() {
    let l = Live::new(12);
    assert_eq!(l.thread, 12);
    let ts = l.timestamp.clone();
    assert_eq!(ts.len(), 24, "{}", ts);
    assert!(ts.ends_with('Z'));
    assert_eq!(&ts[10..11], "T");
    assert_eq!(&ts[19..20], ".");
    let s = l.fields();
    assert!(matches!(s.get("thread"), Some(FieldValue::UInt(12))));
    assert_eq!(text(&s, "timestamp"), Some(ts));
}

#[test]
fn panic_fields_take_precedence_for_runtime() {
    let mut event = Store::new();
    event.record_str("message", "m");
    event.record_u64("panic.line", 10);
    event.record_str("panic.file", "x");
    event.record_str("log.target", "ignored");
    let r = format_event(Store::new(), call_site(Level::Error), event, live());
    let runtime = group(&r, "runtime").unwrap();
    assert!(matches!(runtime.get("line"), Some(FieldValue::UInt(10))));
    assert_eq!(text(runtime, "file").as_deref(), Some("x"));
    assert!(runtime.get("target").is_none());
    assert!(matches!(runtime.get("thread"), Some(FieldValue::UInt(3))));
    assert_eq!(runtime.len(), 3);
    let data = group(&r, "data").unwrap();
    assert_eq!(text(data, "log.target").as_deref(), Some("ignored"));
    assert_eq!(data.len(), 1);
}

#[test]
fn log_fields_come_next_for_runtime() {
    let mut event = Store::new();
    event.record_str("message", "m");
    event.record_str("log.target", "t");
    let r = format_event(Store::new(), call_site(Level::Info), event, live());
    let runtime = group(&r, "runtime").unwrap();
    assert_eq!(text(runtime, "target").as_deref(), Some("t"));
    assert!(runtime.get("line").is_none());
    assert!(runtime.get("file").is_none());
    assert_eq!(runtime.len(), 2);
    assert!(r.get("data").is_none());
}

#[test]
fn call_site_is_the_last_resort_for_runtime() {
    let mut event = Store::new();
    event.record_str("message", "m");
    event.record_i64("answer", 42);
    let r = format_event(Store::new(), call_site(Level::Info), event, live());
    let runtime = group(&r, "runtime").unwrap();
    assert_eq!(text(runtime, "target").as_deref(), Some("app::handler"));
    assert!(matches!(runtime.get("line"), Some(FieldValue::UInt(99))));
    assert_eq!(text(runtime, "file").as_deref(), Some("src/handler.rs"));
    assert_eq!(runtime.len(), 4);
    let data = group(&r, "data").unwrap();
    assert!(matches!(data.get("answer"), Some(FieldValue::Int(42))));
    assert_eq!(data.len(), 1);
}

#[test]
fn empty_groups_are_left_out() {
    let mut event = Store::new();
    event.record_str("message", "only a message");
    let r = format_event(Store::new(), call_site(Level::Info), event, live());
    assert!(r.get("data").is_none());
    assert!(r.get("context").is_none());
    assert_eq!(text(&r, "message").as_deref(), Some("only a message"));
    assert_eq!(text(&r, "level").as_deref(), Some("info"));
    assert_eq!(text(&r, "timestamp").as_deref(), Some("2024-01-01T00:00:00.000Z"));
    assert_eq!(r.len(), 4);
}

#[test]
fn context_holds_the_span_fields() {
    let mut context = Store::new();
    context.record_str("http.route", "/hello");
    let mut event = Store::new();
    event.record_str("message", "m");
    let r = format_event(context, call_site(Level::Info), event, live());
    let c = group(&r, "context").unwrap();
    assert_eq!(text(c, "http.route").as_deref(), Some("/hello"));
}

#[test]
fn hello_event_outside_any_span() {
    let mut event = Store::new();
    event.record_str("message", "Hello, World!");
    let metadata = CallSite {
        target: "gollum::router".to_string(),
        level: Level::Info,
        line: Some(31),
        file: Some("bin/src/router.rs".to_string()),
    }
    .fields();
    let r = format_event(Store::new(), metadata, event, live());
    assert_eq!(text(&r, "message").as_deref(), Some("Hello, World!"));
    assert!(r.get("context").is_none());
    let runtime = group(&r, "runtime").unwrap();
    assert_eq!(text(runtime, "target").as_deref(), Some("gollum::router"));
}

#[test]
fn panic_is_logged_once_at_error_with_its_location() {
    let report = PanicReport::new(Some("boom"), Some("bin/src/router.rs"), Some(37));
    let event = report.fields();
    assert_eq!(event.len(), 3);
    let r = format_event(Store::new(), call_site(Level::Error), event, live());
    assert_eq!(text(&r, "level").as_deref(), Some("error"));
    assert_eq!(text(&r, "message").as_deref(), Some("boom"));
    let runtime = group(&r, "runtime").unwrap();
    assert_eq!(text(runtime, "file").as_deref(), Some("bin/src/router.rs"));
    assert!(matches!(runtime.get("line"), Some(FieldValue::UInt(37))));
    assert!(r.get("data").is_none());
    let status = panic_status();
    assert_eq!(text(&status, "otel.status_code").as_deref(), Some("ERROR"));
    assert!(text(&status, "otel.status_message").unwrap().contains("panic"));
}

#[test]
fn panic_without_message_or_location() {
    let report = PanicReport::new(None, None, None);
    assert_eq!(report.message, "application crashed");
    let event = report.fields();
    assert_eq!(event.len(), 1);
    let r = format_event(Store::new(), call_site(Level::Error), event, live());
    let runtime = group(&r, "runtime").unwrap();
    assert_eq!(text(runtime, "file").as_deref(), Some("src/handler.rs"));
}
