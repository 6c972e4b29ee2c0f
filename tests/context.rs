use instrument::context::{create, create_with, enter_fields, extract, fresh_trace_id, TraceContext};
use instrument::spans::SpanTable;
use instrument::store::{FieldValue, Store};

fn text(store: &Store, key: &str) -> Option<String> {
    match store.get(key) {
        Some(FieldValue::Text(t)) => Some(t.clone()),
        _ => None,
    }
}

fn headers(traceparent: &str) -> Vec<(String, String)> {
    vec![("traceparent".to_string(), traceparent.to_string())]
}

#[test]
fn invalid_context_gets_a_fresh_sampled_trace() {
    let a = create(TraceContext::invalid());
    let b = create(TraceContext::invalid());
    assert_ne!(a.trace_id, 0);
    assert_ne!(b.trace_id, 0);
    assert_ne!(a.trace_id, b.trace_id);
    assert_eq!(a.span_id, 0);
    assert!(a.sampled);
    assert!(!a.remote);
}

#[test]
fn create_with_uses_the_given_id_only_when_needed() {
    let fresh = create_with(TraceContext::invalid(), 77);
    assert_eq!(fresh, TraceContext { trace_id: 77, span_id: 0, sampled: true, remote: false });
    let valid = TraceContext { trace_id: 5, span_id: 6, sampled: false, remote: true };
    assert_eq!(create_with(valid, 77), valid);
    assert_eq!(create(valid), valid);
}

#[test]
fn valid_header_trace_id_is_kept() {
    let remote = extract(&headers("00-4bf92f3577b34da6a3ce929d0e0e4736-00f067aa0ba902b7-01"));
    assert!(remote.is_valid());
    assert!(remote.remote);
    assert!(remote.sampled);
    assert_eq!(remote.trace_id, 0x4bf9_2f35_77b3_4da6_a3ce_929d_0e0e_4736);
    assert_eq!(remote.span_id, 0x00f0_67aa_0ba9_02b7);
    let ctx = create(remote);
    assert_eq!(ctx, remote);
    let fields = enter_fields(&ctx);
    assert_eq!(text(&fields, "otel.trace_id").as_deref(), Some("4bf92f3577b34da6a3ce929d0e0e4736"));
    assert_eq!(text(&fields, "otel.span_id").as_deref(), Some("00f067aa0ba902b7"));
}

#[test]
fn unsampled_header_is_read_as_such() {
    let remote = extract(&headers("00-4bf92f3577b34da6a3ce929d0e0e4736-00f067aa0ba902b7-00"));
    assert!(remote.is_valid());
    assert!(!remote.sampled);
}

#[test]
fn malformed_or_missing_headers_give_the_invalid_context() {
    for bad in [
        "",
        "garbage",
        "00-AB000000000000000000000000000000-cd00000000000000-01",
        "00-00000000000000000000000000000000-0000000000000000-01",
        "00-4bf92f3577b34da6a3ce929d0e0e4736-00f067aa0ba902b7",
    ] {
        assert_eq!(extract(&headers(bad)), TraceContext::invalid(), "{}", bad);
    }
    assert_eq!(extract(&Vec::new()), TraceContext::invalid());
}

#[test]
fn ids_are_padded_hexadecimal() {
    let ctx = TraceContext { trace_id: 0xab, span_id: 0x1, sampled: true, remote: false };
    let fields = enter_fields(&ctx);
    assert_eq!(text(&fields, "otel.trace_id").as_deref(), Some("000000000000000000000000000000ab"));
    assert_eq!(text(&fields, "otel.span_id").as_deref(), Some("0000000000000001"));
    assert!(enter_fields(&TraceContext::invalid()).is_empty());
}

#[test]
fn entering_a_span_records_its_ids() {
    let mut t = SpanTable::new();
    t.on_span_create(1, None, Store::new()).unwrap();
    let ctx = TraceContext { trace_id: 0x10, span_id: 0x20, sampled: true, remote: false };
    t.on_enter(1, &ctx).unwrap();
    let s = t.get(1).unwrap();
    assert_eq!(text(s, "otel.trace_id").as_deref(), Some("00000000000000000000000000000010"));
    assert!(t.on_enter(2, &ctx).is_err());
    let mut u = SpanTable::new();
    u.on_span_create(1, None, Store::new()).unwrap();
    u.on_enter(1, &TraceContext::invalid()).unwrap();
    assert!(u.get(1).unwrap().is_empty());
}

#[test]
fn fresh_trace_ids_are_not_zero_and_differ() {
    let a = fresh_trace_id();
    let b = fresh_trace_id();
    assert_ne!(a, 0);
    assert_ne!(b, 0);
    assert_ne!(a, b);
}
