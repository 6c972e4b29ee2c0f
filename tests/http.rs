use instrument::http::{
    http_flavor, http_method, http_scheme, info, parse_x_forwarded_for, HttpVersion, OtelMakeSpan, Request, Scheme,
};
use instrument::store::{FieldValue, Store};

fn text(store: &Store, key: &str) -> Option<String> {
    match store.get(key) {
        Some(FieldValue::Text(t)) => Some(t.clone()),
        _ => None,
    }
}

fn request() -> Request {
    Request {
        method: "GET".to_string(),
        version: HttpVersion::Http11,
        scheme: None,
        host: Some("localhost:3000".to_string()),
        user_agent: Some("curl/8.0".to_string()),
        matched_path: Some("/hello".to_string()),
        received_target: None,
        target: "/hello?x=1".to_string(),
        forwarded_for: None,
        peer: Some("127.0.0.1:5000".to_string()),
    }
}

#[test]
fn forwarded_for_first_entry_trimmed() {
    assert_eq!(parse_x_forwarded_for(Some(" 10.0.0.1 , 10.0.0.2")).as_deref(), Some("10.0.0.1"));
    assert_eq!(parse_x_forwarded_for(Some("192.168.1.1")).as_deref(), Some("192.168.1.1"));
    assert_eq!(parse_x_forwarded_for(Some("\t a b \t")).as_deref(), Some("a b"));
    assert_eq!(parse_x_forwarded_for(Some(",second")).as_deref(), Some(""));
    assert_eq!(parse_x_forwarded_for(Some("")).as_deref(), Some(""));
    assert_eq!(parse_x_forwarded_for(None), None);
}

#[test]
fn method_names() {
    for m in ["CONNECT", "DELETE", "GET", "HEAD", "OPTIONS", "PATCH", "POST", "PUT", "TRACE"] {
        assert_eq!(http_method(m), m);
    }
    assert_eq!(http_method("PURGE"), "");
    assert_eq!(http_method("get"), "");
}

#[test]
fn flavors() {
    assert_eq!(http_flavor(&HttpVersion::Http09), "0.9");
    assert_eq!(http_flavor(&HttpVersion::Http10), "1.0");
    assert_eq!(http_flavor(&HttpVersion::Http11), "1.1");
    assert_eq!(http_flavor(&HttpVersion::Http2), "2.0");
    assert_eq!(http_flavor(&HttpVersion::Http3), "3.0");
    assert_eq!(http_flavor(&HttpVersion::Other), "");
}

#[test]
fn schemes() {
    assert_eq!(http_scheme(&Scheme::Http), "http");
    assert_eq!(http_scheme(&Scheme::Https), "https");
    assert_eq!(http_scheme(&Scheme::Other("ws".to_string())), "ws");
}

#[test]
fn info_from_request() {
    let i = info(&request());
    assert_eq!(i.method, "GET");
    assert_eq!(i.flavor, "1.1");
    assert_eq!(i.scheme, "HTTP");
    assert_eq!(i.host, "localhost:3000");
    assert_eq!(i.user_agent, "curl/8.0");
    assert_eq!(i.route, "/hello");
    assert_eq!(i.target, "/hello?x=1");
    assert_eq!(i.client_ip, "127.0.0.1:5000");
}

#[test]
fn info_prefers_forwarded_address_and_received_target() {
    let mut r = request();
    r.forwarded_for = Some("203.0.113.7, 10.0.0.1".to_string());
    r.received_target = Some("/api/hello".to_string());
    r.scheme = Some(Scheme::Https);
    r.method = "BREW".to_string();
    r.matched_path = None;
    r.host = None;
    let i = info(&r);
    assert_eq!(i.client_ip, "203.0.113.7");
    assert_eq!(i.target, "/api/hello");
    assert_eq!(i.scheme, "https");
    assert_eq!(i.method, "");
    assert_eq!(i.route, "");
    assert_eq!(i.host, "");
}

#[test]
fn client_ip_is_empty_without_any_source() {
    let mut r = request();
    r.peer = None;
    assert_eq!(info(&r).client_ip, "");
}

#[test]
fn span_name_and_fields() {
    let i = info(&request());
    assert_eq!(OtelMakeSpan.span_name(&i), "GET /hello");
    let f = OtelMakeSpan.fields(&i);
    assert_eq!(f.len(), 10);
    assert_eq!(text(&f, "otel.name").as_deref(), Some("GET /hello"));
    assert_eq!(text(&f, "otel.kind").as_deref(), Some("server"));
    assert_eq!(text(&f, "http.method").as_deref(), Some("GET"));
    assert_eq!(text(&f, "http.route").as_deref(), Some("/hello"));
    assert_eq!(text(&f, "http.flavor").as_deref(), Some("1.1"));
    assert_eq!(text(&f, "http.client_ip").as_deref(), Some("127.0.0.1:5000"));
    assert!(f.get("otel.status_code").is_none());
    assert!(f.get("http.status_code").is_none());
}
