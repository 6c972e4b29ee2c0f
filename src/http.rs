//! What a request span is named and tagged with, derived from the request.

use vstd::prelude::*;
use crate::text::text_eq;
use crate::store::{text_is, FieldValue, Store};

verus! {

/// White space as `char::is_whitespace` has it: the Unicode `White_Space`
/// property.
pub open spec fn is_space(c: char) -> bool {
    ||| c == ' '
    ||| ('\u{9}' <= c && c <= '\u{d}')
    ||| c == '\u{85}'
    ||| c == '\u{a0}'
    ||| c == '\u{1680}'
    ||| ('\u{2000}' <= c && c <= '\u{200a}')
    ||| c == '\u{2028}'
    ||| c == '\u{2029}'
    ||| c == '\u{202f}'
    ||| c == '\u{205f}'
    ||| c == '\u{3000}'
}

pub fn space(c: char) -> (r: bool)
    ensures
        r == is_space(c),
{
    c == ' ' || ('\u{9}' <= c && c <= '\u{d}') || c == '\u{85}' || c == '\u{a0}' || c == '\u{1680}'
        || ('\u{2000}' <= c && c <= '\u{200a}') || c == '\u{2028}' || c == '\u{2029}' || c == '\u{202f}'
        || c == '\u{205f}' || c == '\u{3000}'
}

pub open spec fn trim_start(s: Seq<char>) -> Seq<char>
    decreases s.len(),
{
    if s.len() > 0 && is_space(s[0]) {
        trim_start(s.skip(1))
    } else {
        s
    }
}

pub open spec fn trim_end(s: Seq<char>) -> Seq<char>
    decreases s.len(),
{
    if s.len() > 0 && is_space(s.last()) {
        trim_end(s.drop_last())
    } else {
        s
    }
}

/// `s` without white space at either end.
pub open spec fn trimmed(s: Seq<char>) -> Seq<char> {
    trim_end(trim_start(s))
}

/// `s` up to its first comma.
pub open spec fn first_item(s: Seq<char>) -> Seq<char>
    decreases s.len(),
{
    if s.len() == 0 || s[0] == ',' {
        Seq::empty()
    } else {
        seq![s[0]].add(first_item(s.skip(1)))
    }
}

/// The first address of an `X-Forwarded-For` value, trimmed.
pub fn parse_x_forwarded_for(value: Option<&str>) -> (r: Option<String>)
    ensures
        match value {
            Some(v) => r is Some && r->Some_0@ == trimmed(first_item(v@)),
            None => r is None,
        },
{
    let v = match value {
        Some(v) => v,
        None => {
            return None;
        },
    };
    let n = v.unicode_len();
    let mut end: usize = 0;
    assert(v@.skip(0) =~= v@);
    assert(v@.subrange(0, 0) + first_item(v@) =~= first_item(v@));
    while end < n && v.get_char(end) != ','
        invariant
            n == v@.len(),
            end <= n,
            first_item(v@) == v@.subrange(0, end as int) + first_item(v@.skip(end as int)),
        decreases n - end,
    {
        proof {
            let rest = v@.skip(end as int);
            assert(rest.skip(1) =~= v@.skip(end + 1));
            assert(v@.subrange(0, end + 1) =~= v@.subrange(0, end as int) + seq![rest[0]]);
        }
        end = end + 1;
    }
    proof {
        let rest = v@.skip(end as int);
        assert(first_item(rest) =~= Seq::empty());
        assert(v@.subrange(0, end as int) + Seq::<char>::empty() =~= v@.subrange(0, end as int));
    }
    let mut a: usize = 0;
    while a < end && space(v.get_char(a))
        invariant
            end <= n == v@.len(),
            a <= end,
            trim_start(v@.subrange(0, end as int)) == trim_start(v@.subrange(a as int, end as int)),
        decreases end - a,
    {
        assert(v@.subrange(a as int, end as int).skip(1) =~= v@.subrange(a + 1, end as int));
        a = a + 1;
    }
    proof {
        let t = v@.subrange(a as int, end as int);
        if a < end {
            assert(t[0] == v@[a as int]);
        }
        assert(trim_start(t) == t);
    }
    let mut b: usize = end;
    while b > a && space(v.get_char(b - 1))
        invariant
            end <= n == v@.len(),
            a <= b <= end,
            trim_start(v@.subrange(0, end as int)) == v@.subrange(a as int, end as int),
            trimmed(v@.subrange(0, end as int)) == trim_end(v@.subrange(a as int, b as int)),
        decreases b - a,
    {
        assert(v@.subrange(a as int, b as int).drop_last() =~= v@.subrange(a as int, b - 1));
        b = b - 1;
    }
    proof {
        let t = v@.subrange(a as int, b as int);
        if a < b {
            assert(t.last() == v@[b - 1]);
        }
        assert(trim_end(t) == t);
    }
    Some(String::from_str(v.substring_char(a, b)))
}

/// The protocol version of a request.
#[derive(Debug, Clone, Copy, PartialEq, Eq, Structural)]
pub enum HttpVersion {
    Http09,
    Http10,
    Http11,
    Http2,
    Http3,
    Other,
}

/// The scheme of a request's URI.
pub enum Scheme {
    Http,
    Https,
    Other(String),
}

/// The methods that have a name of their own.
pub open spec fn is_standard_method(m: Seq<char>) -> bool {
    ||| m == "CONNECT"@
    ||| m == "DELETE"@
    ||| m == "GET"@
    ||| m == "HEAD"@
    ||| m == "OPTIONS"@
    ||| m == "PATCH"@
    ||| m == "POST"@
    ||| m == "PUT"@
    ||| m == "TRACE"@
}

/// A standard method's name; any other method is named by the empty string.
pub fn http_method(method: &str) -> (r: &'static str)
    ensures
        r@ == if is_standard_method(method@) { method@ } else { ""@ },
{
    let names: [&'static str; 9] = ["CONNECT", "DELETE", "GET", "HEAD", "OPTIONS", "PATCH", "POST", "PUT", "TRACE"];
    let mut i: usize = 0;
    while i < 9
        invariant
            names@ == seq!["CONNECT", "DELETE", "GET", "HEAD", "OPTIONS", "PATCH", "POST", "PUT", "TRACE"],
            i <= 9,
            forall|j: int| 0 <= j < i ==> names@[j]@ != method@,
        decreases 9 - i,
    {
        if text_eq(names[i], method) {
            return names[i];
        }
        i = i + 1;
    }
    assert(!is_standard_method(method@)) by {
        assert(names@[0]@ != method@ && names@[1]@ != method@ && names@[2]@ != method@);
        assert(names@[3]@ != method@ && names@[4]@ != method@ && names@[5]@ != method@);
        assert(names@[6]@ != method@ && names@[7]@ != method@ && names@[8]@ != method@);
    }
    ""
}

pub open spec fn flavor_name(version: HttpVersion) -> Seq<char> {
    match version {
        HttpVersion::Http09 => "0.9"@,
        HttpVersion::Http10 => "1.0"@,
        HttpVersion::Http11 => "1.1"@,
        HttpVersion::Http2 => "2.0"@,
        HttpVersion::Http3 => "3.0"@,
        HttpVersion::Other => ""@,
    }
}

/// The protocol version as `http.flavor` writes it; empty for an unknown one.
pub fn http_flavor(version: &HttpVersion) -> (r: &'static str)
    ensures
        r@ == flavor_name(*version),
{
    match version {
        HttpVersion::Http09 => "0.9",
        HttpVersion::Http10 => "1.0",
        HttpVersion::Http11 => "1.1",
        HttpVersion::Http2 => "2.0",
        HttpVersion::Http3 => "3.0",
        HttpVersion::Other => "",
    }
}

pub open spec fn scheme_name(scheme: Scheme) -> Seq<char> {
    match scheme {
        Scheme::Http => "http"@,
        Scheme::Https => "https"@,
        Scheme::Other(s) => s@,
    }
}

/// The scheme's name.
pub fn http_scheme(scheme: &Scheme) -> (r: &str)
    ensures
        r@ == scheme_name(*scheme),
{
    match scheme {
        Scheme::Http => "http",
        Scheme::Https => "https",
        Scheme::Other(s) => s.as_str(),
    }
}

/// What a request span reads from an inbound request. Header values are
/// present only when the header is there and is visible ASCII.
pub struct Request {
    pub method: String,
    pub version: HttpVersion,
    pub scheme: Option<Scheme>,
    pub host: Option<String>,
    pub user_agent: Option<String>,
    /// The route template the router matched, if any.
    pub matched_path: Option<String>,
    /// Path and query of the URI as it arrived, before any rewriting.
    pub received_target: Option<String>,
    /// Path and query of the URI.
    pub target: String,
    pub forwarded_for: Option<String>,
    /// The peer address of the connection.
    pub peer: Option<String>,
}

/// The request descriptor a span is tagged from.
pub struct Info {
    pub client_ip: String,
    pub flavor: String,
    pub host: String,
    pub method: String,
    pub route: String,
    pub scheme: String,
    pub target: String,
    pub user_agent: String,
}

pub open spec fn or_empty(v: Option<String>) -> Seq<char> {
    match v {
        Some(s) => s@,
        None => Seq::empty(),
    }
}

/// The client address: the first `X-Forwarded-For` entry, else the peer
/// address, else empty.
pub open spec fn client_ip_of(req: Request) -> Seq<char> {
    match req.forwarded_for {
        Some(v) => trimmed(first_item(v@)),
        None => or_empty(req.peer),
    }
}

fn text_or_empty(v: &Option<String>) -> (r: String)
    ensures
        r@ == or_empty(*v),
{
    match v {
        Some(s) => s.clone(),
        None => String::new(),
    }
}

/// Derives the request descriptor.
pub fn info(req: &Request) -> (r: Info)
    ensures
        r.client_ip@ == client_ip_of(*req),
        r.flavor@ == flavor_name(req.version),
        r.host@ == or_empty(req.host),
        r.method@ == (if is_standard_method(req.method@) { req.method@ } else { ""@ }),
        r.route@ == or_empty(req.matched_path),
        r.scheme@ == match req.scheme {
            Some(s) => scheme_name(s),
            None => "HTTP"@,
        },
        r.target@ == match req.received_target {
            Some(t) => t@,
            None => req.target@,
        },
        r.user_agent@ == or_empty(req.user_agent),
{
    let client_ip = match &req.forwarded_for {
        Some(v) => match parse_x_forwarded_for(Some(v.as_str())) {
            Some(ip) => ip,
            None => String::new(),
        },
        None => text_or_empty(&req.peer),
    };
    let scheme = match &req.scheme {
        Some(s) => String::from_str(http_scheme(s)),
        None => String::from_str("HTTP"),
    };
    let target = match &req.received_target {
        Some(t) => t.clone(),
        None => req.target.clone(),
    };
    Info {
        client_ip,
        flavor: String::from_str(http_flavor(&req.version)),
        host: text_or_empty(&req.host),
        method: String::from_str(http_method(req.method.as_str())),
        route: text_or_empty(&req.matched_path),
        scheme,
        target,
        user_agent: text_or_empty(&req.user_agent),
    }
}

/// The keys a request span is opened with.
pub open spec fn span_keys() -> Set<Seq<char>> {
    set!["otel.name"@, "otel.kind"@, "http.client_ip"@, "http.flavor"@, "http.host"@, "http.method"@, "http.route"@, "http.scheme"@, "http.target"@, "http.user_agent"@]
}

proof fn lemma_span_keys_distinct()
    ensures
        "otel.name"@ != "otel.kind"@,
        "otel.name"@ != "http.client_ip"@,
        "otel.name"@ != "http.flavor"@,
        "otel.name"@ != "http.host"@,
        "otel.name"@ != "http.method"@,
        "otel.name"@ != "http.route"@,
        "otel.name"@ != "http.scheme"@,
        "otel.name"@ != "http.target"@,
        "otel.name"@ != "http.user_agent"@,
        "otel.kind"@ != "http.client_ip"@,
        "otel.kind"@ != "http.flavor"@,
        "otel.kind"@ != "http.host"@,
        "otel.kind"@ != "http.method"@,
        "otel.kind"@ != "http.route"@,
        "otel.kind"@ != "http.scheme"@,
        "otel.kind"@ != "http.target"@,
        "otel.kind"@ != "http.user_agent"@,
        "http.client_ip"@ != "http.flavor"@,
        "http.client_ip"@ != "http.host"@,
        "http.client_ip"@ != "http.method"@,
        "http.client_ip"@ != "http.route"@,
        "http.client_ip"@ != "http.scheme"@,
        "http.client_ip"@ != "http.target"@,
        "http.client_ip"@ != "http.user_agent"@,
        "http.flavor"@ != "http.host"@,
        "http.flavor"@ != "http.method"@,
        "http.flavor"@ != "http.route"@,
        "http.flavor"@ != "http.scheme"@,
        "http.flavor"@ != "http.target"@,
        "http.flavor"@ != "http.user_agent"@,
        "http.host"@ != "http.method"@,
        "http.host"@ != "http.route"@,
        "http.host"@ != "http.scheme"@,
        "http.host"@ != "http.target"@,
        "http.host"@ != "http.user_agent"@,
        "http.method"@ != "http.route"@,
        "http.method"@ != "http.scheme"@,
        "http.method"@ != "http.target"@,
        "http.method"@ != "http.user_agent"@,
        "http.route"@ != "http.scheme"@,
        "http.route"@ != "http.target"@,
        "http.route"@ != "http.user_agent"@,
        "http.scheme"@ != "http.target"@,
        "http.scheme"@ != "http.user_agent"@,
        "http.target"@ != "http.user_agent"@,
{
    reveal_strlit("otel.name");
    reveal_strlit("otel.kind");
    reveal_strlit("http.client_ip");
    reveal_strlit("http.flavor");
    reveal_strlit("http.host");
    reveal_strlit("http.method");
    reveal_strlit("http.route");
    reveal_strlit("http.scheme");
    reveal_strlit("http.target");
    reveal_strlit("http.user_agent");
    assert("otel.name"@[5] != "otel.kind"@[5]);
    assert("otel.name"@[0] != "http.client_ip"@[0]);
    assert("otel.name"@[0] != "http.flavor"@[0]);
    assert("otel.name"@[0] != "http.host"@[0]);
    assert("otel.name"@[0] != "http.method"@[0]);
    assert("otel.name"@[0] != "http.route"@[0]);
    assert("otel.name"@[0] != "http.scheme"@[0]);
    assert("otel.name"@[0] != "http.target"@[0]);
    assert("otel.name"@[0] != "http.user_agent"@[0]);
    assert("otel.kind"@[0] != "http.client_ip"@[0]);
    assert("otel.kind"@[0] != "http.flavor"@[0]);
    assert("otel.kind"@[0] != "http.host"@[0]);
    assert("otel.kind"@[0] != "http.method"@[0]);
    assert("otel.kind"@[0] != "http.route"@[0]);
    assert("otel.kind"@[0] != "http.scheme"@[0]);
    assert("otel.kind"@[0] != "http.target"@[0]);
    assert("otel.kind"@[0] != "http.user_agent"@[0]);
    assert("http.client_ip"@[5] != "http.flavor"@[5]);
    assert("http.client_ip"@[5] != "http.host"@[5]);
    assert("http.client_ip"@[5] != "http.method"@[5]);
    assert("http.client_ip"@[5] != "http.route"@[5]);
    assert("http.client_ip"@[5] != "http.scheme"@[5]);
    assert("http.client_ip"@[5] != "http.target"@[5]);
    assert("http.client_ip"@[5] != "http.user_agent"@[5]);
    assert("http.flavor"@[5] != "http.host"@[5]);
    assert("http.flavor"@[5] != "http.method"@[5]);
    assert("http.flavor"@[5] != "http.route"@[5]);
    assert("http.flavor"@[5] != "http.scheme"@[5]);
    assert("http.flavor"@[5] != "http.target"@[5]);
    assert("http.flavor"@[5] != "http.user_agent"@[5]);
    assert("http.host"@[5] != "http.method"@[5]);
    assert("http.host"@[5] != "http.route"@[5]);
    assert("http.host"@[5] != "http.scheme"@[5]);
    assert("http.host"@[5] != "http.target"@[5]);
    assert("http.host"@[5] != "http.user_agent"@[5]);
    assert("http.method"@[5] != "http.route"@[5]);
    assert("http.method"@[5] != "http.scheme"@[5]);
    assert("http.method"@[5] != "http.target"@[5]);
    assert("http.method"@[5] != "http.user_agent"@[5]);
    assert("http.route"@[5] != "http.scheme"@[5]);
    assert("http.route"@[5] != "http.target"@[5]);
    assert("http.route"@[5] != "http.user_agent"@[5]);
    assert("http.scheme"@[5] != "http.target"@[5]);
    assert("http.scheme"@[5] != "http.user_agent"@[5]);
    assert("http.target"@[5] != "http.user_agent"@[5]);
}

/// A request span's display name: method, a space, route template.
pub open spec fn span_name_of(info: Info) -> Seq<char> {
    info.method@ + seq![' '] + info.route@
}

/// Opens one span per request.
#[derive(Debug, Clone, Copy)]
pub struct OtelMakeSpan;

impl OtelMakeSpan {
    /// The span's display name.
    pub fn span_name(&self, info: &Info) -> (r: String)
        ensures
            r@ == span_name_of(*info),
    {
        proof {
            reveal_strlit(" ");
        }
        info.method.clone().concat(" ").concat(info.route.as_str())
    }

    /// The fields a request span is opened with.
    pub fn fields(&self, info: &Info) -> (r: Store)
        ensures
            r.wf(),
            r.is_flat(),
            r@.dom() == span_keys(),
            text_is(r@["otel.name"@], span_name_of(*info)),
            text_is(r@["otel.kind"@], "server"@),
            text_is(r@["http.client_ip"@], info.client_ip@),
            text_is(r@["http.flavor"@], info.flavor@),
            text_is(r@["http.host"@], info.host@),
            text_is(r@["http.method"@], info.method@),
            text_is(r@["http.route"@], info.route@),
            text_is(r@["http.scheme"@], info.scheme@),
            text_is(r@["http.target"@], info.target@),
            text_is(r@["http.user_agent"@], info.user_agent@),
    {
        let mut r = Store::new();
        r.insert(String::from_str("otel.name"), FieldValue::Text(self.span_name(info)));
        r.insert(String::from_str("otel.kind"), FieldValue::Text(String::from_str("server")));
        r.insert(String::from_str("http.client_ip"), FieldValue::Text(info.client_ip.clone()));
        r.insert(String::from_str("http.flavor"), FieldValue::Text(info.flavor.clone()));
        r.insert(String::from_str("http.host"), FieldValue::Text(info.host.clone()));
        r.insert(String::from_str("http.method"), FieldValue::Text(info.method.clone()));
        r.insert(String::from_str("http.route"), FieldValue::Text(info.route.clone()));
        r.insert(String::from_str("http.scheme"), FieldValue::Text(info.scheme.clone()));
        r.insert(String::from_str("http.target"), FieldValue::Text(info.target.clone()));
        r.insert(String::from_str("http.user_agent"), FieldValue::Text(info.user_agent.clone()));
        proof {
            lemma_span_keys_distinct();
        }
        assert(r@.dom() =~= span_keys());
        r
    }
}

} // verus!
