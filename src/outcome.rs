//! How a request's outcome is written on its span: the status code, and a
//! span status of OK or ERROR. ERROR, once written, stays.

use vstd::prelude::*;
use crate::store::{text_is, Fields, FieldValue, Store};
use crate::text::text_eq;
use crate::spans::{recorded, SpanView};

verus! {

pub open spec fn digit_char(d: nat) -> char {
    seq!['0', '1', '2', '3', '4', '5', '6', '7', '8', '9'][d as int]
}

/// The decimal digits of `n`, without leading zeros.
pub open spec fn decimal(n: nat) -> Seq<char>
    decreases n,
{
    if n < 10 {
        seq![digit_char(n)]
    } else {
        decimal(n / 10).push(digit_char(n % 10))
    }
}

/// Relies on `ToString` through `Display for u16`: the decimal digits of
/// `n`, without sign or leading zeros.
#[verifier::external_body]
fn decimal_text(n: u16) -> (r: String)
    ensures
        r@ == decimal(n as nat),
{
    n.to_string()
}

/// Why the request pipeline judged a request failed.
pub enum FailureClass {
    /// The response carried this status code.
    StatusCode(u16),
    /// The handler or the transport failed, with this description.
    Error(String),
}

impl FailureClass {
    /// A status code lies in 100..=999.
    pub open spec fn wf(&self) -> bool {
        self matches FailureClass::StatusCode(c) ==> 100 <= *c <= 999
    }

    /// Server errors (5xx) and handler errors are failures of the span;
    /// other status codes are not.
    pub open spec fn is_error(&self) -> bool {
        match self {
            FailureClass::StatusCode(c) => 500 <= *c < 600,
            FailureClass::Error(_) => true,
        }
    }
}

/// How the request pipeline describes a failure.
pub uninterp spec fn failure_text(class: FailureClass) -> Seq<char>;

/// Relies on `Display for tower_http::classify::ServerErrorsFailureClass`,
/// with the status code made by `http::StatusCode::from_u16`, which accepts
/// 100..=999.
#[verifier::external_body]
fn describe(class: &FailureClass) -> (r: String)
    requires
        class.wf(),
    ensures
        r@ == failure_text(*class),
        class matches FailureClass::Error(e) ==> r@ == "Error: "@ + e@,
{
    let class = match class {
        FailureClass::StatusCode(code) => tower_http::classify::ServerErrorsFailureClass::StatusCode(
            http::StatusCode::from_u16(*code).unwrap(),
        ),
        FailureClass::Error(e) => tower_http::classify::ServerErrorsFailureClass::Error(e.clone()),
    };
    class.to_string()
}

proof fn lemma_keys_distinct()
    ensures
        "http.status_code"@ != "otel.status_code"@,
        "otel.status_code"@ != "otel.status_message"@,
{
    reveal_strlit("http.status_code");
    reveal_strlit("otel.status_code");
    reveal_strlit("otel.status_message");
    assert("http.status_code"@[0] != "otel.status_code"@[0]);
    assert("otel.status_code"@.len() != "otel.status_message"@.len());
}

/// The span already carries status ERROR.
pub open spec fn has_error_status(m: Fields) -> bool {
    m.contains_key("otel.status_code"@) && text_is(m["otel.status_code"@], "ERROR"@)
}

/// What a response writes on a span whose fields are `current`: its status
/// code, and status OK unless the span already carries ERROR.
pub open spec fn response_update(current: Fields, status: u16, r: Fields) -> bool {
    &&& r.dom() == if has_error_status(current) {
        set!["http.status_code"@]
    } else {
        set!["http.status_code"@, "otel.status_code"@]
    }
    &&& text_is(r["http.status_code"@], decimal(status as nat))
    &&& !has_error_status(current) ==> text_is(r["otel.status_code"@], "OK"@)
}

/// What a failure writes on its span: status ERROR with a description for
/// an error, nothing otherwise.
pub open spec fn failure_update(class: FailureClass, r: Fields) -> bool {
    if class.is_error() {
        &&& r.dom() == set!["otel.status_code"@, "otel.status_message"@]
        &&& text_is(r["otel.status_code"@], "ERROR"@)
        &&& text_is(r["otel.status_message"@], "HTTP request failed: "@ + failure_text(class))
    } else {
        r == Fields::empty()
    }
}

/// Writes a response's outcome on its span.
#[derive(Debug, Clone, Copy)]
pub struct OtelOnResponse;

impl OtelOnResponse {
    /// The fields to record on a span with fields `current` when its
    /// response carries `status`.
    pub fn on_response(&self, current: &Store, status: u16) -> (r: Store)
        requires
            current.wf(),
        ensures
            r.wf(),
            r.is_flat(),
            response_update(current@, status, r@),
    {
        let failed = match current.get("otel.status_code") {
            Some(FieldValue::Text(t)) => text_eq(t.as_str(), "ERROR"),
            _ => false,
        };
        let mut r = Store::new();
        r.insert(String::from_str("http.status_code"), FieldValue::Text(decimal_text(status)));
        if !failed {
            r.insert(String::from_str("otel.status_code"), FieldValue::Text(String::from_str("OK")));
        }
        proof {
            lemma_keys_distinct();
        }
        assert(failed == has_error_status(current@));
        if failed {
            assert(r@.dom() =~= set!["http.status_code"@]);
        } else {
            assert(r@.dom() =~= set!["http.status_code"@, "otel.status_code"@]);
        }
        r
    }
}

/// Writes a failed request's outcome on its span.
#[derive(Debug, Clone, Copy)]
pub struct OtelOnFailure;

impl OtelOnFailure {
    /// The fields to record on a span whose request failed as `class`.
    pub fn on_failure(&self, class: &FailureClass) -> (r: Store)
        requires
            class.wf(),
        ensures
            r.wf(),
            r.is_flat(),
            failure_update(*class, r@),
    {
        let mut r = Store::new();
        let is_error = match class {
            FailureClass::StatusCode(code) => 500 <= *code && *code < 600,
            FailureClass::Error(_) => true,
        };
        if is_error {
            let message = String::from_str("HTTP request failed: ").concat(describe(class).as_str());
            r.insert(String::from_str("otel.status_code"), FieldValue::Text(String::from_str("ERROR")));
            r.insert(String::from_str("otel.status_message"), FieldValue::Text(message));
            proof {
                lemma_keys_distinct();
            }
            assert(r@.dom() =~= set!["otel.status_code"@, "otel.status_message"@]);
        }
        r
    }
}

/// A recorded ERROR stays: no later response turns it back to OK.
pub proof fn lemma_error_is_terminal(current: Fields, status: u16, update: Fields)
    requires
        has_error_status(current),
        response_update(current, status, update),
    ensures
        has_error_status(current.union_prefer_right(update)),
{
    lemma_keys_distinct();
    assert(!update.contains_key("otel.status_code"@));
}

/// A failure with an error writes status ERROR and a message that is not
/// empty.
pub proof fn lemma_error_has_message(class: FailureClass, update: Fields)
    requires
        class.is_error(),
        failure_update(class, update),
    ensures
        text_is(update["otel.status_code"@], "ERROR"@),
        update["otel.status_message"@]->Text_0@.len() > 0,
{
    reveal_strlit("HTTP request failed: ");
}

/// What a panic writes on the span it happened in: status ERROR, with
/// message `panic`.
pub open spec fn panic_update(m: Fields) -> bool {
    &&& m.dom() == set!["otel.status_code"@, "otel.status_message"@]
    &&& text_is(m["otel.status_code"@], "ERROR"@)
    &&& text_is(m["otel.status_message"@], "panic"@)
}

/// What a panic writes on the span it happened in.
pub fn panic_status() -> (r: Store)
    ensures
        r.wf(),
        r.is_flat(),
        panic_update(r@),
{
    let mut r = Store::new();
    r.insert(String::from_str("otel.status_code"), FieldValue::Text(String::from_str("ERROR")));
    r.insert(String::from_str("otel.status_message"), FieldValue::Text(String::from_str("panic")));
    proof {
        lemma_keys_distinct();
    }
    assert(r@.dom() =~= set!["otel.status_code"@, "otel.status_message"@]);
    r
}

/// A panic recorded on span `id` marks that span ERROR with message
/// `panic`, and leaves every other span as it was.
pub proof fn lemma_panic_marks_its_span(t: SpanView, id: u64, update: Fields)
    requires
        t.contains_key(id),
        panic_update(update),
    ensures
        has_error_status(recorded(t, id, update)[id].1),
        text_is(recorded(t, id, update)[id].1["otel.status_message"@], "panic"@),
        forall|x: u64| x != id && t.contains_key(x) ==> recorded(t, id, update)[x] == #[trigger] t[x],
        recorded(t, id, update).dom() == t.dom(),
{
    assert(recorded(t, id, update).dom() =~= t.dom());
}

} // verus!
