//! Distributed trace context: reading it from inbound headers, making sure
//! every request has a sampled trace id, and the ids a span records.

use vstd::prelude::*;
use crate::store::{text_is, Fields, FieldValue, Store};
use crate::spans::{recorded, SpanError, SpanTable};
use opentelemetry::propagation::TextMapPropagator;
use opentelemetry::trace::TraceContextExt;
use opentelemetry_sdk::trace::IdGenerator;

verus! {

/// A span's place in a distributed trace. An id of zero is unset.
#[derive(Debug, Clone, Copy, PartialEq, Eq, Structural)]
pub struct TraceContext {
    pub trace_id: u128,
    pub span_id: u64,
    pub sampled: bool,
    /// Propagated from another process.
    pub remote: bool,
}

impl TraceContext {
    pub open spec fn spec_is_valid(&self) -> bool {
        self.trace_id != 0 && self.span_id != 0
    }

    /// Both ids are set.
    #[verifier::when_used_as_spec(spec_is_valid)]
    pub fn is_valid(&self) -> (r: bool)
        ensures
            r == self.spec_is_valid(),
    {
        self.trace_id != 0 && self.span_id != 0
    }

    pub open spec fn spec_invalid() -> TraceContext {
        TraceContext { trace_id: 0, span_id: 0, sampled: false, remote: false }
    }

    /// The context of no trace.
    pub fn invalid() -> (r: TraceContext)
        ensures
            r == Self::spec_invalid(),
    {
        TraceContext { trace_id: 0, span_id: 0, sampled: false, remote: false }
    }
}

pub open spec fn header_views(headers: Seq<(String, String)>) -> Seq<(Seq<char>, Seq<char>)> {
    headers.map_values(|h: (String, String)| (h.0@, h.1@))
}

/// What the W3C trace-context propagator reads from these headers.
pub uninterp spec fn propagated(headers: Seq<(Seq<char>, Seq<char>)>) -> TraceContext;

/// Relies on `opentelemetry_sdk::propagation::TraceContextPropagator`:
/// `extract_with_context` on an empty context, read back through
/// `TraceContextExt::span`. Its source returns either a valid remote span
/// context or the empty one.
#[verifier::external_body]
fn propagate(headers: &Vec<(String, String)>) -> (r: TraceContext)
    ensures
        r == propagated(header_views(headers@)),
        (r.is_valid() && r.remote) || r == TraceContext::spec_invalid(),
{
    let carrier: std::collections::HashMap<String, String> = headers.iter().cloned().collect();
    let propagator = opentelemetry_sdk::propagation::TraceContextPropagator::new();
    let cx = propagator.extract_with_context(&opentelemetry::Context::new(), &carrier);
    let span = cx.span();
    let sc = span.span_context();
    TraceContext {
        trace_id: u128::from_be_bytes(sc.trace_id().to_bytes()),
        span_id: u64::from_be_bytes(sc.span_id().to_bytes()),
        sampled: sc.is_sampled(),
        remote: sc.is_remote(),
    }
}

/// The trace context carried by inbound request headers (lower-case name,
/// value), or the invalid context when they carry none.
pub fn extract(headers: &Vec<(String, String)>) -> (r: TraceContext)
    ensures
        r == propagated(header_views(headers@)),
        r.is_valid() ==> r.remote,
        !r.is_valid() ==> r == TraceContext::spec_invalid(),
{
    propagate(headers)
}

/// Relies on `opentelemetry_sdk::trace::RandomIdGenerator::new_trace_id`:
/// a random 128-bit trace id.
#[verifier::external_body]
fn random_trace_id() -> (r: u128) {
    u128::from_be_bytes(opentelemetry_sdk::trace::RandomIdGenerator::default().new_trace_id().to_bytes())
}

/// The context a request runs under: `remote` when valid; otherwise a new
/// sampled trace with id `fresh` and no parent span.
pub open spec fn sampled_context(remote: TraceContext, fresh: u128) -> TraceContext {
    if remote.is_valid() {
        remote
    } else {
        TraceContext { trace_id: fresh, span_id: 0, sampled: true, remote: false }
    }
}

/// `remote` when valid; otherwise a new sampled trace with id `fresh`.
pub fn create_with(remote: TraceContext, fresh: u128) -> (r: TraceContext)
    ensures
        r == sampled_context(remote, fresh),
{
    if remote.is_valid() {
        remote
    } else {
        TraceContext { trace_id: fresh, span_id: 0, sampled: true, remote: false }
    }
}

/// Draws attempted for a non-zero trace id before settling on 1.
pub const TRACE_ID_DRAWS: u32 = 8;

/// A random trace id that is not zero: a zero draw is drawn again, and
/// should every draw be zero the id is 1.
pub fn fresh_trace_id() -> (r: u128)
    ensures
        r != 0,
{
    let mut id = random_trace_id();
    let mut left: u32 = TRACE_ID_DRAWS;
    while id == 0 && left > 0
        decreases left,
    {
        id = random_trace_id();
        left = left - 1;
    }
    if id == 0 {
        1
    } else {
        id
    }
}

/// `remote` when valid; otherwise a new sampled trace with a random,
/// non-zero id and no parent span.
pub fn create(remote: TraceContext) -> (r: TraceContext)
    ensures
        remote.is_valid() ==> r == remote,
        !remote.is_valid() ==> r.trace_id != 0 && r.span_id == 0 && r.sampled && !r.remote,
{
    if remote.is_valid() {
        remote
    } else {
        create_with(remote, fresh_trace_id())
    }
}

pub open spec fn hex_char(d: nat) -> char {
    seq!['0', '1', '2', '3', '4', '5', '6', '7', '8', '9', 'a', 'b', 'c', 'd', 'e', 'f'][d as int]
}

/// The last `width` lower-case hexadecimal digits of `n`, most significant
/// first.
pub open spec fn lower_hex(n: nat, width: nat) -> Seq<char>
    decreases width,
{
    if width == 0 {
        Seq::empty()
    } else {
        lower_hex(n / 16, (width - 1) as nat).push(hex_char(n % 16))
    }
}

/// Relies on `Display for opentelemetry::trace::TraceId`, which writes
/// `{:032x}`.
#[verifier::external_body]
fn trace_id_text(id: u128) -> (r: String)
    ensures
        r@ == lower_hex(id as nat, 32),
{
    opentelemetry::trace::TraceId::from(id).to_string()
}

/// Relies on `Display for opentelemetry::trace::SpanId`, which writes
/// `{:016x}`.
#[verifier::external_body]
fn span_id_text(id: u64) -> (r: String)
    ensures
        r@ == lower_hex(id as nat, 16),
{
    opentelemetry::trace::SpanId::from(id).to_string()
}

/// `m` holds exactly the ids of `ctx` in hexadecimal when `ctx` is valid,
/// and nothing otherwise.
pub open spec fn entry_fields(ctx: TraceContext, m: Fields) -> bool {
    if ctx.is_valid() {
        &&& m.dom() == set!["otel.trace_id"@, "otel.span_id"@]
        &&& text_is(m["otel.trace_id"@], lower_hex(ctx.trace_id as nat, 32))
        &&& text_is(m["otel.span_id"@], lower_hex(ctx.span_id as nat, 16))
    } else {
        m == Fields::empty()
    }
}

/// The fields a span records when entered under `ctx`.
pub fn enter_fields(ctx: &TraceContext) -> (r: Store)
    ensures
        r.wf(),
        r.is_flat(),
        entry_fields(*ctx, r@),
{
    let mut r = Store::new();
    if ctx.is_valid() {
        let trace = trace_id_text(ctx.trace_id);
        let span = span_id_text(ctx.span_id);
        r.insert(String::from_str("otel.trace_id"), FieldValue::Text(trace));
        r.insert(String::from_str("otel.span_id"), FieldValue::Text(span));
        proof {
            reveal_strlit("otel.trace_id");
            reveal_strlit("otel.span_id");
            assert("otel.trace_id"@ != "otel.span_id"@) by {
                assert("otel.trace_id"@[5] != "otel.span_id"@[5]);
            }
        }
        assert(r@.dom() =~= set!["otel.trace_id"@, "otel.span_id"@]);
    }
    r
}

impl SpanTable {
    /// Records the ids of `ctx` on span `id` as it is entered.
    pub fn on_enter(&mut self, id: u64, ctx: &TraceContext) -> (r: Result<(), SpanError>)
        requires
            old(self).wf(),
        ensures
            final(self).wf(),
            !old(self)@.contains_key(id) ==> r == Err::<(), SpanError>(SpanError::NotFound) && final(self)@ == old(self)@,
            old(self)@.contains_key(id) ==> r == Ok::<(), SpanError>(()) && exists|m: Fields|
                entry_fields(*ctx, m) && #[trigger] final(self)@ == recorded(old(self)@, id, m),
    {
        let fields = enter_fields(ctx);
        self.on_record(id, fields)
    }
}

/// Where traces are sent, and as which service.
pub struct Options<'a> {
    pub service: &'a str,
    pub version: &'a str,
    pub exporter: &'a str,
}

/// A valid inbound context passes through unchanged, so the trace id a
/// span records on entry is the inbound one, in hexadecimal.
pub proof fn lemma_inbound_trace_id_kept(remote: TraceContext, fresh: u128, m: Fields)
    requires
        remote.is_valid(),
        entry_fields(sampled_context(remote, fresh), m),
    ensures
        sampled_context(remote, fresh) == remote,
        text_is(m["otel.trace_id"@], lower_hex(remote.trace_id as nat, 32)),
{
}

} // verus!
