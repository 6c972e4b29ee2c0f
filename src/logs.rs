//! Formatting of log events: the fields of the enclosing spans, of the event
//! itself, of its call site and of the moment it happened, merged into one
//! record.

use vstd::prelude::*;
use crate::store::{by_prefix, PortBy, lemma_concat_prefix, lemma_nothing_renamed, key_set, renamed_fields, text_is, unrenamed_fields, Fields, FieldValue, Store};

verus! {

#[derive(Debug, Clone, Copy, PartialEq, Eq, Structural)]
pub enum Level {
    Trace,
    Debug,
    Info,
    Warn,
    Error,
}

pub open spec fn level_name(level: Level) -> Seq<char> {
    match level {
        Level::Trace => "trace"@,
        Level::Debug => "debug"@,
        Level::Info => "info"@,
        Level::Warn => "warn"@,
        Level::Error => "error"@,
    }
}

impl Level {
    /// The level's name in lower case.
    pub fn name(&self) -> (r: &'static str)
        ensures
            r@ == level_name(*self),
    {
        match self {
            Level::Trace => "trace",
            Level::Debug => "debug",
            Level::Info => "info",
            Level::Warn => "warn",
            Level::Error => "error",
        }
    }
}

/// What is fixed where an event is written: its target, level and source
/// location.
pub struct CallSite {
    pub target: String,
    pub level: Level,
    pub line: Option<u32>,
    pub file: Option<String>,
}

proof fn lemma_literals_distinct()
    ensures
        "target"@ != "line"@,
        "target"@ != "file"@,
        "line"@ != "file"@,
        "level"@ != "target"@,
        "level"@ != "line"@,
        "level"@ != "file"@,
        "thread"@ != "timestamp"@,
        "message"@ != "context"@,
        "message"@ != "runtime"@,
        "message"@ != "data"@,
        "level"@ != "context"@,
        "level"@ != "data"@,
        "level"@ != "runtime"@,
        "timestamp"@ != "context"@,
        "timestamp"@ != "data"@,
        "timestamp"@ != "runtime"@,
        "context"@ != "data"@,
        "context"@ != "runtime"@,
        "data"@ != "runtime"@,
        !"panic."@.is_prefix_of("message"@),
        !"log."@.is_prefix_of("message"@),
{
    reveal_strlit("target");
    reveal_strlit("line");
    reveal_strlit("file");
    reveal_strlit("level");
    reveal_strlit("thread");
    reveal_strlit("timestamp");
    reveal_strlit("message");
    reveal_strlit("context");
    reveal_strlit("runtime");
    reveal_strlit("data");
    reveal_strlit("panic.");
    reveal_strlit("log.");
    assert("target"@[0] != "line"@[0]);
    assert("target"@[0] != "file"@[0]);
    assert("line"@[0] != "file"@[0]);
    assert("level"@[0] != "target"@[0]);
    assert("level"@[1] != "line"@[1]);
    assert("level"@[0] != "file"@[0]);
    assert("thread"@[1] != "timestamp"@[1]);
    assert("message"@[0] != "context"@[0]);
    assert("message"@[0] != "runtime"@[0]);
    assert("message"@[0] != "data"@[0]);
    assert("level"@[0] != "context"@[0]);
    assert("level"@[0] != "data"@[0]);
    assert("level"@[0] != "runtime"@[0]);
    assert("timestamp"@[0] != "context"@[0]);
    assert("timestamp"@[0] != "data"@[0]);
    assert("timestamp"@[0] != "runtime"@[0]);
    assert("context"@[0] != "data"@[0]);
    assert("context"@[0] != "runtime"@[0]);
    assert("data"@[0] != "runtime"@[0]);
    assert("message"@.subrange(0, 6)[0] != "panic."@[0]);
    assert("message"@.subrange(0, 4)[0] != "log."@[0]);
}

impl CallSite {
    /// The call site as fields: `target`, `level`, `line` and `file`, a
    /// missing line or file being null.
    pub fn fields(&self) -> (r: Store)
        ensures
            r.wf(),
            r.is_flat(),
            r@.dom() == set!["target"@, "level"@, "line"@, "file"@],
            r@["target"@] == FieldValue::Text(self.target),
            text_is(r@["level"@], level_name(self.level)),
            r@["line"@] == match self.line {
                Some(l) => FieldValue::UInt(l as u64),
                None => FieldValue::Null,
            },
            r@["file"@] == match self.file {
                Some(f) => FieldValue::Text(f),
                None => FieldValue::Null,
            },
    {
        let mut r = Store::new();
        r.insert(String::from_str("target"), FieldValue::Text(self.target.clone()));
        r.insert(String::from_str("level"), FieldValue::Text(String::from_str(self.level.name())));
        let line = match self.line {
            Some(l) => FieldValue::UInt(l as u64),
            None => FieldValue::Null,
        };
        r.insert(String::from_str("line"), line);
        let file = match &self.file {
            Some(f) => FieldValue::Text(f.clone()),
            None => FieldValue::Null,
        };
        r.insert(String::from_str("file"), file);
        proof {
            lemma_literals_distinct();
        }
        assert(r@.dom() =~= set!["target"@, "level"@, "line"@, "file"@]);
        r
    }
}

pub open spec fn is_digit(c: char) -> bool {
    '0' <= c && c <= '9'
}

/// A UTC time in RFC 3339 form to the millisecond, `YYYY-MM-DDTHH:MM:SS.mmmZ`:
/// the year has at least four digits, and one past 9999 is signed with `+`.
pub open spec fn rfc3339_millis_utc(t: Seq<char>) -> bool {
    let n = t.len() as int;
    &&& n >= 24
    &&& t[n - 20] == '-' && t[n - 17] == '-' && t[n - 14] == 'T'
    &&& t[n - 11] == ':' && t[n - 8] == ':' && t[n - 5] == '.' && t[n - 1] == 'Z'
    &&& forall|i: int| n - 20 < i < n - 1 && i != n - 17 && i != n - 14 && i != n - 11 && i != n - 8
        && i != n - 5 ==> is_digit(#[trigger] t[i])
    &&& forall|i: int| 0 < i < n - 20 ==> is_digit(#[trigger] t[i])
    &&& (is_digit(t[0]) || t[0] == '+')
}

/// Relies on `chrono::Utc::now`, written by `DateTime::to_rfc3339_opts` with
/// millisecond precision and a `Z` suffix: the current time. Its writer puts
/// two digits for each of month, day, hour, minute and second, three for the
/// milliseconds, and the year as four digits, or signed when past 9999.
#[verifier::external_body]
fn now_rfc3339() -> (r: String)
    ensures
        rfc3339_millis_utc(r@),
{
    chrono::Utc::now().to_rfc3339_opts(chrono::SecondsFormat::Millis, true)
}

/// The moment an event is written: the thread and the time.
pub struct Live {
    pub thread: u64,
    pub timestamp: String,
}

impl Live {
    /// The present moment on thread `thread`.
    pub fn new(thread: u64) -> (r: Live)
        ensures
            r.thread == thread,
            rfc3339_millis_utc(r.timestamp@),
    {
        Live { thread, timestamp: now_rfc3339() }
    }

    /// The moment as fields: `thread` and `timestamp`.
    pub fn fields(&self) -> (r: Store)
        ensures
            r.wf(),
            r.is_flat(),
            r@ == map!["thread"@ => FieldValue::UInt(self.thread), "timestamp"@ => FieldValue::Text(self.timestamp)],
    {
        let mut r = Store::new();
        r.insert(String::from_str("thread"), FieldValue::UInt(self.thread));
        r.insert(String::from_str("timestamp"), FieldValue::Text(self.timestamp.clone()));
        proof {
            lemma_literals_distinct();
        }
        assert(r@ =~= map!["thread"@ => FieldValue::UInt(self.thread), "timestamp"@ => FieldValue::Text(self.timestamp)]);
        r
    }
}

pub open spec fn panic_names() -> Set<Seq<char>> {
    set!["line"@, "file"@]
}

pub open spec fn log_names() -> Set<Seq<char>> {
    set!["target"@, "line"@, "file"@]
}

/// Where an event's `runtime` location comes from: its `panic.` fields if it
/// has any, else its `log.` fields if it has any, else the call site.
pub open spec fn location_of(event: Fields, metadata: Fields) -> Fields {
    let panic = renamed_fields("panic."@, panic_names(), event);
    let log = renamed_fields("log."@, log_names(), event);
    if panic != Fields::empty() {
        panic
    } else if log != Fields::empty() {
        log
    } else {
        metadata.restrict(log_names())
    }
}

/// The `runtime` group: the thread, then the location.
pub open spec fn runtime_of(event: Fields, metadata: Fields, live: Fields) -> Fields {
    live.restrict(set!["thread"@]).union_prefer_right(location_of(event, metadata))
}

/// The `data` group: the event's own fields but its message and the fields
/// its location was taken from.
pub open spec fn data_of(event: Fields) -> Fields {
    let panic = renamed_fields("panic."@, panic_names(), event);
    let log = renamed_fields("log."@, log_names(), event);
    let rest = if panic != Fields::empty() {
        unrenamed_fields("panic."@, panic_names(), event)
    } else if log != Fields::empty() {
        unrenamed_fields("log."@, log_names(), event)
    } else {
        event
    };
    rest.remove("message"@)
}

/// The top-level scalars: the event's message, the level and the time.
pub open spec fn top_of(event: Fields, metadata: Fields, live: Fields) -> Fields {
    event.restrict(set!["message"@]).union_prefer_right(metadata.restrict(set!["level"@])).union_prefer_right(
        live.restrict(set!["timestamp"@]),
    )
}

/// `m` holds `group` nested under `name` when `group` has fields, and
/// nothing under `name` when it has none.
pub open spec fn group_in(m: Fields, name: Seq<char>, group: Fields) -> bool {
    if group == Fields::empty() {
        !m.contains_key(name)
    } else {
        m.contains_key(name) && m[name] is Object && m[name]->Object_0@ == group
    }
}

proof fn lemma_names(rule: &PortBy, names: Set<Seq<char>>)
    requires
        forall|n: Seq<char>| names.contains(n) <==> rule.allows(n),
    ensures
        rule.names() == names,
{
    assert(rule.names() =~= names);
}

/// Merges the fields of the enclosing spans (`context`), of the call site
/// (`metadata`), of the event itself and of the moment (`live`) into one
/// record: the message, level and timestamp at the top, and the groups
/// `context`, `data` and `runtime`, each left out when empty.
pub fn format_event(context: Store, metadata: Store, event: Store, live: Store) -> (r: Store)
    requires
        context.wf(),
        metadata.wf(),
        event.wf(),
        live.wf(),
    ensures
        r.wf(),
        r@.remove_keys(set!["context"@, "data"@, "runtime"@]) == top_of(event@, metadata@, live@),
        group_in(r@, "context"@, context@),
        group_in(r@, "data"@, data_of(event@)),
        group_in(r@, "runtime"@, runtime_of(event@, metadata@, live@)),
{
    let ghost e0 = event@;
    let ghost m0 = metadata@;
    let ghost l0 = live@;
    let mut metadata = metadata;
    let mut event = event;
    let mut live = live;
    proof {
        lemma_literals_distinct();
    }

    let mut runtime = Store::new();
    let thread_key = vec!["thread"];
    assert(key_set(thread_key@) =~= set!["thread"@]) by {
        assert(thread_key@[0]@ == "thread"@);
    }
    runtime.port(&mut live, thread_key);

    let panic_rule = by_prefix("panic.", vec!["line", "file"]);
    let log_rule = by_prefix("log.", vec!["target", "line", "file"]);
    proof {
        assert(panic_rule.allowed@[0]@ == "line"@ && panic_rule.allowed@[1]@ == "file"@);
        lemma_names(&panic_rule, panic_names());
        assert(log_rule.allowed@[0]@ == "target"@ && log_rule.allowed@[1]@ == "line"@
            && log_rule.allowed@[2]@ == "file"@);
        lemma_names(&log_rule, log_names());
    }
    let ghost panic = renamed_fields("panic."@, panic_names(), e0);
    let ghost log = renamed_fields("log."@, log_names(), e0);
    if !runtime.port_by(&mut event, &panic_rule).is_hit() {
        proof {
            lemma_nothing_renamed("panic."@, panic_names(), e0);
        }
        if !runtime.port_by(&mut event, &log_rule).is_hit() {
            proof {
                lemma_nothing_renamed("log."@, log_names(), e0);
            }
            let location_keys = vec!["target", "line", "file"];
            assert(key_set(location_keys@) =~= log_names()) by {
                assert(location_keys@[0]@ == "target"@ && location_keys@[1]@ == "line"@
                    && location_keys@[2]@ == "file"@);
            }
            runtime.port(&mut metadata, location_keys);
        }
    }
    assert(runtime@ =~= runtime_of(e0, m0, l0));
    let ghost rest = event@;
    assert(rest.restrict(set!["message"@]) =~= e0.restrict(set!["message"@]));
    assert(metadata@.restrict(set!["level"@]) =~= m0.restrict(set!["level"@]));
    assert(live@.restrict(set!["timestamp"@]) =~= l0.restrict(set!["timestamp"@]));

    let mut root = Store::new();
    let message_key = vec!["message"];
    assert(key_set(message_key@) =~= set!["message"@]) by {
        assert(message_key@[0]@ == "message"@);
    }
    root.port(&mut event, message_key);
    assert(event@ =~= data_of(e0));
    let level_key = vec!["level"];
    assert(key_set(level_key@) =~= set!["level"@]) by {
        assert(level_key@[0]@ == "level"@);
    }
    root.port(&mut metadata, level_key);
    let timestamp_key = vec!["timestamp"];
    assert(key_set(timestamp_key@) =~= set!["timestamp"@]) by {
        assert(timestamp_key@[0]@ == "timestamp"@);
    }
    root.port(&mut live, timestamp_key);
    let ghost top = root@;
    assert(top =~= top_of(e0, m0, l0));

    root.push("context", context);
    root.push("data", event);
    root.push("runtime", runtime);
    assert(root@.remove_keys(set!["context"@, "data"@, "runtime"@]) =~= top);
    root
}

/// A panic as it is logged: its message and where it happened.
pub struct PanicReport {
    pub message: String,
    pub file: Option<String>,
    pub line: Option<u32>,
}

pub open spec fn opt_view(v: Option<&str>) -> Option<Seq<char>> {
    match v {
        Some(s) => Some(s@),
        None => None,
    }
}

/// `m` holds the report's message, and its file and line under `panic.`
/// where they are known.
pub open spec fn panic_fields(report: PanicReport, m: Fields) -> bool {
    &&& m.dom() == set!["message"@].union(
        if report.file is Some { set!["panic.file"@] } else { Set::empty() },
    ).union(if report.line is Some { set!["panic.line"@] } else { Set::empty() })
    &&& m["message"@] == FieldValue::Text(report.message)
    &&& report.file matches Some(f) ==> m["panic.file"@] == FieldValue::Text(f)
    &&& report.line matches Some(l) ==> m["panic.line"@] == FieldValue::UInt(l as u64)
}

proof fn lemma_panic_keys()
    ensures
        "message"@ != "panic.file"@,
        "message"@ != "panic.line"@,
        "panic.file"@ != "panic.line"@,
        "panic."@ + "file"@ == "panic.file"@,
        "panic."@ + "line"@ == "panic.line"@,
        !"panic."@.is_prefix_of("message"@),
{
    reveal_strlit("message");
    reveal_strlit("panic.file");
    reveal_strlit("panic.line");
    reveal_strlit("panic.");
    reveal_strlit("file");
    reveal_strlit("line");
    assert("message"@[0] != "panic.file"@[0]);
    assert("message"@[0] != "panic.line"@[0]);
    assert("panic.file"@[6] != "panic.line"@[6]);
    assert("panic."@ + "file"@ =~= "panic.file"@);
    assert("panic."@ + "line"@ =~= "panic.line"@);
    assert("message"@.subrange(0, 6)[0] != "panic."@[0]);
}

impl PanicReport {
    /// A report of a panic with `message`, or a fixed text when it has none,
    /// at `file` and `line` where known.
    pub fn new(message: Option<&str>, file: Option<&str>, line: Option<u32>) -> (r: PanicReport)
        ensures
            r.message@ == match message {
                Some(m) => m@,
                None => "application crashed"@,
            },
            opt_view(file) == match r.file {
                Some(f) => Some(f@),
                None => None::<Seq<char>>,
            },
            r.line == line,
    {
        let message = match message {
            Some(m) => String::from_str(m),
            None => String::from_str("application crashed"),
        };
        let file = match file {
            Some(f) => Some(String::from_str(f)),
            None => None,
        };
        PanicReport { message, file, line }
    }

    /// The fields of the event a panic is logged as.
    pub fn fields(&self) -> (r: Store)
        ensures
            r.wf(),
            r.is_flat(),
            panic_fields(*self, r@),
    {
        let mut r = Store::new();
        r.insert(String::from_str("message"), FieldValue::Text(self.message.clone()));
        match &self.file {
            Some(f) => r.insert(String::from_str("panic.file"), FieldValue::Text(f.clone())),
            None => {},
        }
        match self.line {
            Some(l) => r.insert(String::from_str("panic.line"), FieldValue::UInt(l as u64)),
            None => {},
        }
        proof {
            lemma_panic_keys();
        }
        assert(r@.dom() =~= set!["message"@].union(
            if self.file is Some { set!["panic.file"@] } else { Set::empty() },
        ).union(if self.line is Some { set!["panic.line"@] } else { Set::empty() }));
        r
    }
}

/// A panic logged with a known location is located there: the `runtime`
/// group takes its file and line, whatever the call site says, and the
/// `data` group is left out.
pub proof fn lemma_panic_location(report: PanicReport, m: Fields, metadata: Fields)
    requires
        panic_fields(report, m),
        report.file is Some,
        report.line is Some,
    ensures
        location_of(m, metadata) == map![
            "file"@ => FieldValue::Text(report.file->Some_0),
            "line"@ => FieldValue::UInt(report.line->Some_0 as u64),
        ],
        data_of(m) == Fields::empty(),
{
    lemma_panic_keys();
    lemma_literals_distinct();
    let panic = renamed_fields("panic."@, panic_names(), m);
    let expected = map![
        "file"@ => FieldValue::Text(report.file->Some_0),
        "line"@ => FieldValue::UInt(report.line->Some_0 as u64),
    ];
    assert(panic =~= expected);
    assert(panic.contains_key("file"@));
    assert(panic != Fields::empty());
    let rest = unrenamed_fields("panic."@, panic_names(), m);
    assert forall|k: Seq<char>| #[trigger] rest.contains_key(k) implies k == "message"@ by {
        lemma_concat_prefix("panic."@, "file"@);
        lemma_concat_prefix("panic."@, "line"@);
    }
    assert(data_of(m) =~= Fields::empty());
}

} // verus!
