//! Start-up and shut-down of the process-wide exporters: each happens at
//! most once, however often it is asked for.

use vstd::prelude::*;

verus! {

/// Configuration read once at start-up.
pub struct Options<'a> {
    /// Log filter expression.
    pub level: &'a str,
    pub service: &'a str,
    pub version: &'a str,
    /// Trace collector endpoint.
    pub exporter: &'a str,
}

#[derive(Debug, Clone, Copy, PartialEq, Eq, Structural)]
pub enum Phase {
    Idle,
    Running,
    Stopped,
}

#[derive(Debug, Clone, Copy, PartialEq, Eq, Structural)]
pub enum Command {
    Init,
    Stop,
}

/// The next phase, and whether the request is to be carried out now.
pub open spec fn step(phase: Phase, request: Command) -> (Phase, bool) {
    match (phase, request) {
        (Phase::Idle, Command::Init) => (Phase::Running, true),
        (Phase::Running, Command::Stop) => (Phase::Stopped, true),
        (Phase::Idle, Command::Stop) => (Phase::Stopped, false),
        (p, _) => (p, false),
    }
}

/// Asks to install the exporters: `true` only the first time, before any
/// stop.
pub fn init(phase: Phase) -> (r: (Phase, bool))
    ensures
        r == step(phase, Command::Init),
{
    match phase {
        Phase::Idle => (Phase::Running, true),
        p => (p, false),
    }
}

/// Asks to flush and tear down the exporters: `true` only the first time,
/// after they were installed.
pub fn stop(phase: Phase) -> (r: (Phase, bool))
    ensures
        r == step(phase, Command::Stop),
{
    match phase {
        Phase::Running => (Phase::Stopped, true),
        Phase::Idle => (Phase::Stopped, false),
        Phase::Stopped => (Phase::Stopped, false),
    }
}

/// How many installs and how many flushes a run of requests carries out
/// from `phase`.
pub open spec fn performed(phase: Phase, requests: Seq<Command>) -> (nat, nat)
    decreases requests.len(),
{
    if requests.len() == 0 {
        (0, 0)
    } else {
        let (next, act) = step(phase, requests[0]);
        let (installs, flushes) = performed(next, requests.skip(1));
        let i: nat = if act && requests[0] == Command::Init { 1 } else { 0 };
        let f: nat = if act && requests[0] == Command::Stop { 1 } else { 0 };
        (installs + i, flushes + f)
    }
}

proof fn lemma_performed_from(phase: Phase, requests: Seq<Command>)
    ensures
        performed(phase, requests).0 <= if phase == Phase::Idle { 1nat } else { 0nat },
        performed(phase, requests).1 <= if phase == Phase::Stopped { 0nat } else { 1nat },
        performed(phase, requests).1 <= performed(phase, requests).0
            + if phase == Phase::Running { 1nat } else { 0nat },
    decreases requests.len(),
{
    if requests.len() > 0 {
        lemma_performed_from(step(phase, requests[0]).0, requests.skip(1));
    }
}

/// From a fresh start, any run of requests installs the exporters at most
/// once and flushes them at most once, never before installing them.
pub proof fn lemma_at_most_once(requests: Seq<Command>)
    ensures
        performed(Phase::Idle, requests).0 <= 1,
        performed(Phase::Idle, requests).1 <= performed(Phase::Idle, requests).0,
{
    lemma_performed_from(Phase::Idle, requests);
}

} // verus!
