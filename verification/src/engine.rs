//! The engine's command loop, as decisions: what each command from the GUI
//! makes the engine do, and what it reports back. The engine program
//! performs the steps — stopping and starting runs, writing events to the
//! socket — and feeds the outcome of a start back in.
use crate::proto::{Command, Event, LogLevel};
use vstd::prelude::*;

verus! {

/// One thing the engine must do, in order.
#[derive(Debug, PartialEq, Eq, Structural)]
pub enum Step {
    /// Stop the current run and wait for its sniff thread.
    StopRun,
    /// Report the `starting` state.
    AnnounceStarting,
    /// Start a run of the profile carried by the command.
    StartRun,
    /// Log that the proxy stopped and report the `stopped` state.
    AnnounceStopped,
    /// Turn per-packet logging on or off.
    SetVerbose(bool),
    /// Leave the command loop; the process exits.
    Exit,
}

/// The steps a command calls for, given whether a run is active. A start
/// first stops what is running; so does a stop and a shutdown.
pub open spec fn command_steps(running: bool, cmd: Command) -> Seq<Step> {
    let stop_first = if running {
        seq![Step::StopRun]
    } else {
        seq![]
    };
    match cmd {
        Command::Start { .. } => stop_first + seq![Step::AnnounceStarting, Step::StartRun],
        Command::Stop => stop_first + seq![Step::AnnounceStopped],
        Command::Verbose { on } => seq![Step::SetVerbose(on)],
        Command::Shutdown => stop_first + seq![Step::Exit],
    }
}

/// What the engine does on one command.
pub fn on_command(running: bool, cmd: &Command) -> (r: Vec<Step>)
    ensures
        r@ == command_steps(running, *cmd),
{
    let mut r: Vec<Step> = Vec::new();
    match cmd {
        Command::Verbose { on } => {
            r.push(Step::SetVerbose(*on));
        },
        _ => {
            if running {
                r.push(Step::StopRun);
            }
            match cmd {
                Command::Start { .. } => {
                    r.push(Step::AnnounceStarting);
                    r.push(Step::StartRun);
                },
                Command::Stop => {
                    r.push(Step::AnnounceStopped);
                },
                _ => {
                    r.push(Step::Exit);
                },
            }
        },
    }
    assert(r@ =~= command_steps(running, *cmd));
    r
}

/// A state event for `state`.
pub fn state_event(state: &str) -> (e: Event)
    ensures
        e matches Event::State { state: s } && s@ == state@,
{
    Event::State { state: String::from_str(state) }
}

/// What a start reports: `running` on success; on failure the error's code
/// and message, then the `error` state.
pub fn start_outcome(result: Result<(), (String, String)>) -> (r: Vec<Event>)
    ensures
        match result {
            Ok(()) => {
                &&& r@.len() == 1
                &&& r@[0] matches Event::State { state } && state@ == "running"@
            },
            Err((code, msg)) => {
                &&& r@.len() == 2
                &&& r@[0] == Event::Error { code, msg }
                &&& r@[1] matches Event::State { state } && state@ == "error"@
            },
        },
{
    let mut r: Vec<Event> = Vec::new();
    match result {
        Ok(()) => {
            r.push(state_event("running"));
        },
        Err((code, msg)) => {
            r.push(Event::Error { code, msg });
            r.push(state_event("error"));
        },
    }
    r
}

/// What a stop reports: an info line that the proxy stopped, then the
/// `stopped` state.
pub fn stopped_events() -> (r: Vec<Event>)
    ensures
        r@.len() == 2,
        r@[0] matches Event::Log { level, msg } && level == LogLevel::Info && msg@
            == "proxy stopped"@,
        r@[1] matches Event::State { state } && state@ == "stopped"@,
{
    let mut r: Vec<Event> = Vec::new();
    r.push(Event::Log { level: LogLevel::Info, msg: String::from_str("proxy stopped") });
    r.push(state_event("stopped"));
    r
}

/// Whether a log line leaves the process: per-packet chatter only while
/// verbose logging is on, everything else always.
pub fn forwards_log(level: LogLevel, verbose: bool) -> (r: bool)
    ensures
        r == (level != LogLevel::Debug || verbose),
{
    !(level == LogLevel::Debug) || verbose
}

/// A run never survives the next command that is not a verbosity change:
/// start, stop and shutdown all stop an active run before anything else.
pub proof fn lemma_active_run_is_stopped_first(cmd: Command)
    requires
        !(cmd is Verbose),
    ensures
        command_steps(true, cmd)[0] == Step::StopRun,
        command_steps(false, cmd).len() > 0,
        !command_steps(false, cmd).contains(Step::StopRun),
{
    let s = command_steps(false, cmd);
    assert(forall|i: int| 0 <= i < s.len() ==> s[i] != Step::StopRun);
}

/// Why a start failed, in the order the engine tries things.
#[derive(Debug, PartialEq, Eq, Structural)]
pub enum StartFailure {
    /// The profile did not pass validation.
    InvalidProfile,
    /// No route, or no interface, to the upstream.
    NoRoute,
    /// The packet capture handle could not be opened.
    CaptureOpenFailed,
    /// The listener could not be bound.
    ListenFailed,
}

/// The stable machine-readable code the GUI receives for a failure.
pub open spec fn failure_code_text(f: StartFailure) -> Seq<char> {
    match f {
        StartFailure::InvalidProfile => "invalid_profile"@,
        StartFailure::NoRoute => "no_route"@,
        StartFailure::CaptureOpenFailed => "capture_open_failed"@,
        StartFailure::ListenFailed => "listen_failed"@,
    }
}

pub fn failure_code(f: &StartFailure) -> (r: String)
    ensures
        r@ == failure_code_text(*f),
{
    match f {
        StartFailure::InvalidProfile => String::from_str("invalid_profile"),
        StartFailure::NoRoute => String::from_str("no_route"),
        StartFailure::CaptureOpenFailed => String::from_str("capture_open_failed"),
        StartFailure::ListenFailed => String::from_str("listen_failed"),
    }
}

} // verus!
