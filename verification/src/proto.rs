//! The messages spoken over the local socket between the unprivileged GUI
//! and the privileged engine, one JSON object per line in both directions.
//!
//! These are the plain types; the JSON encoding (whose uppercase profile
//! keys are the historical `config.json` names) lives with the programs that
//! read and write the socket.
use vstd::prelude::*;

verus! {

/// A named connection preset.
#[derive(Clone, Debug)]
pub struct Profile {
    pub id: String,
    pub name: String,
    pub listen_host: String,
    pub listen_port: u16,
    pub connect_ip: String,
    pub connect_port: u16,
    pub fake_sni: String,
}

/// What the GUI asks of the engine.
#[derive(Clone, Debug)]
pub enum Command {
    /// Stop whatever is running, then start this profile.
    Start { profile: Profile },
    Stop,
    /// Turn per-packet logging on or off.
    Verbose { on: bool },
    /// Stop and exit the process.
    Shutdown,
}

/// The severity of an engine log line.
#[derive(Clone, Copy, Debug, PartialEq, Eq, Structural)]
pub enum LogLevel {
    Info,
    Warn,
    Error,
    Debug,
}

/// What the engine tells the GUI.
#[derive(Clone, Debug)]
pub enum Event {
    /// First line the engine sends after the auth token.
    Ready { version: String },
    /// One of: stopped | starting | running | error
    State { state: String },
    Log { level: LogLevel, msg: String },
    /// A machine-readable failure. `code` is stable; `msg` is for humans.
    Error { code: String, msg: String },
}

} // verus!
