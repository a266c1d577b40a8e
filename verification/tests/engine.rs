use snifake::engine::{
    failure_code, forwards_log, on_command, start_outcome, state_event, stopped_events, StartFailure, Step,
};
use snifake::proto::{Command, Event, LogLevel, Profile};

fn profile() -> Profile {
    Profile {
        id: "p1".into(),
        name: "Vercel".into(),
        listen_host: "0.0.0.0".into(),
        listen_port: 40443,
        connect_ip: "104.18.4.130".into(),
        connect_port: 443,
        fake_sni: "security.vercel.com".into(),
    }
}

#[test]
fn a_start_stops_the_current_run_first() {
    let cmd = Command::Start { profile: profile() };
    assert_eq!(on_command(true, &cmd), vec![Step::StopRun, Step::AnnounceStarting, Step::StartRun]);
    assert_eq!(on_command(false, &cmd), vec![Step::AnnounceStarting, Step::StartRun]);
}

#[test]
fn stop_and_shutdown_end_the_run() {
    assert_eq!(on_command(true, &Command::Stop), vec![Step::StopRun, Step::AnnounceStopped]);
    assert_eq!(on_command(false, &Command::Stop), vec![Step::AnnounceStopped]);
    assert_eq!(on_command(true, &Command::Shutdown), vec![Step::StopRun, Step::Exit]);
    assert_eq!(on_command(false, &Command::Shutdown), vec![Step::Exit]);
}

#[test]
fn verbosity_leaves_the_run_alone() {
    assert_eq!(on_command(true, &Command::Verbose { on: true }), vec![Step::SetVerbose(true)]);
    assert_eq!(on_command(false, &Command::Verbose { on: false }), vec![Step::SetVerbose(false)]);
}

#[test]
fn a_start_reports_its_outcome() {
    let ok = start_outcome(Ok(()));
    assert_eq!(ok.len(), 1);
    assert!(matches!(&ok[0], Event::State { state } if state == "running"));
    let err = start_outcome(Err(("no_route".into(), "nope".into())));
    assert_eq!(err.len(), 2);
    assert!(matches!(&err[0], Event::Error { code, msg } if code == "no_route" && msg == "nope"));
    assert!(matches!(&err[1], Event::State { state } if state == "error"));
}

#[test]
fn a_stop_reports_stopped() {
    let evs = stopped_events();
    assert!(matches!(&evs[0], Event::Log { level: LogLevel::Info, msg } if msg == "proxy stopped"));
    assert!(matches!(&evs[1], Event::State { state } if state == "stopped"));
    assert!(matches!(state_event("x"), Event::State { state } if state == "x"));
}

#[test]
fn debug_lines_need_verbose() {
    assert!(!forwards_log(LogLevel::Debug, false));
    assert!(forwards_log(LogLevel::Debug, true));
    for level in [LogLevel::Info, LogLevel::Warn, LogLevel::Error] {
        assert!(forwards_log(level, false));
    }
}

#[test]
fn start_failures_carry_stable_codes() {
    assert_eq!(failure_code(&StartFailure::InvalidProfile), "invalid_profile");
    assert_eq!(failure_code(&StartFailure::NoRoute), "no_route");
    assert_eq!(failure_code(&StartFailure::CaptureOpenFailed), "capture_open_failed");
    assert_eq!(failure_code(&StartFailure::ListenFailed), "listen_failed");
}
