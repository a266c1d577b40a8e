use snifake::auth::{linux_elevated_argv, nopasswd_covers, osascript_argv, shell_quote};
use snifake::bpf::ifreq_name;
use snifake::autostart::{desktop_entry, launch_agent, run_value};
use snifake::elevate::join_args;
use snifake::engine_host::{apply_event, token_matches};
use snifake::logbuf::{LogBuffer, MAX_LINES};
use snifake::profiles::{
    active, default_profile, delete, find_profile, profile_id, set_active, store_of, upsert, Store,
};
use snifake::proto::{Event, LogLevel, Profile};
use snifake::tray::{
    is_lit, menu_action, profile_label, start_enabled, state_color, stop_enabled, tooltip, MenuAction,
};

#[test]
fn only_a_nopasswd_entry_counts_as_passwordless() {
    let engine = "/usr/lib/Snifake/snifake-engine";
    assert!(!nopasswd_covers("    (ALL : ALL) ALL", engine));
    assert!(!nopasswd_covers("    (root) NOPASSWD: /usr/lib/sni-fake/run-proxy.sh", engine));
    assert!(nopasswd_covers(&format!("    (root) NOPASSWD: {engine}"), engine));
    assert!(nopasswd_covers(&format!("    (root) NOPASSWD: SETENV: {engine}"), engine));
    assert!(nopasswd_covers(&format!("    (root) NOPASSWD: /bin/ls, {engine}"), engine));
    assert!(nopasswd_covers("    (ALL) NOPASSWD: ALL", engine));
}

#[test]
fn a_rule_of_tags_alone_grants_nothing() {
    let engine = "/usr/bin/e";
    assert!(!nopasswd_covers("    (root) NOPASSWD: SETENV:", engine));
    assert!(!nopasswd_covers("    (root) NOPASSWD:", engine));
    assert!(!nopasswd_covers("    (root) NOPASSWD: /usr/bin/e2", engine));
    assert!(nopasswd_covers("(root) NOPASSWD:\t/usr/bin/e", engine));
}

#[test]
fn every_argument_is_quoted_so_spaces_survive() {
    assert_eq!(
        join_args(&[r"\\.\pipe\snifake-ab".into(), "deadbeef".into()]),
        "\"\\\\.\\pipe\\snifake-ab\" \"deadbeef\""
    );
}

#[test]
fn an_embedded_quote_is_escaped_rather_than_ending_the_argument() {
    assert_eq!(join_args(&["a\"b".into()]), "\"a\\\"b\"");
}

#[test]
fn no_arguments_join_to_nothing() {
    assert_eq!(join_args(&[]), "");
    assert_eq!(join_args(&["".into(), "x y".into()]), "\"\" \"x y\"");
}

#[test]
fn events_map_onto_log_lines_and_state() {
    let mut logs = LogBuffer::new();
    let ev = Event::Log { level: LogLevel::Info, msg: "hello".into() };
    assert_eq!(apply_event(&ev, &mut logs), None);
    assert_eq!(logs.snapshot(), vec!["hello".to_string()]);

    let ev = Event::State { state: "running".into() };
    assert_eq!(apply_event(&ev, &mut logs), Some("running".to_string()));

    let ev = Event::Error { code: "no_route".into(), msg: "nope".into() };
    assert_eq!(apply_event(&ev, &mut logs), None);
    assert!(logs.snapshot().iter().any(|l| l.contains("no_route")));
}

#[test]
fn every_event_kind_has_its_own_line() {
    let mut logs = LogBuffer::new();
    apply_event(&Event::Ready { version: "2.0.0".into() }, &mut logs);
    apply_event(&Event::Log { level: LogLevel::Warn, msg: "w".into() }, &mut logs);
    apply_event(&Event::Log { level: LogLevel::Error, msg: "e".into() }, &mut logs);
    apply_event(&Event::Log { level: LogLevel::Debug, msg: "d".into() }, &mut logs);
    apply_event(&Event::Error { code: "c".into(), msg: "m".into() }, &mut logs);
    apply_event(&Event::State { state: "stopped".into() }, &mut logs);
    assert_eq!(
        logs.snapshot(),
        vec!["engine 2.0.0 ready", "warning: w", "error: e", "d", "error [c]: m"]
    );
}

#[test]
fn ring_buffer_evicts_oldest_beyond_cap() {
    let mut buf = LogBuffer::new();
    for i in 0..(MAX_LINES + 10) {
        buf.push(format!("line {i}"));
    }
    let snap = buf.snapshot();
    assert_eq!(snap.len(), MAX_LINES);
    assert_eq!(snap[0], format!("line {}", 10));
    assert_eq!(snap[MAX_LINES - 1], format!("line {}", MAX_LINES + 9));
}

#[test]
fn pending_stays_empty_while_not_streaming() {
    let mut buf = LogBuffer::new();
    buf.push("a".into());
    buf.push("b".into());
    assert!(buf.take_pending().is_empty());
    assert_eq!(buf.snapshot().len(), 2);
}

#[test]
fn pending_collects_only_after_streaming_enabled() {
    let mut buf = LogBuffer::new();
    buf.push("before".into());
    buf.set_streaming(true);
    buf.push("after".into());
    assert_eq!(buf.take_pending(), vec!["after".to_string()]);
    assert!(buf.take_pending().is_empty());
}

#[test]
fn disabling_streaming_drops_pending() {
    let mut buf = LogBuffer::new();
    buf.set_streaming(true);
    buf.push("x".into());
    buf.set_streaming(false);
    assert!(buf.take_pending().is_empty());
}

#[test]
fn pending_never_grows_past_the_cap() {
    let mut buf = LogBuffer::new();
    buf.set_streaming(true);
    for i in 0..(MAX_LINES + 3) {
        buf.push(format!("{i}"));
    }
    let p = buf.take_pending();
    assert_eq!(p.len(), MAX_LINES);
    assert_eq!(p[0], "0");
    assert_eq!(buf.snapshot().len(), MAX_LINES);
}

fn profile(id: &str, name: &str) -> Profile {
    Profile {
        id: id.into(),
        name: name.into(),
        listen_host: "127.0.0.1".into(),
        listen_port: 40443,
        connect_ip: "104.18.4.130".into(),
        connect_port: 443,
        fake_sni: "example.com".into(),
    }
}

#[test]
fn upsert_replaces_by_id_and_appends_new_ids() {
    let mut store = Store { profiles: vec![profile("a", "A")], active_id: Some("a".into()) };
    upsert(&mut store, profile("a", "A renamed"));
    assert_eq!(store.profiles.len(), 1);
    assert_eq!(store.profiles[0].name, "A renamed");
    upsert(&mut store, profile("b", "B"));
    assert_eq!(store.profiles.len(), 2);
}

#[test]
fn delete_refuses_to_remove_the_last_profile() {
    let mut store = Store { profiles: vec![profile("a", "A")], active_id: Some("a".into()) };
    assert!(delete(&mut store, "a").is_err());
    assert_eq!(store.profiles.len(), 1);
}

#[test]
fn deleting_the_active_profile_moves_active_to_the_first_survivor() {
    let mut store = Store {
        profiles: vec![profile("a", "A"), profile("b", "B")],
        active_id: Some("a".into()),
    };
    delete(&mut store, "a").unwrap();
    assert_eq!(store.active_id.as_deref(), Some("b"));
}

#[test]
fn active_returns_none_when_the_id_does_not_resolve() {
    let store = Store { profiles: vec![profile("a", "A")], active_id: Some("zz".into()) };
    assert!(active(&store).is_none());
}

#[test]
fn setting_an_unknown_active_id_is_rejected() {
    let mut store = Store { profiles: vec![profile("a", "A")], active_id: Some("a".into()) };
    assert!(set_active(&mut store, "nope").is_err());
    assert_eq!(store.active_id.as_deref(), Some("a"));
    assert!(set_active(&mut store, "a").is_ok());
}

#[test]
fn the_refusals_say_why() {
    let mut store = Store { profiles: vec![profile("a", "A")], active_id: Some("a".into()) };
    assert_eq!(delete(&mut store, "a").unwrap_err(), "The last profile cannot be deleted.");
    assert_eq!(set_active(&mut store, "nope").unwrap_err(), "no profile with id 'nope'");
}

#[test]
fn deleting_an_inactive_profile_keeps_the_active_one() {
    let mut store = Store {
        profiles: vec![profile("a", "A"), profile("b", "B"), profile("c", "C")],
        active_id: Some("c".into()),
    };
    delete(&mut store, "b").unwrap();
    let ids: Vec<&str> = store.profiles.iter().map(|p| p.id.as_str()).collect();
    assert_eq!(ids, ["a", "c"]);
    assert_eq!(store.active_id.as_deref(), Some("c"));
    assert_eq!(active(&store).unwrap().name, "C");
}

#[test]
fn a_fresh_store_holds_the_default_profile() {
    let id = profile_id(1_700_000_000_123_456_789);
    assert_eq!(id, "p1700000000123456789");
    let store = store_of(default_profile(id.clone()));
    assert_eq!(store.profiles.len(), 1);
    let p = &store.profiles[0];
    assert_eq!(p.id, id);
    assert_eq!(p.name, "Default");
    assert_eq!(p.listen_host, "127.0.0.1");
    assert_eq!(p.listen_port, 40443);
    assert_eq!(p.connect_ip, "103.160.204.34");
    assert_eq!(p.connect_port, 443);
    assert_eq!(p.fake_sni, "chatgpt.com");
    assert_eq!(store.active_id.as_deref(), Some(id.as_str()));
    assert_eq!(active(&store).unwrap().name, "Default");
}

#[test]
fn every_state_has_its_own_colour() {
    let mut seen = vec![];
    for state in ["stopped", "starting", "running", "error"] {
        let color = state_color(state);
        assert!(!seen.contains(&color), "{state} repeats another state");
        seen.push(color);
    }
    assert_eq!(state_color("nonsense"), state_color("stopped"));
}

#[test]
fn the_palette_matches_the_theme() {
    assert_eq!(state_color("starting"), [0xff, 0xb2, 0x24]);
    assert_eq!(state_color("running"), [0x4e, 0xd1, 0x7f]);
    assert_eq!(state_color("error"), [0xff, 0x5c, 0x4d]);
    assert_eq!(state_color("stopped"), [0x6a, 0x6f, 0x76]);
}

#[test]
fn start_and_stop_follow_the_state() {
    for (state, start, stop) in [
        ("stopped", true, false),
        ("error", true, false),
        ("running", false, true),
        ("starting", false, true),
        ("other", false, false),
    ] {
        assert_eq!(start_enabled(state), start, "{state}");
        assert_eq!(stop_enabled(state), stop, "{state}");
    }
}

#[test]
fn only_chroma_marks_a_pixel_as_lit() {
    assert!(!is_lit(0x4a, 0x50, 0x58));
    assert!(!is_lit(0x30, 0x30, 0x30));
    assert!(is_lit(0x80, 0x00, 0x00));
    assert!(is_lit(0x4e, 0xd1, 0x7f));
    assert!(is_lit(0, 0, 20));
    assert!(!is_lit(0, 0, 19));
}

#[test]
fn login_items_point_at_the_executable() {
    assert_eq!(
        desktop_entry("/opt/snifake/snifake"),
        "[Desktop Entry]\nType=Application\nName=SNI Spoof\nExec=/opt/snifake/snifake\nHidden=false\nX-GNOME-Autostart-enabled=true\n"
    );
    let plist = launch_agent("/Applications/Snifake.app/Contents/MacOS/snifake");
    assert!(plist.starts_with("<?xml version=\"1.0\" encoding=\"UTF-8\"?>\n"));
    assert!(plist.contains(
        "        <string>/Applications/Snifake.app/Contents/MacOS/snifake</string>\n"
    ));
    assert!(plist.contains("<string>com.sni-fake</string>"));
    assert!(plist.ends_with("</dict>\n</plist>\n"));
    assert_eq!(run_value(r"C:\Program Files\Snifake\snifake.exe"), "\"C:\\Program Files\\Snifake\\snifake.exe\"");
}

#[test]
fn shell_quoting_survives_single_quotes() {
    assert_eq!(shell_quote("/Applications/Sni Fake.app"), "'/Applications/Sni Fake.app'");
    assert_eq!(shell_quote("it's"), "'it'\\''s'");
    assert_eq!(shell_quote(""), "''");
}

#[test]
fn the_osascript_launch_escapes_for_applescript() {
    let argv = osascript_argv("/opt/e", &["/tmp/s.sock".to_string(), "a\"b\\c".to_string()]);
    assert_eq!(argv.len(), 3);
    assert_eq!(argv[0], "osascript");
    assert_eq!(argv[1], "-e");
    assert_eq!(
        argv[2],
        "do shell script \"'/opt/e' '/tmp/s.sock' 'a\\\"b\\\\c' &> /dev/null &\" with administrator privileges"
    );
}

#[test]
fn a_profile_is_found_by_its_id() {
    let store = Store { profiles: vec![profile("a", "A"), profile("b", "B")], active_id: None };
    assert_eq!(find_profile(&store, "b").unwrap().name, "B");
    assert_eq!(find_profile(&store, "zz").unwrap_err(), "no profile with id 'zz'");
}

#[test]
fn the_linux_launch_prefers_root_then_sudo_then_pkexec() {
    let args = vec!["/tmp/s.sock".to_string(), "tok".to_string()];
    assert_eq!(linux_elevated_argv(true, true, true, "/e", &args), ["/e", "/tmp/s.sock", "tok"]);
    assert_eq!(
        linux_elevated_argv(false, true, true, "/e", &args),
        ["sudo", "-n", "/e", "/tmp/s.sock", "tok"]
    );
    assert_eq!(linux_elevated_argv(false, false, true, "/e", &args), ["pkexec", "/e", "/tmp/s.sock", "tok"]);
    assert!(linux_elevated_argv(false, false, false, "/e", &args).is_empty());
}

#[test]
fn an_interface_name_must_leave_room_for_the_nul() {
    let n = ifreq_name("en0").unwrap();
    assert_eq!(&n[..3], b"en0");
    assert!(n[3..].iter().all(|b| *b == 0));
    assert!(ifreq_name("fifteen-chars-x").is_some());
    assert!(ifreq_name("sixteen-chars-xx").is_none());
}

#[test]
fn history_and_pending_over_a_long_run_of_calls() {
    let mut buf = LogBuffer::new();
    for i in 0..3 {
        buf.push(format!("quiet {i}"));
    }
    buf.set_streaming(true);
    for i in 0..(MAX_LINES + 5) {
        buf.push(format!("live {i}"));
    }
    let pending = buf.take_pending();
    assert_eq!(pending.len(), MAX_LINES);
    assert_eq!(pending[0], "live 0");
    buf.push("after take".into());
    assert_eq!(buf.take_pending(), vec!["after take".to_string()]);
    let snap = buf.snapshot();
    assert_eq!(snap.len(), MAX_LINES);
    assert_eq!(snap[MAX_LINES - 1], "after take");
    assert_eq!(snap[0], format!("live {}", 6));
}

#[test]
fn the_engine_must_present_the_token_on_its_first_line() {
    assert!(token_matches("0123abcd\n", "0123abcd"));
    assert!(token_matches("  0123abcd \r\n", "0123abcd"));
    assert!(!token_matches("0123abce\n", "0123abcd"));
    assert!(!token_matches("0123abcd extra\n", "0123abcd"));
    assert!(!token_matches("\n", "0123abcd"));
    assert!(token_matches(" \t\n", ""));
}

#[test]
fn the_tray_labels_name_the_state_and_profile() {
    assert_eq!(profile_label("Vercel"), "Profile: Vercel");
    assert_eq!(tooltip("running", "Vercel"), "Snifake \u{2014} Running (Vercel)");
    assert_eq!(tooltip("error", ""), "Snifake \u{2014} Error ()");
}

#[test]
fn tray_menu_items_map_to_requests() {
    assert_eq!(menu_action("show"), MenuAction::ShowWindow);
    assert_eq!(menu_action("start"), MenuAction::RequestStart);
    assert_eq!(menu_action("stop"), MenuAction::RequestStop);
    assert_eq!(menu_action("quit"), MenuAction::RequestQuit);
    assert_eq!(menu_action("current"), MenuAction::Nothing);
}
