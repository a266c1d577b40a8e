//! The tray's reading of the proxy state: the colour its icon is lit in and
//! which of Start and Stop may be pressed.
use crate::text::{chars_of, push_char, str_eq};
use vstd::prelude::*;

verus! {

/// The state palette, the same four values the window shows: amber while
/// starting, green while running, red on error, and grey for stopped and
/// for anything else.
pub open spec fn state_rgb(state: Seq<char>) -> Seq<u8> {
    if state == "starting"@ {
        seq![0xffu8, 0xb2u8, 0x24u8]
    } else if state == "running"@ {
        seq![0x4eu8, 0xd1u8, 0x7fu8]
    } else if state == "error"@ {
        seq![0xffu8, 0x5cu8, 0x4du8]
    } else {
        seq![0x6au8, 0x6fu8, 0x76u8]
    }
}

/// The colour the tray icon's trace takes in `state`.
pub fn state_color(state: &str) -> (c: [u8; 3])
    ensures
        c@ == state_rgb(state@),
{
    let c = if str_eq(state, "starting") {
        [0xffu8, 0xb2u8, 0x24u8]
    } else if str_eq(state, "running") {
        [0x4eu8, 0xd1u8, 0x7fu8]
    } else if str_eq(state, "error") {
        [0xffu8, 0x5cu8, 0x4du8]
    } else {
        [0x6au8, 0x6fu8, 0x76u8]
    };
    assert(c@ =~= state_rgb(state@));
    c
}

/// Start can be pressed when nothing is running.
pub fn start_enabled(state: &str) -> (r: bool)
    ensures
        r == (state@ == "stopped"@ || state@ == "error"@),
{
    str_eq(state, "stopped") || str_eq(state, "error")
}

/// Stop can be pressed while something is running or starting.
pub fn stop_enabled(state: &str) -> (r: bool)
    ensures
        r == (state@ == "running"@ || state@ == "starting"@),
{
    str_eq(state, "running") || str_eq(state, "starting")
}

/// Below this chroma a pixel belongs to the icon's plate rather than to its
/// trace: the plate's greys are cooled towards blue, with a chroma of at
/// most 14, while the trace's is 131.
pub const LIT_CHROMA: u8 = 20;

/// Whether a pixel is part of the lit trace, which takes the state's hue:
/// its chroma (largest channel minus smallest) is at least [`LIT_CHROMA`].
pub fn is_lit(r: u8, g: u8, b: u8) -> (lit: bool)
    ensures
        lit == ({
            let max = if r >= g && r >= b { r } else if g >= b { g } else { b };
            let min = if r <= g && r <= b { r } else if g <= b { g } else { b };
            max - min >= LIT_CHROMA
        }),
{
    let max = if r >= g && r >= b { r } else if g >= b { g } else { b };
    let min = if r <= g && r <= b { r } else if g <= b { g } else { b };
    max - min >= LIT_CHROMA
}

proof fn lemma_state_names_differ()
    ensures
        "stopped"@ != "starting"@,
        "stopped"@ != "running"@,
        "stopped"@ != "error"@,
        "starting"@ != "running"@,
        "starting"@ != "error"@,
        "running"@ != "error"@,
{
    reveal_strlit("stopped");
    reveal_strlit("starting");
    reveal_strlit("running");
    reveal_strlit("error");
    assert("stopped"@.len() != "starting"@.len());
    assert("stopped"@[0] != "running"@[0]);
    assert("stopped"@.len() != "error"@.len());
    assert("starting"@.len() != "running"@.len());
    assert("starting"@.len() != "error"@.len());
    assert("running"@.len() != "error"@.len());
}

/// A state the engine has not defined reads as stopped, not as whatever
/// state happened to be set before.
pub proof fn lemma_unknown_state_reads_as_stopped(state: Seq<char>)
    requires
        state != "starting"@,
        state != "running"@,
        state != "error"@,
    ensures
        state_rgb(state) == state_rgb("stopped"@),
{
    lemma_state_names_differ();
}

/// Each of the four states has a colour of its own.
pub proof fn lemma_every_state_has_its_own_colour()
    ensures
        state_rgb("stopped"@) != state_rgb("starting"@),
        state_rgb("stopped"@) != state_rgb("running"@),
        state_rgb("stopped"@) != state_rgb("error"@),
        state_rgb("starting"@) != state_rgb("running"@),
        state_rgb("starting"@) != state_rgb("error"@),
        state_rgb("running"@) != state_rgb("error"@),
{
    lemma_state_names_differ();
    assert(state_rgb("stopped"@)[0] != state_rgb("starting"@)[0]);
    assert(state_rgb("stopped"@)[0] != state_rgb("running"@)[0]);
    assert(state_rgb("stopped"@)[0] != state_rgb("error"@)[0]);
    assert(state_rgb("starting"@)[0] != state_rgb("running"@)[0]);
    assert(state_rgb("starting"@)[1] != state_rgb("error"@)[1]);
    assert(state_rgb("running"@)[0] != state_rgb("error"@)[0]);
}

/// Start and Stop are never both available.
pub proof fn lemma_start_and_stop_exclude(state: Seq<char>)
    ensures
        !((state == "stopped"@ || state == "error"@) && (state == "running"@ || state
            == "starting"@)),
{
    lemma_state_names_differ();
}

/// The disabled menu line that says which profile Start acts on.
pub fn profile_label(profile_name: &str) -> (r: String)
    ensures
        r@ == "Profile: "@ + profile_name@,
{
    let mut s = String::from_str("Profile: ");
    s.append(profile_name);
    s
}

/// `c` in upper case if it is an ASCII lower-case letter.
pub open spec fn ascii_upper(c: char) -> char {
    if 'a' <= c <= 'z' {
        ((c as u32) - 32) as char
    } else {
        c
    }
}

/// The tray tooltip: the state with its first letter capitalised, then the
/// active profile's name in parentheses.
pub open spec fn tooltip_text(state: Seq<char>, profile_name: Seq<char>) -> Seq<char> {
    "Snifake \u{2014} "@ + seq![ascii_upper(state[0])] + state.skip(1) + " ("@ + profile_name
        + ")"@
}

/// The tray tooltip for `state` and the active profile. The state's first
/// character must be ASCII (every state the engine reports is a lower-case
/// word).
pub fn tooltip(state: &str, profile_name: &str) -> (r: String)
    requires
        state@.len() > 0,
        (state@[0] as u32) < 128,
    ensures
        r@ == tooltip_text(state@, profile_name@),
{
    let cs = chars_of(state);
    let mut s = String::from_str("Snifake \u{2014} ");
    let c = cs[0];
    if 'a' <= c && c <= 'z' {
        let up = ((c as u32) - 32) as u8 as char;
        assert(up == ascii_upper(c));
        push_char(&mut s, up);
    } else {
        push_char(&mut s, c);
    }
    let mut i: usize = 1;
    let ghost head = s@;
    assert(cs@.skip(1).take(0) =~= Seq::<char>::empty());
    while i < cs.len()
        invariant
            1 <= i <= cs@.len(),
            cs@ == state@,
            s@ == head + cs@.skip(1).take(i - 1),
        decreases cs@.len() - i,
    {
        push_char(&mut s, cs[i]);
        assert(s@ =~= head + cs@.skip(1).take(i as int));
        i = i + 1;
    }
    assert(cs@.skip(1).take(i - 1) =~= state@.skip(1));
    s.append(" (");
    s.append(profile_name);
    s.append(")");
    assert(s@ =~= tooltip_text(state@, profile_name@));
    s
}

/// What a tray menu item asks for.
#[derive(Debug, PartialEq, Eq, Structural)]
pub enum MenuAction {
    /// Bring the window up.
    ShowWindow,
    /// Ask the window to start the proxy.
    RequestStart,
    /// Ask the window to stop the proxy.
    RequestStop,
    /// Bring the window up, then ask it to quit: the confirmation dialog
    /// lives in the window, so a tray-only user must see it.
    RequestQuit,
    /// Nothing: the profile label, or an unknown id.
    Nothing,
}

/// The action of the menu item with this id.
pub fn menu_action(id: &str) -> (r: MenuAction)
    ensures
        r == (if id@ == "show"@ {
            MenuAction::ShowWindow
        } else if id@ == "start"@ {
            MenuAction::RequestStart
        } else if id@ == "stop"@ {
            MenuAction::RequestStop
        } else if id@ == "quit"@ {
            MenuAction::RequestQuit
        } else {
            MenuAction::Nothing
        }),
{
    if str_eq(id, "show") {
        MenuAction::ShowWindow
    } else if str_eq(id, "start") {
        MenuAction::RequestStart
    } else if str_eq(id, "stop") {
        MenuAction::RequestStop
    } else if str_eq(id, "quit") {
        MenuAction::RequestQuit
    } else {
        MenuAction::Nothing
    }
}

} // verus!
