//! How the GUI folds what the engine says into its log and its idea of the
//! proxy state.
use crate::logbuf::{last_lines, pending_after_push, LogBuffer};
use crate::auth::{is_whitespace, is_ws};
use crate::proto::{Event, LogLevel};
use crate::text::chars_of;
use vstd::prelude::*;

verus! {

/// The log line an event becomes, if any: warnings and errors are labelled,
/// an engine error carries its code, and a state change is no line at all.
pub open spec fn event_line(ev: Event) -> Option<Seq<char>> {
    match ev {
        Event::Ready { version } => Some("engine "@ + version@ + " ready"@),
        Event::Log { level, msg } => match level {
            LogLevel::Info | LogLevel::Debug => Some(msg@),
            LogLevel::Warn => Some("warning: "@ + msg@),
            LogLevel::Error => Some("error: "@ + msg@),
        },
        Event::Error { code, msg } => Some("error ["@ + code@ + "]: "@ + msg@),
        Event::State { .. } => None,
    }
}

/// The proxy state an event announces, if it announces one.
pub open spec fn event_state(ev: Event) -> Option<Seq<char>> {
    match ev {
        Event::State { state } => Some(state@),
        _ => None,
    }
}

fn labelled(label: &str, msg: &str) -> (r: String)
    ensures
        r@ == label@ + msg@,
{
    let mut s = String::from_str(label);
    s.append(msg);
    s
}

/// Folds one engine event into the log. Returns the new proxy state when
/// the event carries one.
pub fn apply_event(ev: &Event, logs: &mut LogBuffer) -> (r: Option<String>)
    ensures
        final(logs).streaming() == old(logs).streaming(),
        match event_line(*ev) {
            Some(line) => {
                &&& final(logs).history() == last_lines(old(logs).history().push(line))
                &&& final(logs).pending() == pending_after_push(
                    old(logs).pending(),
                    old(logs).streaming(),
                    line,
                )
            },
            None => {
                &&& final(logs).history() == old(logs).history()
                &&& final(logs).pending() == old(logs).pending()
            },
        },
        match event_state(*ev) {
            Some(s) => r matches Some(t) && t@ == s,
            None => r is None,
        },
{
    match ev {
        Event::Ready { version } => {
            let mut line = String::from_str("engine ");
            line.append(version.as_str());
            line.append(" ready");
            logs.push(line);
            None
        },
        Event::Log { level, msg } => {
            match level {
                LogLevel::Info | LogLevel::Debug => logs.push(msg.clone()),
                LogLevel::Warn => logs.push(labelled("warning: ", msg.as_str())),
                LogLevel::Error => logs.push(labelled("error: ", msg.as_str())),
            }
            None
        },
        Event::Error { code, msg } => {
            let mut line = String::from_str("error [");
            line.append(code.as_str());
            line.append("]: ");
            line.append(msg.as_str());
            logs.push(line);
            None
        },
        Event::State { state } => Some(state.clone()),
    }
}

/// `s` without its leading whitespace, as `str::trim_start` gives it.
pub open spec fn trim_start(s: Seq<char>) -> Seq<char>
    decreases s.len(),
{
    if s.len() > 0 && is_ws(s[0]) {
        trim_start(s.skip(1))
    } else {
        s
    }
}

/// `s` without its trailing whitespace, as `str::trim_end` gives it.
pub open spec fn trim_end(s: Seq<char>) -> Seq<char>
    decreases s.len(),
{
    if s.len() > 0 && is_ws(s.last()) {
        trim_end(s.drop_last())
    } else {
        s
    }
}

/// `s` without leading or trailing whitespace, as `str::trim` gives it.
pub open spec fn trimmed(s: Seq<char>) -> Seq<char> {
    trim_end(trim_start(s))
}

/// Whether the first line the engine sent presents the expected token: the
/// line, trimmed, is the token exactly.
pub fn token_matches(first_line: &str, token: &str) -> (r: bool)
    ensures
        r == (trimmed(first_line@) == token@),
{
    let cs = chars_of(first_line);
    let want = chars_of(token);
    let mut a: usize = 0;
    assert(cs@.skip(0) =~= cs@);
    while a < cs.len() && is_whitespace(cs[a])
        invariant
            a <= cs@.len(),
            trim_start(cs@) == trim_start(cs@.skip(a as int)),
        decreases cs@.len() - a,
    {
        assert(cs@.skip(a as int).skip(1) =~= cs@.skip(a + 1));
        a = a + 1;
    }
    let ghost t = cs@.skip(a as int);
    assert(trim_start(cs@) == t);
    let mut b: usize = cs.len();
    assert(t.take(b - a) =~= t);
    while b > a && is_whitespace(cs[b - 1])
        invariant
            a <= b <= cs@.len(),
            t == cs@.skip(a as int),
            trim_end(t) == trim_end(t.take(b - a)),
        decreases b,
    {
        assert(t.take(b - a).drop_last() =~= t.take(b - 1 - a));
        b = b - 1;
    }
    let ghost u = t.take(b - a);
    assert(trimmed(first_line@) == u);
    if b - a != want.len() {
        return false;
    }
    let mut k: usize = 0;
    while k < want.len()
        invariant
            k <= want@.len() == b - a,
            a <= b <= cs@.len(),
            u == cs@.subrange(a as int, b as int),
            u == trimmed(first_line@),
            want@ == token@,
            forall|j: int| 0 <= j < k ==> u[j] == want@[j],
        decreases want@.len() - k,
    {
        if cs[a + k] != want[k] {
            assert(u[k as int] != want@[k as int]);
            return false;
        }
        k = k + 1;
    }
    assert(u =~= want@);
    true
}

} // verus!
