//! Reading `sudo -l` for a rule that lets the engine run without a
//! password. `sudo -n -l <program>` answers "may this user run it at all",
//! so a plain `(ALL : ALL) ALL` entry passes it while the real run still
//! stops for a password; only a NOPASSWD rule covering the program means no
//! prompt.
use crate::text::{chars_of, push_char, texts};
use vstd::prelude::*;

verus! {

/// Rust's `char::is_whitespace`: the Unicode `White_Space` property.
pub open spec fn is_ws(c: char) -> bool {
    let v = c as u32;
    ||| 9 <= v <= 13
    ||| v == 32
    ||| v == 0x85
    ||| v == 0xA0
    ||| v == 0x1680
    ||| 0x2000 <= v <= 0x200A
    ||| v == 0x2028
    ||| v == 0x2029
    ||| v == 0x202F
    ||| v == 0x205F
    ||| v == 0x3000
}

pub(crate) fn is_whitespace(c: char) -> (r: bool)
    ensures
        r == is_ws(c),
{
    let v = c as u32;
    (9 <= v && v <= 13) || v == 32 || v == 0x85 || v == 0xA0 || v == 0x1680 || (0x2000 <= v && v
        <= 0x200A) || v == 0x2028 || v == 0x2029 || v == 0x202F || v == 0x205F || v == 0x3000
}

/// The first index at or after `i` where `pat` occurs in `s`, or -1.
pub open spec fn find_from(s: Seq<char>, pat: Seq<char>, i: int) -> int
    decreases s.len() + 1 - i,
{
    if i < 0 || i + pat.len() > s.len() {
        -1
    } else if s.subrange(i, i + pat.len()) == pat {
        i
    } else {
        find_from(s, pat, i + 1)
    }
}

/// The pieces of `s` between occurrences of `sep`, as `str::split` yields
/// them.
pub open spec fn split_chars(s: Seq<char>, sep: char) -> Seq<Seq<char>>
    decreases s.len(),
{
    if s.len() == 0 {
        seq![Seq::<char>::empty()]
    } else {
        let r = split_chars(s.drop_last(), sep);
        if s.last() == sep {
            r.push(Seq::<char>::empty())
        } else {
            r.update(r.len() - 1, r.last().push(s.last()))
        }
    }
}

/// The end of the whitespace run starting at `i`.
pub open spec fn ws_end(s: Seq<char>, i: int) -> int
    decreases s.len() - i,
{
    if i < 0 || i >= s.len() || !is_ws(s[i]) {
        i
    } else {
        ws_end(s, i + 1)
    }
}

/// The end of the token starting at `i`.
pub open spec fn tok_end(s: Seq<char>, i: int) -> int
    decreases s.len() - i,
{
    if i < 0 || i >= s.len() || is_ws(s[i]) {
        i
    } else {
        tok_end(s, i + 1)
    }
}

pub proof fn lemma_ws_end(s: Seq<char>, i: int)
    requires
        0 <= i <= s.len(),
    ensures
        i <= ws_end(s, i) <= s.len(),
        ws_end(s, i) < s.len() ==> !is_ws(s[ws_end(s, i)]),
        forall|k: int| i <= k < ws_end(s, i) ==> is_ws(#[trigger] s[k]),
    decreases s.len() - i,
{
    if i < s.len() && is_ws(s[i]) {
        lemma_ws_end(s, i + 1);
    }
}

pub proof fn lemma_tok_end(s: Seq<char>, i: int)
    requires
        0 <= i <= s.len(),
    ensures
        i <= tok_end(s, i) <= s.len(),
        tok_end(s, i) < s.len() ==> is_ws(s[tok_end(s, i)]),
        forall|k: int| i <= k < tok_end(s, i) ==> !is_ws(#[trigger] s[k]),
    decreases s.len() - i,
{
    if i < s.len() && !is_ws(s[i]) {
        lemma_tok_end(s, i + 1);
    }
}

/// The command of one comma-separated entry, from index `i` on: the first
/// whitespace-separated token that is not a tag (a tag ends in `:`), or
/// nothing if every token is a tag.
pub open spec fn command_from(s: Seq<char>, i: int) -> Seq<char>
    decreases s.len() - i,
{
    if i < 0 || i > s.len() {
        seq![]
    } else {
        let a = ws_end(s, i);
        if a >= s.len() {
            seq![]
        } else {
            let e = tok_end(s, a);
            proof {
                lemma_ws_end(s, i);
                lemma_tok_end(s, a);
            }
            if s[e - 1] == ':' {
                command_from(s, e)
            } else {
                s.subrange(a, e)
            }
        }
    }
}

/// One `sudo -l` listing line grants `program` without a password: it has
/// a `NOPASSWD:` rule, and after the first one some comma-separated entry's
/// command is `ALL` or the program itself.
pub open spec fn nopasswd_grants(line: Seq<char>, program: Seq<char>) -> bool {
    let at = find_from(line, "NOPASSWD:"@, 0);
    let entries = split_chars(line.skip(at + "NOPASSWD:"@.len()), ',');
    &&& at >= 0
    &&& exists|k: int|
        0 <= k < entries.len() && (command_from(#[trigger] entries[k], 0) == "ALL"@ || command_from(
            entries[k],
            0,
        ) == program)
}

fn find(s: &Vec<char>, pat: &Vec<char>) -> (r: usize)
    ensures
        find_from(s@, pat@, 0) < 0 ==> r == s@.len(),
        find_from(s@, pat@, 0) >= 0 ==> r == find_from(s@, pat@, 0),
{
    if pat.len() > s.len() {
        return s.len();
    }
    let mut i: usize = 0;
    while i <= s.len() - pat.len()
        invariant
            pat@.len() <= s@.len() <= usize::MAX,
            i <= s@.len() - pat@.len() + 1,
            find_from(s@, pat@, 0) == find_from(s@, pat@, i as int),
        decreases s@.len() - i,
    {
        let mut k: usize = 0;
        let mut same = true;
        while k < pat.len()
            invariant
                k <= pat@.len(),
                i + pat@.len() <= s@.len() <= usize::MAX,
                same == (forall|j: int| 0 <= j < k ==> s@[i + j] == pat@[j]),
            decreases pat@.len() - k,
        {
            if s[i + k] != pat[k] {
                same = false;
            }
            k = k + 1;
        }
        if same {
            assert(s@.subrange(i as int, i + pat@.len()) =~= pat@);
            return i;
        }
        assert(s@.subrange(i as int, i + pat@.len()) != pat@) by {
            let j = choose|j: int| 0 <= j < pat@.len() && s@[i + j] != pat@[j];
            assert(s@.subrange(i as int, i + pat@.len())[j] != pat@[j]);
        }
        i = i + 1;
    }
    s.len()
}

proof fn lemma_split_chars_nonempty(s: Seq<char>, sep: char)
    ensures
        split_chars(s, sep).len() >= 1,
    decreases s.len(),
{
    if s.len() > 0 {
        lemma_split_chars_nonempty(s.drop_last(), sep);
    }
}

/// The characters of each vector.
pub open spec fn char_views(v: Seq<Vec<char>>) -> Seq<Seq<char>> {
    Seq::new(v.len(), |i: int| v[i]@)
}

/// Splits `s` from index `from` on at every `sep`, keeping empty pieces.
fn split_from(s: &Vec<char>, from: usize, sep: char) -> (r: Vec<Vec<char>>)
    requires
        from <= s@.len(),
    ensures
        char_views(r@) == split_chars(s@.skip(from as int), sep),
{
    let ghost t = s@.skip(from as int);
    let mut out: Vec<Vec<char>> = Vec::new();
    let mut cur: Vec<char> = Vec::new();
    let mut i: usize = from;
    assert(t.take(0) =~= Seq::<char>::empty());
    assert(char_views(out@).push(cur@) =~= split_chars(t.take(0), sep));
    while i < s.len()
        invariant
            from <= i <= s@.len(),
            t == s@.skip(from as int),
            char_views(out@).push(cur@) == split_chars(t.take(i - from), sep),
        decreases s@.len() - i,
    {
        let c = s[i];
        let ghost k = i - from;
        proof {
            lemma_split_chars_nonempty(t.take(k), sep);
        }
        assert(t.take(k + 1).drop_last() =~= t.take(k));
        assert(t.take(k + 1).last() == c);
        let ghost before = split_chars(t.take(k), sep);
        if c == sep {
            let done = cur;
            out.push(done);
            cur = Vec::new();
            assert(char_views(out@).push(cur@) =~= split_chars(t.take(k + 1), sep));
        } else {
            let ghost o = out@;
            cur.push(c);
            assert(char_views(out@).push(cur@) =~= before.update(
                before.len() - 1,
                before.last().push(c),
            ));
        }
        i = i + 1;
    }
    assert(t.take(i - from) =~= t);
    out.push(cur);
    assert(char_views(out@) =~= split_chars(t, sep));
    out
}

/// Where the command of `e` lies in it, as a range of indices.
fn command_range(e: &Vec<char>) -> (r: (usize, usize))
    ensures
        r.0 <= r.1 <= e@.len(),
        e@.subrange(r.0 as int, r.1 as int) == command_from(e@, 0),
{
    let mut i: usize = 0;
    loop
        invariant
            i <= e@.len(),
            command_from(e@, 0) == command_from(e@, i as int),
        decreases e@.len() - i,
    {
        let mut a: usize = i;
        proof {
            lemma_ws_end(e@, i as int);
        }
        while a < e.len() && is_whitespace(e[a])
            invariant
                i <= a <= e@.len(),
                ws_end(e@, i as int) == ws_end(e@, a as int),
            decreases e@.len() - a,
        {
            a = a + 1;
        }
        if a >= e.len() {
            assert(e@.subrange(e@.len() as int, e@.len() as int) =~= Seq::<char>::empty());
            return (e.len(), e.len());
        }
        let mut t: usize = a;
        proof {
            lemma_tok_end(e@, a as int);
        }
        while t < e.len() && !is_whitespace(e[t])
            invariant
                a <= t <= e@.len(),
                tok_end(e@, a as int) == tok_end(e@, t as int),
            decreases e@.len() - t,
        {
            t = t + 1;
        }
        if e[t - 1] != ':' {
            return (a, t);
        }
        i = t;
    }
}

fn range_is(e: &Vec<char>, lo: usize, hi: usize, w: &Vec<char>) -> (r: bool)
    requires
        lo <= hi <= e@.len(),
    ensures
        r == (e@.subrange(lo as int, hi as int) == w@),
{
    if hi - lo != w.len() {
        return false;
    }
    let mut k: usize = 0;
    while k < w.len()
        invariant
            k <= w@.len() == hi - lo,
            hi <= e@.len(),
            forall|j: int| 0 <= j < k ==> e@[lo + j] == w@[j],
        decreases w@.len() - k,
    {
        if e[lo + k] != w[k] {
            assert(e@.subrange(lo as int, hi as int)[k as int] != w@[k as int]);
            return false;
        }
        k = k + 1;
    }
    assert(e@.subrange(lo as int, hi as int) =~= w@);
    true
}

/// Whether one `sudo -l` listing line grants `program` without a password.
pub fn nopasswd_covers(line: &str, program: &str) -> (r: bool)
    ensures
        r == nopasswd_grants(line@, program@),
{
    let cs = chars_of(line);
    let tag = chars_of("NOPASSWD:");
    let all = chars_of("ALL");
    let prog = chars_of(program);
    proof {
        reveal_strlit("NOPASSWD:");
    }
    assert(tag@.len() == 9);
    let at = find(&cs, &tag);
    if at >= cs.len() {
        proof {
            if find_from(cs@, tag@, 0) >= 0 {
                lemma_find_from_bound(cs@, tag@, 0);
            }
        }
        return false;
    }
    proof {
        lemma_find_from_bound(cs@, tag@, 0);
    }
    let entries = split_from(&cs, at + tag.len(), ',');
    let ghost es = split_chars(cs@.skip(at + tag@.len()), ',');
    let mut k: usize = 0;
    while k < entries.len()
        invariant
            k <= entries@.len(),
            char_views(entries@) == es,
            es == split_chars(line@.skip(find_from(line@, "NOPASSWD:"@, 0) + "NOPASSWD:"@.len()), ','),
            find_from(line@, "NOPASSWD:"@, 0) >= 0,
            all@ == "ALL"@,
            prog@ == program@,
            forall|j: int|
                0 <= j < k ==> !(command_from(#[trigger] es[j], 0) == "ALL"@ || command_from(
                    es[j],
                    0,
                ) == program@),
        decreases entries@.len() - k,
    {
        assert(entries@[k as int]@ == es[k as int]);
        let (lo, hi) = command_range(&entries[k]);
        if range_is(&entries[k], lo, hi, &all) || range_is(&entries[k], lo, hi, &prog) {
            assert(command_from(es[k as int], 0) == "ALL"@ || command_from(es[k as int], 0)
                == program@);
            return true;
        }
        k = k + 1;
    }
    false
}

proof fn lemma_find_from_bound(s: Seq<char>, pat: Seq<char>, i: int)
    ensures
        find_from(s, pat, i) >= 0 ==> i <= find_from(s, pat, i) && find_from(s, pat, i)
            + pat.len() <= s.len(),
    decreases s.len() + 1 - i,
{
    if i >= 0 && i + pat.len() <= s.len() && s.subrange(i, i + pat.len()) != pat {
        lemma_find_from_bound(s, pat, i + 1);
    }
}

/// `s` with every `c` replaced by `r`.
pub open spec fn replace_char(s: Seq<char>, c: char, r: Seq<char>) -> Seq<char>
    decreases s.len(),
{
    if s.len() == 0 {
        s
    } else if s.last() == c {
        replace_char(s.drop_last(), c, r) + r
    } else {
        replace_char(s.drop_last(), c, r).push(s.last())
    }
}

/// Appends `text` to `s` with every `c` replaced by `r`.
fn push_replaced(s: &mut String, text: &str, c: char, r: &str)
    ensures
        final(s)@ == old(s)@ + replace_char(text@, c, r@),
{
    let cs = chars_of(text);
    let mut i: usize = 0;
    while i < cs.len()
        invariant
            i <= cs@.len(),
            cs@ == text@,
            s@ == old(s)@ + replace_char(cs@.take(i as int), c, r@),
        decreases cs@.len() - i,
    {
        assert(cs@.take(i + 1).drop_last() =~= cs@.take(i as int));
        if cs[i] == c {
            s.append(r);
        } else {
            push_char(s, cs[i]);
        }
        assert(s@ =~= old(s)@ + replace_char(cs@.take(i + 1), c, r@));
        i = i + 1;
    }
    assert(cs@.take(i as int) =~= text@);
}

/// One word quoted for a POSIX shell: in single quotes, each embedded single
/// quote closed, escaped and reopened.
pub open spec fn shell_quoted(w: Seq<char>) -> Seq<char> {
    seq!['\''] + replace_char(w, '\'', "'\\''"@) + seq!['\'']
}

/// The words shell-quoted and separated by single spaces.
pub open spec fn shell_words(ws: Seq<Seq<char>>) -> Seq<char>
    decreases ws.len(),
{
    if ws.len() == 0 {
        seq![]
    } else if ws.len() == 1 {
        shell_quoted(ws[0])
    } else {
        shell_words(ws.drop_last()) + seq![' '] + shell_quoted(ws.last())
    }
}

/// Quotes `w` for a POSIX shell.
pub fn shell_quote(w: &str) -> (r: String)
    ensures
        r@ == shell_quoted(w@),
{
    let mut s = String::new();
    push_char(&mut s, '\'');
    push_replaced(&mut s, w, '\'', "'\\''");
    push_char(&mut s, '\'');
    assert(s@ =~= shell_quoted(w@));
    s
}

/// The AppleScript that runs `program args...` as administrator, detached
/// into the background with its output discarded: the shell command, with
/// backslashes and double quotes escaped for the AppleScript string.
pub open spec fn osascript_source(words: Seq<Seq<char>>) -> Seq<char> {
    let script = shell_words(words) + " &> /dev/null &"@;
    "do shell script \""@ + replace_char(replace_char(script, '\\', "\\\\"@), '"', "\\\""@)
        + "\" with administrator privileges"@
}

/// The argv that launches `program args...` with administrator privileges
/// on macOS: `osascript -e <script>`. The engine daemonises itself onto the
/// socket, so osascript's inability to stream a child's output does not
/// matter.
pub fn osascript_argv(program: &str, args: &[String]) -> (r: Vec<String>)
    ensures
        r@.len() == 3,
        r@[0]@ == "osascript"@,
        r@[1]@ == "-e"@,
        r@[2]@ == osascript_source(seq![program@] + texts(args@)),
{
    let ghost words = seq![program@] + texts(args@);
    let mut script = shell_quote(program);
    let mut i: usize = 0;
    assert(words.take(1) =~= seq![program@]);
    while i < args.len()
        invariant
            i <= args@.len(),
            words == seq![program@] + texts(args@),
            script@ == shell_words(words.take(i + 1)),
        decreases args@.len() - i,
    {
        assert(words.take(i + 2).drop_last() =~= words.take(i + 1));
        assert(words.take(i + 2).last() == args@[i as int]@);
        push_char(&mut script, ' ');
        script.append(shell_quote(args[i].as_str()).as_str());
        assert(script@ =~= shell_words(words.take(i + 2)));
        i = i + 1;
    }
    assert(words.take(i + 1) =~= words);
    script.append(" &> /dev/null &");
    let mut slashed = String::new();
    push_replaced(&mut slashed, script.as_str(), '\\', "\\\\");
    let mut cmd = String::from_str("do shell script \"");
    push_replaced(&mut cmd, slashed.as_str(), '"', "\\\"");
    cmd.append("\" with administrator privileges");
    assert(cmd@ =~= osascript_source(words));
    let mut r: Vec<String> = Vec::new();
    r.push(String::from_str("osascript"));
    r.push(String::from_str("-e"));
    r.push(cmd);
    r
}

/// The argv that runs `program args...` with administrator rights on
/// Linux: directly when already root; through `sudo -n` when a NOPASSWD
/// rule covers the program; else through `pkexec`, which prompts; and
/// nothing at all when there is no `pkexec` either.
pub open spec fn linux_argv(
    is_root: bool,
    passwordless: bool,
    has_pkexec: bool,
    program: Seq<char>,
    args: Seq<Seq<char>>,
) -> Seq<Seq<char>> {
    if is_root {
        seq![program] + args
    } else if passwordless {
        seq!["sudo"@, "-n"@, program] + args
    } else if has_pkexec {
        seq!["pkexec"@, program] + args
    } else {
        seq![]
    }
}

/// Chooses how to raise the engine on Linux, given what the system offers.
pub fn linux_elevated_argv(
    is_root: bool,
    passwordless: bool,
    has_pkexec: bool,
    program: &str,
    args: &[String],
) -> (r: Vec<String>)
    ensures
        texts(r@) == linux_argv(is_root, passwordless, has_pkexec, program@, texts(args@)),
{
    let mut r: Vec<String> = Vec::new();
    if !is_root && !passwordless && !has_pkexec {
        assert(texts(r@) =~= Seq::<Seq<char>>::empty());
        return r;
    }
    if !is_root {
        if passwordless {
            r.push(String::from_str("sudo"));
            r.push(String::from_str("-n"));
        } else {
            r.push(String::from_str("pkexec"));
        }
    }
    r.push(String::from_str(program));
    let ghost head = texts(r@);
    let mut i: usize = 0;
    while i < args.len()
        invariant
            i <= args@.len(),
            texts(r@) == head + texts(args@).take(i as int),
        decreases args@.len() - i,
    {
        let ghost r0 = r@;
        r.push(args[i].clone());
        assert(texts(r@) =~= texts(r0).push(args@[i as int]@));
        assert(texts(r@) =~= head + texts(args@).take(i + 1));
        i = i + 1;
    }
    assert(texts(args@).take(i as int) =~= texts(args@));
    assert(texts(r@) =~= linux_argv(is_root, passwordless, has_pkexec, program@, texts(args@)));
    r
}

} // verus!
