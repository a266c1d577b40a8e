//! The command line an elevated engine is launched with on Windows, where
//! the only way to raise a child is `ShellExecuteExW` with the `runas` verb.
use crate::text::{chars_of, push_char, texts};
use vstd::prelude::*;

verus! {

/// `s` with every `"` escaped as `\"`.
pub open spec fn escape_quotes(s: Seq<char>) -> Seq<char>
    decreases s.len(),
{
    if s.len() == 0 {
        s
    } else if s.last() == '"' {
        escape_quotes(s.drop_last()) + seq!['\\', '"']
    } else {
        escape_quotes(s.drop_last()).push(s.last())
    }
}

/// One argument as the Windows command-line parser reads it back: in
/// double quotes, with embedded quotes escaped.
pub open spec fn quoted(a: Seq<char>) -> Seq<char> {
    seq!['"'] + escape_quotes(a) + seq!['"']
}

/// Every argument quoted, separated by single spaces.
pub open spec fn joined(args: Seq<Seq<char>>) -> Seq<char>
    decreases args.len(),
{
    if args.len() == 0 {
        seq![]
    } else if args.len() == 1 {
        quoted(args[0])
    } else {
        joined(args.drop_last()) + seq![' '] + quoted(args.last())
    }
}

fn push_quoted(s: &mut String, a: &str)
    ensures
        final(s)@ == old(s)@ + quoted(a@),
{
    let cs = chars_of(a);
    push_char(s, '"');
    let mut i: usize = 0;
    while i < cs.len()
        invariant
            i <= cs@.len(),
            cs@ == a@,
            s@ == old(s)@ + seq!['"'] + escape_quotes(cs@.take(i as int)),
        decreases cs@.len() - i,
    {
        let c = cs[i];
        assert(cs@.take(i + 1).drop_last() =~= cs@.take(i as int));
        if c == '"' {
            push_char(s, '\\');
            push_char(s, '"');
        } else {
            push_char(s, c);
        }
        assert(s@ =~= old(s)@ + seq!['"'] + escape_quotes(cs@.take(i + 1)));
        i = i + 1;
    }
    assert(cs@.take(i as int) =~= a@);
    push_char(s, '"');
    assert(s@ =~= old(s)@ + quoted(a@));
}

/// Quotes each argument for the Windows command-line parser. Quoting is not
/// optional: the engine path can contain spaces (`C:\Program Files\...`).
pub fn join_args(args: &[String]) -> (r: String)
    ensures
        r@ == joined(texts(args@)),
{
    let mut s = String::new();
    let mut i: usize = 0;
    while i < args.len()
        invariant
            i <= args@.len(),
            s@ == joined(texts(args@).take(i as int)),
        decreases args@.len() - i,
    {
        let ghost t = texts(args@);
        assert(t.take(i + 1).drop_last() =~= t.take(i as int));
        assert(t.take(i + 1).last() == args@[i as int]@);
        if i > 0 {
            push_char(&mut s, ' ');
        }
        push_quoted(&mut s, args[i].as_str());
        assert(s@ =~= joined(t.take(i + 1)));
        i = i + 1;
    }
    assert(texts(args@).take(i as int) =~= texts(args@));
    s
}

} // verus!
