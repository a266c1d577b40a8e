//! The GUI's buffer of engine log lines.
//!
//! The engine can emit thousands of lines a second, so lines land here
//! rather than going to the frontend one by one. `history` is a bounded ring
//! for backfill when the Activity section opens; `pending` only fills while
//! the frontend is streaming, and a single ticker drains it on an interval.
//! The process wraps one of these in a lock; the methods here are the whole
//! of what happens under it.
use crate::text::texts;
use std::collections::VecDeque;
use vstd::prelude::*;

verus! {

broadcast use vstd::std_specs::vecdeque::group_vec_dequeue_axioms;

/// Lines retained for backfill, and the most a single flush may carry.
pub const MAX_LINES: usize = 500;

/// The last `MAX_LINES` lines of `s` (all of them if there are fewer).
pub open spec fn last_lines(s: Seq<Seq<char>>) -> Seq<Seq<char>> {
    if s.len() <= MAX_LINES {
        s
    } else {
        s.skip(s.len() - MAX_LINES)
    }
}

/// What `pending` becomes when `line` is pushed: it grows only while
/// streaming, and never past `MAX_LINES`.
pub open spec fn pending_after_push(
    pending: Seq<Seq<char>>,
    streaming: bool,
    line: Seq<char>,
) -> Seq<Seq<char>> {
    if streaming && pending.len() < MAX_LINES {
        pending.push(line)
    } else {
        pending
    }
}

pub struct LogBuffer {
    history: VecDeque<String>,
    pending: Vec<String>,
    streaming: bool,
}

impl LogBuffer {
    /// The retained lines, oldest first.
    pub closed spec fn history(&self) -> Seq<Seq<char>> {
        texts(self.history@)
    }

    /// The lines waiting for the next flush, oldest first.
    pub closed spec fn pending(&self) -> Seq<Seq<char>> {
        texts(self.pending@)
    }

    /// Whether the frontend is currently streaming.
    pub closed spec fn streaming(&self) -> bool {
        self.streaming
    }

    /// Both buffers are bounded, and nothing is pending unless streaming.
    #[verifier::type_invariant]
    pub open spec fn wf(&self) -> bool {
        &&& self.history().len() <= MAX_LINES
        &&& self.pending().len() <= MAX_LINES
        &&& !self.streaming() ==> self.pending().len() == 0
    }

    /// An empty buffer that is not streaming.
    pub fn new() -> (b: LogBuffer)
        ensures
            b.wf(),
            b.history() == Seq::<Seq<char>>::empty(),
            b.pending() == Seq::<Seq<char>>::empty(),
            !b.streaming(),
    {
        let b = LogBuffer {
            history: VecDeque::with_capacity(MAX_LINES),
            pending: Vec::new(),
            streaming: false,
        };
        assert(b.history() =~= Seq::<Seq<char>>::empty());
        assert(b.pending() =~= Seq::<Seq<char>>::empty());
        b
    }

    /// Records one line: always in the ring, evicting the oldest line when
    /// it is full, and in `pending` while streaming and not yet full.
    pub fn push(&mut self, line: String)
        ensures
            final(self).wf(),
            final(self).history() == last_lines(old(self).history().push(line@)),
            final(self).pending() == pending_after_push(
                old(self).pending(),
                old(self).streaming(),
                line@,
            ),
            final(self).streaming() == old(self).streaming(),
    {
        proof {
            use_type_invariant(&*self);
        }
        let mut pending: Vec<String> = Vec::new();
        std::mem::swap(&mut pending, &mut self.pending);
        let mut history: VecDeque<String> = VecDeque::new();
        std::mem::swap(&mut history, &mut self.history);
        let ghost h0 = history@;
        let ghost p0 = pending@;
        if self.streaming {
            if pending.len() < MAX_LINES {
                pending.push(line.clone());
                assert(texts(pending@) =~= texts(p0).push(line@));
            }
        }
        if history.len() == MAX_LINES {
            history.pop_front();
            assert(texts(h0.subrange(1, h0.len() as int)) =~= texts(h0).push(line@).skip(
                texts(h0).push(line@).len() - MAX_LINES,
            ).drop_last());
        }
        let ghost h1 = history@;
        history.push_back(line);
        assert(texts(history@) =~= texts(h1).push(line@));
        assert(texts(history@) =~= last_lines(texts(h0).push(line@)));
        self.pending = pending;
        self.history = history;
        proof {
            use_type_invariant(&*self);
        }
    }

    /// A copy of the retained lines, oldest first.
    pub fn snapshot(&self) -> (r: Vec<String>)
        ensures
            texts(r@) == self.history(),
    {
        let mut r: Vec<String> = Vec::new();
        let mut i: usize = 0;
        while i < self.history.len()
            invariant
                i <= self.history@.len(),
                texts(r@) == texts(self.history@).take(i as int),
            decreases self.history@.len() - i,
        {
            let line = self.history[i].clone();
            assert(line@ == self.history@[i as int]@);
            let ghost r0 = r@;
            assert(texts(r0).len() == r0.len());
            assert(r0.len() == i);
            assert(i < self.history@.len());
            r.push(line);
            assert(r@ == r0.push(line));
            assert forall|k: int| 0 <= k < i + 1 implies #[trigger] texts(r@)[k] == texts(
                self.history@,
            ).take(i + 1)[k] by {
                if k < i {
                    assert(texts(r0)[k] == texts(self.history@).take(i as int)[k]);
                }
            }
            assert(texts(r@) =~= texts(self.history@).take(i + 1));
            i = i + 1;
        }
        assert(texts(self.history@).take(i as int) =~= texts(self.history@));
        r
    }

    /// Turns streaming on or off; turning it off drops what was pending.
    pub fn set_streaming(&mut self, on: bool)
        ensures
            final(self).wf(),
            final(self).streaming() == on,
            final(self).history() == old(self).history(),
            final(self).pending() == if on {
                old(self).pending()
            } else {
                Seq::<Seq<char>>::empty()
            },
    {
        proof {
            use_type_invariant(&*self);
        }
        if !on {
            self.pending = Vec::new();
            assert(texts(self.pending@) =~= Seq::<Seq<char>>::empty());
        }
        self.streaming = on;
        proof {
            use_type_invariant(&*self);
        }
    }

    /// Hands out everything pending, oldest first, and leaves none.
    pub fn take_pending(&mut self) -> (r: Vec<String>)
        ensures
            final(self).wf(),
            texts(r@) == old(self).pending(),
            final(self).pending() == Seq::<Seq<char>>::empty(),
            final(self).history() == old(self).history(),
            final(self).streaming() == old(self).streaming(),
    {
        proof {
            use_type_invariant(&*self);
        }
        let mut r: Vec<String> = Vec::new();
        std::mem::swap(&mut r, &mut self.pending);
        assert(texts(self.pending@) =~= Seq::<Seq<char>>::empty());
        proof {
            use_type_invariant(&*self);
        }
        r
    }
}

/// The ring always holds the last `MAX_LINES` lines ever pushed: pushing a
/// line onto the last lines of a history gives the last lines of the whole
/// history with the line appended.
pub proof fn lemma_ring_keeps_the_newest(all: Seq<Seq<char>>, line: Seq<char>)
    ensures
        last_lines(last_lines(all).push(line)) == last_lines(all.push(line)),
{
    if all.len() > MAX_LINES {
        assert(last_lines(all).push(line).skip(1) =~= all.push(line).skip(
            all.push(line).len() - MAX_LINES,
        ));
    } else if all.len() == MAX_LINES {
    } else {
    }
}

/// Nothing accumulates for the frontend while it is not streaming: a push
/// on a buffer that is not streaming leaves `pending` empty.
pub proof fn lemma_no_pending_without_streaming(b: LogBuffer, line: Seq<char>)
    requires
        b.wf(),
        !b.streaming(),
    ensures
        pending_after_push(b.pending(), b.streaming(), line).len() == 0,
{
}

/// One call that changes a [`LogBuffer`].
pub enum LogOp {
    Push(Seq<char>),
    SetStreaming(bool),
    TakePending,
}

/// A buffer's contents: history, pending, and whether it is streaming.
pub type LogState = (Seq<Seq<char>>, Seq<Seq<char>>, bool);

/// The contents after one call, as that call's contract gives them.
pub open spec fn log_step(st: LogState, op: LogOp) -> LogState {
    match op {
        LogOp::Push(line) => (last_lines(st.0.push(line)), pending_after_push(st.1, st.2, line), st.2),
        LogOp::SetStreaming(on) => (st.0, if on {
            st.1
        } else {
            Seq::<Seq<char>>::empty()
        }, on),
        LogOp::TakePending => (st.0, Seq::<Seq<char>>::empty(), st.2),
    }
}

/// The contents after a sequence of calls on a new buffer.
pub open spec fn log_after(ops: Seq<LogOp>) -> LogState
    decreases ops.len(),
{
    if ops.len() == 0 {
        (Seq::<Seq<char>>::empty(), Seq::<Seq<char>>::empty(), false)
    } else {
        log_step(log_after(ops.drop_last()), ops.last())
    }
}

/// Every line pushed, in order.
pub open spec fn pushed(ops: Seq<LogOp>) -> Seq<Seq<char>>
    decreases ops.len(),
{
    if ops.len() == 0 {
        seq![]
    } else {
        match ops.last() {
            LogOp::Push(line) => pushed(ops.drop_last()).push(line),
            _ => pushed(ops.drop_last()),
        }
    }
}

/// Whether streaming is on after the calls.
pub open spec fn streaming_after(ops: Seq<LogOp>) -> bool
    decreases ops.len(),
{
    if ops.len() == 0 {
        false
    } else {
        match ops.last() {
            LogOp::SetStreaming(on) => on,
            _ => streaming_after(ops.drop_last()),
        }
    }
}

/// The lines pushed while streaming was on since streaming was last turned
/// off or pending was last taken, in order.
pub open spec fn streamed_since_flush(ops: Seq<LogOp>) -> Seq<Seq<char>>
    decreases ops.len(),
{
    if ops.len() == 0 {
        seq![]
    } else {
        let init = ops.drop_last();
        match ops.last() {
            LogOp::Push(line) => if streaming_after(init) {
                streamed_since_flush(init).push(line)
            } else {
                streamed_since_flush(init)
            },
            LogOp::SetStreaming(on) => if on {
                streamed_since_flush(init)
            } else {
                seq![]
            },
            LogOp::TakePending => seq![],
        }
    }
}

/// The first `MAX_LINES` lines of `s` (all of them if there are fewer).
pub open spec fn first_lines(s: Seq<Seq<char>>) -> Seq<Seq<char>> {
    if s.len() <= MAX_LINES {
        s
    } else {
        s.take(MAX_LINES as int)
    }
}

/// Law over whole call sequences: after any calls on a new buffer, the
/// history is the last `MAX_LINES` lines ever pushed, pending is the first
/// `MAX_LINES` lines pushed while streaming since the last time streaming
/// was turned off or pending was taken, and neither exceeds `MAX_LINES`.
pub proof fn lemma_log_buffer_over_any_calls(ops: Seq<LogOp>)
    ensures
        log_after(ops) == (
            last_lines(pushed(ops)),
            first_lines(streamed_since_flush(ops)),
            streaming_after(ops),
        ),
        log_after(ops).0.len() <= MAX_LINES,
        log_after(ops).1.len() <= MAX_LINES,
    decreases ops.len(),
{
    if ops.len() > 0 {
        let init = ops.drop_last();
        lemma_log_buffer_over_any_calls(init);
        let w = streamed_since_flush(init);
        match ops.last() {
            LogOp::Push(line) => {
                lemma_ring_keeps_the_newest(pushed(init), line);
                if streaming_after(init) {
                    if w.len() >= MAX_LINES {
                        assert(w.push(line).take(MAX_LINES as int) =~= w.take(MAX_LINES as int));
                    }
                }
            },
            _ => {},
        }
    } else {
        assert(first_lines(seq![]) =~= Seq::<Seq<char>>::empty());
    }
}

} // verus!
