//! The producer side of one stream: the sequencer, the replay backlog and the
//! exit cell, kept together so that every frame gets the next sequence number
//! and enters the backlog before anyone can receive it.
use vstd::prelude::*;
use crate::backlog::{last_n, models, Backlog, BACKLOG_CAP};
use crate::frame::{exit_prefix, is_exit, FrameKind, FrameModel, StreamFrame};
use crate::text::{push_char, push_chars, push_signed_decimal, signed_decimal};

verus! {

/// The text of the terminal event for an exit code: `exit:Some(N)` or
/// `exit:None`.
pub open spec fn exit_text(code: Option<i32>) -> Seq<char> {
    match code {
        Some(n) => exit_prefix() + seq!['S', 'o', 'm', 'e', '('] + signed_decimal(n as int) + seq![')'],
        None => exit_prefix() + seq!['N', 'o', 'n', 'e'],
    }
}

/// Builds the terminal event text for an exit code.
pub fn exit_message(code: Option<i32>) -> (r: String)
    ensures
        r@ == exit_text(code),
{
    let mut out = String::new();
    push_chars(&mut out, &vec!['e', 'x', 'i', 't', ':']);
    match code {
        Some(n) => {
            push_chars(&mut out, &vec!['S', 'o', 'm', 'e', '(']);
            push_signed_decimal(&mut out, n);
            push_char(&mut out, ')');
        },
        None => {
            push_chars(&mut out, &vec!['N', 'o', 'n', 'e']);
        },
    }
    assert(out@ =~= exit_text(code));
    out
}

/// Sequence numbers of a history are dense and start at 1.
pub open spec fn dense(h: Seq<FrameModel>) -> bool {
    forall|i: int| 0 <= i < h.len() ==> #[trigger] h[i].seq == i + 1
}

/// No frame but the last of a history is a terminal event.
pub open spec fn exit_only_last(h: Seq<FrameModel>) -> bool {
    forall|i: int| 0 <= i < h.len() - 1 ==> !is_exit(#[trigger] h[i])
}

/// Everything produced on one stream so far.
pub struct StreamLog {
    pub latest: u64,
    pub backlog: Backlog,
    pub exit_code: Option<i32>,
    pub ended: bool,
    pub history: Ghost<Seq<FrameModel>>,
}

impl StreamLog {
    /// Every frame produced on the stream, in order of production.
    pub open spec fn history_spec(&self) -> Seq<FrameModel> {
        self.history@
    }

    /// The stream's invariant.
    pub open spec fn wf(&self) -> bool {
        let h = self.history@;
        &&& self.backlog.wf()
        &&& self.latest == h.len()
        &&& dense(h)
        &&& self.backlog@ == last_n(h, self.backlog.capacity_spec())
        &&& exit_only_last(h)
        &&& self.ended == (h.len() > 0 && is_exit(h.last()))
    }

    /// A stream with nothing produced yet, keeping `cap` frames for replay.
    pub fn with_capacity(cap: usize) -> (r: StreamLog)
        requires
            cap > 0,
        ensures
            r.wf(),
            r.history_spec() == Seq::<FrameModel>::empty(),
            r.backlog.capacity_spec() == cap,
            r.exit_code is None,
    {
        StreamLog {
            latest: 0,
            backlog: Backlog::new(cap),
            exit_code: None,
            ended: false,
            history: Ghost(Seq::empty()),
        }
    }

    /// A stream with nothing produced yet and the standard backlog size.
    pub fn new() -> (r: StreamLog)
        ensures
            r.wf(),
            r.history_spec() == Seq::<FrameModel>::empty(),
            r.backlog.capacity_spec() == BACKLOG_CAP,
            r.exit_code is None,
    {
        StreamLog::with_capacity(BACKLOG_CAP)
    }

    /// Sequence number of the most recent frame (0 before the first).
    pub fn latest_seq(&self) -> (r: u64)
        requires
            self.wf(),
        ensures
            r == self.history_spec().len(),
    {
        self.latest
    }

    /// Whether the terminal event has been produced.
    pub fn has_ended(&self) -> (r: bool)
        requires
            self.wf(),
        ensures
            r == (self.history_spec().len() > 0 && is_exit(self.history_spec().last())),
    {
        self.ended
    }

    /// The recorded exit code, if the process has reported one.
    pub fn exit_code(&self) -> (r: Option<i32>)
        ensures
            r == self.exit_code,
    {
        self.exit_code
    }

    /// A copy of the replay backlog, oldest first.
    pub fn snapshot(&self) -> (r: Vec<StreamFrame>)
        requires
            self.wf(),
        ensures
            models(r@) == last_n(self.history_spec(), self.backlog.capacity_spec()),
    {
        self.backlog.snapshot()
    }

    /// Produces the next frame of the stream: it takes the next sequence
    /// number and enters the backlog. Nothing is produced once the terminal
    /// event is out, nor when the sequence numbers are used up.
    pub fn push(&mut self, t: FrameKind, d: String) -> (r: Option<StreamFrame>)
        requires
            old(self).wf(),
        ensures
            final(self).wf(),
            final(self).backlog.capacity_spec() == old(self).backlog.capacity_spec(),
            final(self).exit_code == old(self).exit_code,
            r is None <==> (old(self).ended || old(self).latest == u64::MAX),
            match r {
                Some(f) => {
                    &&& f@ == (FrameModel { t, seq: (old(self).latest + 1) as u64, d: d@ })
                    &&& final(self).history_spec() == old(self).history_spec().push(f@)
                },
                None => final(self).history_spec() == old(self).history_spec(),
            },
    {
        if self.ended || self.latest == u64::MAX {
            return None;
        }
        let seq = self.latest + 1;
        let f = StreamFrame::new(t, seq, d);
        let exit = f.is_exit();
        let ghost h0 = self.history@;
        self.backlog.push(f.clone());
        self.latest = seq;
        self.ended = exit;
        self.history = Ghost(h0.push(f@));
        proof {
            let h = self.history@;
            crate::backlog::lemma_last_n_push(h0, f@, self.backlog.capacity_spec());
            assert(h.last() == f@);
            assert forall|i: int| 0 <= i < h.len() implies #[trigger] h[i].seq == i + 1 by {
                if i < h0.len() {
                    assert(h[i] == h0[i]);
                }
            }
            assert forall|i: int| 0 <= i < h.len() - 1 implies !is_exit(#[trigger] h[i]) by {
                assert(h[i] == h0[i]);
                if i == h0.len() - 1 {
                    assert(h0.last() == h0[i]);
                }
            }
        }
        Some(f)
    }

    /// Records the exit code and produces the terminal event
    /// `exit:Some(N)` / `exit:None`.
    pub fn finish(&mut self, code: Option<i32>) -> (r: Option<StreamFrame>)
        requires
            old(self).wf(),
        ensures
            final(self).wf(),
            final(self).backlog.capacity_spec() == old(self).backlog.capacity_spec(),
            r is None <==> (old(self).ended || old(self).latest == u64::MAX),
            match r {
                Some(f) => {
                    &&& f@ == (FrameModel {
                        t: FrameKind::Event,
                        seq: (old(self).latest + 1) as u64,
                        d: exit_text(code),
                    })
                    &&& final(self).history_spec() == old(self).history_spec().push(f@)
                    &&& final(self).exit_code == code
                    &&& final(self).ended
                },
                None => {
                    &&& final(self).history_spec() == old(self).history_spec()
                    &&& final(self).exit_code == old(self).exit_code
                },
            },
    {
        let msg = exit_message(code);
        let r = self.push(FrameKind::Event, msg);
        if r.is_some() {
            self.exit_code = code;
            proof {
                let d = exit_text(code);
                assert(d.take(5) =~= exit_prefix());
            }
        }
        r
    }
}

/// Within a stream, a frame produced earlier has a smaller sequence number
/// than any frame produced later.
pub proof fn lemma_seq_strictly_increasing(log: &StreamLog, i: int, j: int)
    requires
        log.wf(),
        0 <= i < j < log.history_spec().len(),
    ensures
        log.history_spec()[i].seq < log.history_spec()[j].seq,
{
    let h = log.history_spec();
    assert(h[i].seq == i + 1);
    assert(h[j].seq == j + 1);
}

/// A stream holds at most one terminal event, and when it holds one, that
/// event is its last frame.
pub proof fn lemma_single_final_exit(log: &StreamLog, i: int)
    requires
        log.wf(),
        0 <= i < log.history_spec().len(),
        is_exit(log.history_spec()[i]),
    ensures
        i == log.history_spec().len() - 1,
        forall|j: int|
            0 <= j < log.history_spec().len() && is_exit(#[trigger] log.history_spec()[j]) ==> j == i,
{
}

/// Once the terminal event is out, no call produces a further frame.
pub proof fn lemma_nothing_after_exit(log: &StreamLog)
    requires
        log.wf(),
        log.history_spec().len() > 0,
        is_exit(log.history_spec().last()),
    ensures
        log.ended,
{
}

} // verus!
