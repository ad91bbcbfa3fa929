//! The decisions of the tasks that feed a stream: the stdout and stderr line
//! readers and the waiter of a job, the reader and the write loop of a PTY
//! session. The tasks do the I/O and hand each outcome to these functions.
use vstd::prelude::*;
use crate::frame::{FrameKind, FrameModel};
use crate::hub::Producer;
use crate::stream::exit_text;

verus! {

/// What lossy UTF-8 decoding makes of a byte sequence.
pub uninterp spec fn utf8_lossy(b: Seq<u8>) -> Seq<char>;

/// Relies on `String::from_utf8_lossy`: the text of the bytes, each invalid
/// sequence replaced by U+FFFD; it depends on the bytes alone.
#[verifier::external_body]
fn decode_lossy(b: &[u8]) -> (r: String)
    ensures
        r@ == utf8_lossy(b@),
{
    String::from_utf8_lossy(b).into_owned()
}

/// Decodes raw output bytes to text, invalid sequences replaced.
pub fn decode_output(b: &Vec<u8>) -> (r: String)
    ensures
        r@ == utf8_lossy(b@),
{
    decode_lossy(b.as_slice())
}

/// Which pipe of a job a reader drains.
#[derive(Debug, Clone, Copy, PartialEq, Eq, Structural)]
pub enum Pipe {
    Stdout,
    Stderr,
}

impl Pipe {
    /// The frame kind of the pipe's output.
    pub open spec fn kind_spec(self) -> FrameKind {
        match self {
            Pipe::Stdout => FrameKind::Stdout,
            Pipe::Stderr => FrameKind::Stderr,
        }
    }

    /// The text of the event for a read error on this pipe.
    pub open spec fn error_text(self, msg: Seq<char>) -> Seq<char> {
        match self {
            Pipe::Stdout => "stdout-reader-error:"@ + msg,
            Pipe::Stderr => "stderr-reader-error:"@ + msg,
        }
    }
}

/// What one read of a job's pipe gave.
pub enum PipeRead {
    /// A line, its newline included.
    Line(Vec<u8>),
    /// End of file, after the bytes of a last line without newline (maybe
    /// none).
    Eof(Vec<u8>),
    /// A read error, with its message.
    Failed(String),
}

/// What one read of a PTY master gave.
pub enum PtyRead {
    /// A chunk of output.
    Data(Vec<u8>),
    /// End of file: the shell is gone.
    Eof,
    /// Nothing to read yet.
    WouldBlock,
    /// A read error, with its message.
    Failed(String),
}

/// The text of the event that reports a PTY read error.
pub open spec fn pty_error_text(msg: Seq<char>) -> Seq<char> {
    "pty-reader-error:"@ + msg
}

/// The event that opens a job's stream, `stream-start`.
pub open spec fn stream_start() -> Seq<char> {
    "stream-start"@
}

impl Producer {
    /// Opens a job's stream with the `stream-start` event.
    pub fn start_job(&mut self) -> (r: Option<u64>)
        requires
            old(self).wf(),
            old(self).history().len() == 0,
        ensures
            final(self).wf(),
            final(self).log.backlog.capacity_spec() == old(self).log.backlog.capacity_spec(),
            final(self).log.exit_code == old(self).log.exit_code,
            r == Some(1u64),
            final(self).history() == seq![
                FrameModel { t: FrameKind::Event, seq: 1, d: stream_start() },
            ],
    {
        let r = self.publish(FrameKind::Event, String::from_str("stream-start"));
        assert(final(self).history() =~= seq![
            FrameModel { t: FrameKind::Event, seq: 1, d: stream_start() },
        ]);
        r
    }

    /// Handles one read of a job's pipe. A line becomes a frame of the pipe's
    /// kind; at end of file a last partial line still becomes one; a read
    /// error becomes an event `stdout-reader-error:<msg>` (or `stderr-...`).
    /// Returns whether the reader goes on reading.
    pub fn on_pipe_read(&mut self, pipe: Pipe, ev: PipeRead) -> (r: bool)
        requires
            old(self).wf(),
            !old(self).log.ended,
            old(self).log.latest < u64::MAX,
        ensures
            final(self).wf(),
            final(self).log.backlog.capacity_spec() == old(self).log.backlog.capacity_spec(),
            final(self).log.exit_code == old(self).log.exit_code,
            match ev {
                PipeRead::Line(b) => {
                    &&& r
                    &&& final(self).history() == old(self).history().push(FrameModel {
                        t: pipe.kind_spec(),
                        seq: (old(self).log.latest + 1) as u64,
                        d: utf8_lossy(b@),
                    })
                },
                PipeRead::Eof(b) => {
                    &&& !r
                    &&& final(self).history() == if b@.len() == 0 {
                        old(self).history()
                    } else {
                        old(self).history().push(FrameModel {
                            t: pipe.kind_spec(),
                            seq: (old(self).log.latest + 1) as u64,
                            d: utf8_lossy(b@),
                        })
                    }
                },
                PipeRead::Failed(m) => {
                    &&& !r
                    &&& final(self).history() == old(self).history().push(FrameModel {
                        t: FrameKind::Event,
                        seq: (old(self).log.latest + 1) as u64,
                        d: pipe.error_text(m@),
                    })
                },
            },
    {
        let kind = match pipe {
            Pipe::Stdout => FrameKind::Stdout,
            Pipe::Stderr => FrameKind::Stderr,
        };
        match ev {
            PipeRead::Line(b) => {
                let _ = self.publish(kind, decode_output(&b));
                true
            },
            PipeRead::Eof(b) => {
                if b.len() > 0 {
                    let _ = self.publish(kind, decode_output(&b));
                }
                false
            },
            PipeRead::Failed(m) => {
                let mut d = match pipe {
                    Pipe::Stdout => String::from_str("stdout-reader-error:"),
                    Pipe::Stderr => String::from_str("stderr-reader-error:"),
                };
                d.append(m.as_str());
                let _ = self.publish(FrameKind::Event, d);
                false
            },
        }
    }

    /// Records a failure to wait for a job's process as the event
    /// `wait-error:<msg>`.
    pub fn on_wait_error(&mut self, msg: &str) -> (r: Option<u64>)
        requires
            old(self).wf(),
        ensures
            final(self).wf(),
            final(self).log.backlog.capacity_spec() == old(self).log.backlog.capacity_spec(),
            final(self).log.exit_code == old(self).log.exit_code,
            r is None <==> (old(self).log.ended || old(self).log.latest == u64::MAX),
            r is Some ==> final(self).history() == old(self).history().push(FrameModel {
                t: FrameKind::Event,
                seq: (old(self).log.latest + 1) as u64,
                d: "wait-error:"@ + msg@,
            }),
            r is None ==> final(self).history() == old(self).history(),
    {
        let mut d = String::from_str("wait-error:");
        d.append(msg);
        self.publish(FrameKind::Event, d)
    }

    /// Handles one read of a PTY master. A chunk becomes a `stdout` frame,
    /// not split into lines; end of file ends the session with the event
    /// `exit:None`; a read error is first reported by the event
    /// `pty-reader-error:<msg>`, then ends the session the same way. Returns
    /// whether the reader goes on.
    pub fn on_pty_read(&mut self, ev: PtyRead) -> (r: bool)
        requires
            old(self).wf(),
            !old(self).log.ended,
            old(self).log.latest < u64::MAX - 1,
        ensures
            final(self).wf(),
            final(self).log.backlog.capacity_spec() == old(self).log.backlog.capacity_spec(),
            match ev {
                PtyRead::Data(b) => {
                    &&& r
                    &&& final(self).log.exit_code == old(self).log.exit_code
                    &&& final(self).history() == old(self).history().push(FrameModel {
                        t: FrameKind::Stdout,
                        seq: (old(self).log.latest + 1) as u64,
                        d: utf8_lossy(b@),
                    })
                },
                PtyRead::WouldBlock => {
                    &&& r
                    &&& final(self).history() == old(self).history()
                    &&& final(self).log.exit_code == old(self).log.exit_code
                },
                PtyRead::Eof => {
                    &&& !r
                    &&& final(self).log.ended
                    &&& final(self).log.exit_code is None
                    &&& final(self).history() == old(self).history().push(FrameModel {
                        t: FrameKind::Event,
                        seq: (old(self).log.latest + 1) as u64,
                        d: exit_text(None),
                    })
                },
                PtyRead::Failed(m) => {
                    &&& !r
                    &&& final(self).log.ended
                    &&& final(self).log.exit_code is None
                    &&& final(self).history() == old(self).history().push(FrameModel {
                        t: FrameKind::Event,
                        seq: (old(self).log.latest + 1) as u64,
                        d: pty_error_text(m@),
                    }).push(FrameModel {
                        t: FrameKind::Event,
                        seq: (old(self).log.latest + 2) as u64,
                        d: exit_text(None),
                    })
                },
            },
    {
        match ev {
            PtyRead::Data(b) => {
                let _ = self.publish(FrameKind::Stdout, decode_output(&b));
                true
            },
            PtyRead::WouldBlock => true,
            PtyRead::Eof => {
                let _ = self.finish(None);
                false
            },
            PtyRead::Failed(m) => {
                let mut d = String::from_str("pty-reader-error:");
                d.append(m.as_str());
                let _ = self.publish(FrameKind::Event, d);
                proof {
                    reveal_strlit("pty-reader-error:");
                    assert(!crate::frame::is_exit(self.history().last())) by {
                        let d = pty_error_text(m@);
                        assert(d[0] == 'p');
                        assert(d.take(5)[0] == d[0]);
                    }
                }
                let _ = self.finish(None);
                false
            },
        }
    }
}

/// What one write attempt on a PTY master gave.
pub enum WriteOutcome {
    /// This many bytes were taken.
    Wrote(usize),
    /// The descriptor is not writable yet.
    WouldBlock,
    /// A write error.
    Failed,
}

/// What the write loop does next.
pub enum WriteStep {
    /// Write again from this offset.
    Continue(usize),
    /// Stop: everything is written, or the descriptor took nothing.
    Done,
    /// Stop with an I/O error.
    Fail,
}

/// One turn of the PTY write loop over `total` bytes, at offset `off`: a
/// write of `n > 0` bytes advances the offset, a write of 0 bytes or the end
/// of the payload stops, a busy descriptor retries, an error fails.
pub fn write_step(off: usize, total: usize, outcome: WriteOutcome) -> (r: WriteStep)
    requires
        off <= total,
    ensures
        match outcome {
            WriteOutcome::Wrote(n) => if n == 0 || n >= total - off {
                r is Done
            } else {
                r matches WriteStep::Continue(o) && o == off + n
            },
            WriteOutcome::WouldBlock => if off == total {
                r is Done
            } else {
                r matches WriteStep::Continue(o) && o == off
            },
            WriteOutcome::Failed => r is Fail,
        },
{
    match outcome {
        WriteOutcome::Wrote(n) => {
            if n == 0 || n >= total - off {
                WriteStep::Done
            } else {
                WriteStep::Continue(off + n)
            }
        },
        WriteOutcome::WouldBlock => {
            if off == total {
                WriteStep::Done
            } else {
                WriteStep::Continue(off)
            }
        },
        WriteOutcome::Failed => WriteStep::Fail,
    }
}

/// The single byte that closes a PTY session: end of transmission, which
/// the shell reads as end of input.
pub const CLOSE_BYTE: u8 = 4;

/// Whether `c` is a lowercase hexadecimal digit.
pub open spec fn is_lower_hex(c: char) -> bool {
    ('0' <= c && c <= '9') || ('a' <= c && c <= 'f')
}

/// The text form of a version 4 UUID: 36 characters, lowercase hex digits
/// in groups of 8, 4, 4, 4 and 12 joined by `-`, the version digit `4`, and
/// the variant digit one of `8`, `9`, `a`, `b`.
pub open spec fn is_uuid_v4_text(s: Seq<char>) -> bool {
    &&& s.len() == 36
    &&& forall|i: int|
        0 <= i < 36 ==> if i == 8 || i == 13 || i == 18 || i == 23 {
            #[trigger] s[i] == '-'
        } else {
            is_lower_hex(s[i])
        }
    &&& s[14] == '4'
    &&& (s[19] == '8' || s[19] == '9' || s[19] == 'a' || s[19] == 'b')
}

/// Relies on `uuid::Uuid::new_v4`, which fixes the version and variant bits
/// of a random 128-bit value, and on its `Display`, the lowercase hyphenated
/// form.
#[verifier::external_body]
fn random_uuid_text() -> (r: String)
    ensures
        is_uuid_v4_text(r@),
{
    uuid::Uuid::new_v4().to_string()
}

/// The id `<prefix>_<uuid>` of a job (prefix `j`) or a session (prefix `s`).
pub fn format_id(prefix: &str, uuid_text: &str) -> (r: String)
    ensures
        r@ == prefix@ + "_"@ + uuid_text@,
{
    let mut s = String::from_str(prefix);
    s.append("_");
    s.append(uuid_text);
    s
}

/// A fresh id `<prefix>_<random uuid v4>`.
pub fn new_id(prefix: &str) -> (r: String)
    ensures
        r@.len() == prefix@.len() + 37,
        r@.take(prefix@.len() as int + 1) == prefix@ + "_"@,
        is_uuid_v4_text(r@.skip(prefix@.len() as int + 1)),
{
    let u = random_uuid_text();
    let r = format_id(prefix, u.as_str());
    proof {
        reveal_strlit("_");
        assert(r@.take(prefix@.len() as int + 1) =~= prefix@ + "_"@);
        assert(r@.skip(prefix@.len() as int + 1) =~= u@);
    }
    r
}

} // verus!
