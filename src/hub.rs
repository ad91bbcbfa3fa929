//! The producer of one stream: its log, and the broadcast channel that
//! delivers each frame to the live subscribers once it is in the backlog.
use vstd::prelude::*;
use tokio::sync::broadcast::{Receiver, Sender};
use crate::backlog::{last_n, models, BACKLOG_CAP};
use crate::frame::{FrameKind, FrameModel, StreamFrame};
use crate::stream::{exit_text, StreamLog};

verus! {

#[verifier::external_type_specification]
#[verifier::external_body]
#[verifier::reject_recursive_types(T)]
pub struct ExSender<T>(Sender<T>);

#[verifier::external_type_specification]
#[verifier::external_body]
#[verifier::reject_recursive_types(T)]
pub struct ExReceiver<T>(Receiver<T>);

/// Relies on `tokio::sync::broadcast::channel`, which keeps up to
/// `capacity` frames in flight per subscriber and panics when `capacity` is
/// zero or above `usize::MAX / 2`. The first receiver is dropped at once.
#[verifier::external_body]
fn hub_channel(capacity: usize) -> (r: Sender<StreamFrame>)
    requires
        0 < capacity <= usize::MAX / 2,
{
    tokio::sync::broadcast::channel(capacity).0
}

/// Relies on `tokio::sync::broadcast::Sender::send`, which never blocks; it
/// fails only when there is no subscriber, and then the frame is dropped.
#[verifier::external_body]
fn hub_send(tx: &Sender<StreamFrame>, f: StreamFrame) {
    let _ = tx.send(f);
}

/// Relies on `tokio::sync::broadcast::Sender::subscribe`: a receiver of the
/// frames sent after this call. It panics only once `usize::MAX >> 2`
/// receivers are alive at the same time.
#[verifier::external_body]
fn hub_subscribe(tx: &Sender<StreamFrame>) -> (r: Receiver<StreamFrame>) {
    tx.subscribe()
}

/// One stream's producer side: frames are sequenced, committed to the
/// backlog, and only then broadcast.
pub struct Producer {
    pub log: StreamLog,
    pub tx: Sender<StreamFrame>,
}

impl Producer {
    /// The producer's invariant: that of its log.
    pub open spec fn wf(&self) -> bool {
        self.log.wf()
    }

    /// Every frame produced so far.
    pub open spec fn history(&self) -> Seq<FrameModel> {
        self.log.history_spec()
    }

    /// A producer with nothing produced and the standard backlog and channel
    /// sizes.
    pub fn new() -> (r: Producer)
        ensures
            r.wf(),
            r.history() == Seq::<FrameModel>::empty(),
            r.log.backlog.capacity_spec() == BACKLOG_CAP,
            r.log.exit_code is None,
    {
        Producer { log: StreamLog::new(), tx: hub_channel(BACKLOG_CAP) }
    }

    /// Produces a frame: next sequence number, into the backlog, then to the
    /// live subscribers. Returns its sequence number, or `None` when the
    /// stream has ended.
    pub fn publish(&mut self, t: FrameKind, d: String) -> (r: Option<u64>)
        requires
            old(self).wf(),
        ensures
            final(self).wf(),
            final(self).log.backlog.capacity_spec() == old(self).log.backlog.capacity_spec(),
            final(self).log.exit_code == old(self).log.exit_code,
            r is None <==> (old(self).log.ended || old(self).log.latest == u64::MAX),
            match r {
                Some(seq) => {
                    &&& seq == old(self).log.latest + 1
                    &&& final(self).history() == old(self).history().push(
                        FrameModel { t, seq, d: d@ },
                    )
                },
                None => final(self).history() == old(self).history(),
            },
    {
        match self.log.push(t, d) {
            Some(f) => {
                let seq = f.seq;
                hub_send(&self.tx, f);
                Some(seq)
            },
            None => None,
        }
    }

    /// Records the exit code and produces the terminal event.
    pub fn finish(&mut self, code: Option<i32>) -> (r: Option<u64>)
        requires
            old(self).wf(),
        ensures
            final(self).wf(),
            final(self).log.backlog.capacity_spec() == old(self).log.backlog.capacity_spec(),
            r is None <==> (old(self).log.ended || old(self).log.latest == u64::MAX),
            match r {
                Some(seq) => {
                    &&& seq == old(self).log.latest + 1
                    &&& final(self).history() == old(self).history().push(
                        FrameModel { t: FrameKind::Event, seq, d: exit_text(code) },
                    )
                    &&& final(self).log.exit_code == code
                    &&& final(self).log.ended
                },
                None => {
                    &&& final(self).history() == old(self).history()
                    &&& final(self).log.exit_code == old(self).log.exit_code
                },
            },
    {
        match self.log.finish(code) {
            Some(f) => {
                let seq = f.seq;
                hub_send(&self.tx, f);
                Some(seq)
            },
            None => None,
        }
    }

    /// Attaches a subscriber: a copy of the backlog, taken first, and a
    /// receiver of every frame broadcast after it.
    pub fn subscribe(&self) -> (r: (Vec<StreamFrame>, Receiver<StreamFrame>))
        requires
            self.wf(),
        ensures
            models(r.0@) == last_n(self.history(), self.log.backlog.capacity_spec()),
    {
        let snapshot = self.log.snapshot();
        let rx = hub_subscribe(&self.tx);
        (snapshot, rx)
    }

    /// Sequence number of the most recent frame (0 before the first).
    pub fn latest_seq(&self) -> (r: u64)
        requires
            self.wf(),
        ensures
            r == self.history().len(),
    {
        self.log.latest_seq()
    }

    /// The recorded exit code, if the process has reported one.
    pub fn exit_code(&self) -> (r: Option<i32>)
        ensures
            r == self.log.exit_code,
    {
        self.log.exit_code()
    }
}

} // verus!
