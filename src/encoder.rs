//! The resumable stream encoder: a banner line, the replayed frames after the
//! client's cursor, then live frames until the channel closes or the terminal
//! event has been written.
use vstd::prelude::*;
use crate::backlog::{last_n, models};
use crate::frame::{is_exit, ndjson_line, FrameKind, FrameModel, StreamFrame};
use crate::stream::StreamLog;

verus! {

broadcast use vstd::seq_lib::group_to_multiset_ensures;

/// Whether a frame lies strictly after the cursor `from`.
pub open spec fn after(from: u64) -> spec_fn(StreamFrame) -> bool {
    |f: StreamFrame| f.seq > from
}

/// Sequence numbers never decrease along `s`.
pub open spec fn sorted_by_seq(s: Seq<StreamFrame>) -> bool {
    forall|i: int, j: int| 0 <= i < j < s.len() ==> s[i].seq <= s[j].seq
}

proof fn lemma_insert_multiset(s: Seq<StreamFrame>, j: int, x: StreamFrame)
    requires
        0 <= j <= s.len(),
    ensures
        s.insert(j, x).to_multiset() == s.to_multiset().insert(x),
{
    let t = s.insert(j, x);
    s.insert_ensures(j, x);
    assert(t.remove(j) =~= s);
    assert(t.remove(j).to_multiset() =~= t.to_multiset().remove(t[j]));
    assert(t.to_multiset().count(x) > 0) by {
        assert(t.contains(x)) by {
            assert(t[j] == x);
        }
    }
    assert(t.to_multiset() =~= t.to_multiset().remove(x).insert(x));
}

/// The frames of `snapshot` that lie after `from`, in ascending order of
/// sequence number. A snapshot that is already in order keeps its order.
#[verifier::rlimit(40)]
pub fn past_frames(snapshot: &Vec<StreamFrame>, from: u64) -> (r: Vec<StreamFrame>)
    ensures
        sorted_by_seq(r@),
        r@.to_multiset() == snapshot@.filter(after(from)).to_multiset(),
        sorted_by_seq(snapshot@) ==> r@ == snapshot@.filter(after(from)),
{
    let ghost s = snapshot@;
    let ghost p = after(from);
    let mut out: Vec<StreamFrame> = Vec::new();
    let mut i: usize = 0;
    assert(s.take(0).filter(p) =~= Seq::<StreamFrame>::empty()) by {
        reveal(Seq::filter);
    }
    while i < snapshot.len()
        invariant
            i <= s.len(),
            s == snapshot@,
            p == after(from),
            sorted_by_seq(out@),
            out@.to_multiset() == s.take(i as int).filter(p).to_multiset(),
            sorted_by_seq(s) ==> out@ == s.take(i as int).filter(p),
        decreases s.len() - i,
    {
        let x = snapshot[i].clone();
        proof {
            assert(s.take(i + 1) =~= s.take(i as int).push(x));
            s.take(i as int).lemma_filter_push(x, p);
        }
        if x.seq > from {
            let mut j: usize = out.len();
            while j > 0 && out[j - 1].seq > x.seq
                invariant
                    j <= out@.len(),
                    forall|k: int| j <= k < out@.len() ==> out@[k].seq > x.seq,
                decreases j,
            {
                j -= 1;
            }
            proof {
                if sorted_by_seq(s) && j < out@.len() {
                    let last = out@[out@.len() - 1];
                    assert(s.take(i as int).filter(p).contains(last)) by {
                        assert(out@[out@.len() - 1] == last);
                    }
                    s.take(i as int).lemma_filter_contains_rev(p, last);
                    let m = choose|m: int| 0 <= m < i && s.take(i as int)[m] == last;
                    assert(s[m] == last);
                    assert(s[m].seq <= s[i as int].seq);
                    assert(false);
                }
                lemma_insert_multiset(out@, j as int, x);
            }
            let ghost before = out@;
            out.insert(j, x);
            proof {
                before.insert_ensures(j as int, x);
                assert forall|a: int, b: int| 0 <= a < b < out@.len() implies out@[a].seq
                    <= out@[b].seq by {
                    if b < j {
                        assert(out@[a] == before[a] && out@[b] == before[b]);
                    } else if b == j {
                        assert(out@[a] == before[a]);
                        if j > 0 {
                            assert(before[a].seq <= before[j - 1].seq);
                        }
                    } else if a == j {
                        assert(out@[b] == before[b - 1]);
                    } else if a < j {
                        assert(out@[a] == before[a] && out@[b] == before[b - 1]);
                    } else {
                        assert(out@[a] == before[a - 1] && out@[b] == before[b - 1]);
                    }
                }
                if sorted_by_seq(s) {
                    assert(out@ =~= before.push(x));
                }
            }
        }
        i += 1;
    }
    assert(s.take(i as int) =~= s);
    out
}

/// `x` limited to the range from `lo` to `hi`.
pub open spec fn clamp(x: int, lo: int, hi: int) -> int {
    if x < lo {
        lo
    } else if x > hi {
        hi
    } else {
        x
    }
}

proof fn lemma_filter_dense(s: Seq<StreamFrame>, base: int, from: u64)
    requires
        base >= 0,
        forall|i: int| 0 <= i < s.len() ==> #[trigger] s[i].seq == base + i + 1,
    ensures
        models(s.filter(after(from))) == models(s).skip(clamp(from - base, 0, s.len() as int)),
    decreases s.len(),
{
    reveal(Seq::filter);
    if s.len() == 0 {
        assert(models(s.filter(after(from))) =~= models(s).skip(0));
    } else {
        let t = s.drop_last();
        let x = s.last();
        assert forall|i: int| 0 <= i < t.len() implies #[trigger] t[i].seq == base + i + 1 by {
            assert(t[i] == s[i]);
        }
        lemma_filter_dense(t, base, from);
        assert(s =~= t.push(x));
        t.lemma_filter_push(x, after(from));
        assert(models(s) =~= models(t).push(x@));
        let k = clamp(from - base, 0, s.len() as int);
        let k1 = clamp(from - base, 0, t.len() as int);
        if x.seq > from {
            assert(k == k1);
            assert(models(t.filter(after(from)).push(x)) =~= models(t.filter(after(from))).push(x@));
            assert(models(s).skip(k) =~= models(t).skip(k1).push(x@));
        } else {
            assert(k == s.len());
            assert(k1 == t.len());
            assert(models(s).skip(k) =~= Seq::<FrameModel>::empty());
            assert(models(t).skip(k1) =~= Seq::<FrameModel>::empty());
        }
    }
}

/// Where the replay of a stream starts for cursor `from`: after the cursor,
/// but never before the oldest frame the backlog still holds.
pub open spec fn replay_start(len: nat, cap: nat, from: u64) -> int {
    clamp(from as int, if len > cap { len - cap } else { 0 }, len as int)
}

/// A snapshot of a stream's backlog is in order, and the frames of it after
/// the cursor `from` are exactly the frames of the stream after `from`, each
/// once and in order, except those the bounded backlog has already dropped.
/// A cursor at or beyond the latest sequence number replays nothing.
pub proof fn lemma_replay_exact(log: &StreamLog, snapshot: Seq<StreamFrame>, from: u64)
    requires
        log.wf(),
        models(snapshot) == last_n(log.history_spec(), log.backlog.capacity_spec()),
    ensures
        sorted_by_seq(snapshot),
        models(snapshot.filter(after(from))) == log.history_spec().skip(
            replay_start(log.history_spec().len(), log.backlog.capacity_spec(), from),
        ),
        from >= log.history_spec().len() ==> snapshot.filter(after(from)).len() == 0,
{
    let h = log.history_spec();
    let cap = log.backlog.capacity_spec();
    let base: int = if h.len() > cap { h.len() - cap } else { 0 };
    assert(models(snapshot) =~= h.skip(base));
    assert forall|i: int| 0 <= i < snapshot.len() implies #[trigger] snapshot[i].seq == base + i + 1 by {
        assert(models(snapshot)[i] == snapshot[i]@);
        assert(h[base + i].seq == base + i + 1);
    }
    lemma_filter_dense(snapshot, base, from);
    assert(h.skip(base).skip(clamp(from - base, 0, snapshot.len() as int)) =~= h.skip(
        replay_start(h.len(), cap, from),
    ));
    if from >= h.len() {
        assert(models(snapshot.filter(after(from))).len() == 0);
    }
}

/// Opening the stream twice with the same cursor `from` replays the same
/// frames in the same order: the replay of an earlier state is a prefix of
/// the replay of any later state of the same stream, as long as the backlog
/// has not dropped a frame after the cursor in between.
pub proof fn lemma_replay_stable(
    early: &StreamLog,
    late: &StreamLog,
    snap_early: Seq<StreamFrame>,
    snap_late: Seq<StreamFrame>,
    from: u64,
)
    requires
        early.wf(),
        late.wf(),
        early.backlog.capacity_spec() == late.backlog.capacity_spec(),
        early.history_spec().len() <= late.history_spec().len(),
        late.history_spec().take(early.history_spec().len() as int) == early.history_spec(),
        models(snap_early) == last_n(early.history_spec(), early.backlog.capacity_spec()),
        models(snap_late) == last_n(late.history_spec(), late.backlog.capacity_spec()),
        from + late.backlog.capacity_spec() >= late.history_spec().len(),
    ensures
        models(snap_early.filter(after(from))) == models(snap_late.filter(after(from))).take(
            snap_early.filter(after(from)).len() as int,
        ),
{
    lemma_replay_exact(early, snap_early, from);
    lemma_replay_exact(late, snap_late, from);
    let h1 = early.history_spec();
    let h2 = late.history_spec();
    let cap = late.backlog.capacity_spec();
    let a = replay_start(h1.len(), cap, from);
    let b = replay_start(h2.len(), cap, from);
    let n = snap_early.filter(after(from)).len();
    assert(models(snap_early.filter(after(from))).len() == n);
    if from >= h1.len() {
        assert(h1.skip(a) =~= Seq::<FrameModel>::empty());
        assert(models(snap_late.filter(after(from))).take(0) =~= Seq::<FrameModel>::empty());
    } else {
        assert(a == from);
        assert(b == from);
        assert(h1.skip(a) =~= h2.skip(b).take(h1.len() - from)) by {
            assert forall|i: int| 0 <= i < h1.len() - from implies h1.skip(a)[i] == h2.skip(b)[i] by {
                assert(h2.take(h1.len() as int)[from + i] == h2[from + i]);
            }
        }
    }
}

/// The first line of every stream: `{"t":"event","seq":0,"d":"stream-start"}`.
pub open spec fn banner_model() -> FrameModel {
    FrameModel {
        t: FrameKind::Event,
        seq: 0,
        d: seq!['s', 't', 'r', 'e', 'a', 'm', '-', 's', 't', 'a', 'r', 't'],
    }
}

/// The text `stream-start`.
pub fn stream_start_text() -> (r: String)
    ensures
        r@ == banner_model().d,
{
    let mut out = String::new();
    crate::text::push_chars(&mut out, &vec!['s', 't', 'r', 'e', 'a', 'm', '-', 's', 't', 'a', 'r', 't']);
    assert(out@ =~= banner_model().d);
    out
}

/// The banner line that opens every stream.
pub fn banner_line() -> (r: String)
    ensures
        r@ == ndjson_line(banner_model()),
{
    let f = StreamFrame::new(FrameKind::Event, 0, stream_start_text());
    f.to_ndjson()
}

/// The NDJSON lines of a sequence of frames.
pub open spec fn lines_of(s: Seq<FrameModel>) -> Seq<Seq<char>> {
    s.map_values(|f: FrameModel| ndjson_line(f))
}

/// The lines a stream opens with: the banner, then one line per replayed
/// frame of `past`, in order.
pub fn opening_lines(past: &Vec<StreamFrame>) -> (r: Vec<String>)
    ensures
        r@.len() == past@.len() + 1,
        r@[0]@ == ndjson_line(banner_model()),
        forall|k: int| 0 <= k < past@.len() ==> #[trigger] r@[k + 1]@ == ndjson_line(past@[k]@),
{
    let mut out: Vec<String> = Vec::new();
    out.push(banner_line());
    let mut i: usize = 0;
    while i < past.len()
        invariant
            i <= past@.len(),
            out@.len() == i + 1,
            out@[0]@ == ndjson_line(banner_model()),
            forall|k: int| 0 <= k < i ==> #[trigger] out@[k + 1]@ == ndjson_line(past@[k]@),
        decreases past@.len() - i,
    {
        out.push(past[i].to_ndjson());
        i += 1;
    }
    out
}

/// What the live side of a stream received from the hub.
pub enum LiveEvent {
    /// A frame arrived.
    Frame(StreamFrame),
    /// The subscriber fell behind and frames were skipped.
    Lagged(u64),
    /// Every sender is gone.
    Closed,
}

/// What the encoder does with a live event.
pub enum LiveAction {
    /// Write this line.
    Emit(String),
    /// Write nothing and keep receiving.
    Skip,
    /// End the stream.
    End,
}

/// The live half of an encoder. It writes only frames after the last one
/// already written, so sequence numbers keep rising across the replay and
/// the live part, and it ends after the terminal event.
pub struct LiveEncoder {
    pub done: bool,
    pub last: u64,
}

impl LiveEncoder {
    /// An encoder that has replayed nothing, for cursor `from`.
    pub fn new(from: u64) -> (r: LiveEncoder)
        ensures
            !r.done,
            r.last == from,
    {
        LiveEncoder { done: false, last: from }
    }

    /// The encoder that follows the replay of `past` (the output of
    /// `past_frames` for cursor `from`): it has written every frame of
    /// `past`, and it has already ended when the replay closed with the
    /// terminal event.
    pub fn after_replay(past: &Vec<StreamFrame>, from: u64) -> (r: LiveEncoder)
        requires
            sorted_by_seq(past@),
            forall|i: int| 0 <= i < past@.len() ==> #[trigger] past@[i].seq > from,
        ensures
            r.done == (past@.len() > 0 && is_exit(past@.last()@)),
            r.last == if past@.len() > 0 { past@.last().seq } else { from },
            r.last >= from,
            forall|i: int| 0 <= i < past@.len() ==> #[trigger] past@[i].seq <= r.last,
    {
        if past.len() == 0 {
            return LiveEncoder { done: false, last: from };
        }
        let f = &past[past.len() - 1];
        LiveEncoder { done: f.is_exit(), last: f.seq }
    }

    /// Handles one live event. A frame after the last one written becomes
    /// its line, and ends the stream after it when it is the terminal event;
    /// a frame already written (replayed from the backlog) and a lag are
    /// skipped silently; a closed channel, or any event after the terminal
    /// one, ends the stream.
    pub fn on_event(&mut self, ev: LiveEvent) -> (r: LiveAction)
        ensures
            final(self).last >= old(self).last,
            old(self).done ==> (r is End && final(self).done && final(self).last == old(self).last),
            !old(self).done ==> match ev {
                LiveEvent::Frame(f) => if f.seq <= old(self).last {
                    &&& r is Skip
                    &&& *final(self) == *old(self)
                } else {
                    &&& r matches LiveAction::Emit(line) && line@ == ndjson_line(f@)
                    &&& final(self).done == is_exit(f@)
                    &&& final(self).last == f.seq
                },
                LiveEvent::Lagged(_) => r is Skip && *final(self) == *old(self),
                LiveEvent::Closed => r is End && final(self).done && final(self).last == old(self).last,
            },
    {
        if self.done {
            return LiveAction::End;
        }
        match ev {
            LiveEvent::Frame(f) => {
                if f.seq <= self.last {
                    return LiveAction::Skip;
                }
                self.done = f.is_exit();
                self.last = f.seq;
                LiveAction::Emit(f.to_ndjson())
            },
            LiveEvent::Lagged(_) => LiveAction::Skip,
            LiveEvent::Closed => {
                self.done = true;
                LiveAction::End
            },
        }
    }

    /// Whether the stream has ended.
    pub fn is_done(&self) -> (r: bool)
        ensures
            r == self.done,
    {
        self.done
    }
}

/// The frames a live encoder writes when it starts after `last` (ended or
/// not) and receives the frames `fs` in turn, step by step as `on_event`
/// decides.
pub open spec fn live_written(last: u64, done: bool, fs: Seq<FrameModel>) -> Seq<FrameModel>
    decreases fs.len(),
{
    if fs.len() == 0 || done {
        Seq::empty()
    } else if fs[0].seq <= last {
        live_written(last, done, fs.drop_first())
    } else {
        seq![fs[0]] + live_written(fs[0].seq, is_exit(fs[0]), fs.drop_first())
    }
}

/// Whatever arrives live, the frames an encoder writes after its replay have
/// strictly increasing sequence numbers, all above the last replayed one,
/// and a terminal event among them is the last frame written.
pub proof fn lemma_live_ordered(last: u64, done: bool, fs: Seq<FrameModel>)
    ensures
        forall|i: int, j: int|
            0 <= i < j < live_written(last, done, fs).len() ==> live_written(last, done, fs)[i].seq
                < live_written(last, done, fs)[j].seq,
        forall|i: int|
            0 <= i < live_written(last, done, fs).len() ==> #[trigger] live_written(last, done, fs)[i].seq
                > last,
        forall|i: int|
            0 <= i < live_written(last, done, fs).len() - 1 ==> !is_exit(
                #[trigger] live_written(last, done, fs)[i],
            ),
    decreases fs.len(),
{
    if fs.len() == 0 || done {
    } else if fs[0].seq <= last {
        lemma_live_ordered(last, done, fs.drop_first());
    } else {
        let f = fs[0];
        let rest = live_written(f.seq, is_exit(f), fs.drop_first());
        lemma_live_ordered(f.seq, is_exit(f), fs.drop_first());
        let out = live_written(last, done, fs);
        assert(out == seq![f] + rest);
        if is_exit(f) {
            assert(rest.len() == 0) by {
                if fs.drop_first().len() > 0 {
                }
            }
        }
        assert forall|i: int, j: int| 0 <= i < j < out.len() implies out[i].seq < out[j].seq by {
            if i > 0 {
                assert(out[i] == rest[i - 1] && out[j] == rest[j - 1]);
            } else {
                assert(out[j] == rest[j - 1]);
            }
        }
        assert forall|i: int| 0 <= i < out.len() implies #[trigger] out[i].seq > last by {
            if i > 0 {
                assert(out[i] == rest[i - 1]);
            }
        }
        assert forall|i: int| 0 <= i < out.len() - 1 implies !is_exit(#[trigger] out[i]) by {
            if i > 0 {
                assert(out[i] == rest[i - 1]);
            } else if is_exit(f) {
                assert(out.len() == 1);
            }
        }
    }
}

} // verus!
