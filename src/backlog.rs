//! The bounded replay buffer of a stream: the most recent frames, oldest
//! first.
use vstd::prelude::*;
use std::collections::VecDeque;
use crate::frame::{FrameModel, StreamFrame};

verus! {

/// Number of frames a stream keeps for replay.
pub const BACKLOG_CAP: usize = 1024;

/// The models of a sequence of frames.
pub open spec fn models(s: Seq<StreamFrame>) -> Seq<FrameModel> {
    s.map_values(|f: StreamFrame| f@)
}

/// The last `n` elements of `s` (all of `s` when it is shorter).
pub open spec fn last_n<T>(s: Seq<T>, n: nat) -> Seq<T> {
    if s.len() <= n {
        s
    } else {
        s.skip(s.len() - n)
    }
}

/// Keeping the last `n` of a window and one more element is keeping the last
/// `n` of the whole sequence and that element.
pub proof fn lemma_last_n_push<T>(s: Seq<T>, x: T, n: nat)
    requires
        n > 0,
    ensures
        last_n(last_n(s, n).push(x), n) == last_n(s.push(x), n),
{
    if s.len() <= n {
        assert(last_n(s, n) == s);
    } else {
        let w = s.skip(s.len() - n);
        assert(w.push(x).skip(1) =~= s.push(x).skip(s.len() + 1 - n));
    }
}

/// A first-in first-out buffer of at most `capacity` frames; pushing onto a
/// full buffer drops the oldest frame.
pub struct Backlog {
    pub items: VecDeque<StreamFrame>,
    pub cap: usize,
}

impl View for Backlog {
    type V = Seq<FrameModel>;

    open spec fn view(&self) -> Seq<FrameModel> {
        models(self.items@)
    }
}

impl Backlog {
    /// The most frames the buffer holds.
    pub open spec fn capacity_spec(&self) -> nat {
        self.cap as nat
    }

    /// The buffer's invariant: a positive capacity, never exceeded.
    pub open spec fn wf(&self) -> bool {
        &&& self.cap > 0
        &&& self.items@.len() <= self.cap
    }

    /// An empty buffer of the given capacity.
    pub fn new(cap: usize) -> (r: Backlog)
        requires
            cap > 0,
        ensures
            r.wf(),
            r@ == Seq::<FrameModel>::empty(),
            r.capacity_spec() == cap,
    {
        let r = Backlog { items: VecDeque::with_capacity(cap), cap };
        assert(r@ =~= Seq::<FrameModel>::empty());
        r
    }

    /// The most frames the buffer holds.
    pub fn capacity(&self) -> (r: usize)
        ensures
            r == self.capacity_spec(),
    {
        self.cap
    }

    /// Number of frames held.
    pub fn len(&self) -> (r: usize)
        ensures
            r == self@.len(),
    {
        self.items.len()
    }

    /// Appends `f`, dropping the oldest frame first when the buffer is full.
    pub fn push(&mut self, f: StreamFrame)
        requires
            old(self).wf(),
        ensures
            final(self).wf(),
            final(self).capacity_spec() == old(self).capacity_spec(),
            final(self)@ == last_n(old(self)@.push(f@), old(self).capacity_spec()),
    {
        let ghost before = self.items@;
        if self.items.len() == self.cap {
            let _ = self.items.pop_front();
        }
        self.items.push_back(f);
        proof {
            let full = before.push(f);
            if before.len() == self.cap {
                assert(self.items@ =~= full.skip(full.len() - self.cap));
                assert(models(self.items@) =~= models(full).skip(full.len() - self.cap));
            } else {
                assert(self.items@ =~= full);
            }
            assert(models(full) =~= models(before).push(f@));
        }
    }

    /// A copy of the frames held, oldest first.
    pub fn snapshot(&self) -> (r: Vec<StreamFrame>)
        ensures
            models(r@) == self@,
    {
        let mut out: Vec<StreamFrame> = Vec::new();
        let mut i: usize = 0;
        while i < self.items.len()
            invariant
                i <= self.items@.len(),
                out@ == self.items@.take(i as int),
            decreases self.items@.len() - i,
        {
            out.push(self.items[i].clone());
            i += 1;
            assert(out@ =~= self.items@.take(i as int));
        }
        assert(self.items@.take(i as int) =~= self.items@);
        out
    }
}

} // verus!
