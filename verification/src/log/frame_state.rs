//! A log of the frames at which a system ran: every run pushes its frame, and traversing the
//! log follows the frame that the world is moved to.
use std::collections::{TryReserveError, VecDeque};
use vstd::prelude::*;

use super::dense_state::{DenseStateLog, StateTimeline};

verus! {

/// How many of the oldest `frames` go when a log keeps the frames after `past_end`: a frame
/// goes as long as the frame after it is at or before `past_end`, so that the oldest kept
/// frame still covers `past_end`.
pub open spec fn frames_drain_count(frames: Seq<u64>, past_end: u64) -> nat
    decreases frames.len(),
{
    if frames.len() < 2 || frames[1] > past_end {
        0
    } else {
        1 + frames_drain_count(frames.drop_first(), past_end)
    }
}

pub proof fn lemma_frames_drain_count_bound(frames: Seq<u64>, past_end: u64)
    requires
        frames.len() > 0,
    ensures
        frames_drain_count(frames, past_end) < frames.len(),
    decreases frames.len(),
{
    if frames.len() >= 2 && frames[1] <= past_end {
        lemma_frames_drain_count_bound(frames.drop_first(), past_end);
    }
}

/// All frames of a timeline, oldest first, up to the present one.
pub open spec fn past_and_present<T>(t: StateTimeline<T>) -> Seq<T> {
    t.past.push(t.present)
}

/// A log of the frames at which a system ran.
#[derive(Debug, Clone)]
pub struct FrameStateLog(DenseStateLog<u64>);

impl FrameStateLog {
    pub closed spec fn wf(&self) -> bool {
        self.0.wf()
    }

    /// The frames of the past runs, the present one and the future ones.
    pub closed spec fn timeline(&self) -> StateTimeline<u64> {
        self.0.timeline()
    }

    /// A log whose present run is at `now`.
    pub fn new(now: u64) -> (log: Self)
        ensures
            log.wf(),
            log.timeline() == StateTimeline::only(now),
    {
        FrameStateLog(DenseStateLog::new(now))
    }

    pub fn with_capacity(now: u64, frames_capacity: usize) -> (log: Self)
        ensures
            log.wf(),
            log.timeline() == StateTimeline::only(now),
    {
        FrameStateLog(DenseStateLog::with_capacity(now, frames_capacity))
    }

    /// The number of past runs.
    pub fn past_len(&self) -> (len: usize)
        requires
            self.wf(),
        ensures
            len == self.timeline().past.len(),
    {
        self.0.past_len()
    }

    pub fn frames_len(&self) -> (len: usize)
        requires
            self.wf(),
        ensures
            len == self.timeline().past.len() + self.timeline().future.len(),
    {
        proof {
            self.0.lemma_states_len();
        }
        self.0.states_len()
    }

    pub fn frames_capacity(&self) -> (capacity: usize)
        requires
            self.wf(),
        ensures
            capacity >= self.timeline().past.len() + self.timeline().future.len(),
    {
        proof {
            self.0.lemma_states_len();
        }
        self.0.states_capacity()
    }

    pub fn frames_is_empty(&self) -> (empty: bool)
        requires
            self.wf(),
        ensures
            empty == (self.timeline().past.len() + self.timeline().future.len() == 0),
    {
        proof {
            self.0.lemma_states_len();
        }
        self.0.states_is_empty()
    }

    pub fn frames_reserve(&mut self, additional: usize)
        requires
            old(self).wf(),
        ensures
            final(self).wf(),
            final(self).timeline() == old(self).timeline(),
    {
        self.0.states_reserve(additional)
    }

    pub fn frames_reserve_exact(&mut self, additional: usize)
        requires
            old(self).wf(),
            old(self).timeline().past.len() + old(self).timeline().future.len() + additional <= usize::MAX,
        ensures
            final(self).wf(),
            final(self).timeline() == old(self).timeline(),
    {
        proof {
            self.0.lemma_states_len();
        }
        self.0.states_reserve_exact(additional)
    }

    pub fn frames_try_reserve(&mut self, additional: usize) -> (r: Result<(), TryReserveError>)
        requires
            old(self).wf(),
        ensures
            final(self).wf(),
            final(self).timeline() == old(self).timeline(),
            old(self).timeline().past.len() + old(self).timeline().future.len() + additional > usize::MAX ==> r is Err,
    {
        proof {
            self.0.lemma_states_len();
        }
        self.0.states_try_reserve(additional)
    }

    pub fn frames_try_reserve_exact(&mut self, additional: usize) -> (r: Result<(), TryReserveError>)
        requires
            old(self).wf(),
        ensures
            final(self).wf(),
            final(self).timeline() == old(self).timeline(),
            old(self).timeline().past.len() + old(self).timeline().future.len() + additional > usize::MAX ==> r is Err,
    {
        proof {
            self.0.lemma_states_len();
        }
        self.0.states_try_reserve_exact(additional)
    }

    pub fn frames_shrink_to(&mut self, min_capacity: usize)
        requires
            old(self).wf(),
        ensures
            final(self).wf(),
            final(self).timeline() == old(self).timeline(),
    {
        self.0.states_shrink_to(min_capacity)
    }

    pub fn frames_shrink_to_fit(&mut self)
        requires
            old(self).wf(),
        ensures
            final(self).wf(),
            final(self).timeline() == old(self).timeline(),
    {
        self.0.states_shrink_to_fit()
    }

    /// Pushes a run at `now`, then removes and returns the oldest past frames that the log
    /// no longer needs to cover the frames after `past_end`.
    pub fn push_and_drain_past(&mut self, now: u64, past_end: u64) -> (drained: VecDeque<u64>)
        requires
            old(self).wf(),
        ensures
            final(self).wf(),
            ({
                let pushed = old(self).timeline().push(now);
                let n = frames_drain_count(past_and_present(pushed), past_end);
                &&& drained@ == pushed.past.take(n as int)
                &&& final(self).timeline() == pushed.drop_past(n)
            }),
    {
        self.0.push(now);
        let ghost t = self.0.timeline();
        let ghost frames = past_and_present(t);
        let n = self.0.past_len();
        let mut k: usize = 0;
        proof {
            lemma_frames_drain_count_bound(frames, past_end);
            assert(frames.skip(0) =~= frames);
        }
        while k < n
            invariant
                self.0.wf(),
                self.0.timeline() == t,
                frames == past_and_present(t),
                n == t.past.len(),
                k <= n,
                frames_drain_count(frames, past_end) == k + frames_drain_count(frames.skip(k as int), past_end),
            ensures
                frames_drain_count(frames.skip(k as int), past_end) == 0,
            decreases n - k,
        {
            let next = if k + 1 < n {
                *self.0.past_at(k + 1)
            } else {
                *self.0.get()
            };
            proof {
                assert(frames.skip(k as int)[1] == next);
            }
            if next > past_end {
                break;
            }
            proof {
                assert(frames.skip(k as int).drop_first() =~= frames.skip(k as int + 1));
            }
            k = k + 1;
        }
        proof {
            if k == n {
                assert(frames.skip(k as int).len() == 1);
            }
        }
        self.0.drain_past(k)
    }

    /// Removes the future frames and returns them, nearest first.
    pub fn drain_future(&mut self) -> (drained: VecDeque<u64>)
        requires
            old(self).wf(),
        ensures
            final(self).wf(),
            drained@ == old(self).timeline().future,
            final(self).timeline() == old(self).timeline().without_future(),
    {
        self.0.drain_future()
    }

    /// Removes the past and future frames and keeps the present one.
    pub fn clear(&mut self)
        ensures
            final(self).wf(),
            final(self).timeline() == StateTimeline::only(old(self).timeline().present),
    {
        self.0.clear()
    }

    /// Removes all frames and makes `now` the present one.
    pub fn clear_with(&mut self, now: u64)
        ensures
            final(self).wf(),
            final(self).timeline() == StateTimeline::only(now),
    {
        self.0.clear_with(now)
    }

    /// Moves the log back for the world going back to `now`: when the present run lies after
    /// `now`, the log steps back to the previous run. Tells whether it stepped.
    pub fn backward_log(&mut self, now: u64) -> (went_back: bool)
        requires
            old(self).wf(),
        ensures
            final(self).wf(),
            went_back == (old(self).timeline().present > now && old(self).timeline().past.len() > 0),
            went_back ==> final(self).timeline() == old(self).timeline().backward(),
            !went_back ==> final(self).timeline() == old(self).timeline(),
    {
        if *self.0.get() > now {
            match self.0.backward_log() {
                Ok(()) => true,
                Err(_) => false,
            }
        } else {
            false
        }
    }

    /// Moves the log forward for the world going forward to `now`: when the next run was at
    /// `now`, the log steps forward to it. Tells whether it stepped.
    pub fn forward_log(&mut self, now: u64) -> (went_forward: bool)
        requires
            old(self).wf(),
        ensures
            final(self).wf(),
            went_forward == (old(self).timeline().future.len() > 0 && old(self).timeline().future[0] == now),
            went_forward ==> final(self).timeline() == old(self).timeline().forward(),
            !went_forward ==> final(self).timeline() == old(self).timeline(),
    {
        let step = match self.0.future_first() {
            Some(frame) => *frame == now,
            None => false,
        };
        if step {
            match self.0.forward_log() {
                Ok(()) => true,
                Err(_) => false,
            }
        } else {
            false
        }
    }
}

} // verus!
