//! A log of states that remembers the frame each state was logged at, and shortens its past by
//! those frames.
use std::collections::{TryReserveError, VecDeque};
use vstd::prelude::*;

use super::dense_state::{DenseStateLog, StateTimeline};
use super::frame_state::{frames_drain_count, lemma_frames_drain_count_bound};
use super::OutOfLog;

verus! {

/// A value together with the frame it was logged at.
#[derive(Clone, Copy, Debug, PartialEq, Eq, Structural)]
pub struct ValueLoggedAt<T> {
    pub value: T,
    pub logged_at: u64,
}

/// The frames at which the states of a timeline were logged, oldest first, up to the present
/// one.
pub open spec fn logged_frames<T>(t: StateTimeline<ValueLoggedAt<T>>) -> Seq<u64> {
    t.past.push(t.present).map_values(|v: ValueLoggedAt<T>| v.logged_at)
}

/// A log of states, each with the frame it was logged at.
#[derive(Debug, Clone)]
pub struct FramedStateLog<T> {
    log: DenseStateLog<ValueLoggedAt<T>>,
}

impl<T> FramedStateLog<T> {
    pub closed spec fn wf(&self) -> bool {
        self.log.wf()
    }

    /// The past, present and future states with their frames.
    pub closed spec fn timeline(&self) -> StateTimeline<ValueLoggedAt<T>> {
        self.log.timeline()
    }

    /// A log whose present state is `present`, logged at `now`.
    pub fn new(now: u64, present: T) -> (log: Self)
        ensures
            log.wf(),
            log.timeline() == StateTimeline::only(ValueLoggedAt { value: present, logged_at: now }),
    {
        FramedStateLog { log: DenseStateLog::new(ValueLoggedAt { value: present, logged_at: now }) }
    }

    pub fn with_capacity(now: u64, present: T, states_capacity: usize) -> (log: Self)
        ensures
            log.wf(),
            log.timeline() == StateTimeline::only(ValueLoggedAt { value: present, logged_at: now }),
    {
        FramedStateLog { log: DenseStateLog::with_capacity(ValueLoggedAt { value: present, logged_at: now }, states_capacity) }
    }

    /// The present state, as dereferencing the log gives it.
    pub fn get(&self) -> (present: &T)
        ensures
            *present == self.timeline().present.value,
    {
        &self.log.get().value
    }

    /// The present state with the frame it was logged at.
    pub fn into_inner(self) -> (present: ValueLoggedAt<T>)
        ensures
            present == self.timeline().present,
    {
        self.log.into_inner()
    }

    pub fn states_len(&self) -> (len: usize)
        requires
            self.wf(),
        ensures
            len == self.timeline().past.len() + self.timeline().future.len(),
    {
        proof {
            self.log.lemma_states_len();
        }
        self.log.states_len()
    }

    pub fn states_capacity(&self) -> (capacity: usize)
        requires
            self.wf(),
        ensures
            capacity >= self.timeline().past.len() + self.timeline().future.len(),
    {
        proof {
            self.log.lemma_states_len();
        }
        self.log.states_capacity()
    }

    pub fn states_is_empty(&self) -> (empty: bool)
        requires
            self.wf(),
        ensures
            empty == (self.timeline().past.len() + self.timeline().future.len() == 0),
    {
        proof {
            self.log.lemma_states_len();
        }
        self.log.states_is_empty()
    }

    pub fn states_reserve(&mut self, additional: usize)
        requires
            old(self).wf(),
        ensures
            final(self).wf(),
            final(self).timeline() == old(self).timeline(),
    {
        self.log.states_reserve(additional)
    }

    pub fn states_reserve_exact(&mut self, additional: usize)
        requires
            old(self).wf(),
            old(self).timeline().past.len() + old(self).timeline().future.len() + additional <= usize::MAX,
        ensures
            final(self).wf(),
            final(self).timeline() == old(self).timeline(),
    {
        proof {
            self.log.lemma_states_len();
        }
        self.log.states_reserve_exact(additional)
    }

    pub fn states_try_reserve(&mut self, additional: usize) -> (r: Result<(), TryReserveError>)
        requires
            old(self).wf(),
        ensures
            final(self).wf(),
            final(self).timeline() == old(self).timeline(),
            old(self).timeline().past.len() + old(self).timeline().future.len() + additional > usize::MAX ==> r is Err,
    {
        proof {
            self.log.lemma_states_len();
        }
        self.log.states_try_reserve(additional)
    }

    pub fn states_try_reserve_exact(&mut self, additional: usize) -> (r: Result<(), TryReserveError>)
        requires
            old(self).wf(),
        ensures
            final(self).wf(),
            final(self).timeline() == old(self).timeline(),
            old(self).timeline().past.len() + old(self).timeline().future.len() + additional > usize::MAX ==> r is Err,
    {
        proof {
            self.log.lemma_states_len();
        }
        self.log.states_try_reserve_exact(additional)
    }

    pub fn states_shrink_to(&mut self, min_capacity: usize)
        requires
            old(self).wf(),
        ensures
            final(self).wf(),
            final(self).timeline() == old(self).timeline(),
    {
        self.log.states_shrink_to(min_capacity)
    }

    pub fn states_shrink_to_fit(&mut self)
        requires
            old(self).wf(),
        ensures
            final(self).wf(),
            final(self).timeline() == old(self).timeline(),
    {
        self.log.states_shrink_to_fit()
    }

    /// Pushes `state` logged at `now`, then removes and returns the oldest past states that
    /// the log no longer needs to cover the frames after `past_end`.
    pub fn push_and_drain_past(&mut self, now: u64, past_end: u64, state: T) -> (drained: VecDeque<ValueLoggedAt<T>>)
        requires
            old(self).wf(),
        ensures
            final(self).wf(),
            ({
                let pushed = old(self).timeline().push(ValueLoggedAt { value: state, logged_at: now });
                let n = frames_drain_count(logged_frames(pushed), past_end);
                &&& drained@ == pushed.past.take(n as int)
                &&& final(self).timeline() == pushed.drop_past(n)
            }),
    {
        self.log.push(ValueLoggedAt { value: state, logged_at: now });
        let ghost t = self.log.timeline();
        let ghost frames = logged_frames(t);
        let n = self.log.past_len();
        let mut k: usize = 0;
        proof {
            lemma_frames_drain_count_bound(frames, past_end);
            assert(frames.skip(0) =~= frames);
        }
        while k < n
            invariant
                self.log.wf(),
                self.log.timeline() == t,
                frames == logged_frames(t),
                n == t.past.len(),
                k <= n,
                frames_drain_count(frames, past_end) == k + frames_drain_count(frames.skip(k as int), past_end),
            ensures
                frames_drain_count(frames.skip(k as int), past_end) == 0,
            decreases n - k,
        {
            let next = if k + 1 < n {
                self.log.past_at(k + 1).logged_at
            } else {
                self.log.get().logged_at
            };
            proof {
                assert(frames.skip(k as int)[1] == next);
            }
            if next > past_end {
                break;
            }
            proof {
                assert(frames.skip(k as int).drop_first() =~= frames.skip(k as int + 1));
            }
            k = k + 1;
        }
        proof {
            if k == n {
                assert(frames.skip(k as int).len() == 1);
            }
        }
        self.log.drain_past(k)
    }

    /// Removes the future states and returns them, nearest first.
    pub fn drain_future(&mut self) -> (drained: VecDeque<ValueLoggedAt<T>>)
        requires
            old(self).wf(),
        ensures
            final(self).wf(),
            drained@ == old(self).timeline().future,
            final(self).timeline() == old(self).timeline().without_future(),
    {
        self.log.drain_future()
    }

    /// Removes the past and future states and keeps the present one.
    pub fn clear(&mut self)
        ensures
            final(self).wf(),
            final(self).timeline() == StateTimeline::only(old(self).timeline().present),
    {
        self.log.clear()
    }

    /// Removes all states and makes `present`, logged at `now`, the present state.
    pub fn clear_with(&mut self, now: u64, present: T)
        ensures
            final(self).wf(),
            final(self).timeline() == StateTimeline::only(ValueLoggedAt { value: present, logged_at: now }),
    {
        self.log.clear_with(ValueLoggedAt { value: present, logged_at: now })
    }

    /// Steps one state back, or fails when there is no past state.
    pub fn backward_log(&mut self) -> (r: Result<(), OutOfLog>)
        requires
            old(self).wf(),
        ensures
            final(self).wf(),
            r is Err <==> old(self).timeline().past.len() == 0,
            r is Ok ==> final(self).timeline() == old(self).timeline().backward(),
            r is Err ==> final(self).timeline() == old(self).timeline(),
    {
        self.log.backward_log()
    }

    /// Steps one state forward, or fails when there is no future state.
    pub fn forward_log(&mut self) -> (r: Result<(), OutOfLog>)
        requires
            old(self).wf(),
        ensures
            final(self).wf(),
            r is Err <==> old(self).timeline().future.len() == 0,
            r is Ok ==> final(self).timeline() == old(self).timeline().forward(),
            r is Err ==> final(self).timeline() == old(self).timeline(),
    {
        self.log.forward_log()
    }
}

} // verus!
