//! A log of a value that changes rarely, shortened by the number of pushes that the world's
//! frames stand for.
use std::collections::TryReserveError;
use vstd::prelude::*;

use super::rare_state::{RareStateLog, RareStateView, RareValue};
use super::OutOfLog;

verus! {

/// A log of a value where a push may hold no new value; each stored value counts the pushes
/// without a value after it.
#[derive(Clone, Debug)]
pub struct RareValueLog<T> {
    log: RareStateLog<T>,
}

impl<T> RareValueLog<T> {
    pub closed spec fn view(&self) -> RareStateView<T> {
        self.log@
    }

    pub open spec fn wf(&self) -> bool {
        self@.wf()
    }

    pub fn new(present: T) -> (log: Self)
        ensures
            log.wf(),
            log@ == (RareStateView { states: Seq::empty(), present, index: 0, skips: 0, skips_max: 0, past_len: 0 }),
    {
        RareValueLog { log: RareStateLog::new(present) }
    }

    pub fn with_capacity(present: T, values_capacity: usize) -> (log: Self)
        ensures
            log.wf(),
            log@ == (RareStateView { states: Seq::empty(), present, index: 0, skips: 0, skips_max: 0, past_len: 0 }),
    {
        RareValueLog { log: RareStateLog::with_capacity(present, values_capacity) }
    }

    pub fn into_inner(self) -> (present: T)
        ensures
            present == self@.present,
    {
        self.log.into_inner()
    }

    /// The number of pushes in the past.
    pub fn log_len(&self) -> (len: usize)
        requires
            self.wf(),
        ensures
            len == self@.past_len,
    {
        self.log.past_len()
    }

    pub fn values_len(&self) -> (len: usize)
        ensures
            len == self@.states.len(),
    {
        self.log.states_len()
    }

    pub fn values_capacity(&self) -> (capacity: usize)
        ensures
            capacity >= self@.states.len(),
    {
        self.log.states_capacity()
    }

    pub fn values_is_empty(&self) -> (empty: bool)
        ensures
            empty == (self@.states.len() == 0),
    {
        self.log.states_is_empty()
    }

    pub fn values_reserve(&mut self, additional: usize)
        ensures
            final(self)@ == old(self)@,
    {
        self.log.states_reserve(additional)
    }

    pub fn values_reserve_exact(&mut self, additional: usize)
        requires
            old(self)@.states.len() + additional <= usize::MAX,
        ensures
            final(self)@ == old(self)@,
    {
        self.log.states_reserve_exact(additional)
    }

    pub fn values_try_reserve(&mut self, additional: usize) -> (r: Result<(), TryReserveError>)
        ensures
            final(self)@ == old(self)@,
            old(self)@.states.len() + additional > usize::MAX ==> r is Err,
    {
        self.log.states_try_reserve(additional)
    }

    pub fn values_try_reserve_exact(&mut self, additional: usize) -> (r: Result<(), TryReserveError>)
        ensures
            final(self)@ == old(self)@,
            old(self)@.states.len() + additional > usize::MAX ==> r is Err,
    {
        self.log.states_try_reserve_exact(additional)
    }

    pub fn values_shrink_to(&mut self, min_capacity: usize)
        ensures
            final(self)@ == old(self)@,
    {
        self.log.states_shrink_to(min_capacity)
    }

    pub fn values_shrink_to_fit(&mut self)
        ensures
            final(self)@ == old(self)@,
    {
        self.log.states_shrink_to_fit()
    }

    pub fn get(&self) -> (present: &T)
        ensures
            *present == self@.present,
    {
        self.log.get()
    }

    /// The present value, to change without logging.
    pub fn unlogged_get_mut(&mut self) -> (present: &mut T)
        ensures
            *present == old(self)@.present,
            final(self)@ == (RareStateView { present: *final(present), ..old(self)@ }),
    {
        self.log.present_mut()
    }

    /// The oldest past value, or `None` when the log stands at its past end.
    pub fn past_end(&self) -> (r: Option<&T>)
        requires
            self.wf(),
        ensures
            self@.index == 0 ==> r is None,
            self@.index > 0 ==> r == Some(&self@.states[0].value),
    {
        self.log.past_end()
    }

    /// Removes and returns the oldest past value, or `None` when the log stands at its past
    /// end.
    pub fn pop_past(&mut self) -> (popped: Option<T>)
        requires
            old(self).wf(),
        ensures
            final(self).wf(),
            old(self)@.index == 0 ==> popped is None && final(self)@ == old(self)@,
            old(self)@.index > 0 ==> popped == Some(old(self)@.states[0].value) && final(self)@ == old(self)@.drop_past(1),
    {
        if self.log.past_end().is_none() {
            return None;
        }
        self.log.pop_past()
    }

    /// Removes the future entries and returns their values, nearest first.
    pub fn drain_future(&mut self) -> (drained: Vec<T>)
        requires
            old(self).wf(),
        ensures
            final(self).wf(),
            drained@ == old(self)@.states.skip(old(self)@.index).map_values(|e: RareValue<T>| e.value),
            final(self)@ == (RareStateView { states: old(self)@.states.take(old(self)@.index), ..old(self)@ }),
    {
        self.log.drain_future()
    }

    /// Removes all entries and makes `present` the present value.
    pub fn clear(&mut self, present: T)
        ensures
            final(self).wf(),
            final(self)@ == (RareStateView { states: Seq::empty(), present, index: 0, skips: 0, skips_max: 0, past_len: 0 }),
    {
        self.log.clear_with(present)
    }

    /// Pushes `value` as the new present value, or counts a push without a value for `None`;
    /// drops the future.
    pub fn push_present(&mut self, value: Option<T>)
        requires
            old(self).wf(),
            old(self)@.past_len < usize::MAX,
        ensures
            final(self).wf(),
            final(self)@ == old(self)@.push(value),
    {
        self.log.push_present(value)
    }

    /// Steps one push back, or fails when there is no past push.
    pub fn backward_log(&mut self) -> (r: Result<(), OutOfLog>)
        requires
            old(self).wf(),
        ensures
            final(self).wf(),
            !old(self)@.can_backward() ==> r is Err && final(self)@ == old(self)@,
            old(self)@.can_backward() ==> r is Ok && final(self)@ == old(self)@.backward().0,
    {
        match self.log.backward_log() {
            Ok(_) => Ok(()),
            Err(e) => Err(e),
        }
    }

    /// Steps one push forward, or fails when there is no future push.
    pub fn forward_log(&mut self) -> (r: Result<(), OutOfLog>)
        requires
            old(self).wf(),
            old(self)@.past_len < usize::MAX,
        ensures
            final(self).wf(),
            !old(self)@.can_forward() ==> r is Err && final(self)@ == old(self)@,
            old(self)@.can_forward() ==> r is Ok && final(self)@ == old(self)@.forward().0,
    {
        match self.log.forward_log() {
            Ok(_) => Ok(()),
            Err(e) => Err(e),
        }
    }

    /// Removes and returns the oldest past value when the past pushes without it still cover
    /// `past_frames` frames of `pushes_per_frame` pushes each.
    pub fn pop_past_by_len(&mut self, past_frames: usize, pushes_per_frame: usize) -> (popped: Option<T>)
        requires
            old(self).wf(),
            past_frames * pushes_per_frame <= usize::MAX,
        ensures
            final(self).wf(),
            ({
                let max_past_len = (past_frames * pushes_per_frame) as usize;
                &&& old(self)@.pops(max_past_len) ==> popped == Some(old(self)@.states[0].value)
                    && final(self)@ == old(self)@.drop_past(1)
                &&& !old(self)@.pops(max_past_len) ==> popped is None && final(self)@ == old(self)@
            }),
    {
        self.log.pop_past_by_len(past_frames * pushes_per_frame)
    }

    /// Removes and returns the oldest past values as long as the past pushes without them
    /// still cover `past_frames` frames of `pushes_per_frame` pushes each.
    pub fn drain_past_by_len(&mut self, past_frames: usize, pushes_per_frame: usize) -> (drained: Vec<T>)
        requires
            old(self).wf(),
            past_frames * pushes_per_frame <= usize::MAX,
        ensures
            final(self).wf(),
            ({
                let n = old(self)@.drain_count((past_frames * pushes_per_frame) as usize);
                &&& drained@ == old(self)@.states.take(n as int).map_values(|e: RareValue<T>| e.value)
                &&& final(self)@ == old(self)@.drop_past(n as int)
            }),
    {
        self.log.drain_past_by_len(past_frames * pushes_per_frame)
    }
}

} // verus!
