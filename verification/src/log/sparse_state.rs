//! A rare state log whose push also shortens its past.
use std::collections::TryReserveError;
use vstd::prelude::*;

use super::rare_state::{RareStateLog, RareStateView, RareValue};
use super::OutOfLog;

verus! {

/// A log of states where a push may hold no state and shortens the past to a given length.
#[derive(Clone, Debug)]
pub struct SparseStateLog<T> {
    log: RareStateLog<T>,
}

impl<T> SparseStateLog<T> {
    pub closed spec fn view(&self) -> RareStateView<T> {
        self.log@
    }

    pub open spec fn wf(&self) -> bool {
        self@.wf()
    }

    pub fn new(present: T) -> (log: Self)
        ensures
            log.wf(),
            log@ == (RareStateView { states: Seq::empty(), present, index: 0, skips: 0, skips_max: 0, past_len: 0 }),
    {
        SparseStateLog { log: RareStateLog::new(present) }
    }

    pub fn with_capacity(present: T, states_capacity: usize) -> (log: Self)
        ensures
            log.wf(),
            log@ == (RareStateView { states: Seq::empty(), present, index: 0, skips: 0, skips_max: 0, past_len: 0 }),
    {
        SparseStateLog { log: RareStateLog::with_capacity(present, states_capacity) }
    }

    /// The present state, as dereferencing the log gives it.
    pub fn get(&self) -> (present: &T)
        ensures
            *present == self@.present,
    {
        self.log.get()
    }

    pub fn into_inner(self) -> (present: T)
        ensures
            present == self@.present,
    {
        self.log.into_inner()
    }

    pub fn states_len(&self) -> (len: usize)
        ensures
            len == self@.states.len(),
    {
        self.log.states_len()
    }

    pub fn states_capacity(&self) -> (capacity: usize)
        ensures
            capacity >= self@.states.len(),
    {
        self.log.states_capacity()
    }

    pub fn states_is_empty(&self) -> (empty: bool)
        ensures
            empty == (self@.states.len() == 0),
    {
        self.log.states_is_empty()
    }

    pub fn states_reserve(&mut self, additional: usize)
        ensures
            final(self)@ == old(self)@,
            final(self).wf() == old(self).wf(),
    {
        self.log.states_reserve(additional)
    }

    pub fn states_reserve_exact(&mut self, additional: usize)
        requires
            old(self)@.states.len() + additional <= usize::MAX,
        ensures
            final(self)@ == old(self)@,
            final(self).wf() == old(self).wf(),
    {
        self.log.states_reserve_exact(additional)
    }

    pub fn states_try_reserve(&mut self, additional: usize) -> (r: Result<(), TryReserveError>)
        ensures
            final(self)@ == old(self)@,
            final(self).wf() == old(self).wf(),
            old(self)@.states.len() + additional > usize::MAX ==> r is Err,
    {
        self.log.states_try_reserve(additional)
    }

    pub fn states_try_reserve_exact(&mut self, additional: usize) -> (r: Result<(), TryReserveError>)
        ensures
            final(self)@ == old(self)@,
            final(self).wf() == old(self).wf(),
            old(self)@.states.len() + additional > usize::MAX ==> r is Err,
    {
        self.log.states_try_reserve_exact(additional)
    }

    pub fn states_shrink_to(&mut self, min_capacity: usize)
        ensures
            final(self)@ == old(self)@,
            final(self).wf() == old(self).wf(),
    {
        self.log.states_shrink_to(min_capacity)
    }

    pub fn states_shrink_to_fit(&mut self)
        ensures
            final(self)@ == old(self)@,
            final(self).wf() == old(self).wf(),
    {
        self.log.states_shrink_to_fit()
    }

    /// Removes the future entries and returns their states, nearest first.
    pub fn drain_future(&mut self) -> (drained: Vec<T>)
        requires
            old(self).wf(),
        ensures
            final(self).wf(),
            drained@ == old(self)@.states.skip(old(self)@.index).map_values(|e: RareValue<T>| e.value),
            final(self)@ == (RareStateView { states: old(self)@.states.take(old(self)@.index), ..old(self)@ }),
    {
        self.log.drain_future()
    }

    /// Removes all entries and keeps the present state.
    pub fn clear(&mut self)
        ensures
            final(self).wf(),
            final(self)@ == (RareStateView { states: Seq::empty(), present: old(self)@.present, index: 0, skips: 0, skips_max: 0, past_len: 0 }),
    {
        self.log.clear()
    }

    /// Removes all entries and makes `present` the present state.
    pub fn clear_with(&mut self, present: T)
        ensures
            final(self).wf(),
            final(self)@ == (RareStateView { states: Seq::empty(), present, index: 0, skips: 0, skips_max: 0, past_len: 0 }),
    {
        self.log.clear_with(present)
    }

    /// Pushes `state` (or a push without a state for `None`), then removes and returns the
    /// oldest past state when the past pushes without it still reach `max_past_len`.
    pub fn push_and_pop_past(&mut self, max_past_len: usize, state: Option<T>) -> (popped: Option<T>)
        requires
            old(self).wf(),
            old(self)@.past_len < usize::MAX,
        ensures
            final(self).wf(),
            ({
                let pushed = old(self)@.push(state);
                if pushed.pops(max_past_len) {
                    popped == Some(pushed.states[0].value) && final(self)@ == pushed.drop_past(1)
                } else {
                    popped is None && final(self)@ == pushed
                }
            }),
    {
        self.log.push_present(state);
        self.log.pop_past_by_len(max_past_len)
    }

    /// Pushes `state` (or a push without a state for `None`), then removes the oldest past
    /// entries as long as the past pushes without them still reach `max_past_len`; returns
    /// their states.
    pub fn push_and_drain_past(&mut self, max_past_len: usize, state: Option<T>) -> (drained: Vec<T>)
        requires
            old(self).wf(),
            old(self)@.past_len < usize::MAX,
        ensures
            final(self).wf(),
            ({
                let pushed = old(self)@.push(state);
                let n = pushed.drain_count(max_past_len);
                &&& drained@ == pushed.states.take(n as int).map_values(|e: RareValue<T>| e.value)
                &&& final(self)@ == pushed.drop_past(n as int)
            }),
    {
        self.log.push_present(state);
        self.log.drain_past_by_len(max_past_len)
    }

    /// Steps one push back; tells whether the present state changed, or fails when there is
    /// no past push.
    pub fn backward_log(&mut self) -> (r: Result<bool, OutOfLog>)
        requires
            old(self).wf(),
        ensures
            final(self).wf(),
            !old(self)@.can_backward() ==> r is Err && final(self)@ == old(self)@,
            old(self)@.can_backward() ==> r == Ok::<bool, OutOfLog>(old(self)@.backward().1)
                && final(self)@ == old(self)@.backward().0,
    {
        self.log.backward_log()
    }

    /// Steps one push forward; tells whether the present state changed, or fails when there is
    /// no future push.
    pub fn forward_log(&mut self) -> (r: Result<bool, OutOfLog>)
        requires
            old(self).wf(),
            old(self)@.past_len < usize::MAX,
        ensures
            final(self).wf(),
            !old(self)@.can_forward() ==> r is Err && final(self)@ == old(self)@,
            old(self)@.can_forward() ==> r == Ok::<bool, OutOfLog>(old(self)@.forward().1)
                && final(self)@ == old(self)@.forward().0,
    {
        self.log.forward_log()
    }
}

} // verus!
