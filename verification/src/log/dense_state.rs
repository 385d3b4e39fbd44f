//! A log of states that holds a value for every push.
use std::collections::{TryReserveError, VecDeque};
use vstd::prelude::*;

use super::deque;
use super::OutOfLog;

verus! {

/// What a state log holds: the states before the present one, the present state and the states
/// after it. The past is ordered from the oldest to the newest, the future from the nearest to
/// the farthest.
#[verifier::ext_equal]
pub ghost struct StateTimeline<T> {
    pub past: Seq<T>,
    pub present: T,
    pub future: Seq<T>,
}

impl<T> StateTimeline<T> {
    /// The timeline after one step back: the newest past state becomes the present one.
    pub open spec fn backward(self) -> Self
        recommends
            self.past.len() > 0,
    {
        StateTimeline {
            past: self.past.drop_last(),
            present: self.past.last(),
            future: seq![self.present] + self.future,
        }
    }

    /// The timeline after one step forward: the nearest future state becomes the present one.
    pub open spec fn forward(self) -> Self
        recommends
            self.future.len() > 0,
    {
        StateTimeline {
            past: self.past.push(self.present),
            present: self.future[0],
            future: self.future.drop_first(),
        }
    }

    /// The timeline after pushing `state` as the new present: the future is dropped and the
    /// present state becomes the newest past state.
    pub open spec fn push(self, state: T) -> Self {
        StateTimeline { past: self.past.push(self.present), present: state, future: Seq::empty() }
    }

    /// The timeline without its `n` oldest past states.
    pub open spec fn drop_past(self, n: nat) -> Self {
        StateTimeline { past: self.past.skip(n as int), present: self.present, future: self.future }
    }

    /// The timeline without any future states.
    pub open spec fn without_future(self) -> Self {
        StateTimeline { past: self.past, present: self.present, future: Seq::empty() }
    }

    /// The timeline that holds only `present`.
    pub open spec fn only(present: T) -> Self {
        StateTimeline { past: Seq::empty(), present, future: Seq::empty() }
    }
}

/// One step back, then one step forward, gives the timeline back.
pub proof fn lemma_backward_then_forward<T>(t: StateTimeline<T>)
    requires
        t.past.len() > 0,
    ensures
        t.backward().forward() == t,
{
    assert(t.backward().forward().past =~= t.past);
    assert(t.backward().forward().future =~= t.future);
}

/// One step forward, then one step back, gives the timeline back.
pub proof fn lemma_forward_then_backward<T>(t: StateTimeline<T>)
    requires
        t.future.len() > 0,
    ensures
        t.forward().backward() == t,
{
    assert(t.forward().backward().past =~= t.past);
    assert(t.forward().backward().future =~= t.future);
}

/// Undoing a push gives back the state before it, with the pushed state as the only future
/// one.
pub proof fn lemma_push_then_backward<T>(t: StateTimeline<T>, state: T)
    ensures
        t.push(state).past.len() > 0,
        t.push(state).backward() == (StateTimeline { past: t.past, present: t.present, future: seq![state] }),
{
    assert(t.push(state).backward().past =~= t.past);
    assert(t.push(state).backward().future =~= seq![state]);
}

/// After a push that keeps at most `max_past_len` past states, no more than that many remain,
/// and as many as there were, up to that limit.
pub proof fn lemma_drained_past_len<T>(t: StateTimeline<T>, state: T, max_past_len: nat)
    ensures
        ({
            let pushed = t.push(state);
            let n = if pushed.past.len() > max_past_len { pushed.past.len() - max_past_len } else { 0 };
            let kept = pushed.drop_past(n as nat);
            &&& kept.past.len() <= max_past_len
            &&& kept.past.len() == if t.past.len() + 1 > max_past_len { max_past_len } else { t.past.len() + 1 }
            &&& kept.present == state
            &&& kept.future.len() == 0
        }),
{
}

/// A log of states with one state per push.
///
/// The deque holds the past states before `index` and the future states from `index` on; the
/// present state is held apart, and traversing the log swaps it with its neighbour.
#[derive(Debug, Clone)]
pub struct DenseStateLog<T> {
    states: VecDeque<T>,
    present: T,
    index: usize,
}

impl<T> DenseStateLog<T> {
    /// The log's fields agree: `index` is a position in the deque.
    pub closed spec fn wf(&self) -> bool {
        self.index <= self.states@.len()
    }

    /// The past, present and future states of the log.
    pub closed spec fn timeline(&self) -> StateTimeline<T> {
        StateTimeline {
            past: self.states@.take(self.index as int),
            present: self.present,
            future: self.states@.skip(self.index as int),
        }
    }

    /// The number of stored past and future states.
    pub closed spec fn spec_states_len(&self) -> nat {
        self.states@.len()
    }

    /// The deque holds the past and the future states.
    pub proof fn lemma_states_len(&self)
        requires
            self.wf(),
        ensures
            self.spec_states_len() == self.timeline().past.len() + self.timeline().future.len(),
    {
    }

    pub fn new(present: T) -> (log: Self)
        ensures
            log.wf(),
            log.timeline() == StateTimeline::only(present),
    {
        let log = DenseStateLog { states: VecDeque::new(), present, index: 0 };
        proof {
            assert(log.timeline().past =~= Seq::<T>::empty());
            assert(log.timeline().future =~= Seq::<T>::empty());
        }
        log
    }

    pub fn with_capacity(present: T, states_capacity: usize) -> (log: Self)
        ensures
            log.wf(),
            log.timeline() == StateTimeline::only(present),
    {
        let log = DenseStateLog { states: VecDeque::with_capacity(states_capacity), present, index: 0 };
        proof {
            assert(log.timeline().past =~= Seq::<T>::empty());
            assert(log.timeline().future =~= Seq::<T>::empty());
        }
        log
    }

    /// The present state, as dereferencing the log gives it.
    pub fn get(&self) -> (present: &T)
        ensures
            *present == self.timeline().present,
    {
        &self.present
    }

    pub fn into_inner(self) -> (present: T)
        ensures
            present == self.timeline().present,
    {
        self.present
    }

    /// The number of past states, the steps the log can go back.
    pub fn past_len(&self) -> (len: usize)
        requires
            self.wf(),
        ensures
            len == self.timeline().past.len(),
    {
        self.index
    }

    pub fn states_len(&self) -> (len: usize)
        ensures
            len == self.spec_states_len(),
    {
        self.states.len()
    }

    pub fn states_capacity(&self) -> (capacity: usize)
        ensures
            capacity >= self.spec_states_len(),
    {
        deque::capacity(&self.states)
    }

    pub fn states_is_empty(&self) -> (empty: bool)
        ensures
            empty == (self.spec_states_len() == 0),
    {
        self.states.len() == 0
    }

    pub fn states_reserve(&mut self, additional: usize)
        ensures
            final(self).timeline() == old(self).timeline(),
            final(self).wf() == old(self).wf(),
    {
        self.states.reserve(additional);
    }

    pub fn states_reserve_exact(&mut self, additional: usize)
        requires
            old(self).spec_states_len() + additional <= usize::MAX,
        ensures
            final(self).timeline() == old(self).timeline(),
            final(self).wf() == old(self).wf(),
    {
        deque::reserve_exact(&mut self.states, additional);
    }

    pub fn states_try_reserve(&mut self, additional: usize) -> (r: Result<(), TryReserveError>)
        ensures
            final(self).timeline() == old(self).timeline(),
            final(self).wf() == old(self).wf(),
            old(self).spec_states_len() + additional > usize::MAX ==> r is Err,
    {
        deque::try_reserve(&mut self.states, additional)
    }

    pub fn states_try_reserve_exact(&mut self, additional: usize) -> (r: Result<(), TryReserveError>)
        ensures
            final(self).timeline() == old(self).timeline(),
            final(self).wf() == old(self).wf(),
            old(self).spec_states_len() + additional > usize::MAX ==> r is Err,
    {
        deque::try_reserve_exact(&mut self.states, additional)
    }

    pub fn states_shrink_to(&mut self, min_capacity: usize)
        ensures
            final(self).timeline() == old(self).timeline(),
            final(self).wf() == old(self).wf(),
    {
        deque::shrink_to(&mut self.states, min_capacity)
    }

    pub fn states_shrink_to_fit(&mut self)
        ensures
            final(self).timeline() == old(self).timeline(),
            final(self).wf() == old(self).wf(),
    {
        deque::shrink_to_fit(&mut self.states)
    }

    /// Drops the future, makes `state` the present state and the former present state the
    /// newest past state; returns the oldest past state when the past grew beyond
    /// `max_past_len`.
    pub fn push_and_pop_past(&mut self, max_past_len: usize, state: T) -> (popped: Option<T>)
        requires
            old(self).wf(),
        ensures
            final(self).wf(),
            ({
                let pushed = old(self).timeline().push(state);
                if old(self).timeline().past.len() >= max_past_len {
                    &&& popped == Some(pushed.past[0])
                    &&& final(self).timeline() == pushed.drop_past(1)
                } else {
                    &&& popped is None
                    &&& final(self).timeline() == pushed
                }
            }),
    {
        let ghost t = self.timeline();
        self.states.truncate(self.index);
        let before = deque::replace(&mut self.present, state);
        self.states.push_back(before);
        if self.index >= max_past_len {
            let popped = self.states.pop_front();
            proof {
                assert(self.timeline().past =~= t.push(state).past.skip(1));
                assert(self.timeline().future =~= Seq::<T>::empty());
            }
            popped
        } else {
            self.index = self.index + 1;
            proof {
                assert(self.timeline().past =~= t.push(state).past);
                assert(self.timeline().future =~= Seq::<T>::empty());
            }
            None
        }
    }

    /// Drops the future, makes `state` the present state and the former present state the
    /// newest past state; then removes and returns the oldest past states so that at most
    /// `max_past_len` remain.
    pub fn push_and_drain_past(&mut self, max_past_len: usize, state: T) -> (drained: VecDeque<T>)
        requires
            old(self).wf(),
        ensures
            final(self).wf(),
            ({
                let pushed = old(self).timeline().push(state);
                let n = if pushed.past.len() > max_past_len { pushed.past.len() - max_past_len } else { 0 };
                &&& drained@ == pushed.past.take(n as int)
                &&& final(self).timeline() == pushed.drop_past(n as nat)
            }),
    {
        let ghost t = self.timeline();
        self.states.truncate(self.index);
        let before = deque::replace(&mut self.present, state);
        self.states.push_back(before);
        self.index = self.states.len();
        let to_drain = self.index.saturating_sub(max_past_len);
        self.index = self.index - to_drain;
        let drained = deque::drain_front(&mut self.states, to_drain);
        proof {
            assert(self.timeline().past =~= t.push(state).past.skip(to_drain as int));
            assert(self.timeline().future =~= Seq::<T>::empty());
        }
        drained
    }

    /// Drops the future, makes `state` the present state and the former present state the
    /// newest past state.
    pub(crate) fn push(&mut self, state: T)
        requires
            old(self).wf(),
        ensures
            final(self).wf(),
            final(self).timeline() == old(self).timeline().push(state),
    {
        let ghost t = self.timeline();
        self.states.truncate(self.index);
        let before = deque::replace(&mut self.present, state);
        self.states.push_back(before);
        self.index = self.states.len();
        proof {
            assert(self.timeline().past =~= t.push(state).past);
            assert(self.timeline().future =~= Seq::<T>::empty());
        }
    }

    /// Removes the `to_drain` oldest past states and returns them.
    pub(crate) fn drain_past(&mut self, to_drain: usize) -> (drained: VecDeque<T>)
        requires
            old(self).wf(),
            to_drain <= old(self).timeline().past.len(),
        ensures
            final(self).wf(),
            drained@ == old(self).timeline().past.take(to_drain as int),
            final(self).timeline() == old(self).timeline().drop_past(to_drain as nat),
    {
        let ghost t = self.timeline();
        let drained = deque::drain_front(&mut self.states, to_drain);
        self.index = self.index - to_drain;
        proof {
            assert(drained@ =~= t.past.take(to_drain as int));
            assert(self.timeline().past =~= t.past.skip(to_drain as int));
            assert(self.timeline().future =~= t.future);
        }
        drained
    }

    /// Removes the future states and returns them, nearest first.
    pub fn drain_future(&mut self) -> (drained: VecDeque<T>)
        requires
            old(self).wf(),
        ensures
            final(self).wf(),
            drained@ == old(self).timeline().future,
            final(self).timeline() == old(self).timeline().without_future(),
    {
        let ghost t = self.timeline();
        let drained = deque::drain_from(&mut self.states, self.index);
        proof {
            assert(self.timeline().past =~= t.past);
            assert(self.timeline().future =~= Seq::<T>::empty());
        }
        drained
    }

    /// Removes the past and future states and keeps the present one.
    pub fn clear(&mut self)
        ensures
            final(self).wf(),
            final(self).timeline() == StateTimeline::only(old(self).timeline().present),
    {
        self.states.clear();
        self.index = 0;
        proof {
            assert(self.timeline().past =~= Seq::<T>::empty());
            assert(self.timeline().future =~= Seq::<T>::empty());
        }
    }

    /// Removes the past and future states and makes `present` the present state.
    pub fn clear_with(&mut self, present: T)
        ensures
            final(self).wf(),
            final(self).timeline() == StateTimeline::only(present),
    {
        self.states.clear();
        self.present = present;
        self.index = 0;
        proof {
            assert(self.timeline().past =~= Seq::<T>::empty());
            assert(self.timeline().future =~= Seq::<T>::empty());
        }
    }

    /// A log of `present` that stores its states in the empty deque `states`, keeping its
    /// allocation.
    pub(crate) fn with_deque(present: T, states: VecDeque<T>) -> (log: Self)
        requires
            states@.len() == 0,
        ensures
            log.wf(),
            log.timeline() == StateTimeline::only(present),
    {
        let log = DenseStateLog { states, present, index: 0 };
        proof {
            assert(log.timeline().past =~= Seq::<T>::empty());
            assert(log.timeline().future =~= Seq::<T>::empty());
        }
        log
    }

    /// The present state, to change without logging.
    pub(crate) fn present_mut(&mut self) -> (present: &mut T)
        requires
            old(self).wf(),
        ensures
            *present == old(self).timeline().present,
            final(self).wf(),
            final(self).timeline() == (StateTimeline { present: *final(present), ..old(self).timeline() }),
    {
        &mut self.present
    }

    /// Takes the log apart into its present state and its stored states, past before future.
    pub(crate) fn into_parts(self) -> (r: (T, VecDeque<T>))
        requires
            self.wf(),
        ensures
            r.0 == self.timeline().present,
            r.1@ == self.timeline().past + self.timeline().future,
    {
        proof {
            assert(self.states@ =~= self.states@.take(self.index as int) + self.states@.skip(self.index as int));
        }
        (self.present, self.states)
    }

    /// The past state at position `i`, counted from the oldest.
    pub(crate) fn past_at(&self, i: usize) -> (state: &T)
        requires
            self.wf(),
            i < self.timeline().past.len(),
        ensures
            *state == self.timeline().past[i as int],
    {
        &self.states[i]
    }

    /// The nearest future state, or `None` when there is none.
    pub(crate) fn future_first(&self) -> (state: Option<&T>)
        requires
            self.wf(),
        ensures
            self.timeline().future.len() == 0 ==> state is None,
            self.timeline().future.len() > 0 ==> state == Some(&self.timeline().future[0]),
    {
        if self.index < self.states.len() {
            Some(&self.states[self.index])
        } else {
            None
        }
    }

    /// Steps one state back, or fails when there is no past state.
    pub fn backward_log(&mut self) -> (r: Result<(), OutOfLog>)
        requires
            old(self).wf(),
        ensures
            final(self).wf(),
            r is Err <==> old(self).timeline().past.len() == 0,
            r is Ok ==> final(self).timeline() == old(self).timeline().backward(),
            r is Err ==> final(self).timeline() == old(self).timeline(),
    {
        if self.index == 0 {
            return Err(OutOfLog);
        }
        let ghost t = self.timeline();
        let index = self.index - 1;
        deque::swap_at(&mut self.states, index, &mut self.present);
        self.index = index;
        proof {
            assert(self.timeline().past =~= t.backward().past);
            assert(self.timeline().future =~= t.backward().future);
        }
        Ok(())
    }

    /// Steps one state forward, or fails when there is no future state.
    pub fn forward_log(&mut self) -> (r: Result<(), OutOfLog>)
        requires
            old(self).wf(),
        ensures
            final(self).wf(),
            r is Err <==> old(self).timeline().future.len() == 0,
            r is Ok ==> final(self).timeline() == old(self).timeline().forward(),
            r is Err ==> final(self).timeline() == old(self).timeline(),
    {
        if self.index >= self.states.len() {
            return Err(OutOfLog);
        }
        let ghost t = self.timeline();
        deque::swap_at(&mut self.states, self.index, &mut self.present);
        self.index = self.index + 1;
        proof {
            assert(self.timeline().past =~= t.forward().past);
            assert(self.timeline().future =~= t.forward().future);
        }
        Ok(())
    }
}

} // verus!
