//! A log of transitions with one transition for every push.
use std::collections::{TryReserveError, VecDeque};
use vstd::prelude::*;

use super::deque;
use super::{OutOfLog, PreLogUpdate};

verus! {

/// What a transition log holds: the transitions that led to the present, oldest first, and
/// the transitions that lead on from it, nearest first.
#[verifier::ext_equal]
pub ghost struct TransitionTimeline<T> {
    pub past: Seq<T>,
    pub future: Seq<T>,
}

impl<T> TransitionTimeline<T> {
    /// One step back: the newest past transition becomes the nearest future one.
    pub open spec fn backward(self) -> Self
        recommends
            self.past.len() > 0,
    {
        TransitionTimeline { past: self.past.drop_last(), future: seq![self.past.last()] + self.future }
    }

    /// One step forward: the nearest future transition becomes the newest past one.
    pub open spec fn forward(self) -> Self
        recommends
            self.future.len() > 0,
    {
        TransitionTimeline { past: self.past.push(self.future[0]), future: self.future.drop_first() }
    }

    /// Pushing a transition drops the future.
    pub open spec fn push(self, transition: T) -> Self {
        TransitionTimeline { past: self.past.push(transition), future: Seq::empty() }
    }

    pub open spec fn drop_past(self, n: nat) -> Self {
        TransitionTimeline { past: self.past.skip(n as int), future: self.future }
    }

    pub open spec fn without_future(self) -> Self {
        TransitionTimeline { past: self.past, future: Seq::empty() }
    }

    pub open spec fn empty() -> Self {
        TransitionTimeline { past: Seq::empty(), future: Seq::empty() }
    }
}

/// One step back, then one step forward, gives the timeline back.
pub proof fn lemma_transition_backward_then_forward<T>(t: TransitionTimeline<T>)
    requires
        t.past.len() > 0,
    ensures
        t.backward().forward() == t,
{
    assert(t.backward().forward().past =~= t.past);
    assert(t.backward().forward().future =~= t.future);
}

/// One step forward, then one step back, gives the timeline back.
pub proof fn lemma_transition_forward_then_backward<T>(t: TransitionTimeline<T>)
    requires
        t.future.len() > 0,
    ensures
        t.forward().backward() == t,
{
    assert(t.forward().backward().past =~= t.past);
    assert(t.forward().backward().future =~= t.future);
}

/// The first transition undone after a push is the pushed one, and redoing it gives the
/// pushed log back.
pub proof fn lemma_transition_push_then_backward<T>(t: TransitionTimeline<T>, transition: T)
    ensures
        t.push(transition).past.len() > 0,
        t.push(transition).past.last() == transition,
        t.push(transition).backward() == (TransitionTimeline { past: t.past, future: seq![transition] }),
        t.push(transition).backward().forward() == t.push(transition),
{
    assert(t.push(transition).backward().past =~= t.past);
    assert(t.push(transition).backward().future =~= seq![transition]);
    lemma_transition_backward_then_forward(t.push(transition));
}

/// A log of transitions with one transition per push.
#[derive(Clone, Debug)]
pub struct DenseTransitionLog<T> {
    transitions: VecDeque<T>,
    index: usize,
}

impl<T> DenseTransitionLog<T> {
    pub closed spec fn wf(&self) -> bool {
        self.index <= self.transitions@.len()
    }

    pub closed spec fn timeline(&self) -> TransitionTimeline<T> {
        TransitionTimeline {
            past: self.transitions@.take(self.index as int),
            future: self.transitions@.skip(self.index as int),
        }
    }

    /// All transitions, past then future.
    pub closed spec fn transitions(&self) -> Seq<T> {
        self.transitions@
    }

    pub proof fn lemma_transitions(&self)
        requires
            self.wf(),
        ensures
            self.transitions() == self.timeline().past + self.timeline().future,
            self.timeline().past.len() + self.timeline().future.len() == self.transitions().len(),
    {
        assert(self.transitions@ =~= self.timeline().past + self.timeline().future);
    }

    pub fn new() -> (log: Self)
        ensures
            log.wf(),
            log.timeline() == TransitionTimeline::<T>::empty(),
    {
        let log = DenseTransitionLog { transitions: VecDeque::new(), index: 0 };
        proof {
            assert(log.timeline().past =~= Seq::<T>::empty());
            assert(log.timeline().future =~= Seq::<T>::empty());
        }
        log
    }

    pub fn with_capacity(transitions_capacity: usize) -> (log: Self)
        ensures
            log.wf(),
            log.timeline() == TransitionTimeline::<T>::empty(),
    {
        let log = DenseTransitionLog { transitions: VecDeque::with_capacity(transitions_capacity), index: 0 };
        proof {
            assert(log.timeline().past =~= Seq::<T>::empty());
            assert(log.timeline().future =~= Seq::<T>::empty());
        }
        log
    }

    pub fn transitions_len(&self) -> (len: usize)
        ensures
            len == self.transitions().len(),
    {
        self.transitions.len()
    }

    pub fn transitions_capacity(&self) -> (capacity: usize)
        ensures
            capacity >= self.transitions().len(),
    {
        deque::capacity(&self.transitions)
    }

    pub fn transitions_is_empty(&self) -> (empty: bool)
        ensures
            empty == (self.transitions().len() == 0),
    {
        self.transitions.len() == 0
    }

    pub fn transitions_reserve(&mut self, additional: usize)
        ensures
            final(self).wf() == old(self).wf(),
            final(self).timeline() == old(self).timeline(),
            final(self).transitions() == old(self).transitions(),
    {
        self.transitions.reserve(additional)
    }

    pub fn transitions_reserve_exact(&mut self, additional: usize)
        requires
            old(self).transitions().len() + additional <= usize::MAX,
        ensures
            final(self).wf() == old(self).wf(),
            final(self).timeline() == old(self).timeline(),
            final(self).transitions() == old(self).transitions(),
    {
        deque::reserve_exact(&mut self.transitions, additional)
    }

    pub fn transitions_try_reserve(&mut self, additional: usize) -> (r: Result<(), TryReserveError>)
        ensures
            final(self).wf() == old(self).wf(),
            final(self).timeline() == old(self).timeline(),
            final(self).transitions() == old(self).transitions(),
            old(self).transitions().len() + additional > usize::MAX ==> r is Err,
    {
        deque::try_reserve(&mut self.transitions, additional)
    }

    pub fn transitions_try_reserve_exact(&mut self, additional: usize) -> (r: Result<(), TryReserveError>)
        ensures
            final(self).wf() == old(self).wf(),
            final(self).timeline() == old(self).timeline(),
            final(self).transitions() == old(self).transitions(),
            old(self).transitions().len() + additional > usize::MAX ==> r is Err,
    {
        deque::try_reserve_exact(&mut self.transitions, additional)
    }

    pub fn transitions_shrink_to(&mut self, min_capacity: usize)
        ensures
            final(self).wf() == old(self).wf(),
            final(self).timeline() == old(self).timeline(),
            final(self).transitions() == old(self).transitions(),
    {
        deque::shrink_to(&mut self.transitions, min_capacity)
    }

    pub fn transitions_shrink_to_fit(&mut self)
        ensures
            final(self).wf() == old(self).wf(),
            final(self).timeline() == old(self).timeline(),
            final(self).transitions() == old(self).transitions(),
    {
        deque::shrink_to_fit(&mut self.transitions)
    }

    /// Drops the future and pushes `transition` as the newest past one.
    pub(crate) fn push(&mut self, transition: T)
        requires
            old(self).wf(),
        ensures
            final(self).wf(),
            final(self).timeline() == old(self).timeline().push(transition),
    {
        let ghost t = self.timeline();
        self.transitions.truncate(self.index);
        self.transitions.push_back(transition);
        self.index = self.transitions.len();
        proof {
            assert(self.timeline().past =~= t.push(transition).past);
            assert(self.timeline().future =~= Seq::<T>::empty());
        }
    }

    /// Drops the future, pushes `transition` and returns the oldest past transition when the
    /// past grew beyond `max_past_len`.
    pub fn push_and_pop_past(&mut self, max_past_len: usize, transition: T) -> (popped: Option<T>)
        requires
            old(self).wf(),
        ensures
            final(self).wf(),
            ({
                let pushed = old(self).timeline().push(transition);
                if old(self).timeline().past.len() >= max_past_len {
                    &&& popped == Some(pushed.past[0])
                    &&& final(self).timeline() == pushed.drop_past(1)
                } else {
                    &&& popped is None
                    &&& final(self).timeline() == pushed
                }
            }),
    {
        let ghost t = self.timeline();
        self.transitions.truncate(self.index);
        self.transitions.push_back(transition);
        if self.index >= max_past_len {
            let popped = self.transitions.pop_front();
            proof {
                assert(self.timeline().past =~= t.push(transition).past.skip(1));
                assert(self.timeline().future =~= Seq::<T>::empty());
            }
            popped
        } else {
            self.index = self.transitions.len();
            proof {
                assert(self.timeline().past =~= t.push(transition).past);
                assert(self.timeline().future =~= Seq::<T>::empty());
            }
            None
        }
    }

    /// Drops the future, pushes `transition`, then removes and returns the oldest past
    /// transitions so that at most `max_past_len` remain.
    pub fn push_and_drain_past(&mut self, max_past_len: usize, transition: T) -> (drained: VecDeque<T>)
        requires
            old(self).wf(),
        ensures
            final(self).wf(),
            ({
                let pushed = old(self).timeline().push(transition);
                let n = if pushed.past.len() > max_past_len { pushed.past.len() - max_past_len } else { 0 };
                &&& drained@ == pushed.past.take(n as int)
                &&& final(self).timeline() == pushed.drop_past(n as nat)
            }),
    {
        let ghost t = self.timeline();
        self.transitions.truncate(self.index);
        self.transitions.push_back(transition);
        let to_drain = self.transitions.len().saturating_sub(max_past_len);
        self.index = self.transitions.len() - to_drain;
        let drained = deque::drain_front(&mut self.transitions, to_drain);
        proof {
            assert(self.timeline().past =~= t.push(transition).past.skip(to_drain as int));
            assert(self.timeline().future =~= Seq::<T>::empty());
        }
        drained
    }

    /// Removes the `to_drain` oldest past transitions and returns them.
    pub(crate) fn drain_past(&mut self, to_drain: usize) -> (drained: VecDeque<T>)
        requires
            old(self).wf(),
            to_drain <= old(self).timeline().past.len(),
        ensures
            final(self).wf(),
            drained@ == old(self).timeline().past.take(to_drain as int),
            final(self).timeline() == old(self).timeline().drop_past(to_drain as nat),
    {
        let ghost t = self.timeline();
        let drained = deque::drain_front(&mut self.transitions, to_drain);
        self.index = self.index - to_drain;
        proof {
            assert(drained@ =~= t.past.take(to_drain as int));
            assert(self.timeline().past =~= t.past.skip(to_drain as int));
            assert(self.timeline().future =~= t.future);
        }
        drained
    }

    /// Drops the future transitions.
    pub fn truncate_future(&mut self)
        requires
            old(self).wf(),
        ensures
            final(self).wf(),
            final(self).timeline() == old(self).timeline().without_future(),
    {
        let ghost t = self.timeline();
        self.transitions.truncate(self.index);
        proof {
            assert(self.timeline().past =~= t.past);
            assert(self.timeline().future =~= Seq::<T>::empty());
        }
    }

    /// Removes the future transitions and returns them, nearest first.
    pub fn drain_future(&mut self) -> (drained: VecDeque<T>)
        requires
            old(self).wf(),
        ensures
            final(self).wf(),
            drained@ == old(self).timeline().future,
            final(self).timeline() == old(self).timeline().without_future(),
    {
        let ghost t = self.timeline();
        let drained = deque::drain_from(&mut self.transitions, self.index);
        proof {
            assert(self.timeline().past =~= t.past);
            assert(self.timeline().future =~= Seq::<T>::empty());
        }
        drained
    }

    /// Removes all transitions.
    pub fn clear(&mut self)
        ensures
            final(self).wf(),
            final(self).timeline() == TransitionTimeline::<T>::empty(),
    {
        self.transitions.clear();
        self.index = 0;
        proof {
            assert(self.timeline().past =~= Seq::<T>::empty());
            assert(self.timeline().future =~= Seq::<T>::empty());
        }
    }

    /// Steps back over the newest past transition and hands it out to be undone, or fails when
    /// there is no past transition.
    pub fn backward_log(&mut self) -> (r: Result<&mut T, OutOfLog>)
        requires
            old(self).wf(),
        ensures
            final(self).wf(),
            old(self).timeline().past.len() == 0 ==> r is Err && final(self).timeline() == old(self).timeline(),
            old(self).timeline().past.len() > 0 ==> r is Ok && ({
                let t = old(self).timeline();
                let transition = r->Ok_0;
                &&& *transition == t.past.last()
                &&& final(self).timeline() == TransitionTimeline {
                    past: t.past.drop_last(),
                    future: seq![*final(transition)] + t.future,
                }
            }),
    {
        if self.index == 0 {
            return Err(OutOfLog);
        }
        let index = self.index - 1;
        self.index = index;
        let transition = deque::get_mut(&mut self.transitions, index);
        Ok(transition)
    }

    /// Steps forward over the nearest future transition and hands it out to be redone, or
    /// fails when there is no future transition.
    pub fn forward_log(&mut self) -> (r: Result<&mut T, OutOfLog>)
        requires
            old(self).wf(),
        ensures
            final(self).wf(),
            old(self).timeline().future.len() == 0 ==> r is Err && final(self).timeline() == old(self).timeline(),
            old(self).timeline().future.len() > 0 ==> r is Ok && ({
                let t = old(self).timeline();
                let transition = r->Ok_0;
                &&& *transition == t.future[0]
                &&& final(self).timeline() == TransitionTimeline {
                    past: t.past.push(*final(transition)),
                    future: t.future.drop_first(),
                }
            }),
    {
        if self.index >= self.transitions.len() {
            return Err(OutOfLog);
        }
        let index = self.index;
        self.index = index + 1;
        let transition = deque::get_mut(&mut self.transitions, index);
        Ok(transition)
    }

    /// Prepares the log for an update: clears it or drops its future as `update` says.
    pub fn pre_update(&mut self, update: PreLogUpdate)
        requires
            old(self).wf(),
        ensures
            final(self).wf(),
            update == PreLogUpdate::Clear ==> final(self).timeline() == TransitionTimeline::<T>::empty(),
            update == PreLogUpdate::TruncateOrDrainFuture ==> final(self).timeline() == old(self).timeline().without_future(),
            update == PreLogUpdate::Nothing ==> final(self).timeline() == old(self).timeline(),
    {
        match update {
            PreLogUpdate::Clear => {
                self.clear();
            },
            PreLogUpdate::TruncateOrDrainFuture => {
                self.truncate_future();
            },
            PreLogUpdate::Nothing => {},
        }
    }

    /// Like `pre_update`, but returns the past transitions that a clear removes.
    pub fn pre_update_drain_past(&mut self, update: PreLogUpdate) -> (drained: VecDeque<T>)
        requires
            old(self).wf(),
        ensures
            final(self).wf(),
            update == PreLogUpdate::Clear ==> drained@ == old(self).timeline().past
                && final(self).timeline() == TransitionTimeline::<T>::empty(),
            update == PreLogUpdate::TruncateOrDrainFuture ==> drained@.len() == 0
                && final(self).timeline() == old(self).timeline().without_future(),
            update == PreLogUpdate::Nothing ==> drained@.len() == 0 && final(self).timeline() == old(self).timeline(),
    {
        match update {
            PreLogUpdate::Clear => {
                let ghost t = self.timeline();
                self.transitions.truncate(self.index);
                self.index = 0;
                let drained = deque::drain_from(&mut self.transitions, 0);
                proof {
                    assert(drained@ =~= t.past);
                    assert(self.timeline().past =~= Seq::<T>::empty());
                    assert(self.timeline().future =~= Seq::<T>::empty());
                }
                drained
            },
            PreLogUpdate::TruncateOrDrainFuture => {
                self.truncate_future();
                VecDeque::new()
            },
            PreLogUpdate::Nothing => VecDeque::new(),
        }
    }

    /// Like `pre_update`, but returns the future transitions that it removes.
    pub fn pre_update_drain_future(&mut self, update: PreLogUpdate) -> (drained: VecDeque<T>)
        requires
            old(self).wf(),
        ensures
            final(self).wf(),
            update == PreLogUpdate::Clear ==> drained@ == old(self).timeline().future
                && final(self).timeline() == TransitionTimeline::<T>::empty(),
            update == PreLogUpdate::TruncateOrDrainFuture ==> drained@ == old(self).timeline().future
                && final(self).timeline() == old(self).timeline().without_future(),
            update == PreLogUpdate::Nothing ==> drained@.len() == 0 && final(self).timeline() == old(self).timeline(),
    {
        match update {
            PreLogUpdate::Clear => {
                let ghost t = self.timeline();
                let _past = deque::drain_front(&mut self.transitions, self.index);
                self.index = 0;
                let drained = deque::drain_from(&mut self.transitions, 0);
                proof {
                    assert(drained@ =~= t.future);
                    assert(self.timeline().past =~= Seq::<T>::empty());
                    assert(self.timeline().future =~= Seq::<T>::empty());
                }
                drained
            },
            PreLogUpdate::TruncateOrDrainFuture => self.drain_future(),
            PreLogUpdate::Nothing => VecDeque::new(),
        }
    }

    /// Steps one transition back without handing it out.
    pub(crate) fn step_backward(&mut self) -> (r: Result<(), OutOfLog>)
        requires
            old(self).wf(),
        ensures
            final(self).wf(),
            r is Err <==> old(self).timeline().past.len() == 0,
            r is Ok ==> final(self).timeline() == old(self).timeline().backward(),
            r is Err ==> final(self).timeline() == old(self).timeline(),
            final(self).transitions() == old(self).transitions(),
    {
        if self.index == 0 {
            return Err(OutOfLog);
        }
        let ghost t = self.timeline();
        self.index = self.index - 1;
        proof {
            assert(self.timeline().past =~= t.backward().past);
            assert(self.timeline().future =~= t.backward().future);
        }
        Ok(())
    }

    /// Steps one transition forward without handing it out.
    pub(crate) fn step_forward(&mut self) -> (r: Result<(), OutOfLog>)
        requires
            old(self).wf(),
        ensures
            final(self).wf(),
            r is Err <==> old(self).timeline().future.len() == 0,
            r is Ok ==> final(self).timeline() == old(self).timeline().forward(),
            r is Err ==> final(self).timeline() == old(self).timeline(),
            final(self).transitions() == old(self).transitions(),
    {
        if self.index >= self.transitions.len() {
            return Err(OutOfLog);
        }
        let ghost t = self.timeline();
        self.index = self.index + 1;
        proof {
            assert(self.timeline().past =~= t.forward().past);
            assert(self.timeline().future =~= t.forward().future);
        }
        Ok(())
    }

    /// The nearest future transition.
    pub(crate) fn future_first(&self) -> (first: &T)
        requires
            self.wf(),
            self.timeline().future.len() > 0,
        ensures
            *first == self.timeline().future[0],
    {
        &self.transitions[self.index]
    }

    /// The newest past transition.
    pub(crate) fn past_last(&self) -> (last: &T)
        requires
            self.wf(),
            self.timeline().past.len() > 0,
        ensures
            *last == self.timeline().past.last(),
    {
        &self.transitions[self.index - 1]
    }
}

} // verus!
