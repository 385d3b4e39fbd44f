//! Logs of transitions that happen rarely: a push may hold no transition, which only counts a
//! skip before the next stored transition.
use std::collections::{TryReserveError, VecDeque};
use vstd::prelude::*;

use super::deque;
use super::rare_state::{
    lemma_rare_drain_count_bound, lemma_rare_len_sum_append, lemma_rare_len_sum_bounds,
    lemma_rare_len_sum_first, rare_drain_count, rare_len, rare_len_sum, rare_values, RareValue,
};
use super::OutOfLog;

verus! {

/// What a rare transition log holds.
#[verifier::ext_equal]
pub ghost struct RareTransitionView<T> {
    /// Past entries before `index`, future entries from `index` on; each holds a transition and
    /// the pushes without a transition before it.
    pub transitions: Seq<RareValue<T>>,
    pub index: int,
    /// The pushes without a transition since the newest past transition.
    pub skips: int,
    /// The pushes without a transition that the log holds after its newest transition.
    pub skips_max: int,
    /// The number of pushes in the past.
    pub past_len: int,
}

impl<T> RareTransitionView<T> {
    /// The counts agree with the entries.
    pub open spec fn wf(self) -> bool {
        &&& 0 <= self.index <= self.transitions.len()
        &&& 0 <= self.skips
        &&& 0 <= self.skips_max <= usize::MAX
        &&& self.index < self.transitions.len() ==> self.skips <= self.transitions[self.index].skips
        &&& self.index == self.transitions.len() ==> self.skips <= self.skips_max
        &&& self.past_len == rare_len_sum(self.transitions.take(self.index)) + self.skips
    }

    /// The log after a push of `transition`, or of no transition for `None`; the future is
    /// dropped.
    pub open spec fn push(self, transition: Option<T>) -> Self {
        let past = self.transitions.take(self.index);
        match transition {
            None => RareTransitionView {
                transitions: past,
                skips: self.skips + 1,
                skips_max: self.skips + 1,
                past_len: self.past_len + 1,
                ..self
            },
            Some(x) => RareTransitionView {
                transitions: past.push(RareValue { value: x, skips: self.skips as usize }),
                index: self.index + 1,
                skips: 0,
                skips_max: 0,
                past_len: self.past_len + 1,
            },
        }
    }

    /// Whether one step back is possible.
    pub open spec fn can_backward(self) -> bool {
        self.skips > 0 || self.index > 0
    }

    /// Whether one step forward is possible.
    pub open spec fn can_forward(self) -> bool {
        self.index < self.transitions.len() || self.skips < self.skips_max
    }

    /// Whether a step back goes over a stored transition.
    pub open spec fn backward_hands_out(self) -> bool {
        self.skips == 0 && self.index > 0
    }

    /// Whether a step forward goes over a stored transition.
    pub open spec fn forward_hands_out(self) -> bool {
        self.index < self.transitions.len() && self.skips >= self.transitions[self.index].skips
    }

    /// The log after one step back, with the transitions as they were.
    pub open spec fn backward(self) -> Self
        recommends
            self.can_backward(),
    {
        if self.skips > 0 {
            RareTransitionView { skips: self.skips - 1, past_len: self.past_len - 1, ..self }
        } else {
            RareTransitionView {
                index: self.index - 1,
                skips: self.transitions[self.index - 1].skips as int,
                past_len: self.past_len - 1,
                ..self
            }
        }
    }

    /// The log after one step forward, with the transitions as they were.
    pub open spec fn forward(self) -> Self
        recommends
            self.can_forward(),
    {
        if self.forward_hands_out() {
            RareTransitionView { index: self.index + 1, skips: 0, past_len: self.past_len + 1, ..self }
        } else {
            RareTransitionView { skips: self.skips + 1, past_len: self.past_len + 1, ..self }
        }
    }

    /// The log with the transition at `i` replaced by `value`.
    pub open spec fn with_transition(self, i: int, value: T) -> Self {
        RareTransitionView {
            transitions: self.transitions.update(i, RareValue { value, skips: self.transitions[i].skips }),
            ..self
        }
    }

    /// The log without its `n` oldest past entries.
    pub open spec fn drop_past(self, n: int) -> Self {
        RareTransitionView {
            transitions: self.transitions.skip(n),
            index: self.index - n,
            past_len: self.past_len - rare_len_sum(self.transitions.take(n)),
            ..self
        }
    }

    /// The number of oldest past entries that a log keeping `max_past_len` pushes drops.
    pub open spec fn drain_count(self, max_past_len: usize) -> nat {
        rare_drain_count(self.transitions.take(self.index), self.past_len, max_past_len as int)
    }

    /// Whether the oldest past entry goes when the log keeps `max_past_len` pushes.
    pub open spec fn pops(self, max_past_len: usize) -> bool {
        &&& self.index > 0
        &&& self.past_len > max_past_len
        &&& self.past_len - max_past_len >= rare_len(self.transitions[0])
    }
}

/// Going back one step, then forward one step, restores the log, and both steps go over the
/// same stored transition or both over none.
pub proof fn lemma_rare_transition_backward_then_forward<T>(v: RareTransitionView<T>)
    requires
        v.wf(),
        v.can_backward(),
    ensures
        v.backward().wf(),
        v.backward().can_forward(),
        v.backward().forward_hands_out() == v.backward_hands_out(),
        v.backward().forward() == v,
{
    if v.skips == 0 {
        let p = v.transitions.take(v.index);
        assert(p.drop_last() =~= v.transitions.take(v.index - 1));
    }
}

/// Going forward one step, then back one step, restores the log, and both steps go over the
/// same stored transition or both over none.
pub proof fn lemma_rare_transition_forward_then_backward<T>(v: RareTransitionView<T>)
    requires
        v.wf(),
        v.can_forward(),
    ensures
        v.forward().wf(),
        v.forward().can_backward(),
        v.forward().backward_hands_out() == v.forward_hands_out(),
        v.forward().backward() == v,
{
    let p = v.transitions.take(v.index);
    if v.forward_hands_out() {
        let entry = v.transitions[v.index];
        assert(v.transitions.take(v.index + 1) =~= p.push(entry));
        lemma_rare_len_sum_append(p, seq![entry]);
        reveal_with_fuel(rare_len_sum, 2);
        assert(seq![entry].drop_last() =~= Seq::<RareValue<T>>::empty());
        assert(p.push(entry) =~= p + seq![entry]);
    }
}

/// The first step back after a push undoes that push: it hands out the pushed transition, or
/// nothing for a push without one, and leaves the past as it was before the push.
pub proof fn lemma_rare_transition_push_then_backward<T>(v: RareTransitionView<T>, transition: Option<T>)
    requires
        v.wf(),
        v.past_len < usize::MAX,
    ensures
        v.push(transition).wf(),
        v.push(transition).can_backward(),
        v.push(transition).backward_hands_out() == (transition is Some),
        transition is Some ==> v.push(transition).transitions[v.index].value == transition->Some_0,
        ({
            let b = v.push(transition).backward();
            &&& b.index == v.index
            &&& b.skips == v.skips
            &&& b.past_len == v.past_len
            &&& b.transitions.take(b.index) == v.transitions.take(v.index)
        }),
{
    let p = v.transitions.take(v.index);
    lemma_rare_len_sum_bounds(p);
    match transition {
        None => {
            assert(p.take(v.index) =~= p);
        },
        Some(x) => {
            let entry = RareValue { value: x, skips: v.skips as usize };
            let pushed = v.push(transition);
            assert(pushed.transitions.take(pushed.index) =~= p.push(entry));
            assert(p.push(entry) =~= p + seq![entry]);
            lemma_rare_len_sum_append(p, seq![entry]);
            reveal_with_fuel(rare_len_sum, 2);
            assert(seq![entry].drop_last() =~= Seq::<RareValue<T>>::empty());
            assert(pushed.transitions.take(v.index) =~= p);
        },
    }
}

/// Replacing the value of an entry keeps the number of pushes the entries stand for.
proof fn lemma_rare_len_sum_update<T>(s: Seq<RareValue<T>>, j: int, x: T)
    requires
        0 <= j < s.len(),
    ensures
        rare_len_sum(s.update(j, RareValue { value: x, skips: s[j].skips })) == rare_len_sum(s),
    decreases s.len(),
{
    let u = s.update(j, RareValue { value: x, skips: s[j].skips });
    if j < s.len() - 1 {
        lemma_rare_len_sum_update(s.drop_last(), j, x);
        assert(u.drop_last() =~= s.drop_last().update(j, RareValue { value: x, skips: s[j].skips }));
    } else {
        assert(u.drop_last() =~= s.drop_last());
    }
}

/// Replacing the value of an entry keeps the pushes that any prefix of the entries stands for.
proof fn lemma_rare_len_sum_take_update<T>(s: Seq<RareValue<T>>, i: int, n: int)
    requires
        0 <= i < s.len(),
        0 <= n <= s.len(),
    ensures
        forall|y: RareValue<T>| #![trigger s.update(i, y)]
            y.skips == s[i].skips ==> rare_len_sum(s.update(i, y).take(n)) == rare_len_sum(s.take(n)),
{
    assert forall|y: RareValue<T>| #![trigger s.update(i, y)]
        y.skips == s[i].skips implies rare_len_sum(s.update(i, y).take(n)) == rare_len_sum(s.take(n)) by {
        let p = s.take(n);
        if i < n {
            assert(s.update(i, y).take(n) =~= p.update(i, RareValue { value: y.value, skips: p[i].skips }));
            lemma_rare_len_sum_update(p, i, y.value);
        } else {
            assert(s.update(i, y).take(n) =~= p);
        }
    }
}

/// A log of transitions where a push may hold no transition; each stored transition counts
/// the pushes without a transition before it.
#[derive(Clone, Debug)]
pub struct RareTransitionLog<T> {
    transitions: VecDeque<RareValue<T>>,
    index: usize,
    skips: usize,
    skips_max: usize,
    past_len: usize,
}

impl<T> RareTransitionLog<T> {
    pub closed spec fn view(&self) -> RareTransitionView<T> {
        RareTransitionView {
            transitions: self.transitions@,
            index: self.index as int,
            skips: self.skips as int,
            skips_max: self.skips_max as int,
            past_len: self.past_len as int,
        }
    }

    pub open spec fn wf(&self) -> bool {
        self@.wf()
    }

    pub fn new() -> (log: Self)
        ensures
            log.wf(),
            log@ == (RareTransitionView::<T> { transitions: Seq::empty(), index: 0, skips: 0, skips_max: 0, past_len: 0 }),
    {
        let log = RareTransitionLog { transitions: VecDeque::new(), index: 0, skips: 0, skips_max: 0, past_len: 0 };
        proof {
            assert(log.transitions@.take(0) =~= Seq::<RareValue<T>>::empty());
        }
        log
    }

    pub fn with_capacity(transitions_capacity: usize) -> (log: Self)
        ensures
            log.wf(),
            log@ == (RareTransitionView::<T> { transitions: Seq::empty(), index: 0, skips: 0, skips_max: 0, past_len: 0 }),
    {
        let log = RareTransitionLog {
            transitions: VecDeque::with_capacity(transitions_capacity),
            index: 0,
            skips: 0,
            skips_max: 0,
            past_len: 0,
        };
        proof {
            assert(log.transitions@.take(0) =~= Seq::<RareValue<T>>::empty());
        }
        log
    }

    pub fn transitions_len(&self) -> (len: usize)
        ensures
            len == self@.transitions.len(),
    {
        self.transitions.len()
    }

    pub fn transitions_capacity(&self) -> (capacity: usize)
        ensures
            capacity >= self@.transitions.len(),
    {
        deque::capacity(&self.transitions)
    }

    pub fn transitions_is_empty(&self) -> (empty: bool)
        ensures
            empty == (self@.transitions.len() == 0),
    {
        self.transitions.len() == 0
    }

    pub fn transitions_reserve(&mut self, additional: usize)
        ensures
            final(self)@ == old(self)@,
    {
        self.transitions.reserve(additional)
    }

    pub fn transitions_reserve_exact(&mut self, additional: usize)
        requires
            old(self)@.transitions.len() + additional <= usize::MAX,
        ensures
            final(self)@ == old(self)@,
    {
        deque::reserve_exact(&mut self.transitions, additional)
    }

    pub fn transitions_try_reserve(&mut self, additional: usize) -> (r: Result<(), TryReserveError>)
        ensures
            final(self)@ == old(self)@,
            old(self)@.transitions.len() + additional > usize::MAX ==> r is Err,
    {
        deque::try_reserve(&mut self.transitions, additional)
    }

    pub fn transitions_try_reserve_exact(&mut self, additional: usize) -> (r: Result<(), TryReserveError>)
        ensures
            final(self)@ == old(self)@,
            old(self)@.transitions.len() + additional > usize::MAX ==> r is Err,
    {
        deque::try_reserve_exact(&mut self.transitions, additional)
    }

    pub fn transitions_shrink_to(&mut self, min_capacity: usize)
        ensures
            final(self)@ == old(self)@,
    {
        deque::shrink_to(&mut self.transitions, min_capacity)
    }

    pub fn transitions_shrink_to_fit(&mut self)
        ensures
            final(self)@ == old(self)@,
    {
        deque::shrink_to_fit(&mut self.transitions)
    }

    /// Removes the future entries and returns their transitions, nearest first; the pushes
    /// without a transition after the present ones are dropped too.
    pub fn drain_future(&mut self) -> (drained: Vec<T>)
        requires
            old(self).wf(),
        ensures
            final(self).wf(),
            drained@ == old(self)@.transitions.skip(old(self)@.index).map_values(|e: RareValue<T>| e.value),
            final(self)@ == (RareTransitionView {
                transitions: old(self)@.transitions.take(old(self)@.index),
                skips_max: old(self)@.skips,
                ..old(self)@
            }),
    {
        self.skips_max = self.skips;
        let drained = deque::drain_from(&mut self.transitions, self.index);
        proof {
            assert(self.transitions@.take(self.index as int) =~= old(self).transitions@.take(self.index as int));
        }
        rare_values(drained)
    }

    /// Removes all entries.
    pub fn clear(&mut self)
        ensures
            final(self).wf(),
            final(self)@ == (RareTransitionView::<T> { transitions: Seq::empty(), index: 0, skips: 0, skips_max: 0, past_len: 0 }),
    {
        self.transitions.clear();
        self.index = 0;
        self.past_len = 0;
        self.skips = 0;
        self.skips_max = 0;
        proof {
            assert(self.transitions@.take(0) =~= Seq::<RareValue<T>>::empty());
        }
    }

    /// Pushes `transition`, or counts a push without a transition for `None`; drops the
    /// future.
    pub fn push_present(&mut self, transition: Option<T>)
        requires
            old(self).wf(),
            old(self)@.past_len < usize::MAX,
        ensures
            final(self).wf(),
            final(self)@ == old(self)@.push(transition),
    {
        let ghost v = self@;
        self.transitions.truncate(self.index);
        proof {
            lemma_rare_len_sum_bounds(v.transitions.take(v.index));
            assert(self.transitions@ =~= v.transitions.take(v.index));
        }
        match transition {
            None => {
                self.skips = self.skips + 1;
                self.past_len = self.past_len + 1;
                proof {
                    assert(self.transitions@.take(self.index as int) =~= self.transitions@);
                }
            },
            Some(transition) => {
                self.transitions.push_back(RareValue::new(transition, self.skips));
                self.index = self.index + 1;
                self.skips = 0;
                self.past_len = self.past_len + 1;
                proof {
                    let entry = RareValue { value: transition, skips: v.skips as usize };
                    assert(self.transitions@.take(self.index as int) =~= v.transitions.take(v.index).push(entry));
                    lemma_rare_len_sum_append(v.transitions.take(v.index), seq![entry]);
                    reveal_with_fuel(rare_len_sum, 2);
                    assert(seq![entry].drop_last() =~= Seq::<RareValue<T>>::empty());
                    assert(v.transitions.take(v.index).push(entry) =~= v.transitions.take(v.index) + seq![entry]);
                }
            },
        }
        self.skips_max = self.skips;
    }

    /// Steps one push back. Hands out the transition stepped over to be undone, `None` for a
    /// push without a transition, or fails when there is no past push.
    pub fn backward_log(&mut self) -> (r: Result<Option<&mut T>, OutOfLog>)
        requires
            old(self).wf(),
        ensures
            final(self).wf(),
            !old(self)@.can_backward() ==> r is Err && final(self)@ == old(self)@,
            old(self)@.can_backward() && !old(self)@.backward_hands_out() ==> r == Ok::<Option<&mut T>, OutOfLog>(None)
                && final(self)@ == old(self)@.backward(),
            old(self)@.backward_hands_out() ==> r is Ok && r->Ok_0 is Some && ({
                let transition = r->Ok_0->Some_0;
                let i = old(self)@.index - 1;
                &&& *transition == old(self)@.transitions[i].value
                &&& final(self)@ == old(self)@.backward().with_transition(i, *final(transition))
            }),
    {
        let ghost v = self@;
        proof {
            lemma_rare_len_sum_bounds(v.transitions.take(v.index));
        }
        if self.skips > 0 {
            self.skips = self.skips - 1;
            self.past_len = self.past_len - 1;
            return Ok(None);
        }
        if self.index == 0 {
            return Err(OutOfLog);
        }
        let index = self.index - 1;
        proof {
            let p = v.transitions.take(v.index);
            assert(p.drop_last() =~= v.transitions.take(index as int));
            lemma_rare_len_sum_bounds(p.drop_last());
        }
        self.index = index;
        self.skips = self.transitions[index].skips;
        self.past_len = self.past_len - 1;
        proof {
            lemma_rare_len_sum_take_update(v.transitions, index as int, index as int);
        }
        let entry = deque::get_mut(&mut self.transitions, index);
        Ok(Some(&mut entry.value))
    }

    /// Steps one push forward. Hands out the transition stepped over to be redone, `None` for
    /// a push without a transition, or fails when there is no future push.
    pub fn forward_log(&mut self) -> (r: Result<Option<&mut T>, OutOfLog>)
        requires
            old(self).wf(),
            old(self)@.past_len < usize::MAX,
        ensures
            final(self).wf(),
            !old(self)@.can_forward() ==> r is Err && final(self)@ == old(self)@,
            old(self)@.can_forward() && !old(self)@.forward_hands_out() ==> r == Ok::<Option<&mut T>, OutOfLog>(None)
                && final(self)@ == old(self)@.forward(),
            old(self)@.forward_hands_out() ==> r is Ok && r->Ok_0 is Some && ({
                let transition = r->Ok_0->Some_0;
                let i = old(self)@.index;
                &&& *transition == old(self)@.transitions[i].value
                &&& final(self)@ == old(self)@.forward().with_transition(i, *final(transition))
            }),
    {
        let ghost v = self@;
        if self.index < self.transitions.len() {
            self.past_len = self.past_len + 1;
            let index = self.index;
            if self.skips < self.transitions[index].skips {
                self.skips = self.skips + 1;
                Ok(None)
            } else {
                self.index = index + 1;
                self.skips = 0;
                proof {
                    let entry = v.transitions[v.index];
                    let p = v.transitions.take(v.index);
                    assert(v.transitions.take(v.index + 1) =~= p.push(entry));
                    lemma_rare_len_sum_append(p, seq![entry]);
                    reveal_with_fuel(rare_len_sum, 2);
                    assert(seq![entry].drop_last() =~= Seq::<RareValue<T>>::empty());
                    assert(p.push(entry) =~= p + seq![entry]);
                    lemma_rare_len_sum_take_update(v.transitions, index as int, index as int + 1);
                }
                let entry = deque::get_mut(&mut self.transitions, index);
                Ok(Some(&mut entry.value))
            }
        } else if self.skips < self.skips_max {
            self.past_len = self.past_len + 1;
            self.skips = self.skips + 1;
            Ok(None)
        } else {
            Err(OutOfLog)
        }
    }

    /// The position of the log among its entries.
    pub(crate) fn index(&self) -> (index: usize)
        ensures
            index == self@.index,
    {
        self.index
    }

    /// The transition stored at position `i`.
    pub(crate) fn transition_at(&self, i: usize) -> (transition: &T)
        requires
            i < self@.transitions.len(),
        ensures
            *transition == self@.transitions[i as int].value,
    {
        &self.transitions[i].value
    }

    /// The oldest past transition, or `None` when the log stands at its past end.
    pub(crate) fn past_end(&self) -> (r: Option<&T>)
        requires
            self.wf(),
        ensures
            self@.index == 0 ==> r is None,
            self@.index > 0 ==> r == Some(&self@.transitions[0].value),
    {
        if self.index == 0 {
            None
        } else {
            Some(&self.transitions[0].value)
        }
    }

    /// Steps one push back without handing anything out; tells whether the step went over a
    /// stored transition, or fails when there is no past push.
    pub(crate) fn step_backward(&mut self) -> (r: Result<bool, OutOfLog>)
        requires
            old(self).wf(),
        ensures
            final(self).wf(),
            !old(self)@.can_backward() ==> r is Err && final(self)@ == old(self)@,
            old(self)@.can_backward() ==> r == Ok::<bool, OutOfLog>(old(self)@.backward_hands_out())
                && final(self)@ == old(self)@.backward(),
    {
        let ghost v = self@;
        proof {
            lemma_rare_len_sum_bounds(v.transitions.take(v.index));
        }
        if self.skips > 0 {
            self.skips = self.skips - 1;
            self.past_len = self.past_len - 1;
            return Ok(false);
        }
        if self.index == 0 {
            return Err(OutOfLog);
        }
        let index = self.index - 1;
        proof {
            let p = v.transitions.take(v.index);
            assert(p.drop_last() =~= v.transitions.take(index as int));
            lemma_rare_len_sum_bounds(p.drop_last());
        }
        self.index = index;
        self.skips = self.transitions[index].skips;
        self.past_len = self.past_len - 1;
        Ok(true)
    }

    /// Steps one push forward without handing anything out; tells whether the step went over
    /// a stored transition, or fails when there is no future push.
    pub(crate) fn step_forward(&mut self) -> (r: Result<bool, OutOfLog>)
        requires
            old(self).wf(),
            old(self)@.past_len < usize::MAX,
        ensures
            final(self).wf(),
            !old(self)@.can_forward() ==> r is Err && final(self)@ == old(self)@,
            old(self)@.can_forward() ==> r == Ok::<bool, OutOfLog>(old(self)@.forward_hands_out())
                && final(self)@ == old(self)@.forward(),
    {
        let ghost v = self@;
        if self.index < self.transitions.len() {
            self.past_len = self.past_len + 1;
            let index = self.index;
            if self.skips < self.transitions[index].skips {
                self.skips = self.skips + 1;
                Ok(false)
            } else {
                self.index = index + 1;
                self.skips = 0;
                proof {
                    let entry = v.transitions[v.index];
                    let p = v.transitions.take(v.index);
                    assert(v.transitions.take(v.index + 1) =~= p.push(entry));
                    lemma_rare_len_sum_append(p, seq![entry]);
                    reveal_with_fuel(rare_len_sum, 2);
                    assert(seq![entry].drop_last() =~= Seq::<RareValue<T>>::empty());
                    assert(p.push(entry) =~= p + seq![entry]);
                }
                Ok(true)
            }
        } else if self.skips < self.skips_max {
            self.past_len = self.past_len + 1;
            self.skips = self.skips + 1;
            Ok(false)
        } else {
            Err(OutOfLog)
        }
    }

    /// Removes the oldest past entry and returns its transition.
    pub(crate) fn pop_past(&mut self) -> (popped: Option<T>)
        requires
            old(self).wf(),
            old(self)@.index > 0,
        ensures
            final(self).wf(),
            popped == Some(old(self)@.transitions[0].value),
            final(self)@ == old(self)@.drop_past(1),
    {
        let ghost v = self@;
        proof {
            let p = v.transitions.take(v.index);
            lemma_rare_len_sum_first(p);
            assert(p.drop_first() =~= v.transitions.skip(1).take(v.index - 1));
            lemma_rare_len_sum_bounds(p.drop_first());
            reveal_with_fuel(rare_len_sum, 2);
            assert(v.transitions.take(1) =~= seq![v.transitions[0]]);
            assert(seq![v.transitions[0]].drop_last() =~= Seq::<RareValue<T>>::empty());
        }
        match self.transitions.pop_front() {
            Some(rare) => {
                self.index = self.index - 1;
                self.past_len = self.past_len - (rare.skips + 1);
                Some(rare.value)
            },
            None => None,
        }
    }

    /// Removes the oldest past entry when the past pushes without it still reach
    /// `max_past_len`, and returns its transition.
    pub fn pop_past_by_len(&mut self, max_past_len: usize) -> (popped: Option<T>)
        requires
            old(self).wf(),
        ensures
            final(self).wf(),
            old(self)@.pops(max_past_len) ==> popped == Some(old(self)@.transitions[0].value)
                && final(self)@ == old(self)@.drop_past(1),
            !old(self)@.pops(max_past_len) ==> popped is None && final(self)@ == old(self)@,
    {
        if self.index == 0 {
            return None;
        }
        if self.past_len <= max_past_len {
            return None;
        }
        let excessive_len = self.past_len - max_past_len;
        proof {
            let p = self@.transitions.take(self@.index);
            lemma_rare_len_sum_first(p);
            lemma_rare_len_sum_bounds(p.drop_first());
        }
        let past_end = &self.transitions[0];
        if excessive_len >= past_end.skips && excessive_len - past_end.skips >= 1 {
            self.pop_past()
        } else {
            None
        }
    }

    /// Removes the oldest past entries as long as the past pushes without them still reach
    /// `max_past_len`, and returns their transitions.
    pub fn drain_past_by_len(&mut self, max_past_len: usize) -> (drained: Vec<T>)
        requires
            old(self).wf(),
        ensures
            final(self).wf(),
            ({
                let n = old(self)@.drain_count(max_past_len);
                &&& drained@ == old(self)@.transitions.take(n as int).map_values(|e: RareValue<T>| e.value)
                &&& final(self)@ == old(self)@.drop_past(n as int)
            }),
    {
        let ghost v = self@;
        let ghost p = v.transitions.take(v.index);
        let mut drain_amount: usize = 0;
        let mut past_len = self.past_len;
        proof {
            lemma_rare_drain_count_bound(p, v.past_len, max_past_len as int);
            assert(p.skip(0) =~= p);
            assert(p.take(0) =~= Seq::<RareValue<T>>::empty());
        }
        while drain_amount < self.index
            invariant
                self@ == v,
                v.wf(),
                p == v.transitions.take(v.index),
                drain_amount <= v.index,
                past_len == v.past_len - rare_len_sum(p.take(drain_amount as int)),
                rare_drain_count(p, v.past_len, max_past_len as int) == drain_amount + rare_drain_count(
                    p.skip(drain_amount as int),
                    past_len as int,
                    max_past_len as int,
                ),
            ensures
                rare_drain_count(p.skip(drain_amount as int), past_len as int, max_past_len as int) == 0,
            decreases v.index - drain_amount,
        {
            let ghost rest = p.skip(drain_amount as int);
            proof {
                assert(rest[0] == v.transitions[drain_amount as int]);
                lemma_rare_len_sum_first(rest);
                assert(p =~= p.take(drain_amount as int) + rest);
                lemma_rare_len_sum_append(p.take(drain_amount as int), rest);
                lemma_rare_len_sum_bounds(rest.drop_first());
            }
            let entry = &self.transitions[drain_amount];
            if past_len - entry.skips < 1 || past_len - entry.skips - 1 < max_past_len {
                break;
            }
            past_len = past_len - entry.skips - 1;
            proof {
                assert(p.take(drain_amount as int + 1) =~= p.take(drain_amount as int).push(rest[0]));
                lemma_rare_len_sum_append(p.take(drain_amount as int), seq![rest[0]]);
                reveal_with_fuel(rare_len_sum, 2);
                assert(seq![rest[0]].drop_last() =~= Seq::<RareValue<T>>::empty());
                assert(p.take(drain_amount as int).push(rest[0]) =~= p.take(drain_amount as int) + seq![rest[0]]);
                assert(rest.drop_first() =~= p.skip(drain_amount as int + 1));
            }
            drain_amount = drain_amount + 1;
        }
        proof {
            if drain_amount == v.index {
                assert(p.skip(drain_amount as int).len() == 0);
            }
            assert(p.take(drain_amount as int) =~= v.transitions.take(drain_amount as int));
            assert(self.transitions@.skip(drain_amount as int).take(v.index - drain_amount) =~= v.transitions.take(v.index).skip(drain_amount as int));
        }
        self.index = self.index - drain_amount;
        self.past_len = past_len;
        let drained = deque::drain_front(&mut self.transitions, drain_amount);
        proof {
            let q = v.transitions.skip(drain_amount as int).take(v.index - drain_amount);
            assert(p =~= p.take(drain_amount as int) + q);
            lemma_rare_len_sum_append(p.take(drain_amount as int), q);
        }
        rare_values(drained)
    }
}

} // verus!
