//! Logs of states for values that change rarely: a push may hold no new state, which only
//! counts a skip instead of storing a value.
use std::collections::{TryReserveError, VecDeque};
use vstd::prelude::*;

use super::deque;
use super::logged_at::LoggedAt;
use super::OutOfLog;

verus! {

/// A logged value with the number of pushes without a value that belong to it.
#[derive(Clone, Debug, PartialEq, Eq)]
pub struct RareValue<T> {
    pub value: T,
    /// For states, the pushes without a value after the state; for transitions, the pushes
    /// without a value before the transition.
    pub skips: usize,
}

impl<T> RareValue<T> {
    pub fn new(value: T, skips: usize) -> (r: Self)
        ensures
            r == (RareValue { value, skips }),
    {
        RareValue { value, skips }
    }

    /// The number of pushes the value stands for.
    pub fn len(&self) -> (len: usize)
        requires
            self.skips < usize::MAX,
        ensures
            len == rare_len(*self),
    {
        self.skips + 1
    }

    pub fn skips(&self) -> (skips: usize)
        ensures
            skips == self.skips,
    {
        self.skips
    }
}

/// The number of pushes a logged value stands for.
pub open spec fn rare_len<T>(v: RareValue<T>) -> int {
    v.skips + 1
}

/// The number of pushes a sequence of logged values stands for.
pub open spec fn rare_len_sum<T>(s: Seq<RareValue<T>>) -> int
    decreases s.len(),
{
    if s.len() == 0 {
        0
    } else {
        rare_len_sum(s.drop_last()) + rare_len(s.last())
    }
}

pub proof fn lemma_rare_len_sum_append<T>(a: Seq<RareValue<T>>, b: Seq<RareValue<T>>)
    ensures
        rare_len_sum(a + b) == rare_len_sum(a) + rare_len_sum(b),
    decreases b.len(),
{
    if b.len() == 0 {
        assert(a + b =~= a);
    } else {
        lemma_rare_len_sum_append(a, b.drop_last());
        assert((a + b).drop_last() =~= a + b.drop_last());
    }
}

pub proof fn lemma_rare_len_sum_bounds<T>(a: Seq<RareValue<T>>)
    ensures
        rare_len_sum(a) >= a.len(),
    decreases a.len(),
{
    if a.len() > 0 {
        lemma_rare_len_sum_bounds(a.drop_last());
    }
}

pub proof fn lemma_rare_len_sum_first<T>(a: Seq<RareValue<T>>)
    requires
        a.len() > 0,
    ensures
        rare_len_sum(a) == rare_len(a[0]) + rare_len_sum(a.drop_first()),
{
    assert(a =~= seq![a[0]] + a.drop_first());
    lemma_rare_len_sum_append(seq![a[0]], a.drop_first());
    reveal_with_fuel(rare_len_sum, 2);
    assert(seq![a[0]].drop_last() =~= Seq::<RareValue<T>>::empty());
}

/// How many of the oldest `entries` a log with `past_len` pushes drops so that at least
/// `max_past_len` pushes remain: each entry goes as long as the pushes after it reach
/// `max_past_len`.
pub open spec fn rare_drain_count<T>(entries: Seq<RareValue<T>>, past_len: int, max_past_len: int) -> nat
    decreases entries.len(),
{
    if entries.len() == 0 || past_len - rare_len(entries[0]) < max_past_len {
        0
    } else {
        1 + rare_drain_count(entries.drop_first(), past_len - rare_len(entries[0]), max_past_len)
    }
}

pub proof fn lemma_rare_drain_count_bound<T>(entries: Seq<RareValue<T>>, past_len: int, max_past_len: int)
    ensures
        rare_drain_count(entries, past_len, max_past_len) <= entries.len(),
    decreases entries.len(),
{
    if entries.len() > 0 && past_len - rare_len(entries[0]) >= max_past_len {
        lemma_rare_drain_count_bound(entries.drop_first(), past_len - rare_len(entries[0]), max_past_len);
    }
}

/// What a rare state log holds.
#[verifier::ext_equal]
pub ghost struct RareStateView<T> {
    /// Past entries before `index`, future entries from `index` on; each holds a state and the
    /// pushes without a value after it.
    pub states: Seq<RareValue<T>>,
    pub present: T,
    pub index: int,
    /// The pushes without a value since the present state.
    pub skips: int,
    /// The pushes without a value that belong to the present state.
    pub skips_max: int,
    /// The number of pushes in the past.
    pub past_len: int,
}

impl<T> RareStateView<T> {
    /// The counts agree with the entries.
    pub open spec fn wf(self) -> bool {
        &&& 0 <= self.index <= self.states.len()
        &&& 0 <= self.skips <= self.skips_max <= usize::MAX
        &&& self.past_len == rare_len_sum(self.states.take(self.index)) + self.skips
    }

    /// The log after a push of `state`, or of no state for `None`; the future is dropped.
    pub open spec fn push(self, state: Option<T>) -> Self {
        let past = self.states.take(self.index);
        match state {
            None => RareStateView {
                states: past,
                skips: self.skips + 1,
                skips_max: self.skips + 1,
                past_len: self.past_len + 1,
                ..self
            },
            Some(x) => RareStateView {
                states: past.push(RareValue { value: self.present, skips: self.skips as usize }),
                present: x,
                index: self.index + 1,
                skips: 0,
                skips_max: 0,
                past_len: self.past_len + 1,
            },
        }
    }

    /// Whether one step back is possible.
    pub open spec fn can_backward(self) -> bool {
        self.skips > 0 || self.index > 0
    }

    /// Whether one step forward is possible.
    pub open spec fn can_forward(self) -> bool {
        self.skips < self.skips_max || self.index < self.states.len()
    }

    /// The log after one step back; the bool tells whether the present state changed.
    pub open spec fn backward(self) -> (Self, bool)
        recommends
            self.can_backward(),
    {
        if self.skips > 0 {
            (RareStateView { skips: self.skips - 1, past_len: self.past_len - 1, ..self }, false)
        } else {
            let i = self.index - 1;
            let entry = self.states[i];
            (
                RareStateView {
                    states: self.states.update(i, RareValue { value: self.present, skips: self.skips_max as usize }),
                    present: entry.value,
                    index: i,
                    skips: entry.skips as int,
                    skips_max: entry.skips as int,
                    past_len: self.past_len - 1,
                },
                true,
            )
        }
    }

    /// The log after one step forward; the bool tells whether the present state changed.
    pub open spec fn forward(self) -> (Self, bool)
        recommends
            self.can_forward(),
    {
        if self.skips < self.skips_max {
            (RareStateView { skips: self.skips + 1, past_len: self.past_len + 1, ..self }, false)
        } else {
            let entry = self.states[self.index];
            (
                RareStateView {
                    states: self.states.update(self.index, RareValue { value: self.present, skips: self.skips_max as usize }),
                    present: entry.value,
                    index: self.index + 1,
                    skips: 0,
                    skips_max: entry.skips as int,
                    past_len: self.past_len + 1,
                },
                true,
            )
        }
    }

    /// The log without its `n` oldest past entries.
    pub open spec fn drop_past(self, n: int) -> Self {
        RareStateView {
            states: self.states.skip(n),
            index: self.index - n,
            past_len: self.past_len - rare_len_sum(self.states.take(n)),
            ..self
        }
    }

    /// The number of oldest past entries that a log keeping `max_past_len` pushes drops.
    pub open spec fn drain_count(self, max_past_len: usize) -> nat {
        rare_drain_count(self.states.take(self.index), self.past_len, max_past_len as int)
    }

    /// Whether the oldest past entry goes when the log keeps `max_past_len` pushes.
    pub open spec fn pops(self, max_past_len: usize) -> bool {
        &&& self.index > 0
        &&& self.past_len > max_past_len
        &&& self.past_len - max_past_len >= rare_len(self.states[0])
    }
}

/// Going back one step, then forward one step, restores the log.
pub proof fn lemma_rare_backward_then_forward<T>(v: RareStateView<T>)
    requires
        v.wf(),
        v.can_backward(),
    ensures
        v.backward().0.can_forward(),
        v.backward().0.forward().0 == v,
{
    let b = v.backward().0;
    if v.skips == 0 {
        assert(b.forward().0.states =~= v.states);
    }
}

/// Going forward one step, then back one step, restores the log.
pub proof fn lemma_rare_forward_then_backward<T>(v: RareStateView<T>)
    requires
        v.wf(),
        v.can_forward(),
    ensures
        v.forward().0.can_backward(),
        v.forward().0.backward().0 == v,
{
    let f = v.forward().0;
    if v.skips >= v.skips_max {
        assert(f.backward().0.states =~= v.states);
    }
}

/// Undoing a push gives back the present state, the past and the pushes before it; the step
/// tells whether the push held a state.
pub proof fn lemma_rare_push_then_backward<T>(v: RareStateView<T>, state: Option<T>)
    requires
        v.wf(),
        v.past_len < usize::MAX,
    ensures
        v.push(state).wf(),
        v.push(state).can_backward(),
        ({
            let (b, changed) = v.push(state).backward();
            &&& changed == (state is Some)
            &&& b.present == v.present
            &&& b.index == v.index
            &&& b.skips == v.skips
            &&& b.past_len == v.past_len
            &&& b.states.take(b.index) == v.states.take(v.index)
        }),
{
    let p = v.states.take(v.index);
    lemma_rare_len_sum_bounds(p);
    match state {
        None => {
            assert(p.take(v.index) =~= p);
        },
        Some(x) => {
            let entry = RareValue { value: v.present, skips: v.skips as usize };
            let pushed = v.push(state);
            assert(pushed.states.take(pushed.index) =~= p.push(entry));
            assert(p.push(entry) =~= p + seq![entry]);
            lemma_rare_len_sum_append(p, seq![entry]);
            reveal_with_fuel(rare_len_sum, 2);
            assert(seq![entry].drop_last() =~= Seq::<RareValue<T>>::empty());
            assert(pushed.backward().0.states.take(v.index) =~= p);
        },
    }
}

/// Draining by length keeps the past as short as it can be while its pushes still reach
/// `max_past_len`: every dropped entry left at least that many pushes behind it, and the
/// oldest kept past entry could not go.
pub proof fn lemma_rare_drain_is_maximal<T>(v: RareStateView<T>, max_past_len: usize)
    requires
        v.wf(),
    ensures
        ({
            let n = v.drain_count(max_past_len);
            let d = v.drop_past(n as int);
            &&& n <= v.index
            &&& d.wf()
            &&& n > 0 ==> d.past_len >= max_past_len
            &&& d.index > 0 ==> d.past_len - rare_len(d.states[0]) < max_past_len
        }),
{
    lemma_rare_drain_maximal_rec(v.states.take(v.index), v.past_len, max_past_len as int, v.skips);
    let n = v.drain_count(max_past_len);
    let p = v.states.take(v.index);
    lemma_rare_drain_count_bound(p, v.past_len, max_past_len as int);
    lemma_rare_len_sum_append(p.take(n as int), p.skip(n as int));
    assert(p =~= p.take(n as int) + p.skip(n as int));
    assert(v.states.skip(n as int).take(v.index - n) =~= p.skip(n as int));
    assert(v.states.take(n as int) =~= p.take(n as int));
    if v.index - n > 0 {
        assert(v.states.skip(n as int)[0] == p.skip(n as int)[0]);
    }
}

proof fn lemma_rare_drain_maximal_rec<T>(entries: Seq<RareValue<T>>, past_len: int, max_past_len: int, skips: int)
    requires
        past_len == rare_len_sum(entries) + skips,
        skips >= 0,
    ensures
        ({
            let n = rare_drain_count(entries, past_len, max_past_len);
            let rest_len = past_len - rare_len_sum(entries.take(n as int));
            &&& n > 0 ==> rest_len >= max_past_len
            &&& n < entries.len() ==> rest_len - rare_len(entries[n as int]) < max_past_len
        }),
    decreases entries.len(),
{
    if entries.len() > 0 && past_len - rare_len(entries[0]) >= max_past_len {
        let rest = entries.drop_first();
        lemma_rare_len_sum_first(entries);
        lemma_rare_drain_maximal_rec(rest, past_len - rare_len(entries[0]), max_past_len, skips);
        let m = rare_drain_count(rest, past_len - rare_len(entries[0]), max_past_len);
        lemma_rare_drain_count_bound(rest, past_len - rare_len(entries[0]), max_past_len);
        assert(entries.take(m + 1 as int) =~= seq![entries[0]] + rest.take(m as int));
        lemma_rare_len_sum_append(seq![entries[0]], rest.take(m as int));
        reveal_with_fuel(rare_len_sum, 2);
        assert(seq![entries[0]].drop_last() =~= Seq::<RareValue<T>>::empty());
        if m < rest.len() {
            assert(entries[m + 1 as int] == rest[m as int]);
        }
    } else {
        assert(entries.take(0) =~= Seq::<RareValue<T>>::empty());
    }
}

/// A log of states where a push may hold no state; each stored state counts the pushes
/// without a state after it.
#[derive(Clone, Debug)]
pub struct RareStateLog<T> {
    states: VecDeque<RareValue<T>>,
    present: T,
    index: usize,
    skips: usize,
    skips_max: usize,
    past_len: usize,
}

/// Takes the values out of logged entries.
pub(crate) fn rare_values<T>(entries: VecDeque<RareValue<T>>) -> (values: Vec<T>)
    ensures
        values@ == entries@.map_values(|e: RareValue<T>| e.value),
{
    let mut entries = entries;
    let mut values: Vec<T> = Vec::new();
    let ghost all = entries@;
    while entries.len() > 0
        invariant
            values@ + entries@.map_values(|e: RareValue<T>| e.value) == all.map_values(|e: RareValue<T>| e.value),
        decreases entries@.len(),
    {
        let ghost before = entries@;
        match entries.pop_front() {
            Some(entry) => {
                values.push(entry.value);
                proof {
                    assert(before.map_values(|e: RareValue<T>| e.value) =~= seq![entry.value] + entries@.map_values(|e: RareValue<T>| e.value));
                    assert(values@ + entries@.map_values(|e: RareValue<T>| e.value) =~= all.map_values(|e: RareValue<T>| e.value));
                }
            },
            None => {},
        }
    }
    proof {
        assert(entries@.map_values(|e: RareValue<T>| e.value) =~= Seq::<T>::empty());
        assert(values@ =~= all.map_values(|e: RareValue<T>| e.value));
    }
    values
}

impl<T> RareStateLog<T> {
    pub closed spec fn view(&self) -> RareStateView<T> {
        RareStateView {
            states: self.states@,
            present: self.present,
            index: self.index as int,
            skips: self.skips as int,
            skips_max: self.skips_max as int,
            past_len: self.past_len as int,
        }
    }

    pub open spec fn wf(&self) -> bool {
        self@.wf()
    }

    pub fn new(present: T) -> (log: Self)
        ensures
            log.wf(),
            log@ == (RareStateView { states: Seq::empty(), present, index: 0, skips: 0, skips_max: 0, past_len: 0 }),
    {
        let log = RareStateLog { states: VecDeque::new(), present, index: 0, skips: 0, skips_max: 0, past_len: 0 };
        proof {
            assert(log.states@.take(0) =~= Seq::<RareValue<T>>::empty());
        }
        log
    }

    pub fn with_capacity(present: T, states_capacity: usize) -> (log: Self)
        ensures
            log.wf(),
            log@ == (RareStateView { states: Seq::empty(), present, index: 0, skips: 0, skips_max: 0, past_len: 0 }),
    {
        let log = RareStateLog {
            states: VecDeque::with_capacity(states_capacity),
            present,
            index: 0,
            skips: 0,
            skips_max: 0,
            past_len: 0,
        };
        proof {
            assert(log.states@.take(0) =~= Seq::<RareValue<T>>::empty());
        }
        log
    }

    /// The present state, as dereferencing the log gives it.
    pub fn get(&self) -> (present: &T)
        ensures
            *present == self@.present,
    {
        &self.present
    }

    /// The number of pushes in the past.
    pub(crate) fn past_len(&self) -> (len: usize)
        ensures
            len == self@.past_len,
    {
        self.past_len
    }

    /// The present state, to change without logging.
    pub(crate) fn present_mut(&mut self) -> (present: &mut T)
        ensures
            *present == old(self)@.present,
            final(self)@ == (RareStateView { present: *final(present), ..old(self)@ }),
    {
        &mut self.present
    }

    pub fn into_inner(self) -> (present: T)
        ensures
            present == self@.present,
    {
        self.present
    }

    pub fn states_len(&self) -> (len: usize)
        ensures
            len == self@.states.len(),
    {
        self.states.len()
    }

    pub fn states_capacity(&self) -> (capacity: usize)
        ensures
            capacity >= self@.states.len(),
    {
        deque::capacity(&self.states)
    }

    pub fn states_is_empty(&self) -> (empty: bool)
        ensures
            empty == (self@.states.len() == 0),
    {
        self.states.len() == 0
    }

    pub fn states_reserve(&mut self, additional: usize)
        ensures
            final(self)@ == old(self)@,
    {
        self.states.reserve(additional)
    }

    pub fn states_reserve_exact(&mut self, additional: usize)
        requires
            old(self)@.states.len() + additional <= usize::MAX,
        ensures
            final(self)@ == old(self)@,
    {
        deque::reserve_exact(&mut self.states, additional)
    }

    pub fn states_try_reserve(&mut self, additional: usize) -> (r: Result<(), TryReserveError>)
        ensures
            final(self)@ == old(self)@,
            old(self)@.states.len() + additional > usize::MAX ==> r is Err,
    {
        deque::try_reserve(&mut self.states, additional)
    }

    pub fn states_try_reserve_exact(&mut self, additional: usize) -> (r: Result<(), TryReserveError>)
        ensures
            final(self)@ == old(self)@,
            old(self)@.states.len() + additional > usize::MAX ==> r is Err,
    {
        deque::try_reserve_exact(&mut self.states, additional)
    }

    pub fn states_shrink_to(&mut self, min_capacity: usize)
        ensures
            final(self)@ == old(self)@,
    {
        deque::shrink_to(&mut self.states, min_capacity)
    }

    pub fn states_shrink_to_fit(&mut self)
        ensures
            final(self)@ == old(self)@,
    {
        deque::shrink_to_fit(&mut self.states)
    }

    /// Removes the future entries and returns their states, nearest first.
    pub fn drain_future(&mut self) -> (drained: Vec<T>)
        requires
            old(self).wf(),
        ensures
            final(self).wf(),
            drained@ == old(self)@.states.skip(old(self)@.index).map_values(|e: RareValue<T>| e.value),
            final(self)@ == (RareStateView { states: old(self)@.states.take(old(self)@.index), ..old(self)@ }),
    {
        let drained = deque::drain_from(&mut self.states, self.index);
        proof {
            assert(self.states@.take(self.index as int) =~= old(self).states@.take(self.index as int));
        }
        rare_values(drained)
    }

    /// Removes all entries and keeps the present state.
    pub fn clear(&mut self)
        ensures
            final(self).wf(),
            final(self)@ == (RareStateView { states: Seq::empty(), present: old(self)@.present, index: 0, skips: 0, skips_max: 0, past_len: 0 }),
    {
        self.states.clear();
        self.index = 0;
        self.skips = 0;
        self.skips_max = 0;
        self.past_len = 0;
        proof {
            assert(self.states@.take(0) =~= Seq::<RareValue<T>>::empty());
        }
    }

    /// Removes all entries and makes `present` the present state.
    pub fn clear_with(&mut self, present: T)
        ensures
            final(self).wf(),
            final(self)@ == (RareStateView { states: Seq::empty(), present, index: 0, skips: 0, skips_max: 0, past_len: 0 }),
    {
        self.present = present;
        self.clear();
    }

    /// Pushes `state` as the new present state, or counts a push without a state for `None`;
    /// drops the future.
    pub fn push_present(&mut self, state: Option<T>)
        requires
            old(self).wf(),
            old(self)@.past_len < usize::MAX,
        ensures
            final(self).wf(),
            final(self)@ == old(self)@.push(state),
    {
        let ghost v = self@;
        self.states.truncate(self.index);
        proof {
            lemma_rare_len_sum_bounds(v.states.take(v.index));
            assert(self.states@ =~= v.states.take(v.index));
        }
        match state {
            None => {
                self.skips = self.skips + 1;
                self.past_len = self.past_len + 1;
                proof {
                    assert(self.states@.take(self.index as int) =~= self.states@);
                }
            },
            Some(state) => {
                let previous = deque::replace(&mut self.present, state);
                self.states.push_back(RareValue::new(previous, self.skips));
                self.skips = 0;
                self.index = self.index + 1;
                self.past_len = self.past_len + 1;
                proof {
                    let entry = RareValue { value: v.present, skips: v.skips as usize };
                    assert(self.states@.take(self.index as int) =~= v.states.take(v.index).push(entry));
                    lemma_rare_len_sum_append(v.states.take(v.index), seq![entry]);
                    reveal_with_fuel(rare_len_sum, 2);
                    assert(seq![entry].drop_last() =~= Seq::<RareValue<T>>::empty());
                    assert(v.states.take(v.index).push(entry) =~= v.states.take(v.index) + seq![entry]);
                }
            },
        }
        self.skips_max = self.skips;
    }

    /// Exchanges the present state and its skips with the entry at `index`.
    fn swap_state_and_skips_max(&mut self, index: usize)
        requires
            index < old(self).states@.len(),
        ensures
            final(self).states@ == old(self).states@.update(index as int, RareValue { value: old(self).present, skips: old(self).skips_max }),
            final(self).present == old(self).states@[index as int].value,
            final(self).skips_max == old(self).states@[index as int].skips,
            final(self).index == old(self).index,
            final(self).skips == old(self).skips,
            final(self).past_len == old(self).past_len,
    {
        match self.states.remove(index) {
            Some(entry) => {
                let RareValue { value, skips } = entry;
                let previous = deque::replace(&mut self.present, value);
                self.states.insert(index, RareValue::new(previous, self.skips_max));
                self.skips_max = skips;
                proof {
                    assert(self.states@ =~= old(self).states@.update(index as int, RareValue { value: old(self).present, skips: old(self).skips_max }));
                }
            },
            None => {
                proof {
                    assert(false);
                }
            },
        }
    }

    /// Steps one push back; tells whether the present state changed, or fails when there is
    /// no past push.
    pub fn backward_log(&mut self) -> (r: Result<bool, OutOfLog>)
        requires
            old(self).wf(),
        ensures
            final(self).wf(),
            !old(self)@.can_backward() ==> r is Err && final(self)@ == old(self)@,
            old(self)@.can_backward() ==> r == Ok::<bool, OutOfLog>(old(self)@.backward().1)
                && final(self)@ == old(self)@.backward().0,
    {
        let ghost v = self@;
        proof {
            lemma_rare_len_sum_bounds(v.states.take(v.index));
        }
        if self.skips > 0 {
            self.skips = self.skips - 1;
            self.past_len = self.past_len - 1;
            return Ok(false);
        }
        if self.index == 0 {
            return Err(OutOfLog);
        }
        let index = self.index - 1;
        proof {
            let p = v.states.take(v.index);
            assert(p.drop_last() =~= v.states.take(index as int));
            lemma_rare_len_sum_bounds(p.drop_last());
        }
        self.swap_state_and_skips_max(index);
        self.index = index;
        self.skips = self.skips_max;
        self.past_len = self.past_len - 1;
        proof {
            assert(self.states@.take(index as int) =~= v.states.take(index as int));
        }
        Ok(true)
    }

    /// Steps one push forward; tells whether the present state changed, or fails when there is
    /// no future push.
    pub fn forward_log(&mut self) -> (r: Result<bool, OutOfLog>)
        requires
            old(self).wf(),
            old(self)@.past_len < usize::MAX,
        ensures
            final(self).wf(),
            !old(self)@.can_forward() ==> r is Err && final(self)@ == old(self)@,
            old(self)@.can_forward() ==> r == Ok::<bool, OutOfLog>(old(self)@.forward().1)
                && final(self)@ == old(self)@.forward().0,
    {
        let ghost v = self@;
        if self.skips < self.skips_max {
            self.past_len = self.past_len + 1;
            self.skips = self.skips + 1;
            Ok(false)
        } else if self.index < self.states.len() {
            let index = self.index;
            self.swap_state_and_skips_max(index);
            self.past_len = self.past_len + 1;
            self.index = index + 1;
            self.skips = 0;
            proof {
                let entry = RareValue { value: v.present, skips: v.skips_max as usize };
                assert(self.states@.take(self.index as int) =~= v.states.take(v.index).push(entry));
                lemma_rare_len_sum_append(v.states.take(v.index), seq![entry]);
                reveal_with_fuel(rare_len_sum, 2);
                assert(seq![entry].drop_last() =~= Seq::<RareValue<T>>::empty());
                assert(v.states.take(v.index).push(entry) =~= v.states.take(v.index) + seq![entry]);
            }
            Ok(true)
        } else {
            Err(OutOfLog)
        }
    }

    /// The oldest past state, or `None` when the log stands at its past end.
    pub(crate) fn past_end(&self) -> (r: Option<&T>)
        requires
            self.wf(),
        ensures
            self@.index == 0 ==> r is None,
            self@.index > 0 ==> r == Some(&self@.states[0].value),
    {
        if self.index == 0 {
            None
        } else {
            Some(&self.states[0].value)
        }
    }

    /// Removes the oldest past entry and returns its state.
    pub(crate) fn pop_past(&mut self) -> (popped: Option<T>)
        requires
            old(self).wf(),
            old(self)@.index > 0,
        ensures
            final(self).wf(),
            popped == Some(old(self)@.states[0].value),
            final(self)@ == old(self)@.drop_past(1),
    {
        let ghost v = self@;
        proof {
            let p = v.states.take(v.index);
            lemma_rare_len_sum_first(p);
            assert(p.drop_first() =~= v.states.skip(1).take(v.index - 1));
            lemma_rare_len_sum_bounds(p.drop_first());
            reveal_with_fuel(rare_len_sum, 2);
            assert(v.states.take(1) =~= seq![v.states[0]]);
            assert(seq![v.states[0]].drop_last() =~= Seq::<RareValue<T>>::empty());
        }
        match self.states.pop_front() {
            Some(rare) => {
                self.index = self.index - 1;
                self.past_len = self.past_len - (rare.skips + 1);
                Some(rare.value)
            },
            None => None,
        }
    }

    /// Removes the oldest past entry when the past pushes without it still reach
    /// `max_past_len`, and returns its state.
    pub fn pop_past_by_len(&mut self, max_past_len: usize) -> (popped: Option<T>)
        requires
            old(self).wf(),
        ensures
            final(self).wf(),
            old(self)@.pops(max_past_len) ==> popped == Some(old(self)@.states[0].value)
                && final(self)@ == old(self)@.drop_past(1),
            !old(self)@.pops(max_past_len) ==> popped is None && final(self)@ == old(self)@,
    {
        if self.index == 0 {
            return None;
        }
        if self.past_len <= max_past_len {
            return None;
        }
        let excessive_len = self.past_len - max_past_len;
        proof {
            let p = self@.states.take(self@.index);
            lemma_rare_len_sum_first(p);
            lemma_rare_len_sum_bounds(p.drop_first());
        }
        let past_end = &self.states[0];
        if excessive_len >= past_end.skips && excessive_len - past_end.skips >= 1 {
            self.pop_past()
        } else {
            None
        }
    }

    /// Removes the oldest past entries as long as the past pushes without them still reach
    /// `max_past_len`, and returns their states.
    pub fn drain_past_by_len(&mut self, max_past_len: usize) -> (drained: Vec<T>)
        requires
            old(self).wf(),
        ensures
            final(self).wf(),
            ({
                let n = old(self)@.drain_count(max_past_len);
                &&& drained@ == old(self)@.states.take(n as int).map_values(|e: RareValue<T>| e.value)
                &&& final(self)@ == old(self)@.drop_past(n as int)
            }),
    {
        let ghost v = self@;
        let ghost p = v.states.take(v.index);
        let mut drain_amount: usize = 0;
        let mut past_len = self.past_len;
        proof {
            lemma_rare_drain_count_bound(p, v.past_len, max_past_len as int);
            assert(p.skip(0) =~= p);
            reveal_with_fuel(rare_len_sum, 1);
            assert(p.take(0) =~= Seq::<RareValue<T>>::empty());
        }
        while drain_amount < self.index
            invariant
                self@ == v,
                v.wf(),
                p == v.states.take(v.index),
                drain_amount <= v.index,
                past_len == v.past_len - rare_len_sum(p.take(drain_amount as int)),
                rare_drain_count(p, v.past_len, max_past_len as int) == drain_amount + rare_drain_count(
                    p.skip(drain_amount as int),
                    past_len as int,
                    max_past_len as int,
                ),
            ensures
                rare_drain_count(p.skip(drain_amount as int), past_len as int, max_past_len as int) == 0,
            decreases v.index - drain_amount,
        {
            let ghost rest = p.skip(drain_amount as int);
            proof {
                assert(rest[0] == v.states[drain_amount as int]);
                lemma_rare_len_sum_first(rest);
                assert(p =~= p.take(drain_amount as int) + rest);
                lemma_rare_len_sum_append(p.take(drain_amount as int), rest);
                lemma_rare_len_sum_bounds(rest.drop_first());
            }
            let entry = &self.states[drain_amount];
            if past_len - entry.skips < 1 || past_len - entry.skips - 1 < max_past_len {
                break;
            }
            past_len = past_len - entry.skips - 1;
            proof {
                assert(p.take(drain_amount as int + 1) =~= p.take(drain_amount as int).push(rest[0]));
                lemma_rare_len_sum_append(p.take(drain_amount as int), seq![rest[0]]);
                reveal_with_fuel(rare_len_sum, 2);
                assert(seq![rest[0]].drop_last() =~= Seq::<RareValue<T>>::empty());
                assert(p.take(drain_amount as int).push(rest[0]) =~= p.take(drain_amount as int) + seq![rest[0]]);
                assert(rest.drop_first() =~= p.skip(drain_amount as int + 1));
            }
            drain_amount = drain_amount + 1;
        }
        proof {
            if drain_amount == v.index {
                assert(p.skip(drain_amount as int).len() == 0);
            }
            assert(p.take(drain_amount as int) =~= v.states.take(drain_amount as int));
            assert(self.states@.skip(drain_amount as int).take(v.index - drain_amount) =~= v.states.take(v.index).skip(drain_amount as int));
        }
        self.index = self.index - drain_amount;
        self.past_len = past_len;
        let drained = deque::drain_front(&mut self.states, drain_amount);
        proof {
            let q = v.states.skip(drain_amount as int).take(v.index - drain_amount);
            assert(p =~= p.take(drain_amount as int) + q);
            lemma_rare_len_sum_append(p.take(drain_amount as int), q);
        }
        rare_values(drained)
    }
}

impl<T> RareStateView<T> {
    /// Whether the oldest past entry goes by its logged frame: a push may happen several times a
    /// frame, so the skips do not tell frames, and the entry goes only when the entry after it
    /// was logged at or before `past_end`, the oldest frame the world can go back to.
    pub open spec fn pops_by_logged_at(self, past_end: u64) -> bool where T: LoggedAt {
        &&& self.index > 0
        &&& self.states.len() > 1
        &&& self.states[1].value.spec_logged_at().0 <= past_end
    }
}

impl<T: LoggedAt> RareStateLog<T> {
    /// Removes and returns the oldest past state when the entry after it was logged at or
    /// before `past_end`.
    pub fn pop_past_by_logged_at(&mut self, past_end: u64) -> (popped: Option<T>)
        requires
            old(self).wf(),
        ensures
            final(self).wf(),
            old(self)@.pops_by_logged_at(past_end) ==> popped == Some(old(self)@.states[0].value)
                && final(self)@ == old(self)@.drop_past(1),
            !old(self)@.pops_by_logged_at(past_end) ==> popped is None && final(self)@ == old(self)@,
    {
        if self.index == 0 || self.states.len() < 2 {
            return None;
        }
        let next = self.states[1].value.logged_at();
        if next.0 > past_end {
            return None;
        }
        self.pop_past()
    }
}

} // verus!
