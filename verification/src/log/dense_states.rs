//! A log of states with a group of values and an entry for every push.
use std::collections::{TryReserveError, VecDeque};
use vstd::prelude::*;

use super::deque;
use super::{
    amount_max, amount_sum, lemma_amount_sum_append, lemma_amount_sum_first, lemma_amount_sum_nonneg,
    lemma_amount_sum_single, lemma_amount_sum_split, AmountErr, DenseStateLog, EntryAmount, OutOfLog,
    StateTimeline, ValueEntry,
};

verus! {

/// A log of states where every push holds a group of values and an entry `U`; the present
/// state is the newest group together with its entry.
///
/// `AMOUNT_BYTES` sets how many values a push may hold: up to `2^(8 * AMOUNT_BYTES) - 1`, or
/// up to `usize::MAX` for `0` or at least the size of `usize`.
#[derive(Clone, Debug)]
pub struct DenseStatesLog<T, U, const AMOUNT_BYTES: usize> {
    amounts: DenseStateLog<EntryAmount<U, AMOUNT_BYTES>>,
    states: VecDeque<T>,
    index: usize,
}

impl<T, U, const AMOUNT_BYTES: usize> DenseStatesLog<T, U, AMOUNT_BYTES> {
    /// The values of all groups lie in the deque one group after the other; the present group
    /// ends at `index`.
    pub closed spec fn wf(&self) -> bool {
        let t = self.amounts.timeline();
        &&& self.amounts.wf()
        &&& self.index == amount_sum(t.past) + t.present.spec_amount()
        &&& self.states@.len() == self.index + amount_sum(t.future)
    }

    /// The entries with their amounts, past, present and future.
    pub closed spec fn entries(&self) -> StateTimeline<EntryAmount<U, AMOUNT_BYTES>> {
        self.amounts.timeline()
    }

    /// All stored values, group after group.
    pub closed spec fn states(&self) -> Seq<T> {
        self.states@
    }

    /// The position in `states()` where the present group ends.
    pub open spec fn present_end(&self) -> int {
        amount_sum(self.entries().past) + self.entries().present.spec_amount()
    }

    /// The values of the present group.
    pub open spec fn present_states(&self) -> Seq<T> {
        let end = amount_sum(self.entries().past) + self.entries().present.spec_amount();
        self.states().subrange(amount_sum(self.entries().past), end)
    }

    /// The values of the past groups, oldest first.
    pub open spec fn past_states(&self) -> Seq<T> {
        self.states().take(amount_sum(self.entries().past))
    }

    /// The values of the future groups, nearest first.
    pub open spec fn future_states(&self) -> Seq<T> {
        self.states().skip(amount_sum(self.entries().past) + self.entries().present.spec_amount())
    }

    proof fn lemma_wf_bounds(&self)
        requires
            self.wf(),
        ensures
            0 <= amount_sum(self.entries().past),
            0 <= amount_sum(self.entries().future),
            self.index == amount_sum(self.entries().past) + self.entries().present.spec_amount(),
            self.index <= self.states@.len(),
    {
        lemma_amount_sum_nonneg(self.entries().past);
        lemma_amount_sum_nonneg(self.entries().future);
    }

    pub fn new_empty(entry: U) -> (log: Self)
        ensures
            log.wf(),
            log.entries() == StateTimeline::only(EntryAmount::<U, AMOUNT_BYTES>::spec_new(entry, 0)),
            log.states().len() == 0,
    {
        let log = DenseStatesLog {
            amounts: DenseStateLog::new(EntryAmount::zero(entry)),
            states: VecDeque::new(),
            index: 0,
        };
        proof {
            reveal_with_fuel(amount_sum, 1);
        }
        log
    }

    pub fn with_capacities_empty(entry: U, states_capacity: usize, entries_capacity: usize) -> (log: Self)
        ensures
            log.wf(),
            log.entries() == StateTimeline::only(EntryAmount::<U, AMOUNT_BYTES>::spec_new(entry, 0)),
            log.states().len() == 0,
    {
        let log = DenseStatesLog {
            amounts: DenseStateLog::with_capacity(EntryAmount::zero(entry), entries_capacity),
            states: VecDeque::with_capacity(states_capacity),
            index: 0,
        };
        log
    }

    pub fn entries_len(&self) -> (len: usize)
        requires
            self.wf(),
        ensures
            len == self.entries().past.len() + self.entries().future.len(),
    {
        proof {
            self.amounts.lemma_states_len();
        }
        self.amounts.states_len()
    }

    pub fn states_len(&self) -> (len: usize)
        ensures
            len == self.states().len(),
    {
        self.states.len()
    }

    pub fn entries_capacity(&self) -> (capacity: usize)
        requires
            self.wf(),
        ensures
            capacity >= self.entries().past.len() + self.entries().future.len(),
    {
        proof {
            self.amounts.lemma_states_len();
        }
        self.amounts.states_capacity()
    }

    pub fn states_capacity(&self) -> (capacity: usize)
        ensures
            capacity >= self.states().len(),
    {
        deque::capacity(&self.states)
    }

    pub fn entries_is_empty(&self) -> (empty: bool)
        requires
            self.wf(),
        ensures
            empty == (self.entries().past.len() + self.entries().future.len() == 0),
    {
        proof {
            self.amounts.lemma_states_len();
        }
        self.amounts.states_is_empty()
    }

    pub fn states_is_empty(&self) -> (empty: bool)
        ensures
            empty == (self.states().len() == 0),
    {
        self.states.len() == 0
    }

    pub fn entries_reserve(&mut self, additional: usize)
        requires
            old(self).wf(),
        ensures
            final(self).wf(),
            final(self).entries() == old(self).entries(),
            final(self).states() == old(self).states(),
    {
        self.amounts.states_reserve(additional)
    }

    pub fn states_reserve(&mut self, additional: usize)
        requires
            old(self).wf(),
        ensures
            final(self).wf(),
            final(self).entries() == old(self).entries(),
            final(self).states() == old(self).states(),
    {
        self.states.reserve(additional)
    }

    pub fn entries_reserve_exact(&mut self, additional: usize)
        requires
            old(self).wf(),
            old(self).entries().past.len() + old(self).entries().future.len() + additional <= usize::MAX,
        ensures
            final(self).wf(),
            final(self).entries() == old(self).entries(),
            final(self).states() == old(self).states(),
    {
        proof {
            self.amounts.lemma_states_len();
        }
        self.amounts.states_reserve_exact(additional)
    }

    pub fn states_reserve_exact(&mut self, additional: usize)
        requires
            old(self).wf(),
            old(self).states().len() + additional <= usize::MAX,
        ensures
            final(self).wf(),
            final(self).entries() == old(self).entries(),
            final(self).states() == old(self).states(),
    {
        deque::reserve_exact(&mut self.states, additional)
    }

    pub fn entries_try_reserve(&mut self, additional: usize) -> (r: Result<(), TryReserveError>)
        requires
            old(self).wf(),
        ensures
            final(self).wf(),
            final(self).entries() == old(self).entries(),
            final(self).states() == old(self).states(),
            old(self).entries().past.len() + old(self).entries().future.len() + additional > usize::MAX ==> r is Err,
    {
        proof {
            self.amounts.lemma_states_len();
        }
        self.amounts.states_try_reserve(additional)
    }

    pub fn states_try_reserve(&mut self, additional: usize) -> (r: Result<(), TryReserveError>)
        requires
            old(self).wf(),
        ensures
            final(self).wf(),
            final(self).entries() == old(self).entries(),
            final(self).states() == old(self).states(),
            old(self).states().len() + additional > usize::MAX ==> r is Err,
    {
        deque::try_reserve(&mut self.states, additional)
    }

    pub fn entries_try_reserve_exact(&mut self, additional: usize) -> (r: Result<(), TryReserveError>)
        requires
            old(self).wf(),
        ensures
            final(self).wf(),
            final(self).entries() == old(self).entries(),
            final(self).states() == old(self).states(),
            old(self).entries().past.len() + old(self).entries().future.len() + additional > usize::MAX ==> r is Err,
    {
        proof {
            self.amounts.lemma_states_len();
        }
        self.amounts.states_try_reserve_exact(additional)
    }

    pub fn states_try_reserve_exact(&mut self, additional: usize) -> (r: Result<(), TryReserveError>)
        requires
            old(self).wf(),
        ensures
            final(self).wf(),
            final(self).entries() == old(self).entries(),
            final(self).states() == old(self).states(),
            old(self).states().len() + additional > usize::MAX ==> r is Err,
    {
        deque::try_reserve_exact(&mut self.states, additional)
    }

    pub fn entries_shrink_to(&mut self, min_capacity: usize)
        requires
            old(self).wf(),
        ensures
            final(self).wf(),
            final(self).entries() == old(self).entries(),
            final(self).states() == old(self).states(),
    {
        self.amounts.states_shrink_to(min_capacity)
    }

    pub fn states_shrink_to(&mut self, min_capacity: usize)
        requires
            old(self).wf(),
        ensures
            final(self).wf(),
            final(self).entries() == old(self).entries(),
            final(self).states() == old(self).states(),
    {
        deque::shrink_to(&mut self.states, min_capacity)
    }

    pub fn entries_shrink_to_fit(&mut self)
        requires
            old(self).wf(),
        ensures
            final(self).wf(),
            final(self).entries() == old(self).entries(),
            final(self).states() == old(self).states(),
    {
        self.amounts.states_shrink_to_fit()
    }

    pub fn states_shrink_to_fit(&mut self)
        requires
            old(self).wf(),
        ensures
            final(self).wf(),
            final(self).entries() == old(self).entries(),
            final(self).states() == old(self).states(),
    {
        deque::shrink_to_fit(&mut self.states)
    }

    /// The range of the present group's values and its entry.
    fn get_entry_range(&self) -> (r: (&EntryAmount<U, AMOUNT_BYTES>, usize, usize))
        requires
            self.wf(),
        ensures
            *r.0 == self.entries().present,
            r.1 == amount_sum(self.entries().past),
            r.2 == self.index,
            r.1 <= r.2 <= self.states().len(),
    {
        proof {
            self.lemma_wf_bounds();
        }
        let entry_amount = self.amounts.get();
        let amount = entry_amount.amount();
        let from = self.index - amount;
        (entry_amount, from, self.index)
    }

    /// The values of the present group and its entry.
    pub fn get(&self) -> (r: (Vec<&T>, &U))
        requires
            self.wf(),
        ensures
            r.0@.len() == self.present_states().len(),
            forall|i: int| 0 <= i < r.0@.len() ==> *r.0@[i] == #[trigger] self.present_states()[i],
            *r.1 == self.entries().present.spec_entry(),
    {
        let (entry_amount, from, to) = self.get_entry_range();
        let mut values: Vec<&T> = Vec::new();
        let mut i = from;
        while i < to
            invariant
                from <= i <= to <= self.states@.len(),
                from == amount_sum(self.entries().past),
                to == self.index,
                self.wf(),
                values@.len() == i - from,
                forall|j: int| 0 <= j < values@.len() ==> *values@[j] == self.states@[from + j],
            decreases to - i,
        {
            values.push(&self.states[i]);
            i = i + 1;
        }
        (values, entry_amount.entry())
    }
}

impl<T, U, const AMOUNT_BYTES: usize> DenseStatesLog<T, U, AMOUNT_BYTES> {
    /// Removes the future groups; returns their values and their entries, nearest first.
    pub fn drain_future(&mut self) -> (r: (VecDeque<T>, VecDeque<EntryAmount<U, AMOUNT_BYTES>>))
        requires
            old(self).wf(),
        ensures
            final(self).wf(),
            r.0@ == old(self).future_states(),
            r.1@ == old(self).entries().future,
            final(self).entries() == old(self).entries().without_future(),
            final(self).states() == old(self).states().take(
                amount_sum(old(self).entries().past) + old(self).entries().present.spec_amount(),
            ),
    {
        proof {
            self.lemma_wf_bounds();
        }
        let states = deque::drain_from(&mut self.states, self.index);
        let entries = self.amounts.drain_future();
        proof {
            reveal_with_fuel(amount_sum, 1);
        }
        (states, entries)
    }

    /// Removes the past and future groups and keeps the present one.
    pub fn clear(&mut self)
        requires
            old(self).wf(),
        ensures
            final(self).wf(),
            final(self).entries() == StateTimeline::only(old(self).entries().present),
            final(self).states() == old(self).present_states(),
    {
        proof {
            self.lemma_wf_bounds();
        }
        let ghost old_states = self.states@;
        let ghost from = amount_sum(self.entries().past);
        self.amounts.clear();
        let amount = self.amounts.get().amount();
        self.states.truncate(self.index);
        let _past = deque::drain_front(&mut self.states, self.index - amount);
        self.index = amount;
        proof {
            reveal_with_fuel(amount_sum, 1);
            assert(self.states@ =~= old_states.subrange(from, from + amount));
        }
    }

    /// Removes all groups and makes `entry` the present entry with no values.
    pub fn clear_empty(&mut self, entry: U)
        ensures
            final(self).wf(),
            final(self).entries() == StateTimeline::only(EntryAmount::<U, AMOUNT_BYTES>::spec_new(entry, 0)),
            final(self).states().len() == 0,
    {
        self.states.clear();
        self.amounts.clear_with(EntryAmount::zero(entry));
        self.index = 0;
        proof {
            reveal_with_fuel(amount_sum, 1);
        }
    }

    /// Steps one group back, or fails when there is no past group.
    pub fn backward_log(&mut self) -> (r: Result<(), OutOfLog>)
        requires
            old(self).wf(),
        ensures
            final(self).wf(),
            r is Err <==> old(self).entries().past.len() == 0,
            r is Ok ==> final(self).entries() == old(self).entries().backward(),
            r is Err ==> final(self).entries() == old(self).entries(),
            final(self).states() == old(self).states(),
    {
        proof {
            self.lemma_wf_bounds();
        }
        let ghost t = self.entries();
        let amount = self.amounts.get().amount();
        self.amounts.backward_log()?;
        self.index = self.index - amount;
        proof {
            lemma_amount_sum_split(t.past, t.past.len() - 1);
            assert(t.past.take(t.past.len() - 1) =~= t.past.drop_last());
            assert(t.past.skip(t.past.len() - 1) =~= seq![t.past.last()]);
            lemma_amount_sum_single(t.past.last());
            lemma_amount_sum_append(seq![t.present], t.future);
            lemma_amount_sum_single(t.present);
        }
        Ok(())
    }

    /// Steps one group forward, or fails when there is no future group.
    pub fn forward_log(&mut self) -> (r: Result<(), OutOfLog>)
        requires
            old(self).wf(),
        ensures
            final(self).wf(),
            r is Err <==> old(self).entries().future.len() == 0,
            r is Ok ==> final(self).entries() == old(self).entries().forward(),
            r is Err ==> final(self).entries() == old(self).entries(),
            final(self).states() == old(self).states(),
    {
        proof {
            self.lemma_wf_bounds();
        }
        let ghost t = self.entries();
        let total = self.states.len();
        self.amounts.forward_log()?;
        let amount = self.amounts.get().amount();
        proof {
            lemma_amount_sum_first(t.future);
            lemma_amount_sum_nonneg(t.future.drop_first());
            lemma_amount_sum_append(t.past, seq![t.present]);
            lemma_amount_sum_single(t.present);
            assert(t.past + seq![t.present] =~= t.past.push(t.present));
            assert(self.index + amount <= total);
        }
        self.index = self.index + amount;
        Ok(())
    }

    /// Drops the values of the future groups, as a push that fails does: the entries stay, so
    /// the log stays well formed only when the future groups held no values.
    fn drop_future_values(&mut self)
        requires
            old(self).wf(),
        ensures
            final(self).entries() == old(self).entries(),
            final(self).states() == old(self).states().take(old(self).present_end()),
            final(self).wf() <==> old(self).states().len() == old(self).present_end(),
    {
        proof {
            self.lemma_wf_bounds();
        }
        self.states.truncate(self.index);
        proof {
            assert(self.states@ =~= old(self).states().take(old(self).present_end()));
        }
    }

    /// Drops the future groups and appends `values` after the present group; the entries are
    /// left to the caller.
    fn truncate_and_append(&mut self, values: VecDeque<T>) -> (pushed: usize)
        requires
            old(self).wf(),
        ensures
            final(self).amounts == old(self).amounts,
            final(self).index == old(self).index,
            final(self).states@ == old(self).states@.take(old(self).index as int) + values@,
            pushed == values@.len(),
            final(self).states@.len() == old(self).index + pushed,
    {
        proof {
            self.lemma_wf_bounds();
        }
        let mut values = values;
        let pushed = values.len();
        self.states.truncate(self.index);
        self.states.append(&mut values);
        pushed
    }

    /// After the values of a new group were appended, records its entry as the present one.
    fn push_entry(&mut self, entry_amount: EntryAmount<U, AMOUNT_BYTES>)
        requires
            old(self).amounts.wf(),
            old(self).index == amount_sum(old(self).entries().past) + old(self).entries().present.spec_amount(),
            old(self).states@.len() == old(self).index + entry_amount.spec_amount(),
        ensures
            final(self).wf(),
            final(self).entries() == old(self).entries().push(entry_amount),
            final(self).states@ == old(self).states@,
    {
        let ghost t = self.entries();
        self.index = self.states.len();
        self.amounts.push(entry_amount);
        proof {
            lemma_amount_sum_append(t.past, seq![t.present]);
            lemma_amount_sum_single(t.present);
            assert(t.past + seq![t.present] =~= t.past.push(t.present));
            reveal_with_fuel(amount_sum, 1);
        }
    }
}

impl<T, U, const AMOUNT_BYTES: usize> DenseStatesLog<T, U, AMOUNT_BYTES> {
    fn from_parts(states: VecDeque<T>, entry_amount: EntryAmount<U, AMOUNT_BYTES>, entries_capacity: usize) -> (log: Self)
        requires
            states@.len() == entry_amount.spec_amount(),
        ensures
            log.wf(),
            log.entries() == StateTimeline::only(entry_amount),
            log.states() == states@,
    {
        let index = states.len();
        let log = DenseStatesLog {
            amounts: DenseStateLog::with_capacity(entry_amount, entries_capacity),
            states,
            index,
        };
        proof {
            reveal_with_fuel(amount_sum, 1);
        }
        log
    }

    /// Pushes a group and drops the oldest past group when the past grew beyond
    /// `max_past_len`, returning that group.
    fn push_and_pop_past_inner(&mut self, max_past_len: usize, values: VecDeque<T>, entry: U) -> (popped: Option<ValueEntry<VecDeque<T>, U>>)
        requires
            old(self).wf(),
        ensures
            final(self).wf(),
            ({
                let new_states = old(self).states().take(old(self).present_end()) + values@;
                let pushed = old(self).entries().push(EntryAmount::<U, AMOUNT_BYTES>::spec_new(entry, values@.len() as usize));
                if old(self).entries().past.len() >= max_past_len {
                    let first = pushed.past[0];
                    &&& popped is Some
                    &&& popped->0.value@ == new_states.take(first.spec_amount() as int)
                    &&& popped->0.entry == first.spec_entry()
                    &&& final(self).entries() == pushed.drop_past(1)
                    &&& final(self).states() == new_states.skip(first.spec_amount() as int)
                } else {
                    &&& popped is None
                    &&& final(self).entries() == pushed
                    &&& final(self).states() == new_states
                }
            }),
    {
        proof {
            self.lemma_wf_bounds();
        }
        let ghost t = self.entries();
        let pushed_amount = self.truncate_and_append(values);
        let entry_amount = EntryAmount::new(entry, pushed_amount);
        self.index = self.states.len();
        let popped = self.amounts.push_and_pop_past(max_past_len, entry_amount);
        proof {
            lemma_amount_sum_append(t.past, seq![t.present]);
            lemma_amount_sum_single(t.present);
            assert(t.past + seq![t.present] =~= t.past.push(t.present));
            reveal_with_fuel(amount_sum, 1);
        }
        match popped {
            Some(entry_amount) => {
                let ghost p = t.push(EntryAmount::<U, AMOUNT_BYTES>::spec_new(entry, pushed_amount)).past;
                proof {
                    lemma_amount_sum_first(p);
                    lemma_amount_sum_nonneg(p.drop_first());
                    assert(p.skip(1) =~= p.drop_first());
                }
                let amount = entry_amount.amount();
                self.index = self.index - amount;
                let value = deque::drain_front(&mut self.states, amount);
                Some(ValueEntry { value, entry: entry_amount.into_entry() })
            },
            None => None,
        }
    }

    /// Pushes a group, then removes the oldest past groups so that at most `max_past_len`
    /// remain; returns their values and entries.
    fn push_and_drain_past_inner(&mut self, max_past_len: usize, values: VecDeque<T>, entry: U) -> (drained: (VecDeque<T>, VecDeque<EntryAmount<U, AMOUNT_BYTES>>))
        requires
            old(self).wf(),
        ensures
            final(self).wf(),
            ({
                let new_states = old(self).states().take(old(self).present_end()) + values@;
                let pushed = old(self).entries().push(EntryAmount::<U, AMOUNT_BYTES>::spec_new(entry, values@.len() as usize));
                let n = if pushed.past.len() > max_past_len { pushed.past.len() - max_past_len } else { 0 };
                let amount = amount_sum(pushed.past.take(n as int));
                &&& drained.1@ == pushed.past.take(n as int)
                &&& drained.0@ == new_states.take(amount)
                &&& final(self).entries() == pushed.drop_past(n as nat)
                &&& final(self).states() == new_states.skip(amount)
            }),
    {
        proof {
            self.lemma_wf_bounds();
        }
        let ghost t = self.entries();
        let pushed_amount = self.truncate_and_append(values);
        let entry_amount = EntryAmount::new(entry, pushed_amount);
        self.index = self.states.len();
        let ghost p = t.push(entry_amount).past;
        let entries = self.amounts.push_and_drain_past(max_past_len, entry_amount);
        proof {
            lemma_amount_sum_append(t.past, seq![t.present]);
            lemma_amount_sum_single(t.present);
            assert(t.past + seq![t.present] =~= t.past.push(t.present));
            reveal_with_fuel(amount_sum, 1);
            lemma_amount_sum_split(p, entries@.len() as int);
        }
        let mut amount: usize = 0;
        let mut i: usize = 0;
        while i < entries.len()
            invariant
                i <= entries@.len(),
                entries@ == p.take(entries@.len() as int),
                entries@.len() <= p.len(),
                amount == amount_sum(entries@.take(i as int)),
                amount_sum(entries@) <= self.index,
            decreases entries@.len() - i,
        {
            proof {
                lemma_amount_sum_split(entries@, i as int + 1);
                assert(entries@.take(i as int + 1) =~= entries@.take(i as int).push(entries@[i as int]));
                lemma_amount_sum_split(entries@.take(i as int + 1), i as int);
                assert(entries@.take(i as int + 1).take(i as int) =~= entries@.take(i as int));
                assert(entries@.take(i as int + 1).skip(i as int) =~= seq![entries@[i as int]]);
                lemma_amount_sum_single(entries@[i as int]);
            }
            amount = amount + entries[i].amount();
            i = i + 1;
        }
        proof {
            assert(entries@.take(entries@.len() as int) =~= entries@);
        }
        self.index = self.index - amount;
        let states = deque::drain_front(&mut self.states, amount);
        (states, entries)
    }

    /// Like `new`, for any `AMOUNT_BYTES`; fails when `states` holds more values than a push
    /// can count.
    pub fn try_new(states: VecDeque<T>, entry: U) -> (r: Result<Self, AmountErr<VecDeque<T>, U, AMOUNT_BYTES>>)
        ensures
            states@.len() <= amount_max(AMOUNT_BYTES) ==> r is Ok && r->Ok_0.wf()
                && r->Ok_0.entries() == StateTimeline::only(EntryAmount::<U, AMOUNT_BYTES>::spec_new(entry, states@.len() as usize))
                && r->Ok_0.states() == states@,
            states@.len() > amount_max(AMOUNT_BYTES) ==> r is Err && r->Err_0.values@ == states@
                && r->Err_0.entry_amount == EntryAmount::<U, AMOUNT_BYTES>::spec_new(entry, states@.len() as usize),
    {
        let pushed_amount = states.len();
        let entry_amount = EntryAmount::new(entry, pushed_amount);
        if !entry_amount.fits() {
            return Err(AmountErr { values: states, entry_amount });
        }
        Ok(Self::from_parts(states, entry_amount, 0))
    }

    /// Like `with_capacities`, for any `AMOUNT_BYTES`; fails when `states` holds more values
    /// than a push can count.
    pub fn try_with_capacities(states: VecDeque<T>, entry: U, states_capacity: usize, entries_capacity: usize) -> (r: Result<Self, AmountErr<VecDeque<T>, U, AMOUNT_BYTES>>)
        ensures
            states@.len() <= amount_max(AMOUNT_BYTES) ==> r is Ok && r->Ok_0.wf()
                && r->Ok_0.entries() == StateTimeline::only(EntryAmount::<U, AMOUNT_BYTES>::spec_new(entry, states@.len() as usize))
                && r->Ok_0.states() == states@,
            states@.len() > amount_max(AMOUNT_BYTES) ==> r is Err && r->Err_0.values@ == states@
                && r->Err_0.entry_amount == EntryAmount::<U, AMOUNT_BYTES>::spec_new(entry, states@.len() as usize),
    {
        let mut states_deque: VecDeque<T> = VecDeque::with_capacity(states_capacity);
        let mut states = states;
        states_deque.append(&mut states);
        let pushed_amount = states_deque.len();
        let entry_amount = EntryAmount::new(entry, pushed_amount);
        if !entry_amount.fits() {
            return Err(AmountErr { values: states_deque, entry_amount });
        }
        Ok(Self::from_parts(states_deque, entry_amount, entries_capacity))
    }

    /// Pushes `values` with `entry` as the new present group, dropping the future groups; fails
    /// when `values` holds more values than a push can count. A failed push has
    /// already dropped the values of the future groups, but not their entries.
    pub fn try_push(&mut self, values: VecDeque<T>, entry: U) -> (r: Result<(), AmountErr<VecDeque<T>, U, AMOUNT_BYTES>>)
        requires
            old(self).wf(),
        ensures
            values@.len() <= amount_max(AMOUNT_BYTES) ==> final(self).wf(),
            values@.len() <= amount_max(AMOUNT_BYTES) ==> r is Ok
                && final(self).entries() == old(self).entries().push(EntryAmount::<U, AMOUNT_BYTES>::spec_new(entry, values@.len() as usize))
                && final(self).states() == old(self).states().take(old(self).present_end()) + values@,
            values@.len() > amount_max(AMOUNT_BYTES) ==> r is Err && r->Err_0.values@ == values@
                && r->Err_0.entry_amount == EntryAmount::<U, AMOUNT_BYTES>::spec_new(entry, values@.len() as usize)
                && final(self).entries() == old(self).entries()
                && final(self).states() == old(self).states().take(old(self).present_end())
                && (final(self).wf() <==> old(self).states().len() == old(self).present_end()),
    {
        let amount = values.len();
        let entry_amount = EntryAmount::new(entry, amount);
        if !entry_amount.fits() {
            self.drop_future_values();
            return Err(AmountErr { values, entry_amount });
        }
        let pushed = self.truncate_and_append(values);
        self.push_entry(entry_amount);
        Ok(())
    }

    /// Like `push_and_pop_past`, for any `AMOUNT_BYTES`; fails when
    /// `values` holds more values than a push can count. A failed push has
    /// already dropped the values of the future groups, but not their entries.
    pub fn try_push_and_pop_past(&mut self, max_past_len: usize, values: VecDeque<T>, entry: U) -> (r: Result<Option<ValueEntry<VecDeque<T>, U>>, AmountErr<VecDeque<T>, U, AMOUNT_BYTES>>)
        requires
            old(self).wf(),
        ensures
            values@.len() <= amount_max(AMOUNT_BYTES) ==> final(self).wf(),
            values@.len() <= amount_max(AMOUNT_BYTES) ==> r is Ok && ({
                let popped = r->Ok_0;
                let new_states = old(self).states().take(old(self).present_end()) + values@;
                let pushed = old(self).entries().push(EntryAmount::<U, AMOUNT_BYTES>::spec_new(entry, values@.len() as usize));
                if old(self).entries().past.len() >= max_past_len {
                    let first = pushed.past[0];
                    &&& popped is Some
                    &&& popped->0.value@ == new_states.take(first.spec_amount() as int)
                    &&& popped->0.entry == first.spec_entry()
                    &&& final(self).entries() == pushed.drop_past(1)
                    &&& final(self).states() == new_states.skip(first.spec_amount() as int)
                } else {
                    &&& popped is None
                    &&& final(self).entries() == pushed
                    &&& final(self).states() == new_states
                }
            }),
            values@.len() > amount_max(AMOUNT_BYTES) ==> r is Err && r->Err_0.values@ == values@
                && r->Err_0.entry_amount == EntryAmount::<U, AMOUNT_BYTES>::spec_new(entry, values@.len() as usize)
                && final(self).entries() == old(self).entries()
                && final(self).states() == old(self).states().take(old(self).present_end())
                && (final(self).wf() <==> old(self).states().len() == old(self).present_end()),
    {
        let amount = values.len();
        let entry_amount = EntryAmount::new(entry, amount);
        if !entry_amount.fits() {
            self.drop_future_values();
            return Err(AmountErr { values, entry_amount });
        }
        Ok(self.push_and_pop_past_inner(max_past_len, values, entry_amount.into_entry()))
    }

    /// Like `push_and_drain_past`, for any `AMOUNT_BYTES`; fails
    /// when `values` holds more values than a push can count. A failed push has
    /// already dropped the values of the future groups, but not their entries.
    pub fn try_push_and_drain_past(&mut self, max_past_len: usize, values: VecDeque<T>, entry: U) -> (r: Result<(VecDeque<T>, VecDeque<EntryAmount<U, AMOUNT_BYTES>>), AmountErr<VecDeque<T>, U, AMOUNT_BYTES>>)
        requires
            old(self).wf(),
        ensures
            values@.len() <= amount_max(AMOUNT_BYTES) ==> final(self).wf(),
            values@.len() <= amount_max(AMOUNT_BYTES) ==> r is Ok && ({
                let drained = r->Ok_0;
                let new_states = old(self).states().take(old(self).present_end()) + values@;
                let pushed = old(self).entries().push(EntryAmount::<U, AMOUNT_BYTES>::spec_new(entry, values@.len() as usize));
                let n = if pushed.past.len() > max_past_len { pushed.past.len() - max_past_len } else { 0 };
                let amount = amount_sum(pushed.past.take(n as int));
                &&& drained.1@ == pushed.past.take(n as int)
                &&& drained.0@ == new_states.take(amount)
                &&& final(self).entries() == pushed.drop_past(n as nat)
                &&& final(self).states() == new_states.skip(amount)
            }),
            values@.len() > amount_max(AMOUNT_BYTES) ==> r is Err && r->Err_0.values@ == values@
                && r->Err_0.entry_amount == EntryAmount::<U, AMOUNT_BYTES>::spec_new(entry, values@.len() as usize)
                && final(self).entries() == old(self).entries()
                && final(self).states() == old(self).states().take(old(self).present_end())
                && (final(self).wf() <==> old(self).states().len() == old(self).present_end()),
    {
        let amount = values.len();
        let entry_amount = EntryAmount::new(entry, amount);
        if !entry_amount.fits() {
            self.drop_future_values();
            return Err(AmountErr { values, entry_amount });
        }
        Ok(self.push_and_drain_past_inner(max_past_len, values, entry_amount.into_entry()))
    }

    /// Replaces all groups by `states` with `entry` as the present group; fails and leaves the
    /// log unchanged when `states` holds more values than a push can count.
    pub fn try_clear_with(&mut self, states: VecDeque<T>, entry: U) -> (r: Result<(), AmountErr<VecDeque<T>, U, AMOUNT_BYTES>>)
        requires
            old(self).wf(),
        ensures
            final(self).wf(),
            states@.len() <= amount_max(AMOUNT_BYTES) ==> r is Ok
                && final(self).entries() == StateTimeline::only(EntryAmount::<U, AMOUNT_BYTES>::spec_new(entry, states@.len() as usize))
                && final(self).states() == states@,
            states@.len() > amount_max(AMOUNT_BYTES) ==> r is Err && r->Err_0.values@ == states@
                && r->Err_0.entry_amount == EntryAmount::<U, AMOUNT_BYTES>::spec_new(entry, states@.len() as usize)
                && final(self).entries() == old(self).entries() && final(self).states() == old(self).states(),
    {
        let pushed_amount = states.len();
        let entry_amount = EntryAmount::new(entry, pushed_amount);
        if !entry_amount.fits() {
            return Err(AmountErr { values: states, entry_amount });
        }
        let mut states = states;
        self.states.clear();
        self.states.append(&mut states);
        self.amounts.clear_with(entry_amount);
        self.index = pushed_amount;
        proof {
            reveal_with_fuel(amount_sum, 1);
        }
        Ok(())
    }
}

impl<T, U> DenseStatesLog<T, U, 8> {
    /// A log whose present group holds `states` with `entry`.
    pub fn new(states: VecDeque<T>, entry: U) -> (log: Self)
        ensures
            log.wf(),
            log.entries() == StateTimeline::only(EntryAmount::<U, 8>::spec_new(entry, states@.len() as usize)),
            log.states() == states@,
    {
        let amount = states.len();
        Self::from_parts(states, EntryAmount::new(entry, amount), 0)
    }

    pub fn with_capacities(states: VecDeque<T>, entry: U, states_capacity: usize, entries_capacity: usize) -> (log: Self)
        ensures
            log.wf(),
            log.entries() == StateTimeline::only(EntryAmount::<U, 8>::spec_new(entry, states@.len() as usize)),
            log.states() == states@,
    {
        let mut states_deque: VecDeque<T> = VecDeque::with_capacity(states_capacity);
        let mut states = states;
        states_deque.append(&mut states);
        let amount = states_deque.len();
        Self::from_parts(states_deque, EntryAmount::new(entry, amount), entries_capacity)
    }

    /// Pushes `values` with `entry` as the new present group, dropping the future groups.
    pub fn push(&mut self, values: VecDeque<T>, entry: U)
        requires
            old(self).wf(),
        ensures
            final(self).wf(),
            final(self).entries() == old(self).entries().push(EntryAmount::<U, 8>::spec_new(entry, values@.len() as usize)),
            final(self).states() == old(self).states().take(old(self).present_end()) + values@,
    {
        let pushed_amount = self.truncate_and_append(values);
        self.push_entry(EntryAmount::new(entry, pushed_amount));
    }

    /// Pushes a group and drops the oldest past group when the past grew beyond
    /// `max_past_len`, returning that group's values and entry.
    pub fn push_and_pop_past(&mut self, max_past_len: usize, values: VecDeque<T>, entry: U) -> (popped: Option<ValueEntry<VecDeque<T>, U>>)
        requires
            old(self).wf(),
        ensures
            final(self).wf(),
            ({
                let new_states = old(self).states().take(old(self).present_end()) + values@;
                let pushed = old(self).entries().push(EntryAmount::<U, 8>::spec_new(entry, values@.len() as usize));
                if old(self).entries().past.len() >= max_past_len {
                    let first = pushed.past[0];
                    &&& popped is Some
                    &&& popped->0.value@ == new_states.take(first.spec_amount() as int)
                    &&& popped->0.entry == first.spec_entry()
                    &&& final(self).entries() == pushed.drop_past(1)
                    &&& final(self).states() == new_states.skip(first.spec_amount() as int)
                } else {
                    &&& popped is None
                    &&& final(self).entries() == pushed
                    &&& final(self).states() == new_states
                }
            }),
    {
        self.push_and_pop_past_inner(max_past_len, values, entry)
    }

    /// Pushes a group, then removes the oldest past groups so that at most `max_past_len`
    /// remain; returns their values and entries.
    pub fn push_and_drain_past(&mut self, max_past_len: usize, values: VecDeque<T>, entry: U) -> (drained: (VecDeque<T>, VecDeque<EntryAmount<U, 8>>))
        requires
            old(self).wf(),
        ensures
            final(self).wf(),
            ({
                let new_states = old(self).states().take(old(self).present_end()) + values@;
                let pushed = old(self).entries().push(EntryAmount::<U, 8>::spec_new(entry, values@.len() as usize));
                let n = if pushed.past.len() > max_past_len { pushed.past.len() - max_past_len } else { 0 };
                let amount = amount_sum(pushed.past.take(n as int));
                &&& drained.1@ == pushed.past.take(n as int)
                &&& drained.0@ == new_states.take(amount)
                &&& final(self).entries() == pushed.drop_past(n as nat)
                &&& final(self).states() == new_states.skip(amount)
            }),
    {
        self.push_and_drain_past_inner(max_past_len, values, entry)
    }
}

} // verus!
