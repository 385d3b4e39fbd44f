//! A log of transitions with a group of transitions and an entry for every push.
use std::collections::{TryReserveError, VecDeque};
use vstd::prelude::*;

use super::deque;
use super::{
    amount_max, amount_sum, lemma_amount_sum_append, lemma_amount_sum_first, lemma_amount_sum_nonneg,
    lemma_amount_sum_single, lemma_amount_sum_split, AmountErr, DenseTransitionLog, EntryAmount, OutOfLog,
    TransitionTimeline, ValueEntry,
};

verus! {

/// A log of transitions where every push holds a group of transitions and an entry `U`.
///
/// `AMOUNT_BYTES` sets how many transitions a push may hold: up to `2^(8 * AMOUNT_BYTES) - 1`,
/// or up to `usize::MAX` for `0` or at least the size of `usize`.
#[derive(Clone, Debug)]
pub struct DenseTransitionsLog<T, U, const AMOUNT_BYTES: usize> {
    amounts: DenseTransitionLog<EntryAmount<U, AMOUNT_BYTES>>,
    transitions: VecDeque<T>,
    index: usize,
}

impl<T, U, const AMOUNT_BYTES: usize> DenseTransitionsLog<T, U, AMOUNT_BYTES> {
    /// The transitions of all groups lie in the deque one group after the other; the past
    /// groups end at `index`.
    pub closed spec fn wf(&self) -> bool {
        let t = self.amounts.timeline();
        &&& self.amounts.wf()
        &&& self.index == amount_sum(t.past)
        &&& self.transitions@.len() == self.index + amount_sum(t.future)
    }

    /// The entries with their amounts, past and future.
    pub closed spec fn entries(&self) -> TransitionTimeline<EntryAmount<U, AMOUNT_BYTES>> {
        self.amounts.timeline()
    }

    /// All stored transitions, group after group.
    pub closed spec fn transitions(&self) -> Seq<T> {
        self.transitions@
    }

    /// The position in `transitions()` where the past groups end.
    pub open spec fn past_end(&self) -> int {
        amount_sum(self.entries().past)
    }

    proof fn lemma_wf_bounds(&self)
        requires
            self.wf(),
        ensures
            0 <= amount_sum(self.entries().past),
            0 <= amount_sum(self.entries().future),
            self.index == amount_sum(self.entries().past),
            self.index <= self.transitions@.len(),
            self.amounts.transitions().len() == self.entries().past.len() + self.entries().future.len(),
    {
        lemma_amount_sum_nonneg(self.entries().past);
        lemma_amount_sum_nonneg(self.entries().future);
        self.amounts.lemma_transitions();
    }

    pub fn new() -> (log: Self)
        ensures
            log.wf(),
            log.entries() == TransitionTimeline::<EntryAmount<U, AMOUNT_BYTES>>::empty(),
            log.transitions().len() == 0,
    {
        let log = DenseTransitionsLog { amounts: DenseTransitionLog::new(), transitions: VecDeque::new(), index: 0 };
        proof {
            reveal_with_fuel(amount_sum, 1);
        }
        log
    }

    pub fn with_capacities(entries_capacity: usize, transitions_capacity: usize) -> (log: Self)
        ensures
            log.wf(),
            log.entries() == TransitionTimeline::<EntryAmount<U, AMOUNT_BYTES>>::empty(),
            log.transitions().len() == 0,
    {
        let log = DenseTransitionsLog {
            amounts: DenseTransitionLog::with_capacity(entries_capacity),
            transitions: VecDeque::with_capacity(transitions_capacity),
            index: 0,
        };
        proof {
            reveal_with_fuel(amount_sum, 1);
        }
        log
    }

    pub fn entries_len(&self) -> (len: usize)
        requires
            self.wf(),
        ensures
            len == self.entries().past.len() + self.entries().future.len(),
    {
        proof {
            self.lemma_wf_bounds();
        }
        self.amounts.transitions_len()
    }

    pub fn transitions_len(&self) -> (len: usize)
        ensures
            len == self.transitions().len(),
    {
        self.transitions.len()
    }

    pub fn entries_capacity(&self) -> (capacity: usize)
        requires
            self.wf(),
        ensures
            capacity >= self.entries().past.len() + self.entries().future.len(),
    {
        proof {
            self.lemma_wf_bounds();
        }
        self.amounts.transitions_capacity()
    }

    pub fn transitions_capacity(&self) -> (capacity: usize)
        ensures
            capacity >= self.transitions().len(),
    {
        deque::capacity(&self.transitions)
    }

    pub fn entries_is_empty(&self) -> (empty: bool)
        requires
            self.wf(),
        ensures
            empty == (self.entries().past.len() + self.entries().future.len() == 0),
    {
        proof {
            self.lemma_wf_bounds();
        }
        self.amounts.transitions_is_empty()
    }

    pub fn transitions_is_empty(&self) -> (empty: bool)
        ensures
            empty == (self.transitions().len() == 0),
    {
        self.transitions.len() == 0
    }

    pub fn entries_reserve(&mut self, additional: usize)
        requires
            old(self).wf(),
        ensures
            final(self).wf(),
            final(self).entries() == old(self).entries(),
            final(self).transitions() == old(self).transitions(),
    {
        self.amounts.transitions_reserve(additional)
    }

    pub fn transitions_reserve(&mut self, additional: usize)
        requires
            old(self).wf(),
        ensures
            final(self).wf(),
            final(self).entries() == old(self).entries(),
            final(self).transitions() == old(self).transitions(),
    {
        self.transitions.reserve(additional)
    }

    pub fn entries_reserve_exact(&mut self, additional: usize)
        requires
            old(self).wf(),
            old(self).entries().past.len() + old(self).entries().future.len() + additional <= usize::MAX,
        ensures
            final(self).wf(),
            final(self).entries() == old(self).entries(),
            final(self).transitions() == old(self).transitions(),
    {
        proof {
            self.lemma_wf_bounds();
        }
        self.amounts.transitions_reserve_exact(additional)
    }

    pub fn transitions_reserve_exact(&mut self, additional: usize)
        requires
            old(self).wf(),
            old(self).transitions().len() + additional <= usize::MAX,
        ensures
            final(self).wf(),
            final(self).entries() == old(self).entries(),
            final(self).transitions() == old(self).transitions(),
    {
        deque::reserve_exact(&mut self.transitions, additional)
    }

    pub fn entries_try_reserve(&mut self, additional: usize) -> (r: Result<(), TryReserveError>)
        requires
            old(self).wf(),
        ensures
            final(self).wf(),
            final(self).entries() == old(self).entries(),
            final(self).transitions() == old(self).transitions(),
            old(self).entries().past.len() + old(self).entries().future.len() + additional > usize::MAX ==> r is Err,
    {
        proof {
            self.lemma_wf_bounds();
        }
        self.amounts.transitions_try_reserve(additional)
    }

    pub fn transitions_try_reserve(&mut self, additional: usize) -> (r: Result<(), TryReserveError>)
        requires
            old(self).wf(),
        ensures
            final(self).wf(),
            final(self).entries() == old(self).entries(),
            final(self).transitions() == old(self).transitions(),
            old(self).transitions().len() + additional > usize::MAX ==> r is Err,
    {
        deque::try_reserve(&mut self.transitions, additional)
    }

    pub fn entries_try_reserve_exact(&mut self, additional: usize) -> (r: Result<(), TryReserveError>)
        requires
            old(self).wf(),
        ensures
            final(self).wf(),
            final(self).entries() == old(self).entries(),
            final(self).transitions() == old(self).transitions(),
            old(self).entries().past.len() + old(self).entries().future.len() + additional > usize::MAX ==> r is Err,
    {
        proof {
            self.lemma_wf_bounds();
        }
        self.amounts.transitions_try_reserve_exact(additional)
    }

    pub fn transitions_try_reserve_exact(&mut self, additional: usize) -> (r: Result<(), TryReserveError>)
        requires
            old(self).wf(),
        ensures
            final(self).wf(),
            final(self).entries() == old(self).entries(),
            final(self).transitions() == old(self).transitions(),
            old(self).transitions().len() + additional > usize::MAX ==> r is Err,
    {
        deque::try_reserve_exact(&mut self.transitions, additional)
    }

    pub fn entries_shrink_to(&mut self, min_capacity: usize)
        requires
            old(self).wf(),
        ensures
            final(self).wf(),
            final(self).entries() == old(self).entries(),
            final(self).transitions() == old(self).transitions(),
    {
        self.amounts.transitions_shrink_to(min_capacity)
    }

    pub fn transitions_shrink_to(&mut self, min_capacity: usize)
        requires
            old(self).wf(),
        ensures
            final(self).wf(),
            final(self).entries() == old(self).entries(),
            final(self).transitions() == old(self).transitions(),
    {
        deque::shrink_to(&mut self.transitions, min_capacity)
    }

    pub fn entries_shrink_to_fit(&mut self)
        requires
            old(self).wf(),
        ensures
            final(self).wf(),
            final(self).entries() == old(self).entries(),
            final(self).transitions() == old(self).transitions(),
    {
        self.amounts.transitions_shrink_to_fit()
    }

    pub fn transitions_shrink_to_fit(&mut self)
        requires
            old(self).wf(),
        ensures
            final(self).wf(),
            final(self).entries() == old(self).entries(),
            final(self).transitions() == old(self).transitions(),
    {
        deque::shrink_to_fit(&mut self.transitions)
    }

    /// Removes the future groups; returns their transitions and entries, nearest first.
    pub fn drain_future(&mut self) -> (r: (VecDeque<T>, VecDeque<EntryAmount<U, AMOUNT_BYTES>>))
        requires
            old(self).wf(),
        ensures
            final(self).wf(),
            r.0@ == old(self).transitions().skip(old(self).past_end()),
            r.1@ == old(self).entries().future,
            final(self).entries() == old(self).entries().without_future(),
            final(self).transitions() == old(self).transitions().take(old(self).past_end()),
    {
        proof {
            self.lemma_wf_bounds();
        }
        let transitions = deque::drain_from(&mut self.transitions, self.index);
        let entries = self.amounts.drain_future();
        proof {
            reveal_with_fuel(amount_sum, 1);
        }
        (transitions, entries)
    }

    /// Removes all groups.
    pub fn clear(&mut self)
        ensures
            final(self).wf(),
            final(self).entries() == TransitionTimeline::<EntryAmount<U, AMOUNT_BYTES>>::empty(),
            final(self).transitions().len() == 0,
    {
        self.transitions.clear();
        self.amounts.clear();
        self.index = 0;
        proof {
            reveal_with_fuel(amount_sum, 1);
        }
    }

    /// References to the transitions in `from..to`.
    fn group_refs(&self, from: usize, to: usize) -> (values: Vec<&T>)
        requires
            from <= to <= self.transitions@.len(),
        ensures
            values@.len() == to - from,
            forall|i: int| 0 <= i < values@.len() ==> *values@[i] == #[trigger] self.transitions@[from + i],
    {
        let mut values: Vec<&T> = Vec::new();
        let mut i = from;
        while i < to
            invariant
                from <= i <= to <= self.transitions@.len(),
                values@.len() == i - from,
                forall|j: int| 0 <= j < values@.len() ==> *values@[j] == self.transitions@[from + j],
            decreases to - i,
        {
            values.push(&self.transitions[i]);
            i = i + 1;
        }
        values
    }

    /// Steps back over the newest past group and hands out its transitions and entry, or fails
    /// when there is no past group.
    pub fn backward_log(&mut self) -> (r: Result<ValueEntry<Vec<&T>, &U>, OutOfLog>)
        requires
            old(self).wf(),
        ensures
            final(self).wf(),
            final(self).transitions() == old(self).transitions(),
            old(self).entries().past.len() == 0 ==> r is Err && final(self).entries() == old(self).entries(),
            old(self).entries().past.len() > 0 ==> r is Ok && ({
                let group = old(self).entries().past.last();
                let from = old(self).past_end() - group.spec_amount();
                let values = r->Ok_0.value;
                &&& final(self).entries() == old(self).entries().backward()
                &&& *r->Ok_0.entry == group.spec_entry()
                &&& values@.len() == group.spec_amount()
                &&& forall|i: int| 0 <= i < values@.len() ==> *values@[i] == #[trigger] old(self).transitions()[from + i]
            }),
    {
        proof {
            self.lemma_wf_bounds();
        }
        let ghost t = self.entries();
        let old_index = self.index;
        self.amounts.step_backward()?;
        proof {
            lemma_amount_sum_split(t.past, t.past.len() - 1);
            assert(t.past.take(t.past.len() - 1) =~= t.past.drop_last());
            assert(t.past.skip(t.past.len() - 1) =~= seq![t.past.last()]);
            lemma_amount_sum_single(t.past.last());
            lemma_amount_sum_append(seq![t.past.last()], t.future);
        }
        let amount = self.amounts.future_first().amount();
        self.index = self.index - amount;
        let values = self.group_refs(self.index, old_index);
        let entry = self.amounts.future_first().entry();
        Ok(ValueEntry { value: values, entry })
    }

    /// Steps forward over the nearest future group and hands out its transitions and entry, or
    /// fails when there is no future group.
    pub fn forward_log(&mut self) -> (r: Result<ValueEntry<Vec<&T>, &U>, OutOfLog>)
        requires
            old(self).wf(),
        ensures
            final(self).wf(),
            final(self).transitions() == old(self).transitions(),
            old(self).entries().future.len() == 0 ==> r is Err && final(self).entries() == old(self).entries(),
            old(self).entries().future.len() > 0 ==> r is Ok && ({
                let group = old(self).entries().future[0];
                let from = old(self).past_end();
                let values = r->Ok_0.value;
                &&& final(self).entries() == old(self).entries().forward()
                &&& *r->Ok_0.entry == group.spec_entry()
                &&& values@.len() == group.spec_amount()
                &&& forall|i: int| 0 <= i < values@.len() ==> *values@[i] == #[trigger] old(self).transitions()[from + i]
            }),
    {
        proof {
            self.lemma_wf_bounds();
        }
        let ghost t = self.entries();
        let old_index = self.index;
        let total = self.transitions.len();
        self.amounts.step_forward()?;
        proof {
            lemma_amount_sum_first(t.future);
            lemma_amount_sum_nonneg(t.future.drop_first());
            lemma_amount_sum_append(t.past, seq![t.future[0]]);
            lemma_amount_sum_single(t.future[0]);
            assert(t.past + seq![t.future[0]] =~= t.past.push(t.future[0]));
        }
        let amount = self.amounts.past_last().amount();
        proof {
            assert(self.index + amount <= total);
        }
        self.index = self.index + amount;
        let values = self.group_refs(old_index, self.index);
        let entry = self.amounts.past_last().entry();
        Ok(ValueEntry { value: values, entry })
    }
}

impl<T, U, const AMOUNT_BYTES: usize> DenseTransitionsLog<T, U, AMOUNT_BYTES> {
    /// Drops the values of the future groups, as a push that fails does: the entries stay, so
    /// the log stays well formed only when the future groups held no values.
    fn drop_future_values(&mut self)
        requires
            old(self).wf(),
        ensures
            final(self).entries() == old(self).entries(),
            final(self).transitions() == old(self).transitions().take(old(self).past_end()),
            final(self).wf() <==> old(self).transitions().len() == old(self).past_end(),
    {
        proof {
            self.lemma_wf_bounds();
        }
        self.transitions.truncate(self.index);
        proof {
            assert(self.transitions@ =~= old(self).transitions().take(old(self).past_end()));
        }
    }

    /// Drops the future groups and appends `values` after the past groups; the entries are left
    /// to the caller.
    fn truncate_and_append(&mut self, values: VecDeque<T>) -> (pushed: usize)
        requires
            old(self).wf(),
        ensures
            final(self).amounts == old(self).amounts,
            final(self).index == old(self).index,
            final(self).transitions@ == old(self).transitions@.take(old(self).index as int) + values@,
            pushed == values@.len(),
            final(self).transitions@.len() == old(self).index + pushed,
    {
        proof {
            self.lemma_wf_bounds();
        }
        let mut values = values;
        let pushed = values.len();
        self.transitions.truncate(self.index);
        self.transitions.append(&mut values);
        pushed
    }

    fn push_inner(&mut self, values: VecDeque<T>, entry: U)
        requires
            old(self).wf(),
        ensures
            final(self).wf(),
            final(self).entries() == old(self).entries().push(EntryAmount::<U, AMOUNT_BYTES>::spec_new(entry, values@.len() as usize)),
            final(self).transitions() == old(self).transitions().take(old(self).past_end()) + values@,
    {
        let ghost t = self.entries();
        let pushed_amount = self.truncate_and_append(values);
        let entry_amount = EntryAmount::new(entry, pushed_amount);
        self.amounts.push(entry_amount);
        self.index = self.transitions.len();
        proof {
            lemma_amount_sum_append(t.past, seq![entry_amount]);
            lemma_amount_sum_single(entry_amount);
            assert(t.past + seq![entry_amount] =~= t.past.push(entry_amount));
            reveal_with_fuel(amount_sum, 1);
        }
    }

    fn push_and_pop_past_inner(&mut self, max_past_len: usize, values: VecDeque<T>, entry: U) -> (popped: Option<ValueEntry<VecDeque<T>, U>>)
        requires
            old(self).wf(),
        ensures
            final(self).wf(),
            ({
                let new_transitions = old(self).transitions().take(old(self).past_end()) + values@;
                let pushed = old(self).entries().push(EntryAmount::<U, AMOUNT_BYTES>::spec_new(entry, values@.len() as usize));
                if old(self).entries().past.len() >= max_past_len {
                    let first = pushed.past[0];
                    &&& popped is Some
                    &&& popped->0.value@ == new_transitions.take(first.spec_amount() as int)
                    &&& popped->0.entry == first.spec_entry()
                    &&& final(self).entries() == pushed.drop_past(1)
                    &&& final(self).transitions() == new_transitions.skip(first.spec_amount() as int)
                } else {
                    &&& popped is None
                    &&& final(self).entries() == pushed
                    &&& final(self).transitions() == new_transitions
                }
            }),
    {
        proof {
            self.lemma_wf_bounds();
        }
        let ghost t = self.entries();
        let pushed_amount = self.truncate_and_append(values);
        let entry_amount = EntryAmount::new(entry, pushed_amount);
        self.index = self.transitions.len();
        let ghost p = t.push(entry_amount).past;
        let popped = self.amounts.push_and_pop_past(max_past_len, entry_amount);
        proof {
            lemma_amount_sum_append(t.past, seq![entry_amount]);
            lemma_amount_sum_single(entry_amount);
            assert(t.past + seq![entry_amount] =~= t.past.push(entry_amount));
            reveal_with_fuel(amount_sum, 1);
        }
        match popped {
            Some(entry_amount) => {
                proof {
                    lemma_amount_sum_first(p);
                    lemma_amount_sum_nonneg(p.drop_first());
                    assert(p.skip(1) =~= p.drop_first());
                }
                let amount = entry_amount.amount();
                self.index = self.index - amount;
                let value = deque::drain_front(&mut self.transitions, amount);
                Some(ValueEntry { value, entry: entry_amount.into_entry() })
            },
            None => None,
        }
    }

    fn push_and_drain_past_inner(&mut self, max_past_len: usize, values: VecDeque<T>, entry: U) -> (drained: (VecDeque<T>, VecDeque<EntryAmount<U, AMOUNT_BYTES>>))
        requires
            old(self).wf(),
        ensures
            final(self).wf(),
            ({
                let new_transitions = old(self).transitions().take(old(self).past_end()) + values@;
                let pushed = old(self).entries().push(EntryAmount::<U, AMOUNT_BYTES>::spec_new(entry, values@.len() as usize));
                let n = if pushed.past.len() > max_past_len { pushed.past.len() - max_past_len } else { 0 };
                let amount = amount_sum(pushed.past.take(n as int));
                &&& drained.1@ == pushed.past.take(n as int)
                &&& drained.0@ == new_transitions.take(amount)
                &&& final(self).entries() == pushed.drop_past(n as nat)
                &&& final(self).transitions() == new_transitions.skip(amount)
            }),
    {
        proof {
            self.lemma_wf_bounds();
        }
        let ghost t = self.entries();
        let pushed_amount = self.truncate_and_append(values);
        let entry_amount = EntryAmount::new(entry, pushed_amount);
        self.index = self.transitions.len();
        let ghost p = t.push(entry_amount).past;
        let entries = self.amounts.push_and_drain_past(max_past_len, entry_amount);
        proof {
            lemma_amount_sum_append(t.past, seq![entry_amount]);
            lemma_amount_sum_single(entry_amount);
            assert(t.past + seq![entry_amount] =~= t.past.push(entry_amount));
            reveal_with_fuel(amount_sum, 1);
            lemma_amount_sum_split(p, entries@.len() as int);
        }
        let mut amount: usize = 0;
        let mut i: usize = 0;
        while i < entries.len()
            invariant
                i <= entries@.len(),
                entries@ == p.take(entries@.len() as int),
                entries@.len() <= p.len(),
                amount == amount_sum(entries@.take(i as int)),
                amount_sum(entries@) <= self.index,
            decreases entries@.len() - i,
        {
            proof {
                lemma_amount_sum_split(entries@, i as int + 1);
                assert(entries@.take(i as int + 1) =~= entries@.take(i as int).push(entries@[i as int]));
                lemma_amount_sum_split(entries@.take(i as int + 1), i as int);
                assert(entries@.take(i as int + 1).take(i as int) =~= entries@.take(i as int));
                assert(entries@.take(i as int + 1).skip(i as int) =~= seq![entries@[i as int]]);
                lemma_amount_sum_single(entries@[i as int]);
            }
            amount = amount + entries[i].amount();
            i = i + 1;
        }
        proof {
            assert(entries@.take(entries@.len() as int) =~= entries@);
        }
        self.index = self.index - amount;
        let transitions = deque::drain_front(&mut self.transitions, amount);
        (transitions, entries)
    }

    /// Pushes `values` with `entry` as the newest past group, dropping the future groups; fails
    /// when `values` holds more transitions than a push can count. A failed push has
    /// already dropped the values of the future groups, but not their entries.
    pub fn try_push(&mut self, values: VecDeque<T>, entry: U) -> (r: Result<(), AmountErr<VecDeque<T>, U, AMOUNT_BYTES>>)
        requires
            old(self).wf(),
        ensures
            values@.len() <= amount_max(AMOUNT_BYTES) ==> final(self).wf(),
            values@.len() <= amount_max(AMOUNT_BYTES) ==> r is Ok
                && final(self).entries() == old(self).entries().push(EntryAmount::<U, AMOUNT_BYTES>::spec_new(entry, values@.len() as usize))
                && final(self).transitions() == old(self).transitions().take(old(self).past_end()) + values@,
            values@.len() > amount_max(AMOUNT_BYTES) ==> r is Err && r->Err_0.values@ == values@
                && r->Err_0.entry_amount == EntryAmount::<U, AMOUNT_BYTES>::spec_new(entry, values@.len() as usize)
                && final(self).entries() == old(self).entries()
                && final(self).transitions() == old(self).transitions().take(old(self).past_end())
                && (final(self).wf() <==> old(self).transitions().len() == old(self).past_end()),
    {
        let amount = values.len();
        let entry_amount = EntryAmount::new(entry, amount);
        if !entry_amount.fits() {
            self.drop_future_values();
            return Err(AmountErr { values, entry_amount });
        }
        self.push_inner(values, entry_amount.into_entry());
        Ok(())
    }

    /// Like `push_and_pop_past`, for any `AMOUNT_BYTES`; fails when
    /// `values` holds more transitions than a push can count. A failed push has
    /// already dropped the values of the future groups, but not their entries.
    pub fn try_push_and_pop_past(&mut self, max_past_len: usize, values: VecDeque<T>, entry: U) -> (r: Result<Option<ValueEntry<VecDeque<T>, U>>, AmountErr<VecDeque<T>, U, AMOUNT_BYTES>>)
        requires
            old(self).wf(),
        ensures
            values@.len() <= amount_max(AMOUNT_BYTES) ==> final(self).wf(),
            values@.len() <= amount_max(AMOUNT_BYTES) ==> r is Ok && ({
                let popped = r->Ok_0;
                let new_transitions = old(self).transitions().take(old(self).past_end()) + values@;
                let pushed = old(self).entries().push(EntryAmount::<U, AMOUNT_BYTES>::spec_new(entry, values@.len() as usize));
                if old(self).entries().past.len() >= max_past_len {
                    let first = pushed.past[0];
                    &&& popped is Some
                    &&& popped->0.value@ == new_transitions.take(first.spec_amount() as int)
                    &&& popped->0.entry == first.spec_entry()
                    &&& final(self).entries() == pushed.drop_past(1)
                    &&& final(self).transitions() == new_transitions.skip(first.spec_amount() as int)
                } else {
                    &&& popped is None
                    &&& final(self).entries() == pushed
                    &&& final(self).transitions() == new_transitions
                }
            }),
            values@.len() > amount_max(AMOUNT_BYTES) ==> r is Err && r->Err_0.values@ == values@
                && r->Err_0.entry_amount == EntryAmount::<U, AMOUNT_BYTES>::spec_new(entry, values@.len() as usize)
                && final(self).entries() == old(self).entries()
                && final(self).transitions() == old(self).transitions().take(old(self).past_end())
                && (final(self).wf() <==> old(self).transitions().len() == old(self).past_end()),
    {
        let amount = values.len();
        let entry_amount = EntryAmount::new(entry, amount);
        if !entry_amount.fits() {
            self.drop_future_values();
            return Err(AmountErr { values, entry_amount });
        }
        Ok(self.push_and_pop_past_inner(max_past_len, values, entry_amount.into_entry()))
    }

    /// Like `push_and_drain_past`, for any `AMOUNT_BYTES`; fails
    /// when `values` holds more transitions than a push can count. A failed push has
    /// already dropped the values of the future groups, but not their entries.
    pub fn try_push_and_drain_past(&mut self, max_past_len: usize, values: VecDeque<T>, entry: U) -> (r: Result<(VecDeque<T>, VecDeque<EntryAmount<U, AMOUNT_BYTES>>), AmountErr<VecDeque<T>, U, AMOUNT_BYTES>>)
        requires
            old(self).wf(),
        ensures
            values@.len() <= amount_max(AMOUNT_BYTES) ==> final(self).wf(),
            values@.len() <= amount_max(AMOUNT_BYTES) ==> r is Ok && ({
                let drained = r->Ok_0;
                let new_transitions = old(self).transitions().take(old(self).past_end()) + values@;
                let pushed = old(self).entries().push(EntryAmount::<U, AMOUNT_BYTES>::spec_new(entry, values@.len() as usize));
                let n = if pushed.past.len() > max_past_len { pushed.past.len() - max_past_len } else { 0 };
                let amount = amount_sum(pushed.past.take(n as int));
                &&& drained.1@ == pushed.past.take(n as int)
                &&& drained.0@ == new_transitions.take(amount)
                &&& final(self).entries() == pushed.drop_past(n as nat)
                &&& final(self).transitions() == new_transitions.skip(amount)
            }),
            values@.len() > amount_max(AMOUNT_BYTES) ==> r is Err && r->Err_0.values@ == values@
                && r->Err_0.entry_amount == EntryAmount::<U, AMOUNT_BYTES>::spec_new(entry, values@.len() as usize)
                && final(self).entries() == old(self).entries()
                && final(self).transitions() == old(self).transitions().take(old(self).past_end())
                && (final(self).wf() <==> old(self).transitions().len() == old(self).past_end()),
    {
        let amount = values.len();
        let entry_amount = EntryAmount::new(entry, amount);
        if !entry_amount.fits() {
            self.drop_future_values();
            return Err(AmountErr { values, entry_amount });
        }
        Ok(self.push_and_drain_past_inner(max_past_len, values, entry_amount.into_entry()))
    }
}

impl<T, U> DenseTransitionsLog<T, U, 8> {
    /// Pushes `values` with `entry` as the newest past group, dropping the future groups.
    pub fn push(&mut self, values: VecDeque<T>, entry: U)
        requires
            old(self).wf(),
        ensures
            final(self).wf(),
            final(self).entries() == old(self).entries().push(EntryAmount::<U, 8>::spec_new(entry, values@.len() as usize)),
            final(self).transitions() == old(self).transitions().take(old(self).past_end()) + values@,
    {
        self.push_inner(values, entry)
    }

    /// Pushes a group and drops the oldest past group when the past grew beyond
    /// `max_past_len`, returning that group's transitions and entry.
    pub fn push_and_pop_past(&mut self, max_past_len: usize, values: VecDeque<T>, entry: U) -> (popped: Option<ValueEntry<VecDeque<T>, U>>)
        requires
            old(self).wf(),
        ensures
            final(self).wf(),
            ({
                let new_transitions = old(self).transitions().take(old(self).past_end()) + values@;
                let pushed = old(self).entries().push(EntryAmount::<U, 8>::spec_new(entry, values@.len() as usize));
                if old(self).entries().past.len() >= max_past_len {
                    let first = pushed.past[0];
                    &&& popped is Some
                    &&& popped->0.value@ == new_transitions.take(first.spec_amount() as int)
                    &&& popped->0.entry == first.spec_entry()
                    &&& final(self).entries() == pushed.drop_past(1)
                    &&& final(self).transitions() == new_transitions.skip(first.spec_amount() as int)
                } else {
                    &&& popped is None
                    &&& final(self).entries() == pushed
                    &&& final(self).transitions() == new_transitions
                }
            }),
    {
        self.push_and_pop_past_inner(max_past_len, values, entry)
    }

    /// Pushes a group, then removes the oldest past groups so that at most `max_past_len`
    /// remain; returns their transitions and entries.
    pub fn push_and_drain_past(&mut self, max_past_len: usize, values: VecDeque<T>, entry: U) -> (drained: (VecDeque<T>, VecDeque<EntryAmount<U, 8>>))
        requires
            old(self).wf(),
        ensures
            final(self).wf(),
            ({
                let new_transitions = old(self).transitions().take(old(self).past_end()) + values@;
                let pushed = old(self).entries().push(EntryAmount::<U, 8>::spec_new(entry, values@.len() as usize));
                let n = if pushed.past.len() > max_past_len { pushed.past.len() - max_past_len } else { 0 };
                let amount = amount_sum(pushed.past.take(n as int));
                &&& drained.1@ == pushed.past.take(n as int)
                &&& drained.0@ == new_transitions.take(amount)
                &&& final(self).entries() == pushed.drop_past(n as nat)
                &&& final(self).transitions() == new_transitions.skip(amount)
            }),
    {
        self.push_and_drain_past_inner(max_past_len, values, entry)
    }
}

} // verus!
