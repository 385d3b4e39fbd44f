//! A log of transitions with a group of values and an entry for every push that holds some; a
//! push without values only counts a skip.
use std::collections::{TryReserveError, VecDeque};
use vstd::prelude::*;

use super::deque;
use super::rare_state::{lemma_rare_drain_count_bound, RareValue};
use super::rare_states::{
    lemma_rare_amount_sum_append, lemma_rare_amount_sum_nonneg, lemma_rare_amount_sum_single,
    lemma_rare_amount_sum_split, lemma_rare_amount_sum_values, rare_amount_sum,
};
use super::rare_transition::{RareTransitionLog, RareTransitionView};
use super::{amount_max, amount_sum, AmountErr, EntryAmount, OutOfLog, ValueEntry};

verus! {

/// A log of transitions where a push holds a group of values and an entry `U`, or nothing,
/// which only counts a skip.
///
/// `AMOUNT_BYTES` sets how many values a push may hold: up to `2^(8 * AMOUNT_BYTES) - 1`, or
/// up to `usize::MAX` for `0` or at least the size of `usize`.
#[derive(Clone, Debug)]
pub struct RareTransitionsLog<T, U, const AMOUNT_BYTES: usize> {
    amounts: RareTransitionLog<EntryAmount<U, AMOUNT_BYTES>>,
    transitions: VecDeque<T>,
    index: usize,
}

impl<T, U, const AMOUNT_BYTES: usize> RareTransitionsLog<T, U, AMOUNT_BYTES> {
    /// The entries with their amounts and the skips before them.
    pub closed spec fn entries(&self) -> RareTransitionView<EntryAmount<U, AMOUNT_BYTES>> {
        self.amounts@
    }

    /// All stored values, group after group.
    pub closed spec fn transitions(&self) -> Seq<T> {
        self.transitions@
    }

    /// The values of all groups lie in the deque one group after the other; the past groups
    /// end at `index`.
    pub closed spec fn wf(&self) -> bool {
        let e = self.amounts@;
        &&& self.amounts.wf()
        &&& self.index == rare_amount_sum(e.transitions.take(e.index))
        &&& self.transitions@.len() == self.index + rare_amount_sum(e.transitions.skip(e.index))
    }

    /// The number of values in the past groups.
    pub open spec fn past_amount(&self) -> int {
        rare_amount_sum(self.entries().transitions.take(self.entries().index))
    }

    proof fn lemma_wf_bounds(&self)
        requires
            self.wf(),
        ensures
            self.index == self.past_amount(),
            self.index <= self.transitions@.len(),
            self.entries().wf(),
    {
        let e = self.amounts@;
        lemma_rare_amount_sum_nonneg(e.transitions.skip(e.index));
    }

    /// An empty log.
    pub open spec fn empty_entries() -> RareTransitionView<EntryAmount<U, AMOUNT_BYTES>> {
        RareTransitionView { transitions: Seq::empty(), index: 0, skips: 0, skips_max: 0, past_len: 0 }
    }

    pub fn new() -> (log: Self)
        ensures
            log.wf(),
            log.entries() == Self::empty_entries(),
            log.transitions().len() == 0,
    {
        let log = RareTransitionsLog { amounts: RareTransitionLog::new(), transitions: VecDeque::new(), index: 0 };
        proof {
            assert(log.amounts@.transitions.take(0) =~= Seq::<RareValue<EntryAmount<U, AMOUNT_BYTES>>>::empty());
            assert(log.amounts@.transitions.skip(0) =~= Seq::<RareValue<EntryAmount<U, AMOUNT_BYTES>>>::empty());
        }
        log
    }

    pub fn with_capacities(entries_capacity: usize, transitions_capacity: usize) -> (log: Self)
        ensures
            log.wf(),
            log.entries() == Self::empty_entries(),
            log.transitions().len() == 0,
    {
        let log = RareTransitionsLog {
            amounts: RareTransitionLog::with_capacity(entries_capacity),
            transitions: VecDeque::with_capacity(transitions_capacity),
            index: 0,
        };
        proof {
            assert(log.amounts@.transitions.take(0) =~= Seq::<RareValue<EntryAmount<U, AMOUNT_BYTES>>>::empty());
            assert(log.amounts@.transitions.skip(0) =~= Seq::<RareValue<EntryAmount<U, AMOUNT_BYTES>>>::empty());
        }
        log
    }

    pub fn entries_len(&self) -> (len: usize)
        ensures
            len == self.entries().transitions.len(),
    {
        self.amounts.transitions_len()
    }

    pub fn transitions_len(&self) -> (len: usize)
        ensures
            len == self.transitions().len(),
    {
        self.transitions.len()
    }

    pub fn entries_capacity(&self) -> (capacity: usize)
        ensures
            capacity >= self.entries().transitions.len(),
    {
        self.amounts.transitions_capacity()
    }

    pub fn transitions_capacity(&self) -> (capacity: usize)
        ensures
            capacity >= self.transitions().len(),
    {
        deque::capacity(&self.transitions)
    }

    pub fn entries_is_empty(&self) -> (empty: bool)
        ensures
            empty == (self.entries().transitions.len() == 0),
    {
        self.amounts.transitions_is_empty()
    }

    pub fn transitions_is_empty(&self) -> (empty: bool)
        ensures
            empty == (self.transitions().len() == 0),
    {
        self.transitions.len() == 0
    }

    pub fn entries_reserve(&mut self, additional: usize)
        ensures
            final(self).wf() == old(self).wf(),
            final(self).entries() == old(self).entries(),
            final(self).transitions() == old(self).transitions(),
    {
        self.amounts.transitions_reserve(additional)
    }

    pub fn transitions_reserve(&mut self, additional: usize)
        ensures
            final(self).wf() == old(self).wf(),
            final(self).entries() == old(self).entries(),
            final(self).transitions() == old(self).transitions(),
    {
        self.transitions.reserve(additional)
    }

    pub fn entries_reserve_exact(&mut self, additional: usize)
        requires
            old(self).entries().transitions.len() + additional <= usize::MAX,
        ensures
            final(self).wf() == old(self).wf(),
            final(self).entries() == old(self).entries(),
            final(self).transitions() == old(self).transitions(),
    {
        self.amounts.transitions_reserve_exact(additional)
    }

    pub fn transitions_reserve_exact(&mut self, additional: usize)
        requires
            old(self).transitions().len() + additional <= usize::MAX,
        ensures
            final(self).wf() == old(self).wf(),
            final(self).entries() == old(self).entries(),
            final(self).transitions() == old(self).transitions(),
    {
        deque::reserve_exact(&mut self.transitions, additional)
    }

    pub fn entries_try_reserve(&mut self, additional: usize) -> (r: Result<(), TryReserveError>)
        ensures
            final(self).wf() == old(self).wf(),
            final(self).entries() == old(self).entries(),
            final(self).transitions() == old(self).transitions(),
            old(self).entries().transitions.len() + additional > usize::MAX ==> r is Err,
    {
        self.amounts.transitions_try_reserve(additional)
    }

    pub fn transitions_try_reserve(&mut self, additional: usize) -> (r: Result<(), TryReserveError>)
        ensures
            final(self).wf() == old(self).wf(),
            final(self).entries() == old(self).entries(),
            final(self).transitions() == old(self).transitions(),
            old(self).transitions().len() + additional > usize::MAX ==> r is Err,
    {
        deque::try_reserve(&mut self.transitions, additional)
    }

    pub fn entries_try_reserve_exact(&mut self, additional: usize) -> (r: Result<(), TryReserveError>)
        ensures
            final(self).wf() == old(self).wf(),
            final(self).entries() == old(self).entries(),
            final(self).transitions() == old(self).transitions(),
            old(self).entries().transitions.len() + additional > usize::MAX ==> r is Err,
    {
        self.amounts.transitions_try_reserve_exact(additional)
    }

    pub fn transitions_try_reserve_exact(&mut self, additional: usize) -> (r: Result<(), TryReserveError>)
        ensures
            final(self).wf() == old(self).wf(),
            final(self).entries() == old(self).entries(),
            final(self).transitions() == old(self).transitions(),
            old(self).transitions().len() + additional > usize::MAX ==> r is Err,
    {
        deque::try_reserve_exact(&mut self.transitions, additional)
    }

    pub fn entries_shrink_to(&mut self, min_capacity: usize)
        ensures
            final(self).wf() == old(self).wf(),
            final(self).entries() == old(self).entries(),
            final(self).transitions() == old(self).transitions(),
    {
        self.amounts.transitions_shrink_to(min_capacity)
    }

    pub fn transitions_shrink_to(&mut self, min_capacity: usize)
        ensures
            final(self).wf() == old(self).wf(),
            final(self).entries() == old(self).entries(),
            final(self).transitions() == old(self).transitions(),
    {
        deque::shrink_to(&mut self.transitions, min_capacity)
    }

    pub fn entries_shrink_to_fit(&mut self)
        ensures
            final(self).wf() == old(self).wf(),
            final(self).entries() == old(self).entries(),
            final(self).transitions() == old(self).transitions(),
    {
        self.amounts.transitions_shrink_to_fit()
    }

    pub fn transitions_shrink_to_fit(&mut self)
        ensures
            final(self).wf() == old(self).wf(),
            final(self).entries() == old(self).entries(),
            final(self).transitions() == old(self).transitions(),
    {
        deque::shrink_to_fit(&mut self.transitions)
    }

    /// References to the values in positions `from` up to `to`.
    fn range_refs(&self, from: usize, to: usize) -> (values: Vec<&T>)
        requires
            from <= to <= self.transitions@.len(),
        ensures
            values@.len() == to - from,
            forall|i: int| 0 <= i < values@.len() ==> *values@[i] == #[trigger] self.transitions@[from + i],
    {
        let mut values: Vec<&T> = Vec::new();
        let mut i = from;
        while i < to
            invariant
                from <= i <= to <= self.transitions@.len(),
                values@.len() == i - from,
                forall|j: int| 0 <= j < values@.len() ==> *values@[j] == self.transitions@[from + j],
            decreases to - i,
        {
            values.push(&self.transitions[i]);
            i = i + 1;
        }
        values
    }

    /// The entry of the oldest past group, or `None` when the log stands at its past end.
    pub fn past_end(&self) -> (r: Option<&U>)
        requires
            self.wf(),
        ensures
            self.entries().index == 0 ==> r is None,
            self.entries().index > 0 ==> r == Some(&self.entries().transitions[0].value.spec_entry()),
    {
        match self.amounts.past_end() {
            Some(entry_amount) => Some(entry_amount.entry()),
            None => None,
        }
    }

    /// How the amounts split when the oldest past entry goes.
    proof fn lemma_drop_first_amounts(&self, e: RareTransitionView<EntryAmount<U, AMOUNT_BYTES>>)
        requires
            e.wf(),
            e.index > 0,
        ensures
            rare_amount_sum(e.transitions.take(e.index)) == e.transitions[0].value.spec_amount()
                + rare_amount_sum(e.drop_past(1).transitions.take(e.index - 1)),
            rare_amount_sum(e.transitions.skip(e.index)) == rare_amount_sum(e.drop_past(1).transitions.skip(e.index - 1)),
            rare_amount_sum(e.drop_past(1).transitions.take(e.index - 1)) >= 0,
    {
        let p = e.transitions.take(e.index);
        lemma_rare_amount_sum_split(p, 1);
        assert(p.take(1) =~= seq![e.transitions[0]]);
        lemma_rare_amount_sum_single(e.transitions[0]);
        assert(p.skip(1) =~= e.transitions.skip(1).take(e.index - 1));
        assert(e.transitions.skip(1).skip(e.index - 1) =~= e.transitions.skip(e.index));
    }

    /// Takes the oldest `entry_amount`'s values out after its entry left the entry log.
    fn drain_front_group(&mut self, entry_amount: EntryAmount<U, AMOUNT_BYTES>) -> (r: ValueEntry<VecDeque<T>, U>)
        requires
            entry_amount.spec_amount() <= old(self).index,
            old(self).index <= old(self).transitions@.len(),
        ensures
            final(self).amounts == old(self).amounts,
            final(self).index == old(self).index - entry_amount.spec_amount(),
            final(self).transitions@ == old(self).transitions@.skip(entry_amount.spec_amount() as int),
            r.value@ == old(self).transitions@.take(entry_amount.spec_amount() as int),
            r.entry == entry_amount.spec_entry(),
    {
        let amount = entry_amount.amount();
        self.index = self.index - amount;
        let value = deque::drain_front(&mut self.transitions, amount);
        ValueEntry { value, entry: entry_amount.into_entry() }
    }

    /// Removes the oldest past group and returns its values and entry, or `None` when the log
    /// stands at its past end.
    pub fn pop_past(&mut self) -> (r: Option<ValueEntry<VecDeque<T>, U>>)
        requires
            old(self).wf(),
        ensures
            final(self).wf(),
            old(self).entries().index == 0 ==> r is None && final(self).entries() == old(self).entries()
                && final(self).transitions() == old(self).transitions(),
            old(self).entries().index > 0 ==> r is Some && ({
                let first = old(self).entries().transitions[0].value;
                &&& r->0.value@ == old(self).transitions().take(first.spec_amount() as int)
                &&& r->0.entry == first.spec_entry()
                &&& final(self).entries() == old(self).entries().drop_past(1)
                &&& final(self).transitions() == old(self).transitions().skip(first.spec_amount() as int)
            }),
    {
        proof {
            self.lemma_wf_bounds();
        }
        if self.amounts.past_end().is_none() {
            return None;
        }
        let ghost e = self.amounts@;
        match self.amounts.pop_past() {
            Some(entry_amount) => {
                proof {
                    self.lemma_drop_first_amounts(e);
                }
                Some(self.drain_front_group(entry_amount))
            },
            None => None,
        }
    }

    /// Removes the future groups; returns their values and their entries, nearest first.
    pub fn drain_future(&mut self) -> (r: (VecDeque<T>, Vec<EntryAmount<U, AMOUNT_BYTES>>))
        requires
            old(self).wf(),
        ensures
            final(self).wf(),
            r.0@ == old(self).transitions().skip(old(self).past_amount()),
            r.1@ == old(self).entries().transitions.skip(old(self).entries().index).map_values(
                |e: RareValue<EntryAmount<U, AMOUNT_BYTES>>| e.value,
            ),
            final(self).entries() == (RareTransitionView {
                transitions: old(self).entries().transitions.take(old(self).entries().index),
                skips_max: old(self).entries().skips,
                ..old(self).entries()
            }),
            final(self).transitions() == old(self).transitions().take(old(self).past_amount()),
    {
        proof {
            self.lemma_wf_bounds();
        }
        let ghost e = self.amounts@;
        let transitions = deque::drain_from(&mut self.transitions, self.index);
        let entries = self.amounts.drain_future();
        proof {
            assert(e.transitions.take(e.index).take(e.index) =~= e.transitions.take(e.index));
            assert(e.transitions.take(e.index).skip(e.index) =~= Seq::<RareValue<EntryAmount<U, AMOUNT_BYTES>>>::empty());
        }
        (transitions, entries)
    }

    /// Removes all groups.
    pub fn clear(&mut self)
        ensures
            final(self).wf(),
            final(self).entries() == Self::empty_entries(),
            final(self).transitions().len() == 0,
    {
        self.amounts.clear();
        self.transitions.clear();
        self.index = 0;
        proof {
            assert(self.amounts@.transitions.take(0) =~= Seq::<RareValue<EntryAmount<U, AMOUNT_BYTES>>>::empty());
            assert(self.amounts@.transitions.skip(0) =~= Seq::<RareValue<EntryAmount<U, AMOUNT_BYTES>>>::empty());
        }
    }

    /// Steps one push back. Hands out the values and the entry of the group stepped over to
    /// be undone, `None` for a push without values, or fails when there is no past push.
    pub fn backward_log(&mut self) -> (r: Result<Option<ValueEntry<Vec<&T>, &U>>, OutOfLog>)
        requires
            old(self).wf(),
        ensures
            final(self).wf(),
            final(self).transitions() == old(self).transitions(),
            !old(self).entries().can_backward() ==> r is Err && final(self).entries() == old(self).entries(),
            old(self).entries().can_backward() ==> r is Ok && final(self).entries() == old(self).entries().backward(),
            old(self).entries().can_backward() && !old(self).entries().backward_hands_out() ==> r == Ok::<
                Option<ValueEntry<Vec<&T>, &U>>,
                OutOfLog,
            >(None),
            old(self).entries().backward_hands_out() ==> r is Ok && r->Ok_0 is Some && ({
                let group = r->Ok_0->Some_0;
                let stepped = old(self).entries().transitions[old(self).entries().index - 1].value;
                let from = final(self).past_amount();
                &&& group.value@.len() == stepped.spec_amount()
                &&& forall|i: int| 0 <= i < group.value@.len() ==> *group.value@[i] == #[trigger] old(self).transitions()[from + i]
                &&& *group.entry == stepped.spec_entry()
            }),
    {
        proof {
            self.lemma_wf_bounds();
        }
        let ghost e = self.amounts@;
        let stepped = self.amounts.step_backward()?;
        if !stepped {
            return Ok(None);
        }
        let i = self.amounts.index();
        let entry_amount = self.amounts.transition_at(i);
        let amount = entry_amount.amount();
        proof {
            let p = e.transitions.take(e.index);
            lemma_rare_amount_sum_split(p, i as int);
            assert(p.take(i as int) =~= e.transitions.take(i as int));
            assert(p.skip(i as int) =~= seq![e.transitions[i as int]]);
            lemma_rare_amount_sum_single(e.transitions[i as int]);
            let f = e.transitions.skip(i as int);
            assert(f =~= seq![e.transitions[i as int]] + e.transitions.skip(e.index));
            lemma_rare_amount_sum_append(seq![e.transitions[i as int]], e.transitions.skip(e.index));
        }
        let old_index = self.index;
        self.index = self.index - amount;
        let values = self.range_refs(self.index, old_index);
        Ok(Some(ValueEntry { value: values, entry: entry_amount.entry() }))
    }

    /// Steps one push forward. Hands out the values and the entry of the group stepped over to
    /// be redone, `None` for a push without values, or fails when there is no future push.
    pub fn forward_log(&mut self) -> (r: Result<Option<ValueEntry<Vec<&T>, &U>>, OutOfLog>)
        requires
            old(self).wf(),
            old(self).entries().past_len < usize::MAX,
        ensures
            final(self).wf(),
            final(self).transitions() == old(self).transitions(),
            !old(self).entries().can_forward() ==> r is Err && final(self).entries() == old(self).entries(),
            old(self).entries().can_forward() ==> r is Ok && final(self).entries() == old(self).entries().forward(),
            old(self).entries().can_forward() && !old(self).entries().forward_hands_out() ==> r == Ok::<
                Option<ValueEntry<Vec<&T>, &U>>,
                OutOfLog,
            >(None),
            old(self).entries().forward_hands_out() ==> r is Ok && r->Ok_0 is Some && ({
                let group = r->Ok_0->Some_0;
                let stepped = old(self).entries().transitions[old(self).entries().index].value;
                let from = old(self).past_amount();
                &&& group.value@.len() == stepped.spec_amount()
                &&& forall|i: int| 0 <= i < group.value@.len() ==> *group.value@[i] == #[trigger] old(self).transitions()[from + i]
                &&& *group.entry == stepped.spec_entry()
            }),
    {
        proof {
            self.lemma_wf_bounds();
        }
        let ghost e = self.amounts@;
        let total = self.transitions.len();
        let stepped = self.amounts.step_forward()?;
        if !stepped {
            return Ok(None);
        }
        let i = self.amounts.index() - 1;
        let entry_amount = self.amounts.transition_at(i);
        let amount = entry_amount.amount();
        proof {
            let f = e.transitions.skip(e.index);
            lemma_rare_amount_sum_split(f, 1);
            assert(f.take(1) =~= seq![e.transitions[e.index]]);
            lemma_rare_amount_sum_single(e.transitions[e.index]);
            assert(e.transitions.take(e.index + 1) =~= e.transitions.take(e.index) + seq![e.transitions[e.index]]);
            lemma_rare_amount_sum_append(e.transitions.take(e.index), seq![e.transitions[e.index]]);
            assert(e.transitions.skip(e.index + 1) =~= f.skip(1));
            assert(self.index + amount <= total);
        }
        let old_index = self.index;
        self.index = self.index + amount;
        let values = self.range_refs(old_index, self.index);
        proof {
            assert(old_index == old(self).past_amount());
            assert(values@.len() == e.transitions[e.index].value.spec_amount());
            assert forall|j: int| 0 <= j < values@.len() implies *values@[j] == #[trigger] old(self).transitions()[old_index + j] by {
                assert(*values@[j] == self.transitions@[old_index + j]);
            }
        }
        Ok(Some(ValueEntry { value: values, entry: entry_amount.entry() }))
    }

    /// Removes the oldest past group when the past pushes without it still reach
    /// `max_past_len`, and returns its values and entry.
    pub fn pop_past_by_len(&mut self, max_past_len: usize) -> (r: Option<ValueEntry<VecDeque<T>, U>>)
        requires
            old(self).wf(),
        ensures
            final(self).wf(),
            !old(self).entries().pops(max_past_len) ==> r is None && final(self).entries() == old(self).entries()
                && final(self).transitions() == old(self).transitions(),
            old(self).entries().pops(max_past_len) ==> r is Some && ({
                let first = old(self).entries().transitions[0].value;
                &&& r->0.value@ == old(self).transitions().take(first.spec_amount() as int)
                &&& r->0.entry == first.spec_entry()
                &&& final(self).entries() == old(self).entries().drop_past(1)
                &&& final(self).transitions() == old(self).transitions().skip(first.spec_amount() as int)
            }),
    {
        proof {
            self.lemma_wf_bounds();
        }
        let ghost e = self.amounts@;
        match self.amounts.pop_past_by_len(max_past_len) {
            Some(entry_amount) => {
                proof {
                    self.lemma_drop_first_amounts(e);
                }
                Some(self.drain_front_group(entry_amount))
            },
            None => None,
        }
    }

    /// Removes the oldest past groups as long as the past pushes without them still reach
    /// `max_past_len`, and returns their values.
    pub fn drain_past_by_len(&mut self, max_past_len: usize) -> (drained: VecDeque<T>)
        requires
            old(self).wf(),
        ensures
            final(self).wf(),
            ({
                let n = old(self).entries().drain_count(max_past_len);
                let amount = rare_amount_sum(old(self).entries().transitions.take(n as int));
                &&& drained@ == old(self).transitions().take(amount)
                &&& final(self).entries() == old(self).entries().drop_past(n as int)
                &&& final(self).transitions() == old(self).transitions().skip(amount)
            }),
    {
        proof {
            self.lemma_wf_bounds();
        }
        let ghost e = self.amounts@;
        let ghost n = e.drain_count(max_past_len);
        let entries = self.amounts.drain_past_by_len(max_past_len);
        let ghost drained_entries = e.transitions.take(n as int);
        proof {
            lemma_rare_drain_count_bound(e.transitions.take(e.index), e.past_len, max_past_len as int);
            lemma_rare_amount_sum_values(drained_entries);
            let p = e.transitions.take(e.index);
            lemma_rare_amount_sum_split(p, n as int);
            assert(p.take(n as int) =~= drained_entries);
            assert(p.skip(n as int) =~= e.drop_past(n as int).transitions.take(e.index - n));
            assert(e.transitions.skip(n as int).skip(e.index - n) =~= e.transitions.skip(e.index));
        }
        let mut amount: usize = 0;
        let mut i: usize = 0;
        while i < entries.len()
            invariant
                i <= entries@.len(),
                amount == amount_sum(entries@.take(i as int)),
                amount_sum(entries@) <= self.index,
            decreases entries@.len() - i,
        {
            proof {
                assert(entries@.take(i as int + 1) =~= entries@.take(i as int).push(entries@[i as int]));
                assert(entries@.take(i as int + 1).drop_last() =~= entries@.take(i as int));
                super::lemma_amount_sum_split(entries@, i as int + 1);
                super::lemma_amount_sum_nonneg(entries@.take(i as int));
            }
            amount = amount + entries[i].amount();
            i = i + 1;
        }
        proof {
            assert(entries@.take(entries@.len() as int) =~= entries@);
        }
        self.index = self.index - amount;
        deque::drain_front(&mut self.transitions, amount)
    }

    /// The log after a push of `values` with `entry`: a push of no values only counts a skip
    /// and hands `entry` back.
    pub open spec fn pushed_entries(&self, values: Seq<T>, entry: U) -> RareTransitionView<EntryAmount<U, AMOUNT_BYTES>> {
        if values.len() == 0 {
            self.entries().push(None)
        } else {
            self.entries().push(Some(EntryAmount::spec_new(entry, values.len() as usize)))
        }
    }

    fn push_present_inner(&mut self, values: VecDeque<T>, entry: U) -> (r: Option<U>)
        requires
            old(self).wf(),
            old(self).entries().past_len < usize::MAX,
        ensures
            final(self).wf(),
            r == (if values@.len() == 0 { Some(entry) } else { None }),
            final(self).entries() == old(self).pushed_entries(values@, entry),
            final(self).transitions() == old(self).transitions().take(old(self).past_amount()) + values@,
    {
        proof {
            self.lemma_wf_bounds();
        }
        let ghost e = self.amounts@;
        let mut values = values;
        let pushed = values.len();
        self.transitions.truncate(self.index);
        self.transitions.append(&mut values);
        proof {
            assert(e.push(None).transitions.take(e.push(None).index) =~= e.transitions.take(e.index));
        }
        if pushed == 0 {
            self.amounts.push_present(None);
            proof {
                assert(self.amounts@.transitions.skip(self.amounts@.index) =~= Seq::<RareValue<EntryAmount<U, AMOUNT_BYTES>>>::empty());
            }
            return Some(entry);
        }
        let entry_amount = EntryAmount::new(entry, pushed);
        self.amounts.push_present(Some(entry_amount));
        self.index = self.transitions.len();
        proof {
            let entry_rv = RareValue { value: entry_amount, skips: e.skips as usize };
            let n = self.amounts@.transitions;
            assert(n =~= e.transitions.take(e.index) + seq![entry_rv]);
            lemma_rare_amount_sum_append(e.transitions.take(e.index), seq![entry_rv]);
            lemma_rare_amount_sum_single(entry_rv);
            assert(n.take(n.len() as int) =~= n);
            assert(n.skip(n.len() as int) =~= Seq::<RareValue<EntryAmount<U, AMOUNT_BYTES>>>::empty());
        }
        None
    }

    /// Pushes `values` with `entry` as a new group, dropping the future; for no values it only
    /// counts a push without values and hands `entry` back. Fails and leaves the log
    /// unchanged when `values` holds more values than a push can count.
    pub fn try_push_present(&mut self, values: VecDeque<T>, entry: U) -> (r: Result<Option<U>, AmountErr<VecDeque<T>, U, AMOUNT_BYTES>>)
        requires
            old(self).wf(),
            old(self).entries().past_len < usize::MAX,
        ensures
            final(self).wf(),
            values@.len() <= amount_max(AMOUNT_BYTES) ==> r is Ok
                && r->Ok_0 == (if values@.len() == 0 { Some(entry) } else { None })
                && final(self).entries() == old(self).pushed_entries(values@, entry)
                && final(self).transitions() == old(self).transitions().take(old(self).past_amount()) + values@,
            values@.len() > amount_max(AMOUNT_BYTES) ==> r is Err && r->Err_0.values@ == values@
                && r->Err_0.entry_amount == EntryAmount::<U, AMOUNT_BYTES>::spec_new(entry, values@.len() as usize)
                && final(self).entries() == old(self).entries() && final(self).transitions() == old(self).transitions(),
    {
        let entry_amount = EntryAmount::new(entry, values.len());
        if !entry_amount.fits() {
            return Err(AmountErr { values, entry_amount });
        }
        Ok(self.push_present_inner(values, entry_amount.into_entry()))
    }
}

impl<T, U> RareTransitionsLog<T, U, 8> {
    /// Pushes `values` with `entry` as a new group, dropping the future; for no values it only
    /// counts a push without values and hands `entry` back.
    pub fn push_present(&mut self, values: VecDeque<T>, entry: U) -> (r: Option<U>)
        requires
            old(self).wf(),
            old(self).entries().past_len < usize::MAX,
        ensures
            final(self).wf(),
            r == (if values@.len() == 0 { Some(entry) } else { None }),
            final(self).entries() == old(self).pushed_entries(values@, entry),
            final(self).transitions() == old(self).transitions().take(old(self).past_amount()) + values@,
    {
        self.push_present_inner(values, entry)
    }
}

} // verus!
