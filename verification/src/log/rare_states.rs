//! A log of states with a group of values and an entry for every push that changes them; a
//! push without values only counts a skip.
use std::collections::{TryReserveError, VecDeque};
use vstd::prelude::*;

use super::deque;
use super::rare_state::{lemma_rare_drain_count_bound, RareStateLog, RareStateView, RareValue};
use super::logged_at::LoggedAt;
use super::{amount_max, amount_sum, AmountErr, EntryAmount, OutOfLog, ValueEntry};

verus! {

/// The sum of the amounts of the entries held by a sequence of logged values.
pub open spec fn rare_amount_sum<U, const N: usize>(s: Seq<RareValue<EntryAmount<U, N>>>) -> int
    decreases s.len(),
{
    if s.len() == 0 {
        0
    } else {
        rare_amount_sum(s.drop_last()) + s.last().value.spec_amount()
    }
}

pub proof fn lemma_rare_amount_sum_append<U, const N: usize>(
    a: Seq<RareValue<EntryAmount<U, N>>>,
    b: Seq<RareValue<EntryAmount<U, N>>>,
)
    ensures
        rare_amount_sum(a + b) == rare_amount_sum(a) + rare_amount_sum(b),
    decreases b.len(),
{
    if b.len() == 0 {
        assert(a + b =~= a);
    } else {
        lemma_rare_amount_sum_append(a, b.drop_last());
        assert((a + b).drop_last() =~= a + b.drop_last());
    }
}

pub proof fn lemma_rare_amount_sum_nonneg<U, const N: usize>(a: Seq<RareValue<EntryAmount<U, N>>>)
    ensures
        rare_amount_sum(a) >= 0,
    decreases a.len(),
{
    if a.len() > 0 {
        lemma_rare_amount_sum_nonneg(a.drop_last());
    }
}

pub proof fn lemma_rare_amount_sum_single<U, const N: usize>(e: RareValue<EntryAmount<U, N>>)
    ensures
        rare_amount_sum(seq![e]) == e.value.spec_amount(),
{
    reveal_with_fuel(rare_amount_sum, 2);
    assert(seq![e].drop_last() =~= Seq::<RareValue<EntryAmount<U, N>>>::empty());
}

pub proof fn lemma_rare_amount_sum_split<U, const N: usize>(a: Seq<RareValue<EntryAmount<U, N>>>, m: int)
    requires
        0 <= m <= a.len(),
    ensures
        rare_amount_sum(a) == rare_amount_sum(a.take(m)) + rare_amount_sum(a.skip(m)),
        rare_amount_sum(a.take(m)) >= 0,
        rare_amount_sum(a.skip(m)) >= 0,
{
    assert(a =~= a.take(m) + a.skip(m));
    lemma_rare_amount_sum_append(a.take(m), a.skip(m));
    lemma_rare_amount_sum_nonneg(a.take(m));
    lemma_rare_amount_sum_nonneg(a.skip(m));
}

/// The amounts of logged values are those of their entries.
pub proof fn lemma_rare_amount_sum_values<U, const N: usize>(a: Seq<RareValue<EntryAmount<U, N>>>)
    ensures
        amount_sum(a.map_values(|e: RareValue<EntryAmount<U, N>>| e.value)) == rare_amount_sum(a),
    decreases a.len(),
{
    if a.len() > 0 {
        lemma_rare_amount_sum_values(a.drop_last());
        assert(a.map_values(|e: RareValue<EntryAmount<U, N>>| e.value).drop_last() =~= a.drop_last().map_values(
            |e: RareValue<EntryAmount<U, N>>| e.value,
        ));
    }
}

/// A log of states where a push holds a group of values and an entry `U`, or nothing, which
/// keeps the present group; the present state is the newest group together with its entry.
///
/// `AMOUNT_BYTES` sets how many values a push may hold: up to `2^(8 * AMOUNT_BYTES) - 1`, or
/// up to `usize::MAX` for `0` or at least the size of `usize`.
#[derive(Clone, Debug)]
pub struct RareStatesLog<T, U, const AMOUNT_BYTES: usize> {
    amounts: RareStateLog<EntryAmount<U, AMOUNT_BYTES>>,
    states: VecDeque<T>,
    index: usize,
}

impl<T, U, const AMOUNT_BYTES: usize> RareStatesLog<T, U, AMOUNT_BYTES> {
    /// The entries with their amounts and the skips between them.
    pub closed spec fn entries(&self) -> RareStateView<EntryAmount<U, AMOUNT_BYTES>> {
        self.amounts@
    }

    /// All stored values, group after group.
    pub closed spec fn states(&self) -> Seq<T> {
        self.states@
    }

    /// The values of all groups lie in the deque one group after the other; the present group
    /// ends at `index`.
    pub closed spec fn wf(&self) -> bool {
        let e = self.amounts@;
        &&& self.amounts.wf()
        &&& self.index == rare_amount_sum(e.states.take(e.index)) + e.present.spec_amount()
        &&& self.states@.len() == self.index + rare_amount_sum(e.states.skip(e.index))
    }

    /// The number of values in the past groups.
    pub open spec fn past_amount(&self) -> int {
        rare_amount_sum(self.entries().states.take(self.entries().index))
    }

    /// The position in `states()` where the present group ends.
    pub open spec fn present_end(&self) -> int {
        self.past_amount() + self.entries().present.spec_amount()
    }

    /// The values of the present group.
    pub open spec fn present_states(&self) -> Seq<T> {
        self.states().subrange(self.past_amount(), self.present_end())
    }

    /// In a well formed log the present group lies within the stored values.
    pub proof fn lemma_present_group(&self)
        requires
            self.wf(),
        ensures
            0 <= self.past_amount() <= self.present_end() <= self.states().len(),
            self.entries().wf(),
    {
        self.lemma_wf_bounds();
        let e = self.amounts@;
        lemma_rare_amount_sum_nonneg(e.states.skip(e.index));
    }

    proof fn lemma_wf_bounds(&self)
        requires
            self.wf(),
        ensures
            0 <= self.past_amount(),
            self.index == self.present_end(),
            self.index <= self.states@.len(),
            self.entries().wf(),
    {
        let e = self.amounts@;
        lemma_rare_amount_sum_nonneg(e.states.take(e.index));
        lemma_rare_amount_sum_nonneg(e.states.skip(e.index));
    }

    /// A log of just `entry` with no values.
    pub open spec fn only_entry(entry: EntryAmount<U, AMOUNT_BYTES>) -> RareStateView<EntryAmount<U, AMOUNT_BYTES>> {
        RareStateView { states: Seq::empty(), present: entry, index: 0, skips: 0, skips_max: 0, past_len: 0 }
    }

    pub fn new_empty(entry: U) -> (log: Self)
        ensures
            log.wf(),
            log.entries() == Self::only_entry(EntryAmount::spec_new(entry, 0)),
            log.states().len() == 0,
    {
        let log = RareStatesLog { amounts: RareStateLog::new(EntryAmount::zero(entry)), states: VecDeque::new(), index: 0 };
        proof {
            assert(log.amounts@.states.take(0) =~= Seq::<RareValue<EntryAmount<U, AMOUNT_BYTES>>>::empty());
            assert(log.amounts@.states.skip(0) =~= Seq::<RareValue<EntryAmount<U, AMOUNT_BYTES>>>::empty());
        }
        log
    }

    pub fn with_capacities_empty(entry: U, states_capacity: usize, entries_capacity: usize) -> (log: Self)
        ensures
            log.wf(),
            log.entries() == Self::only_entry(EntryAmount::spec_new(entry, 0)),
            log.states().len() == 0,
    {
        let log = RareStatesLog {
            amounts: RareStateLog::with_capacity(EntryAmount::zero(entry), entries_capacity),
            states: VecDeque::with_capacity(states_capacity),
            index: 0,
        };
        proof {
            assert(log.amounts@.states.take(0) =~= Seq::<RareValue<EntryAmount<U, AMOUNT_BYTES>>>::empty());
            assert(log.amounts@.states.skip(0) =~= Seq::<RareValue<EntryAmount<U, AMOUNT_BYTES>>>::empty());
        }
        log
    }

    /// The number of pushes in the past.
    pub(crate) fn past_len(&self) -> (len: usize)
        ensures
            len == self.entries().past_len,
    {
        self.amounts.past_len()
    }

    pub fn entries_len(&self) -> (len: usize)
        ensures
            len == self.entries().states.len(),
    {
        self.amounts.states_len()
    }

    pub fn states_len(&self) -> (len: usize)
        ensures
            len == self.states().len(),
    {
        self.states.len()
    }

    pub fn entries_capacity(&self) -> (capacity: usize)
        ensures
            capacity >= self.entries().states.len(),
    {
        self.amounts.states_capacity()
    }

    pub fn states_capacity(&self) -> (capacity: usize)
        ensures
            capacity >= self.states().len(),
    {
        deque::capacity(&self.states)
    }

    pub fn entries_is_empty(&self) -> (empty: bool)
        ensures
            empty == (self.entries().states.len() == 0),
    {
        self.amounts.states_is_empty()
    }

    pub fn states_is_empty(&self) -> (empty: bool)
        ensures
            empty == (self.states().len() == 0),
    {
        self.states.len() == 0
    }

    pub fn entries_reserve(&mut self, additional: usize)
        ensures
            final(self).wf() == old(self).wf(),
            final(self).entries() == old(self).entries(),
            final(self).states() == old(self).states(),
    {
        self.amounts.states_reserve(additional)
    }

    pub fn states_reserve(&mut self, additional: usize)
        ensures
            final(self).wf() == old(self).wf(),
            final(self).entries() == old(self).entries(),
            final(self).states() == old(self).states(),
    {
        self.states.reserve(additional)
    }

    pub fn entries_reserve_exact(&mut self, additional: usize)
        requires
            old(self).entries().states.len() + additional <= usize::MAX,
        ensures
            final(self).wf() == old(self).wf(),
            final(self).entries() == old(self).entries(),
            final(self).states() == old(self).states(),
    {
        self.amounts.states_reserve_exact(additional)
    }

    pub fn states_reserve_exact(&mut self, additional: usize)
        requires
            old(self).states().len() + additional <= usize::MAX,
        ensures
            final(self).wf() == old(self).wf(),
            final(self).entries() == old(self).entries(),
            final(self).states() == old(self).states(),
    {
        deque::reserve_exact(&mut self.states, additional)
    }

    pub fn entries_try_reserve(&mut self, additional: usize) -> (r: Result<(), TryReserveError>)
        ensures
            final(self).wf() == old(self).wf(),
            final(self).entries() == old(self).entries(),
            final(self).states() == old(self).states(),
            old(self).entries().states.len() + additional > usize::MAX ==> r is Err,
    {
        self.amounts.states_try_reserve(additional)
    }

    pub fn states_try_reserve(&mut self, additional: usize) -> (r: Result<(), TryReserveError>)
        ensures
            final(self).wf() == old(self).wf(),
            final(self).entries() == old(self).entries(),
            final(self).states() == old(self).states(),
            old(self).states().len() + additional > usize::MAX ==> r is Err,
    {
        deque::try_reserve(&mut self.states, additional)
    }

    pub fn entries_try_reserve_exact(&mut self, additional: usize) -> (r: Result<(), TryReserveError>)
        ensures
            final(self).wf() == old(self).wf(),
            final(self).entries() == old(self).entries(),
            final(self).states() == old(self).states(),
            old(self).entries().states.len() + additional > usize::MAX ==> r is Err,
    {
        self.amounts.states_try_reserve_exact(additional)
    }

    pub fn states_try_reserve_exact(&mut self, additional: usize) -> (r: Result<(), TryReserveError>)
        ensures
            final(self).wf() == old(self).wf(),
            final(self).entries() == old(self).entries(),
            final(self).states() == old(self).states(),
            old(self).states().len() + additional > usize::MAX ==> r is Err,
    {
        deque::try_reserve_exact(&mut self.states, additional)
    }

    pub fn entries_shrink_to(&mut self, min_capacity: usize)
        ensures
            final(self).wf() == old(self).wf(),
            final(self).entries() == old(self).entries(),
            final(self).states() == old(self).states(),
    {
        self.amounts.states_shrink_to(min_capacity)
    }

    pub fn states_shrink_to(&mut self, min_capacity: usize)
        ensures
            final(self).wf() == old(self).wf(),
            final(self).entries() == old(self).entries(),
            final(self).states() == old(self).states(),
    {
        deque::shrink_to(&mut self.states, min_capacity)
    }

    pub fn entries_shrink_to_fit(&mut self)
        ensures
            final(self).wf() == old(self).wf(),
            final(self).entries() == old(self).entries(),
            final(self).states() == old(self).states(),
    {
        self.amounts.states_shrink_to_fit()
    }

    pub fn states_shrink_to_fit(&mut self)
        ensures
            final(self).wf() == old(self).wf(),
            final(self).entries() == old(self).entries(),
            final(self).states() == old(self).states(),
    {
        deque::shrink_to_fit(&mut self.states)
    }

    /// References to the values in positions `from` up to `to`.
    fn range_refs(&self, from: usize, to: usize) -> (values: Vec<&T>)
        requires
            from <= to <= self.states@.len(),
        ensures
            values@.len() == to - from,
            forall|i: int| 0 <= i < values@.len() ==> *values@[i] == #[trigger] self.states@[from + i],
    {
        let mut values: Vec<&T> = Vec::new();
        let mut i = from;
        while i < to
            invariant
                from <= i <= to <= self.states@.len(),
                values@.len() == i - from,
                forall|j: int| 0 <= j < values@.len() ==> *values@[j] == self.states@[from + j],
            decreases to - i,
        {
            values.push(&self.states[i]);
            i = i + 1;
        }
        values
    }

    /// The values of the present group and its entry.
    pub fn get(&self) -> (r: (Vec<&T>, &U))
        requires
            self.wf(),
        ensures
            r.0@.len() == self.present_states().len(),
            forall|i: int| 0 <= i < r.0@.len() ==> *r.0@[i] == #[trigger] self.present_states()[i],
            *r.1 == self.entries().present.spec_entry(),
    {
        proof {
            self.lemma_wf_bounds();
        }
        let entry_amount = self.amounts.get();
        let from = self.index - entry_amount.amount();
        let values = self.range_refs(from, self.index);
        proof {
            assert forall|i: int| 0 <= i < values@.len() implies *values@[i] == #[trigger] self.present_states()[i] by {
                assert(*values@[i] == self.states@[from + i]);
            }
        }
        (values, entry_amount.entry())
    }

    /// The values and the entry of the oldest past group, or `None` when the log stands at its
    /// past end.
    pub fn past_end(&self) -> (r: Option<(Vec<&T>, &U)>)
        requires
            self.wf(),
        ensures
            self.entries().index == 0 ==> r is None,
            self.entries().index > 0 ==> r is Some && ({
                let first = self.entries().states[0].value;
                let (values, entry) = r->0;
                &&& values@.len() == first.spec_amount()
                &&& forall|i: int| 0 <= i < values@.len() ==> *values@[i] == #[trigger] self.states()[i]
                &&& *entry == first.spec_entry()
            }),
    {
        proof {
            self.lemma_wf_bounds();
        }
        match self.amounts.past_end() {
            Some(entry_amount) => {
                proof {
                    let e = self.amounts@;
                    lemma_rare_amount_sum_split(e.states.take(e.index), 1);
                    assert(e.states.take(e.index).take(1) =~= seq![e.states[0]]);
                    lemma_rare_amount_sum_single(e.states[0]);
                }
                let values = self.range_refs(0, entry_amount.amount());
                proof {
                    assert forall|i: int| 0 <= i < values@.len() implies *values@[i] == #[trigger] self.states()[i] by {
                        assert(*values@[i] == self.states@[0 + i]);
                    }
                }
                Some((values, entry_amount.entry()))
            },
            None => None,
        }
    }

    /// Takes the oldest `entry_amount`'s values out after its entry left the entry log.
    fn drain_front_group(&mut self, entry_amount: EntryAmount<U, AMOUNT_BYTES>) -> (r: ValueEntry<VecDeque<T>, U>)
        requires
            entry_amount.spec_amount() <= old(self).index,
            old(self).index <= old(self).states@.len(),
        ensures
            final(self).amounts == old(self).amounts,
            final(self).index == old(self).index - entry_amount.spec_amount(),
            final(self).states@ == old(self).states@.skip(entry_amount.spec_amount() as int),
            r.value@ == old(self).states@.take(entry_amount.spec_amount() as int),
            r.entry == entry_amount.spec_entry(),
    {
        let amount = entry_amount.amount();
        self.index = self.index - amount;
        let value = deque::drain_front(&mut self.states, amount);
        ValueEntry { value, entry: entry_amount.into_entry() }
    }

    /// Removes the oldest past group and returns its values and entry, or `None` when the log
    /// stands at its past end.
    pub fn pop_past(&mut self) -> (r: Option<ValueEntry<VecDeque<T>, U>>)
        requires
            old(self).wf(),
        ensures
            final(self).wf(),
            old(self).entries().index == 0 ==> r is None && final(self).entries() == old(self).entries()
                && final(self).states() == old(self).states(),
            old(self).entries().index > 0 ==> r is Some && ({
                let first = old(self).entries().states[0].value;
                &&& r->0.value@ == old(self).states().take(first.spec_amount() as int)
                &&& r->0.entry == first.spec_entry()
                &&& final(self).entries() == old(self).entries().drop_past(1)
                &&& final(self).states() == old(self).states().skip(first.spec_amount() as int)
            }),
    {
        proof {
            self.lemma_wf_bounds();
        }
        if self.amounts.past_end().is_none() {
            return None;
        }
        let ghost e = self.amounts@;
        match self.amounts.pop_past() {
            Some(entry_amount) => {
                proof {
                    self.lemma_drop_first_amounts(e);
                }
                Some(self.drain_front_group(entry_amount))
            },
            None => None,
        }
    }

    /// How the amounts split when the oldest past entry goes.
    proof fn lemma_drop_first_amounts(&self, e: RareStateView<EntryAmount<U, AMOUNT_BYTES>>)
        requires
            e.wf(),
            e.index > 0,
        ensures
            rare_amount_sum(e.states.take(e.index)) == e.states[0].value.spec_amount()
                + rare_amount_sum(e.drop_past(1).states.take(e.index - 1)),
            rare_amount_sum(e.states.skip(e.index)) == rare_amount_sum(e.drop_past(1).states.skip(e.index - 1)),
            e.states[0].value.spec_amount() >= 0,
            rare_amount_sum(e.drop_past(1).states.take(e.index - 1)) >= 0,
    {
        let p = e.states.take(e.index);
        lemma_rare_amount_sum_split(p, 1);
        assert(p.take(1) =~= seq![e.states[0]]);
        lemma_rare_amount_sum_single(e.states[0]);
        assert(p.skip(1) =~= e.states.skip(1).take(e.index - 1));
        assert(e.states.skip(1).skip(e.index - 1) =~= e.states.skip(e.index));
    }

    /// Removes the future groups; returns their values and their entries, nearest first.
    pub fn drain_future(&mut self) -> (r: (VecDeque<T>, Vec<EntryAmount<U, AMOUNT_BYTES>>))
        requires
            old(self).wf(),
        ensures
            final(self).wf(),
            r.0@ == old(self).states().skip(old(self).present_end()),
            r.1@ == old(self).entries().states.skip(old(self).entries().index).map_values(
                |e: RareValue<EntryAmount<U, AMOUNT_BYTES>>| e.value,
            ),
            final(self).entries() == (RareStateView { states: old(self).entries().states.take(old(self).entries().index), ..old(self).entries() }),
            final(self).states() == old(self).states().take(old(self).present_end()),
    {
        proof {
            self.lemma_wf_bounds();
        }
        let ghost e = self.amounts@;
        let states = deque::drain_from(&mut self.states, self.index);
        let entries = self.amounts.drain_future();
        proof {
            assert(e.states.take(e.index).take(e.index) =~= e.states.take(e.index));
            assert(e.states.take(e.index).skip(e.index) =~= Seq::<RareValue<EntryAmount<U, AMOUNT_BYTES>>>::empty());
        }
        (states, entries)
    }

    /// The values a clear keeps: those that follow the present group, as many as the present
    /// group holds, or all of them when there are fewer.
    pub open spec fn cleared_states(&self) -> Seq<T> {
        let rest = self.states().skip(self.present_end());
        let amount = self.entries().present.spec_amount();
        if rest.len() > amount {
            rest.take(amount as int)
        } else {
            rest
        }
    }

    /// Removes the past and future entries and keeps the present entry. Of the values it drops
    /// those up to the end of the present group and keeps as many of the values that follow as
    /// the present group holds; the log is well formed afterwards only when that many followed.
    pub fn clear(&mut self)
        requires
            old(self).wf(),
        ensures
            final(self).wf() <==> old(self).states().len() - old(self).present_end() >= old(self).entries().present.spec_amount(),
            final(self).entries() == Self::only_entry(old(self).entries().present),
            final(self).states() == old(self).cleared_states(),
    {
        proof {
            self.lemma_wf_bounds();
        }
        let ghost old_states = self.states@;
        let ghost end = self.present_end();
        self.amounts.clear();
        let amount = self.amounts.get().amount();
        let _dropped = deque::drain_front(&mut self.states, self.index);
        self.states.truncate(amount);
        self.index = amount;
        proof {
            assert(self.amounts@.states.take(0) =~= Seq::<RareValue<EntryAmount<U, AMOUNT_BYTES>>>::empty());
            assert(self.amounts@.states.skip(0) =~= Seq::<RareValue<EntryAmount<U, AMOUNT_BYTES>>>::empty());
            assert(rare_amount_sum(Seq::<RareValue<EntryAmount<U, AMOUNT_BYTES>>>::empty()) == 0);
            if old_states.skip(end).len() > amount {
                assert(self.states@ =~= old_states.skip(end).take(amount as int));
            } else {
                assert(self.states@ =~= old_states.skip(end));
            }
        }
    }

    /// Like `clear`, and the present group then ends where the kept values start, as
    /// `RareValuesLog::clear` leaves it: well formed only when the present group holds no value.
    pub(crate) fn clear_to_start(&mut self)
        requires
            old(self).wf(),
        ensures
            final(self).wf() <==> old(self).entries().present.spec_amount() == 0,
            final(self).entries() == Self::only_entry(old(self).entries().present),
            final(self).states() == old(self).cleared_states(),
    {
        proof {
            self.lemma_wf_bounds();
        }
        let ghost old_states = self.states@;
        let ghost end = self.present_end();
        self.amounts.clear();
        let amount = self.amounts.get().amount();
        let _dropped = deque::drain_front(&mut self.states, self.index);
        self.states.truncate(amount);
        self.index = 0;
        proof {
            assert(self.amounts@.states.take(0) =~= Seq::<RareValue<EntryAmount<U, AMOUNT_BYTES>>>::empty());
            assert(self.amounts@.states.skip(0) =~= Seq::<RareValue<EntryAmount<U, AMOUNT_BYTES>>>::empty());
            assert(rare_amount_sum(Seq::<RareValue<EntryAmount<U, AMOUNT_BYTES>>>::empty()) == 0);
            if old_states.skip(end).len() > amount {
                assert(self.states@ =~= old_states.skip(end).take(amount as int));
            } else {
                assert(self.states@ =~= old_states.skip(end));
            }
        }
    }

    /// Makes the present group of a log without past entries end where the stored values start,
    /// as `RareValuesLog::clear_with` leaves it: well formed only when the present group holds no
    /// value.
    pub(crate) fn place_present_at_start(&mut self)
        requires
            old(self).wf(),
            old(self).entries().index == 0,
        ensures
            final(self).wf() <==> old(self).entries().present.spec_amount() == 0,
            final(self).entries() == old(self).entries(),
            final(self).states() == old(self).states(),
    {
        proof {
            assert(self.amounts@.states.take(0) =~= Seq::<RareValue<EntryAmount<U, AMOUNT_BYTES>>>::empty());
            assert(rare_amount_sum(Seq::<RareValue<EntryAmount<U, AMOUNT_BYTES>>>::empty()) == 0);
        }
        self.index = 0;
    }

    /// Removes all groups and makes `entry` the present entry with no values.
    pub fn clear_empty(&mut self, entry: U)
        ensures
            final(self).wf(),
            final(self).entries() == Self::only_entry(EntryAmount::spec_new(entry, 0)),
            final(self).states().len() == 0,
    {
        self.states.clear();
        self.amounts.clear_with(EntryAmount::zero(entry));
        self.index = 0;
        proof {
            assert(self.amounts@.states.take(0) =~= Seq::<RareValue<EntryAmount<U, AMOUNT_BYTES>>>::empty());
            assert(self.amounts@.states.skip(0) =~= Seq::<RareValue<EntryAmount<U, AMOUNT_BYTES>>>::empty());
        }
    }

    /// Steps one push back, or fails when there is no past push; a step over a push without
    /// values keeps the present group.
    pub fn backward_log(&mut self) -> (r: Result<(), OutOfLog>)
        requires
            old(self).wf(),
        ensures
            final(self).wf(),
            r is Err <==> !old(self).entries().can_backward(),
            r is Ok ==> final(self).entries() == old(self).entries().backward().0,
            r is Err ==> final(self).entries() == old(self).entries(),
            final(self).states() == old(self).states(),
    {
        proof {
            self.lemma_wf_bounds();
        }
        let ghost e = self.amounts@;
        let amount = self.amounts.get().amount();
        let changed = self.amounts.backward_log()?;
        if changed {
            self.index = self.index - amount;
            proof {
                let i = e.index - 1;
                let p = e.states.take(e.index);
                lemma_rare_amount_sum_split(p, i);
                assert(p.take(i) =~= e.states.take(i));
                assert(p.skip(i) =~= seq![e.states[i]]);
                lemma_rare_amount_sum_single(e.states[i]);
                let n = self.amounts@.states;
                assert(n.take(i) =~= e.states.take(i));
                assert(n.skip(i) =~= seq![RareValue { value: e.present, skips: e.skips_max as usize }] + e.states.skip(e.index));
                lemma_rare_amount_sum_append(seq![RareValue { value: e.present, skips: e.skips_max as usize }], e.states.skip(e.index));
                lemma_rare_amount_sum_single(RareValue { value: e.present, skips: e.skips_max as usize });
            }
        }
        Ok(())
    }

    /// Steps one push forward, or fails when there is no future push; a step over a push
    /// without values keeps the present group.
    pub fn forward_log(&mut self) -> (r: Result<(), OutOfLog>)
        requires
            old(self).wf(),
            old(self).entries().past_len < usize::MAX,
        ensures
            final(self).wf(),
            r is Err <==> !old(self).entries().can_forward(),
            r is Ok ==> final(self).entries() == old(self).entries().forward().0,
            r is Err ==> final(self).entries() == old(self).entries(),
            final(self).states() == old(self).states(),
    {
        proof {
            self.lemma_wf_bounds();
        }
        let ghost e = self.amounts@;
        let total = self.states.len();
        let changed = self.amounts.forward_log()?;
        if changed {
            let amount = self.amounts.get().amount();
            proof {
                let i = e.index;
                let f = e.states.skip(i);
                lemma_rare_amount_sum_split(f, 1);
                assert(f.take(1) =~= seq![e.states[i]]);
                lemma_rare_amount_sum_single(e.states[i]);
                let entry = RareValue { value: e.present, skips: e.skips_max as usize };
                let n = self.amounts@.states;
                assert(n.take(i + 1) =~= e.states.take(i) + seq![entry]);
                lemma_rare_amount_sum_append(e.states.take(i), seq![entry]);
                lemma_rare_amount_sum_single(entry);
                assert(n.skip(i + 1) =~= f.skip(1));
                assert(self.index + amount <= total);
            }
            self.index = self.index + amount;
        }
        Ok(())
    }

    /// Removes the oldest past group when the past pushes without it still reach
    /// `max_past_len`, and returns its values and entry.
    pub fn pop_past_by_len(&mut self, max_past_len: usize) -> (r: Option<ValueEntry<VecDeque<T>, U>>)
        requires
            old(self).wf(),
        ensures
            final(self).wf(),
            !old(self).entries().pops(max_past_len) ==> r is None && final(self).entries() == old(self).entries()
                && final(self).states() == old(self).states(),
            old(self).entries().pops(max_past_len) ==> r is Some && ({
                let first = old(self).entries().states[0].value;
                &&& r->0.value@ == old(self).states().take(first.spec_amount() as int)
                &&& r->0.entry == first.spec_entry()
                &&& final(self).entries() == old(self).entries().drop_past(1)
                &&& final(self).states() == old(self).states().skip(first.spec_amount() as int)
            }),
    {
        proof {
            self.lemma_wf_bounds();
        }
        let ghost e = self.amounts@;
        match self.amounts.pop_past_by_len(max_past_len) {
            Some(entry_amount) => {
                proof {
                    self.lemma_drop_first_amounts(e);
                }
                Some(self.drain_front_group(entry_amount))
            },
            None => None,
        }
    }

    /// Removes the oldest past groups as long as the past pushes without them still reach
    /// `max_past_len`, and returns their values.
    pub fn drain_past_by_len(&mut self, max_past_len: usize) -> (drained: VecDeque<T>)
        requires
            old(self).wf(),
        ensures
            final(self).wf(),
            ({
                let n = old(self).entries().drain_count(max_past_len);
                let amount = rare_amount_sum(old(self).entries().states.take(n as int));
                &&& drained@ == old(self).states().take(amount)
                &&& final(self).entries() == old(self).entries().drop_past(n as int)
                &&& final(self).states() == old(self).states().skip(amount)
            }),
    {
        proof {
            self.lemma_wf_bounds();
        }
        let ghost e = self.amounts@;
        let ghost n = e.drain_count(max_past_len);
        let entries = self.amounts.drain_past_by_len(max_past_len);
        let ghost drained_entries = e.states.take(n as int);
        proof {
            lemma_rare_drain_count_bound(e.states.take(e.index), e.past_len, max_past_len as int);
            lemma_rare_amount_sum_values(drained_entries);
            let p = e.states.take(e.index);
            lemma_rare_amount_sum_split(p, n as int);
            assert(p.take(n as int) =~= drained_entries);
            assert(p.skip(n as int) =~= e.drop_past(n as int).states.take(e.index - n));
            assert(e.states.skip(n as int).skip(e.index - n) =~= e.states.skip(e.index));
        }
        let mut amount: usize = 0;
        let mut i: usize = 0;
        while i < entries.len()
            invariant
                i <= entries@.len(),
                amount == amount_sum(entries@.take(i as int)),
                amount_sum(entries@) <= self.index,
            decreases entries@.len() - i,
        {
            proof {
                assert(entries@.take(i as int + 1) =~= entries@.take(i as int).push(entries@[i as int]));
                assert(entries@.take(i as int + 1).drop_last() =~= entries@.take(i as int));
                super::lemma_amount_sum_split(entries@, i as int + 1);
                super::lemma_amount_sum_nonneg(entries@.take(i as int));
            }
            amount = amount + entries[i].amount();
            i = i + 1;
        }
        proof {
            assert(entries@.take(entries@.len() as int) =~= entries@);
        }
        self.index = self.index - amount;
        deque::drain_front(&mut self.states, amount)
    }

    /// Makes a log of `states` as the present group with `entry_amount`.
    fn from_parts(states: VecDeque<T>, entry_amount: EntryAmount<U, AMOUNT_BYTES>, entries_capacity: usize) -> (log: Self)
        requires
            states@.len() == entry_amount.spec_amount(),
        ensures
            log.wf(),
            log.entries() == Self::only_entry(entry_amount),
            log.states() == states@,
    {
        let index = states.len();
        let log = RareStatesLog { amounts: RareStateLog::with_capacity(entry_amount, entries_capacity), states, index };
        proof {
            assert(log.amounts@.states.take(0) =~= Seq::<RareValue<EntryAmount<U, AMOUNT_BYTES>>>::empty());
            assert(log.amounts@.states.skip(0) =~= Seq::<RareValue<EntryAmount<U, AMOUNT_BYTES>>>::empty());
        }
        log
    }

    /// A log whose present entry counts the `states` but whose present group ends where the
    /// stored values start, as `RareValuesLog::new` builds it: it is well formed only without
    /// values.
    pub(crate) fn from_parts_at_start(states: VecDeque<T>, entry_amount: EntryAmount<U, AMOUNT_BYTES>, entries_capacity: usize) -> (log: Self)
        requires
            states@.len() == entry_amount.spec_amount(),
        ensures
            log.wf() <==> states@.len() == 0,
            log.entries() == Self::only_entry(entry_amount),
            log.states() == states@,
    {
        let log = RareStatesLog { amounts: RareStateLog::with_capacity(entry_amount, entries_capacity), states, index: 0 };
        proof {
            assert(log.amounts@.states.take(0) =~= Seq::<RareValue<EntryAmount<U, AMOUNT_BYTES>>>::empty());
            assert(log.amounts@.states.skip(0) =~= Seq::<RareValue<EntryAmount<U, AMOUNT_BYTES>>>::empty());
            assert(rare_amount_sum(Seq::<RareValue<EntryAmount<U, AMOUNT_BYTES>>>::empty()) == 0);
        }
        log
    }

    /// Like `new`, for any `AMOUNT_BYTES`; fails when `states` holds more values than a push
    /// can count.
    pub fn try_new(states: VecDeque<T>, entry: U) -> (r: Result<Self, AmountErr<VecDeque<T>, U, AMOUNT_BYTES>>)
        ensures
            states@.len() <= amount_max(AMOUNT_BYTES) ==> r is Ok && r->Ok_0.wf()
                && r->Ok_0.entries() == Self::only_entry(EntryAmount::spec_new(entry, states@.len() as usize))
                && r->Ok_0.states() == states@,
            states@.len() > amount_max(AMOUNT_BYTES) ==> r is Err && r->Err_0.values@ == states@
                && r->Err_0.entry_amount == EntryAmount::<U, AMOUNT_BYTES>::spec_new(entry, states@.len() as usize),
    {
        let entry_amount = EntryAmount::new(entry, states.len());
        if !entry_amount.fits() {
            return Err(AmountErr { values: states, entry_amount });
        }
        Ok(Self::from_parts(states, entry_amount, 0))
    }

    /// Like `with_capacities`, for any `AMOUNT_BYTES`; fails when `states` holds more values
    /// than a push can count.
    pub fn try_with_capacities(states: VecDeque<T>, entry: U, states_capacity: usize, entries_capacity: usize) -> (r: Result<Self, AmountErr<VecDeque<T>, U, AMOUNT_BYTES>>)
        ensures
            states@.len() <= amount_max(AMOUNT_BYTES) ==> r is Ok && r->Ok_0.wf()
                && r->Ok_0.entries() == Self::only_entry(EntryAmount::spec_new(entry, states@.len() as usize))
                && r->Ok_0.states() == states@,
            states@.len() > amount_max(AMOUNT_BYTES) ==> r is Err && r->Err_0.values@ == states@
                && r->Err_0.entry_amount == EntryAmount::<U, AMOUNT_BYTES>::spec_new(entry, states@.len() as usize),
    {
        let mut states_deque: VecDeque<T> = VecDeque::with_capacity(states_capacity);
        let mut states = states;
        states_deque.append(&mut states);
        let entry_amount = EntryAmount::new(entry, states_deque.len());
        if !entry_amount.fits() {
            return Err(AmountErr { values: states_deque, entry_amount });
        }
        Ok(Self::from_parts(states_deque, entry_amount, entries_capacity))
    }

    /// The log after a push of `values` with `entry`: a push of no values keeps the present
    /// group and hands `entry` back.
    pub open spec fn pushed_entries(&self, values: Seq<T>, entry: U) -> RareStateView<EntryAmount<U, AMOUNT_BYTES>> {
        if values.len() == 0 {
            self.entries().push(None)
        } else {
            self.entries().push(Some(EntryAmount::spec_new(entry, values.len() as usize)))
        }
    }

    /// Pushes `values` with `entry` as the new present group, dropping the future; for no
    /// values it only counts a push that keeps the present group and hands `entry` back.
    /// Fails and leaves the log unchanged when `values` holds more values than a push can
    /// count.
    pub fn try_push_present(&mut self, values: VecDeque<T>, entry: U) -> (r: Result<Option<U>, AmountErr<VecDeque<T>, U, AMOUNT_BYTES>>)
        requires
            old(self).wf(),
            old(self).entries().past_len < usize::MAX,
        ensures
            final(self).wf(),
            values@.len() <= amount_max(AMOUNT_BYTES) ==> r is Ok
                && r->Ok_0 == (if values@.len() == 0 { Some(entry) } else { None })
                && final(self).entries() == old(self).pushed_entries(values@, entry)
                && final(self).states() == old(self).states().take(old(self).present_end()) + values@,
            values@.len() > amount_max(AMOUNT_BYTES) ==> r is Err && r->Err_0.values@ == values@
                && r->Err_0.entry_amount == EntryAmount::<U, AMOUNT_BYTES>::spec_new(entry, values@.len() as usize)
                && final(self).entries() == old(self).entries() && final(self).states() == old(self).states(),
    {
        let entry_amount = EntryAmount::new(entry, values.len());
        if !entry_amount.fits() {
            return Err(AmountErr { values, entry_amount });
        }
        Ok(self.push_present_inner(values, entry_amount.into_entry()))
    }

    fn push_present_inner(&mut self, values: VecDeque<T>, entry: U) -> (r: Option<U>)
        requires
            old(self).wf(),
            old(self).entries().past_len < usize::MAX,
        ensures
            final(self).wf(),
            r == (if values@.len() == 0 { Some(entry) } else { None }),
            final(self).entries() == old(self).pushed_entries(values@, entry),
            final(self).states() == old(self).states().take(old(self).present_end()) + values@,
    {
        proof {
            self.lemma_wf_bounds();
        }
        let ghost e = self.amounts@;
        let mut values = values;
        let pushed = values.len();
        self.states.truncate(self.index);
        self.states.append(&mut values);
        proof {
            assert(e.push(None).states.take(e.push(None).index) =~= e.states.take(e.index));
        }
        if pushed == 0 {
            self.amounts.push_present(None);
            proof {
                assert(self.amounts@.states.skip(self.amounts@.index) =~= Seq::<RareValue<EntryAmount<U, AMOUNT_BYTES>>>::empty());
            }
            return Some(entry);
        }
        self.index = self.states.len();
        self.amounts.push_present(Some(EntryAmount::new(entry, pushed)));
        proof {
            let entry_rv = RareValue { value: e.present, skips: e.skips as usize };
            let n = self.amounts@.states;
            assert(n =~= e.states.take(e.index) + seq![entry_rv]);
            lemma_rare_amount_sum_append(e.states.take(e.index), seq![entry_rv]);
            lemma_rare_amount_sum_single(entry_rv);
            assert(n.take(n.len() as int) =~= n);
            assert(n.skip(n.len() as int) =~= Seq::<RareValue<EntryAmount<U, AMOUNT_BYTES>>>::empty());
        }
        None
    }

    /// Replaces all groups by `states` with `entry` as the present group; fails and leaves the
    /// log unchanged when `states` holds more values than a push can count.
    pub fn try_clear_with(&mut self, states: VecDeque<T>, entry: U) -> (r: Result<(), AmountErr<VecDeque<T>, U, AMOUNT_BYTES>>)
        requires
            old(self).wf(),
        ensures
            final(self).wf(),
            states@.len() <= amount_max(AMOUNT_BYTES) ==> r is Ok
                && final(self).entries() == Self::only_entry(EntryAmount::spec_new(entry, states@.len() as usize))
                && final(self).states() == states@,
            states@.len() > amount_max(AMOUNT_BYTES) ==> r is Err && r->Err_0.values@ == states@
                && r->Err_0.entry_amount == EntryAmount::<U, AMOUNT_BYTES>::spec_new(entry, states@.len() as usize)
                && final(self).entries() == old(self).entries() && final(self).states() == old(self).states(),
    {
        let entry_amount = EntryAmount::new(entry, states.len());
        if !entry_amount.fits() {
            return Err(AmountErr { values: states, entry_amount });
        }
        self.clear_with_inner(states, entry_amount);
        Ok(())
    }

    fn clear_with_inner(&mut self, states: VecDeque<T>, entry_amount: EntryAmount<U, AMOUNT_BYTES>)
        requires
            states@.len() == entry_amount.spec_amount(),
        ensures
            final(self).wf(),
            final(self).entries() == Self::only_entry(entry_amount),
            final(self).states() == states@,
    {
        let mut states = states;
        let pushed = states.len();
        self.states.clear();
        self.states.append(&mut states);
        self.amounts.clear_with(entry_amount);
        self.index = pushed;
        proof {
            assert(self.amounts@.states.take(0) =~= Seq::<RareValue<EntryAmount<U, AMOUNT_BYTES>>>::empty());
            assert(self.amounts@.states.skip(0) =~= Seq::<RareValue<EntryAmount<U, AMOUNT_BYTES>>>::empty());
        }
    }
}

impl<T, U> RareStatesLog<T, U, 8> {
    /// A log whose present group holds `states` with `entry`.
    pub fn new(states: VecDeque<T>, entry: U) -> (log: Self)
        ensures
            log.wf(),
            log.entries() == Self::only_entry(EntryAmount::spec_new(entry, states@.len() as usize)),
            log.states() == states@,
    {
        let amount = states.len();
        Self::from_parts(states, EntryAmount::new(entry, amount), 0)
    }

    pub fn with_capacities(states: VecDeque<T>, entry: U, states_capacity: usize, entries_capacity: usize) -> (log: Self)
        ensures
            log.wf(),
            log.entries() == Self::only_entry(EntryAmount::spec_new(entry, states@.len() as usize)),
            log.states() == states@,
    {
        let mut states_deque: VecDeque<T> = VecDeque::with_capacity(states_capacity);
        let mut states = states;
        states_deque.append(&mut states);
        let amount = states_deque.len();
        Self::from_parts(states_deque, EntryAmount::new(entry, amount), entries_capacity)
    }

    /// Pushes `values` with `entry` as the new present group, dropping the future; for no
    /// values it only counts a push that keeps the present group and hands `entry` back.
    pub fn push_present(&mut self, values: VecDeque<T>, entry: U) -> (r: Option<U>)
        requires
            old(self).wf(),
            old(self).entries().past_len < usize::MAX,
        ensures
            final(self).wf(),
            r == (if values@.len() == 0 { Some(entry) } else { None }),
            final(self).entries() == old(self).pushed_entries(values@, entry),
            final(self).states() == old(self).states().take(old(self).present_end()) + values@,
    {
        self.push_present_inner(values, entry)
    }

    /// Replaces all groups by `states` with `entry` as the present group.
    pub fn clear_with(&mut self, states: VecDeque<T>, entry: U)
        requires
            old(self).wf(),
        ensures
            final(self).wf(),
            final(self).entries() == Self::only_entry(EntryAmount::spec_new(entry, states@.len() as usize)),
            final(self).states() == states@,
    {
        let amount = states.len();
        self.clear_with_inner(states, EntryAmount::new(entry, amount))
    }
}

impl<T, U: LoggedAt, const AMOUNT_BYTES: usize> RareStatesLog<T, U, AMOUNT_BYTES> {
    /// Removes the oldest past group and returns its values with its entry, when the entry
    /// after it was logged at or before `past_end`.
    pub fn pop_past_by_logged_at(&mut self, past_end: u64) -> (r: Option<ValueEntry<VecDeque<T>, U>>)
        requires
            old(self).wf(),
        ensures
            final(self).wf(),
            !old(self).entries().pops_by_logged_at(past_end) ==> r is None && final(self).entries() == old(self).entries()
                && final(self).states() == old(self).states(),
            old(self).entries().pops_by_logged_at(past_end) ==> r is Some && ({
                let first = old(self).entries().states[0].value;
                &&& r->0.value@ == old(self).states().take(first.spec_amount() as int)
                &&& r->0.entry == first.spec_entry()
                &&& final(self).entries() == old(self).entries().drop_past(1)
                &&& final(self).states() == old(self).states().skip(first.spec_amount() as int)
            }),
    {
        proof {
            self.lemma_wf_bounds();
        }
        let ghost e = self.amounts@;
        match self.amounts.pop_past_by_logged_at(past_end) {
            Some(entry_amount) => {
                proof {
                    self.lemma_drop_first_amounts(e);
                }
                Some(self.drain_front_group(entry_amount))
            },
            None => None,
        }
    }
}

} // verus!
