//! A log of groups of values that change rarely, shortened by the number of pushes that the
//! world's frames stand for.
use std::collections::{TryReserveError, VecDeque};
use vstd::prelude::*;

use super::rare_state::{RareStateView, RareValue};
use super::rare_states::{rare_amount_sum, RareStatesLog};
use super::{amount_max, AmountErr, EntryAmount, OutOfLog, ValueEntry};

verus! {

/// A log where a push holds a group of values and an entry `U`, or nothing, which keeps the
/// present group.
///
/// `AMOUNT_BYTES` sets how many values a push may hold: up to `2^(8 * AMOUNT_BYTES) - 1`, or
/// up to `usize::MAX` for `0` or at least the size of `usize`.
#[derive(Clone, Debug)]
pub struct RareValuesLog<T, U, const AMOUNT_BYTES: usize> {
    log: RareStatesLog<T, U, AMOUNT_BYTES>,
}

impl<T, U, const AMOUNT_BYTES: usize> RareValuesLog<T, U, AMOUNT_BYTES> {
    pub closed spec fn wf(&self) -> bool {
        self.log.wf()
    }

    /// The entries with their amounts and the skips between them.
    pub closed spec fn entries(&self) -> RareStateView<EntryAmount<U, AMOUNT_BYTES>> {
        self.log.entries()
    }

    /// All stored values, group after group.
    pub closed spec fn values(&self) -> Seq<T> {
        self.log.states()
    }

    /// The number of values in the past groups.
    pub open spec fn past_amount(&self) -> int {
        rare_amount_sum(self.entries().states.take(self.entries().index))
    }

    /// The position in `values()` where the present group ends.
    pub open spec fn present_end(&self) -> int {
        self.past_amount() + self.entries().present.spec_amount()
    }

    /// The values of the present group.
    pub open spec fn present_values(&self) -> Seq<T> {
        self.values().subrange(self.past_amount(), self.present_end())
    }

    /// In a well formed log the present group lies within the stored values.
    pub proof fn lemma_present_group(&self)
        requires
            self.wf(),
        ensures
            0 <= self.past_amount() <= self.present_end() <= self.values().len(),
            self.entries().wf(),
    {
        self.log.lemma_present_group();
    }

    /// A log of just `entry` with no values.
    pub open spec fn only_entry(entry: EntryAmount<U, AMOUNT_BYTES>) -> RareStateView<EntryAmount<U, AMOUNT_BYTES>> {
        RareStateView { states: Seq::empty(), present: entry, index: 0, skips: 0, skips_max: 0, past_len: 0 }
    }

    /// A log whose present entry counts `values` with `entry`; fails when `values` holds more
    /// values than a push can count. The present group ends where the stored values start, so
    /// the log is well formed, and can be read, only for no values.
    pub fn new(values: VecDeque<T>, entry: U) -> (r: Result<Self, AmountErr<VecDeque<T>, U, AMOUNT_BYTES>>)
        ensures
            values@.len() <= amount_max(AMOUNT_BYTES) ==> r is Ok && (r->Ok_0.wf() <==> values@.len() == 0)
                && r->Ok_0.entries() == Self::only_entry(EntryAmount::spec_new(entry, values@.len() as usize))
                && r->Ok_0.values() == values@,
            values@.len() > amount_max(AMOUNT_BYTES) ==> r is Err && r->Err_0.values@ == values@
                && r->Err_0.entry_amount == EntryAmount::<U, AMOUNT_BYTES>::spec_new(entry, values@.len() as usize),
    {
        let entry_amount = EntryAmount::new(entry, values.len());
        if !entry_amount.fits() {
            return Err(AmountErr { values, entry_amount });
        }
        Ok(RareValuesLog { log: RareStatesLog::from_parts_at_start(values, entry_amount, 0) })
    }

    pub fn new_empty(entry: U) -> (log: Self)
        ensures
            log.wf(),
            log.entries() == Self::only_entry(EntryAmount::spec_new(entry, 0)),
            log.values().len() == 0,
    {
        RareValuesLog { log: RareStatesLog::new_empty(entry) }
    }

    /// Like `new`, with room for `values_capacity` values and `log_capacity` entries.
    pub fn with_capacities(values: VecDeque<T>, entry: U, values_capacity: usize, log_capacity: usize) -> (r: Result<Self, AmountErr<VecDeque<T>, U, AMOUNT_BYTES>>)
        ensures
            values@.len() <= amount_max(AMOUNT_BYTES) ==> r is Ok && (r->Ok_0.wf() <==> values@.len() == 0)
                && r->Ok_0.entries() == Self::only_entry(EntryAmount::spec_new(entry, values@.len() as usize))
                && r->Ok_0.values() == values@,
            values@.len() > amount_max(AMOUNT_BYTES) ==> r is Err && r->Err_0.values@ == values@
                && r->Err_0.entry_amount == EntryAmount::<U, AMOUNT_BYTES>::spec_new(entry, values@.len() as usize),
    {
        let mut values_deque: VecDeque<T> = VecDeque::with_capacity(values_capacity);
        let mut values = values;
        values_deque.append(&mut values);
        let entry_amount = EntryAmount::new(entry, values_deque.len());
        if !entry_amount.fits() {
            return Err(AmountErr { values: values_deque, entry_amount });
        }
        Ok(RareValuesLog { log: RareStatesLog::from_parts_at_start(values_deque, entry_amount, log_capacity) })
    }

    pub fn with_capacities_empty(entry: U, values_capacity: usize, log_capacity: usize) -> (log: Self)
        ensures
            log.wf(),
            log.entries() == Self::only_entry(EntryAmount::spec_new(entry, 0)),
            log.values().len() == 0,
    {
        RareValuesLog { log: RareStatesLog::with_capacities_empty(entry, values_capacity, log_capacity) }
    }

    /// The number of pushes in the past.
    pub fn log_len(&self) -> (len: usize)
        requires
            self.wf(),
        ensures
            len == self.entries().past_len,
    {
        self.log.past_len()
    }

    pub fn values_len(&self) -> (len: usize)
        ensures
            len == self.values().len(),
    {
        self.log.states_len()
    }

    pub fn log_capacity(&self) -> (capacity: usize)
        ensures
            capacity >= self.entries().states.len(),
    {
        self.log.entries_capacity()
    }

    pub fn values_capacity(&self) -> (capacity: usize)
        ensures
            capacity >= self.values().len(),
    {
        self.log.states_capacity()
    }

    pub fn log_is_empty(&self) -> (empty: bool)
        ensures
            empty == (self.entries().states.len() == 0),
    {
        self.log.entries_is_empty()
    }

    pub fn values_is_empty(&self) -> (empty: bool)
        ensures
            empty == (self.values().len() == 0),
    {
        self.log.states_is_empty()
    }

    pub fn log_reserve(&mut self, additional: usize)
        ensures
            final(self).wf() == old(self).wf(),
            final(self).entries() == old(self).entries(),
            final(self).values() == old(self).values(),
    {
        self.log.entries_reserve(additional)
    }

    pub fn values_reserve(&mut self, additional: usize)
        ensures
            final(self).wf() == old(self).wf(),
            final(self).entries() == old(self).entries(),
            final(self).values() == old(self).values(),
    {
        self.log.states_reserve(additional)
    }

    pub fn log_reserve_exact(&mut self, additional: usize)
        requires
            old(self).entries().states.len() + additional <= usize::MAX,
        ensures
            final(self).wf() == old(self).wf(),
            final(self).entries() == old(self).entries(),
            final(self).values() == old(self).values(),
    {
        self.log.entries_reserve_exact(additional)
    }

    pub fn values_reserve_exact(&mut self, additional: usize)
        requires
            old(self).values().len() + additional <= usize::MAX,
        ensures
            final(self).wf() == old(self).wf(),
            final(self).entries() == old(self).entries(),
            final(self).values() == old(self).values(),
    {
        self.log.states_reserve_exact(additional)
    }

    pub fn log_try_reserve(&mut self, additional: usize) -> (r: Result<(), TryReserveError>)
        ensures
            final(self).wf() == old(self).wf(),
            final(self).entries() == old(self).entries(),
            final(self).values() == old(self).values(),
            old(self).entries().states.len() + additional > usize::MAX ==> r is Err,
    {
        self.log.entries_try_reserve(additional)
    }

    pub fn values_try_reserve(&mut self, additional: usize) -> (r: Result<(), TryReserveError>)
        ensures
            final(self).wf() == old(self).wf(),
            final(self).entries() == old(self).entries(),
            final(self).values() == old(self).values(),
            old(self).values().len() + additional > usize::MAX ==> r is Err,
    {
        self.log.states_try_reserve(additional)
    }

    pub fn log_try_reserve_exact(&mut self, additional: usize) -> (r: Result<(), TryReserveError>)
        ensures
            final(self).wf() == old(self).wf(),
            final(self).entries() == old(self).entries(),
            final(self).values() == old(self).values(),
            old(self).entries().states.len() + additional > usize::MAX ==> r is Err,
    {
        self.log.entries_try_reserve_exact(additional)
    }

    pub fn values_try_reserve_exact(&mut self, additional: usize) -> (r: Result<(), TryReserveError>)
        ensures
            final(self).wf() == old(self).wf(),
            final(self).entries() == old(self).entries(),
            final(self).values() == old(self).values(),
            old(self).values().len() + additional > usize::MAX ==> r is Err,
    {
        self.log.states_try_reserve_exact(additional)
    }

    pub fn log_shrink_to(&mut self, min_capacity: usize)
        ensures
            final(self).wf() == old(self).wf(),
            final(self).entries() == old(self).entries(),
            final(self).values() == old(self).values(),
    {
        self.log.entries_shrink_to(min_capacity)
    }

    pub fn values_shrink_to(&mut self, min_capacity: usize)
        ensures
            final(self).wf() == old(self).wf(),
            final(self).entries() == old(self).entries(),
            final(self).values() == old(self).values(),
    {
        self.log.states_shrink_to(min_capacity)
    }

    pub fn log_shrink_to_fit(&mut self)
        ensures
            final(self).wf() == old(self).wf(),
            final(self).entries() == old(self).entries(),
            final(self).values() == old(self).values(),
    {
        self.log.entries_shrink_to_fit()
    }

    pub fn values_shrink_to_fit(&mut self)
        ensures
            final(self).wf() == old(self).wf(),
            final(self).entries() == old(self).entries(),
            final(self).values() == old(self).values(),
    {
        self.log.states_shrink_to_fit()
    }

    /// The values of the present group and its entry.
    pub fn get(&self) -> (r: (Vec<&T>, &U))
        requires
            self.wf(),
        ensures
            r.0@.len() == self.present_values().len(),
            forall|i: int| 0 <= i < r.0@.len() ==> *r.0@[i] == #[trigger] self.present_values()[i],
            *r.1 == self.entries().present.spec_entry(),
    {
        self.log.get()
    }

    /// The values and the entry of the oldest past group, or `None` when the log stands at its
    /// past end.
    pub fn past_end(&self) -> (r: Option<(Vec<&T>, &U)>)
        requires
            self.wf(),
        ensures
            self.entries().index == 0 ==> r is None,
            self.entries().index > 0 ==> r is Some && ({
                let first = self.entries().states[0].value;
                let (values, entry) = r->0;
                &&& values@.len() == first.spec_amount()
                &&& forall|i: int| 0 <= i < values@.len() ==> *values@[i] == #[trigger] self.values()[i]
                &&& *entry == first.spec_entry()
            }),
    {
        self.log.past_end()
    }

    /// Removes the oldest past group and returns its values and entry, or `None` when the log
    /// stands at its past end.
    pub fn pop_past(&mut self) -> (r: Option<ValueEntry<VecDeque<T>, U>>)
        requires
            old(self).wf(),
        ensures
            final(self).wf(),
            old(self).entries().index == 0 ==> r is None && final(self).entries() == old(self).entries()
                && final(self).values() == old(self).values(),
            old(self).entries().index > 0 ==> r is Some && ({
                let first = old(self).entries().states[0].value;
                &&& r->0.value@ == old(self).values().take(first.spec_amount() as int)
                &&& r->0.entry == first.spec_entry()
                &&& final(self).entries() == old(self).entries().drop_past(1)
                &&& final(self).values() == old(self).values().skip(first.spec_amount() as int)
            }),
    {
        self.log.pop_past()
    }

    /// The log after a push of `values` with `entry`: a push of no values keeps the present
    /// group and hands `entry` back.
    pub open spec fn pushed_entries(&self, values: Seq<T>, entry: U) -> RareStateView<EntryAmount<U, AMOUNT_BYTES>> {
        if values.len() == 0 {
            self.entries().push(None)
        } else {
            self.entries().push(Some(EntryAmount::spec_new(entry, values.len() as usize)))
        }
    }

    /// Pushes `values` with `entry` as the new present group, dropping the future; for no
    /// values it only counts a push that keeps the present group and hands `entry` back.
    /// Fails and leaves the log unchanged when `values` holds more values than a push can
    /// count.
    pub fn try_push_present(&mut self, values: VecDeque<T>, entry: U) -> (r: Result<Option<U>, AmountErr<VecDeque<T>, U, AMOUNT_BYTES>>)
        requires
            old(self).wf(),
            old(self).entries().past_len < usize::MAX,
        ensures
            final(self).wf(),
            values@.len() <= amount_max(AMOUNT_BYTES) ==> r is Ok
                && r->Ok_0 == (if values@.len() == 0 { Some(entry) } else { None })
                && final(self).entries() == old(self).pushed_entries(values@, entry)
                && final(self).values() == old(self).values().take(old(self).present_end()) + values@,
            values@.len() > amount_max(AMOUNT_BYTES) ==> r is Err && r->Err_0.values@ == values@
                && r->Err_0.entry_amount == EntryAmount::<U, AMOUNT_BYTES>::spec_new(entry, values@.len() as usize)
                && final(self).entries() == old(self).entries() && final(self).values() == old(self).values(),
    {
        self.log.try_push_present(values, entry)
    }

    /// Like `try_push_present`, for values that a push can count.
    pub fn push_present(&mut self, values: VecDeque<T>, entry: U) -> (r: Option<U>)
        requires
            old(self).wf(),
            old(self).entries().past_len < usize::MAX,
            values@.len() <= amount_max(AMOUNT_BYTES),
        ensures
            final(self).wf(),
            r == (if values@.len() == 0 { Some(entry) } else { None }),
            final(self).entries() == old(self).pushed_entries(values@, entry),
            final(self).values() == old(self).values().take(old(self).present_end()) + values@,
    {
        match self.log.try_push_present(values, entry) {
            Ok(r) => r,
            Err(_) => {
                proof {
                    assert(false);
                }
                None
            },
        }
    }

    /// Removes the future groups; returns their values and their entries, nearest first.
    pub fn drain_future(&mut self) -> (r: (VecDeque<T>, Vec<U>))
        requires
            old(self).wf(),
        ensures
            final(self).wf(),
            r.0@ == old(self).values().skip(old(self).present_end()),
            r.1@ == old(self).entries().states.skip(old(self).entries().index).map_values(
                |e: RareValue<EntryAmount<U, AMOUNT_BYTES>>| e.value.spec_entry(),
            ),
            final(self).entries() == (RareStateView { states: old(self).entries().states.take(old(self).entries().index), ..old(self).entries() }),
            final(self).values() == old(self).values().take(old(self).present_end()),
    {
        let (values, entries) = self.log.drain_future();
        let mut entries = entries;
        let ghost all = entries@;
        let n = entries.len();
        let mut reversed: Vec<U> = Vec::new();
        while entries.len() > 0
            invariant
                all.len() == n,
                reversed@.len() + entries@.len() == n,
                entries@ == all.take(entries@.len() as int),
                forall|j: int| 0 <= j < reversed@.len() ==> #[trigger] reversed@[j] == all[n - 1 - j].spec_entry(),
            decreases entries@.len(),
        {
            let entry_amount = entries.pop().unwrap();
            reversed.push(entry_amount.into_entry());
        }
        let mut out: Vec<U> = Vec::new();
        while reversed.len() > 0
            invariant
                all.len() == n,
                out@.len() + reversed@.len() == n,
                forall|j: int| 0 <= j < reversed@.len() ==> #[trigger] reversed@[j] == all[n - 1 - j].spec_entry(),
                forall|j: int| 0 <= j < out@.len() ==> out@[j] == #[trigger] all[j].spec_entry(),
            decreases reversed@.len(),
        {
            let entry = reversed.pop().unwrap();
            proof {
                assert(entry == all[out@.len() as int].spec_entry());
            }
            out.push(entry);
        }
        proof {
            let e = old(self).entries();
            let expected = e.states.skip(e.index).map_values(|e: RareValue<EntryAmount<U, AMOUNT_BYTES>>| e.value.spec_entry());
            assert(all == e.states.skip(e.index).map_values(|e: RareValue<EntryAmount<U, AMOUNT_BYTES>>| e.value));
            assert forall|j: int| 0 <= j < out@.len() implies out@[j] == expected[j] by {
                assert(out@[j] == all[j].spec_entry());
            }
            assert(out@ =~= expected);
        }
        (values, out)
    }

    /// The values a clear keeps: those that follow the present group, as many as the present
    /// group holds, or all of them when there are fewer.
    pub open spec fn cleared_values(&self) -> Seq<T> {
        let rest = self.values().skip(self.present_end());
        let amount = self.entries().present.spec_amount();
        if rest.len() > amount {
            rest.take(amount as int)
        } else {
            rest
        }
    }

    /// Removes the past and future entries and keeps the present entry. Of the values it drops
    /// those up to the end of the present group and keeps as many of the values that follow as
    /// the present group holds, before which the present group then ends; the log is well
    /// formed afterwards only when the present group holds no value.
    pub fn clear(&mut self)
        requires
            old(self).wf(),
        ensures
            final(self).wf() <==> old(self).entries().present.spec_amount() == 0,
            final(self).entries() == Self::only_entry(old(self).entries().present),
            final(self).values() == old(self).cleared_values(),
    {
        self.log.clear_to_start()
    }

    /// Replaces all groups by `values` with `entry` as the present entry; fails and leaves the
    /// log unchanged when `values` holds more values than a push can count. The present group
    /// ends where the new values start, so the log is well formed afterwards only for no values.
    pub fn clear_with(&mut self, values: VecDeque<T>, entry: U) -> (r: Result<(), AmountErr<VecDeque<T>, U, AMOUNT_BYTES>>)
        requires
            old(self).wf(),
        ensures
            values@.len() <= amount_max(AMOUNT_BYTES) ==> r is Ok
                && (final(self).wf() <==> values@.len() == 0)
                && final(self).entries() == Self::only_entry(EntryAmount::spec_new(entry, values@.len() as usize))
                && final(self).values() == values@,
            values@.len() > amount_max(AMOUNT_BYTES) ==> r is Err && r->Err_0.values@ == values@
                && r->Err_0.entry_amount == EntryAmount::<U, AMOUNT_BYTES>::spec_new(entry, values@.len() as usize)
                && final(self).wf()
                && final(self).entries() == old(self).entries() && final(self).values() == old(self).values(),
    {
        match self.log.try_clear_with(values, entry) {
            Ok(()) => {
                self.log.place_present_at_start();
                Ok(())
            },
            Err(e) => Err(e),
        }
    }

    /// Removes all groups and makes `entry` the present entry with no values.
    pub fn clear_empty(&mut self, entry: U)
        ensures
            final(self).wf(),
            final(self).entries() == Self::only_entry(EntryAmount::spec_new(entry, 0)),
            final(self).values().len() == 0,
    {
        self.log.clear_empty(entry)
    }

    /// Steps one push back, or fails when there is no past push; a step over a push without
    /// values keeps the present group.
    pub fn backward_log(&mut self) -> (r: Result<(), OutOfLog>)
        requires
            old(self).wf(),
        ensures
            final(self).wf(),
            r is Err <==> !old(self).entries().can_backward(),
            r is Ok ==> final(self).entries() == old(self).entries().backward().0,
            r is Err ==> final(self).entries() == old(self).entries(),
            final(self).values() == old(self).values(),
    {
        self.log.backward_log()
    }

    /// Steps one push forward, or fails when there is no future push; a step over a push
    /// without values keeps the present group.
    pub fn forward_log(&mut self) -> (r: Result<(), OutOfLog>)
        requires
            old(self).wf(),
            old(self).entries().past_len < usize::MAX,
        ensures
            final(self).wf(),
            r is Err <==> !old(self).entries().can_forward(),
            r is Ok ==> final(self).entries() == old(self).entries().forward().0,
            r is Err ==> final(self).entries() == old(self).entries(),
            final(self).values() == old(self).values(),
    {
        self.log.forward_log()
    }

    /// Removes the oldest past group when the past pushes without it still cover
    /// `past_frames` frames of `pushes_per_frame` pushes each, and returns its values and
    /// entry.
    pub fn pop_past_by_len(&mut self, past_frames: usize, pushes_per_frame: usize) -> (r: Option<ValueEntry<VecDeque<T>, U>>)
        requires
            old(self).wf(),
            past_frames * pushes_per_frame <= usize::MAX,
        ensures
            final(self).wf(),
            ({
                let max_past_len = (past_frames * pushes_per_frame) as usize;
                &&& !old(self).entries().pops(max_past_len) ==> r is None && final(self).entries() == old(self).entries()
                    && final(self).values() == old(self).values()
                &&& old(self).entries().pops(max_past_len) ==> r is Some && ({
                    let first = old(self).entries().states[0].value;
                    &&& r->0.value@ == old(self).values().take(first.spec_amount() as int)
                    &&& r->0.entry == first.spec_entry()
                    &&& final(self).entries() == old(self).entries().drop_past(1)
                    &&& final(self).values() == old(self).values().skip(first.spec_amount() as int)
                })
            }),
    {
        self.log.pop_past_by_len(past_frames * pushes_per_frame)
    }

    /// Removes the oldest past groups as long as the past pushes without them still cover
    /// `past_frames` frames of `pushes_per_frame` pushes each, and returns their values.
    pub fn drain_past_by_len(&mut self, past_frames: usize, pushes_per_frame: usize) -> (drained: VecDeque<T>)
        requires
            old(self).wf(),
            past_frames * pushes_per_frame <= usize::MAX,
        ensures
            final(self).wf(),
            ({
                let n = old(self).entries().drain_count((past_frames * pushes_per_frame) as usize);
                let amount = rare_amount_sum(old(self).entries().states.take(n as int));
                &&& drained@ == old(self).values().take(amount)
                &&& final(self).entries() == old(self).entries().drop_past(n as int)
                &&& final(self).values() == old(self).values().skip(amount)
            }),
    {
        self.log.drain_past_by_len(past_frames * pushes_per_frame)
    }
}

} // verus!
