//! A log of the frames at which something was updated, which gives the past length for logs
//! that are updated along with it when that does not happen exactly once per frame.
//!
//! Each update stores the offset from the frame of the update before it; several updates at one
//! frame store offsets of `0`. Stepping through the log in either direction tells at which
//! frames, and how many times at each, the log was updated, and gives the limits between which
//! the present frame has to stay until the log is expected to update again.
use std::collections::{TryReserveError, VecDeque};
use vstd::prelude::*;

use super::deque;
use super::offset_code::{
    decode_backward, decode_forward, encode, encode_all, encoded_len, lemma_encode_all_first,
    lemma_encode_all_last, lemma_encode_all_push, lemma_encode_all_split, lemma_encode_len,
    lemma_sum_append, lemma_sum_nonneg, lemma_sum_split, push_encoded, sum,
};

pub mod limits;

use limits::{update_past_len_state, PastLenState, PreUpdateVariant};

verus! {

/// What a past length log holds.
pub ghost struct PastLenView {
    /// The offsets between the frames the log was updated at, oldest first; `0` for a further
    /// update at the same frame.
    pub offsets: Seq<u64>,
    /// How many of the offsets lie in the past; the rest lie in the future.
    pub past_count: nat,
    /// The frame of the newest update in the past.
    pub last_update: u64,
    /// A frame at or before the oldest logged update, from which the first offset counts.
    pub out_of_or_past_end_log: u64,
}

impl PastLenView {
    /// The frames the log was updated at, oldest first, one entry per update.
    pub open spec fn update_frames(self) -> Seq<u64> {
        Seq::new(self.offsets.len(), |i: int| (self.out_of_or_past_end_log + sum(self.offsets.take(i + 1))) as u64)
    }

    /// The number of updates in the past, which is the past length the log reports.
    pub open spec fn past_len(self) -> nat {
        self.past_count
    }

    /// The log after going back one update.
    pub open spec fn step_back(self) -> Self
        recommends
            self.past_count > 0,
    {
        PastLenView {
            past_count: (self.past_count - 1) as nat,
            last_update: (self.last_update - self.offsets[self.past_count - 1]) as u64,
            ..self
        }
    }

    /// The log after going forward one update.
    pub open spec fn step_forward(self) -> Self
        recommends
            self.past_count < self.offsets.len(),
    {
        PastLenView {
            past_count: self.past_count + 1,
            last_update: (self.last_update + self.offsets[self.past_count as int]) as u64,
            ..self
        }
    }

    /// The log after going back `n` updates.
    pub open spec fn step_back_n(self, n: nat) -> Self
        decreases n,
    {
        if n == 0 {
            self
        } else {
            self.step_back().step_back_n((n - 1) as nat)
        }
    }

    /// The log after going forward `n` updates.
    pub open spec fn step_forward_n(self, n: nat) -> Self
        decreases n,
    {
        if n == 0 {
            self
        } else {
            self.step_forward().step_forward_n((n - 1) as nat)
        }
    }

    /// How many updates the log holds at frame `target`, going back from its newest past
    /// update: none unless that update is at `target`, and otherwise that update with the
    /// further past updates at the same frame.
    pub open spec fn updates_back_at(self, target: int) -> nat
        decreases self.past_count,
    {
        if self.past_count == 0 || self.last_update != target {
            0
        } else {
            1 + self.step_back().updates_back_at(target)
        }
    }

    /// How many updates the log holds at frame `target`, going forward from its newest past
    /// update: none unless the next update is at `target`, and otherwise that update with the
    /// further future updates at the same frame.
    pub open spec fn updates_forward_at(self, target: int) -> nat
        decreases self.offsets.len() - self.past_count,
    {
        if self.past_count >= self.offsets.len() || self.last_update + self.offsets[self.past_count as int] != target {
            0
        } else {
            1 + self.step_forward().updates_forward_at(target)
        }
    }

    /// The latest frame the present frame may reach, going forward from `now`, before the log
    /// expects its next update: the frame before that update, or `u64::MAX` without one.
    pub open spec fn forward_limit(self, now: u64) -> u64 {
        if self.past_count < self.offsets.len() {
            (now - 1 + self.offsets[self.past_count as int]) as u64
        } else {
            u64::MAX
        }
    }
}

/// Going back one update and then forward to the frame it was at gives the log back.
pub proof fn lemma_past_len_step_back_then_forward(v: PastLenView)
    requires
        0 < v.past_count <= v.offsets.len(),
        v.offsets[v.past_count - 1] <= v.last_update,
    ensures
        v.step_back().past_count < v.step_back().offsets.len(),
        v.step_back().last_update + v.step_back().offsets[v.step_back().past_count as int] == v.last_update,
        v.step_back().step_forward() == v,
{
}

/// Going forward one update and then back gives the log back.
pub proof fn lemma_past_len_step_forward_then_back(v: PastLenView)
    requires
        v.past_count < v.offsets.len(),
        v.last_update + v.offsets[v.past_count as int] <= u64::MAX,
    ensures
        v.step_forward().past_count > 0,
        v.step_forward().step_back() == v,
{
}

/// For a well formed log, going back one update and then forward to the frame it was at gives
/// the log back.
pub proof fn lemma_past_len_log_back_then_forward(log: &PastLenLog)
    requires
        log.wf(),
        log@.past_count > 0,
    ensures
        log@.step_back().past_count < log@.step_back().offsets.len(),
        log@.step_back().last_update + log@.step_back().offsets[log@.step_back().past_count as int] == log@.last_update,
        log@.step_back().step_forward() == log@,
{
    log.lemma_wf();
    lemma_past_len_step_back_then_forward(log@);
}

/// How many of the oldest `offsets`, counted from frame `start`, an update drops: offsets of
/// `0` always, other offsets while the frame they lead to is at or before `past_end`.
pub open spec fn past_drain_count(start: int, offsets: Seq<u64>, past_end: u64) -> nat
    decreases offsets.len(),
{
    if offsets.len() == 0 {
        0
    } else if offsets[0] == 0 {
        1 + past_drain_count(start, offsets.drop_first(), past_end)
    } else if start + offsets[0] > past_end {
        0
    } else {
        1 + past_drain_count(start + offsets[0], offsets.drop_first(), past_end)
    }
}

proof fn lemma_past_drain_count_bound(start: int, offsets: Seq<u64>, past_end: u64)
    ensures
        past_drain_count(start, offsets, past_end) <= offsets.len(),
    decreases offsets.len(),
{
    if offsets.len() > 0 {
        if offsets[0] == 0 {
            lemma_past_drain_count_bound(start, offsets.drop_first(), past_end);
        } else if start + offsets[0] <= past_end {
            lemma_past_drain_count_bound(start + offsets[0], offsets.drop_first(), past_end);
        }
    }
}

/// Going back over the updates at a frame takes at most the past updates.
pub proof fn lemma_updates_back_at_bound(v: PastLenView, target: int)
    ensures
        v.updates_back_at(target) <= v.past_count,
    decreases v.past_count,
{
    if v.past_count > 0 && v.last_update == target {
        lemma_updates_back_at_bound(v.step_back(), target);
    }
}

/// Going forward over the updates at a frame takes at most the future updates.
pub proof fn lemma_updates_forward_at_bound(v: PastLenView, target: int)
    ensures
        v.past_count + v.updates_forward_at(target) <= v.offsets.len() || v.past_count > v.offsets.len(),
    decreases v.offsets.len() - v.past_count,
{
    if v.past_count < v.offsets.len() && v.last_update + v.offsets[v.past_count as int] == target {
        lemma_updates_forward_at_bound(v.step_forward(), target);
    }
}

/// The code of a sequence of offsets takes at least one byte per offset.
proof fn lemma_encode_all_len(offsets: Seq<u64>)
    ensures
        encode_all(offsets).len() >= offsets.len(),
    decreases offsets.len(),
{
    if offsets.len() > 0 {
        lemma_encode_all_last(offsets);
        lemma_encode_len(offsets.last());
        lemma_encode_all_len(offsets.drop_last());
    }
}

/// `n` offsets of `0`.
pub open spec fn zero_offsets(n: nat) -> Seq<u64> {
    Seq::new(n, |i: int| 0u64)
}

/// A log of the frames at which something was updated, for logs that are not updated exactly
/// once per frame: it gives them the past length to keep.
#[derive(Clone)]
pub struct PastLenLog {
    offset_bytes: VecDeque<u8>,
    out_of_or_past_end_log: u64,
    last_update: u64,
    index: usize,
    past_len: u64,
    update_state: Option<PastLenState>,
    offsets: Ghost<Seq<u64>>,
    past_count: Ghost<nat>,
}

impl PastLenLog {
    /// The fields agree with the offsets that the bytes hold.
    pub closed spec fn wf(&self) -> bool {
        &&& self.offset_bytes@ == encode_all(self.offsets@)
        &&& self.past_count@ <= self.offsets@.len()
        &&& self.index == encode_all(self.offsets@.take(self.past_count@ as int)).len()
        &&& self.past_len == self.past_count@
        &&& self.out_of_or_past_end_log + sum(self.offsets@.take(self.past_count@ as int)) <= self.last_update
        &&& self.last_update + sum(self.offsets@.skip(self.past_count@ as int)) <= u64::MAX
    }

    pub closed spec fn view(&self) -> PastLenView {
        PastLenView {
            offsets: self.offsets@,
            past_count: self.past_count@,
            last_update: self.last_update,
            out_of_or_past_end_log: self.out_of_or_past_end_log,
        }
    }

    /// The state the log keeps to learn what to do before its first change at a frame.
    pub closed spec fn state(&self) -> Option<PastLenState> {
        self.update_state
    }

    /// A well formed log has its newest past update at or after the frames its past offsets
    /// lead to, and its future updates within `u64`.
    pub proof fn lemma_wf(&self)
        requires
            self.wf(),
        ensures
            self@.past_count <= self@.offsets.len(),
            self@.out_of_or_past_end_log + sum(self@.offsets.take(self@.past_count as int)) <= self@.last_update,
            self@.last_update + sum(self@.offsets.skip(self@.past_count as int)) <= u64::MAX,
            self@.past_count > 0 ==> self@.offsets[self@.past_count - 1] <= self@.last_update,
    {
        let k = self.past_count@ as int;
        if k > 0 {
            let offs = self.offsets@;
            lemma_sum_split(offs.take(k), k - 1);
            assert(offs.take(k).skip(k - 1) =~= seq![offs[k - 1]]);
            assert(sum(seq![offs[k - 1]]) == offs[k - 1]) by {
                reveal_with_fuel(sum, 2);
                assert(seq![offs[k - 1]].drop_last() =~= Seq::<u64>::empty());
            }
        }
    }

    pub fn new() -> (log: Self)
        ensures
            log.wf(),
            log@ == (PastLenView { offsets: Seq::empty(), past_count: 0, last_update: 0, out_of_or_past_end_log: 0 }),
            log.state() is None,
    {
        Self::with_capacity(0)
    }

    pub fn with_capacity(bytes_capacity: usize) -> (log: Self)
        ensures
            log.wf(),
            log@ == (PastLenView { offsets: Seq::empty(), past_count: 0, last_update: 0, out_of_or_past_end_log: 0 }),
            log.state() is None,
    {
        let log = PastLenLog {
            offset_bytes: VecDeque::with_capacity(bytes_capacity),
            out_of_or_past_end_log: 0,
            last_update: 0,
            index: 0,
            past_len: 0,
            update_state: None,
            offsets: Ghost(Seq::empty()),
            past_count: Ghost(0),
        };
        proof {
            assert(log.offset_bytes@ =~= encode_all(Seq::<u64>::empty()));
            assert(log.offsets@.take(0) =~= Seq::<u64>::empty());
            assert(log.offsets@.skip(0) =~= Seq::<u64>::empty());
        }
        log
    }

    /// The number of stored bytes, which has no relation to the length of the log.
    pub fn len(&self) -> (len: usize)
        requires
            self.wf(),
        ensures
            len == encode_all(self@.offsets).len(),
    {
        self.offset_bytes.len()
    }

    pub fn capacity(&self) -> (capacity: usize)
        requires
            self.wf(),
        ensures
            capacity >= encode_all(self@.offsets).len(),
    {
        deque::capacity(&self.offset_bytes)
    }

    pub fn is_empty(&self) -> (empty: bool)
        requires
            self.wf(),
        ensures
            empty == (encode_all(self@.offsets).len() == 0),
    {
        self.offset_bytes.len() == 0
    }

    pub fn reserve(&mut self, additional: usize)
        requires
            old(self).wf(),
        ensures
            final(self).wf(),
            final(self)@ == old(self)@,
            final(self).state() == old(self).state(),
    {
        self.offset_bytes.reserve(additional)
    }

    pub fn reserve_exact(&mut self, additional: usize)
        requires
            old(self).wf(),
            encode_all(old(self)@.offsets).len() + additional <= usize::MAX,
        ensures
            final(self).wf(),
            final(self)@ == old(self)@,
            final(self).state() == old(self).state(),
    {
        deque::reserve_exact(&mut self.offset_bytes, additional)
    }

    pub fn try_reserve(&mut self, additional: usize) -> (r: Result<(), TryReserveError>)
        requires
            old(self).wf(),
        ensures
            final(self).wf(),
            final(self)@ == old(self)@,
            final(self).state() == old(self).state(),
            encode_all(old(self)@.offsets).len() + additional > usize::MAX ==> r is Err,
    {
        deque::try_reserve(&mut self.offset_bytes, additional)
    }

    pub fn try_reserve_exact(&mut self, additional: usize) -> (r: Result<(), TryReserveError>)
        requires
            old(self).wf(),
        ensures
            final(self).wf(),
            final(self)@ == old(self)@,
            final(self).state() == old(self).state(),
            encode_all(old(self)@.offsets).len() + additional > usize::MAX ==> r is Err,
    {
        deque::try_reserve_exact(&mut self.offset_bytes, additional)
    }

    pub fn shrink_to(&mut self, min_capacity: usize)
        requires
            old(self).wf(),
        ensures
            final(self).wf(),
            final(self)@ == old(self)@,
            final(self).state() == old(self).state(),
    {
        deque::shrink_to(&mut self.offset_bytes, min_capacity)
    }

    pub fn shrink_to_fit(&mut self)
        requires
            old(self).wf(),
        ensures
            final(self).wf(),
            final(self)@ == old(self)@,
            final(self).state() == old(self).state(),
    {
        deque::shrink_to_fit(&mut self.offset_bytes)
    }

    /// The state the log keeps to learn what to do before its first change at a frame.
    pub fn update_state(&self) -> (state: Option<PastLenState>)
        ensures
            state == self.state(),
    {
        self.update_state
    }

    /// The log's id, which it has once it first ran.
    pub fn id(&self) -> (id: Option<u32>)
        ensures
            id == (match self.state() {
                Some(state) => Some(state.id),
                None => None::<u32>,
            }),
    {
        match &self.update_state {
            Some(state) => Some(state.id),
            None => None,
        }
    }

    /// Drops the updates that lie in the future.
    fn drop_future(&mut self)
        requires
            old(self).wf(),
        ensures
            final(self).wf(),
            final(self).state() == old(self).state(),
            final(self)@ == (PastLenView { offsets: old(self)@.offsets.take(old(self)@.past_count as int), ..old(self)@ }),
    {
        let ghost offs = self.offsets@;
        let ghost k = self.past_count@ as int;
        proof {
            lemma_encode_all_split(offs, k);
        }
        self.offset_bytes.truncate(self.index);
        self.offsets = Ghost(offs.take(k));
        proof {
            assert(self.offset_bytes@ =~= encode_all(self.offsets@));
            assert(self.offsets@.take(k) =~= offs.take(k));
            assert(self.offsets@.skip(k) =~= Seq::<u64>::empty());
            assert(sum(Seq::<u64>::empty()) == 0);
        }
    }

    /// Drops the future updates and the oldest past updates that lie at or before `past_end`,
    /// with all offsets of `0` among them, and records an update at `now`. Returns the new past
    /// length.
    pub fn update_and_get_past_len(&mut self, now: u64, past_end: u64) -> (past_len: u64)
        requires
            old(self).wf(),
            now >= old(self)@.last_update,
            old(self)@.past_count < u64::MAX,
        ensures
            final(self).wf(),
            final(self).state() == old(self).state(),
            ({
                let offs = old(self)@.offsets.take(old(self)@.past_count as int);
                let m = past_drain_count(old(self)@.out_of_or_past_end_log as int, offs, past_end);
                &&& final(self)@.offsets == offs.skip(m as int).push((now - old(self)@.last_update) as u64)
                &&& final(self)@.past_count == final(self)@.offsets.len()
                &&& final(self)@.last_update == now
                &&& final(self)@.out_of_or_past_end_log == old(self)@.out_of_or_past_end_log + sum(offs.take(m as int))
                &&& past_len == final(self)@.past_len()
            }),
    {
        self.drop_future();
        let ghost old_out = self.out_of_or_past_end_log;
        let ghost past = self.offsets@;
        proof {
            lemma_past_drain_count_bound(old_out as int, past, past_end);
            assert(past.take(past.len() as int) =~= past);
        }
        let mut pos: usize = 0;
        let ghost mut m: nat = 0;
        let total = self.offset_bytes.len();
        proof {
            lemma_sum_split(past, 0);
            assert(past.take(0) =~= Seq::<u64>::empty());
            assert(past.skip(0) =~= past);
            assert(encode_all(past.take(0)) =~= Seq::<u8>::empty());
        }
        loop
            invariant
                self.offset_bytes@ == encode_all(past),
                self.index == encode_all(past).len(),
                old_out + sum(past) <= self.last_update,
                self.last_update + sum(past.skip(past.len() as int)) <= u64::MAX,
                self.offsets@ == past,
                self.past_count@ == past.len(),
                total == self.offset_bytes@.len(),
                m <= past.len(),
                pos == encode_all(past.take(m as int)).len(),
                self.out_of_or_past_end_log == old_out + sum(past.take(m as int)),
                self.past_len == old(self).past_len - m,
                past_drain_count(old_out as int, past, past_end) == m + past_drain_count(
                    self.out_of_or_past_end_log as int,
                    past.skip(m as int),
                    past_end,
                ),
                old(self).past_len == past.len(),
                self.last_update == old(self).last_update,
                old(self)@.offsets.take(old(self)@.past_count as int) == past,
                old(self)@.out_of_or_past_end_log == old_out,
                self.update_state == old(self).update_state,
            ensures
                past_drain_count(self.out_of_or_past_end_log as int, past.skip(m as int), past_end) == 0,
            decreases past.len() - m,
        {
            if pos >= total {
                proof {
                    lemma_encode_all_split(past, m as int);
                    if m < past.len() {
                        lemma_encode_all_first(past.skip(m as int));
                        lemma_encode_len(past[m as int]);
                    }
                    assert(past.skip(m as int).len() == 0);
                }
                break;
            }
            proof {
                lemma_encode_all_split(past, m as int);
                if m == past.len() {
                    assert(past.skip(m as int) =~= Seq::<u64>::empty());
                    assert(encode_all(Seq::<u64>::empty()) =~= Seq::<u8>::empty());
                    assert(past.take(m as int) =~= past);
                }
                assert(m < past.len());
                lemma_encode_all_first(past.skip(m as int));
                lemma_encode_len(past[m as int]);
                assert(self.offset_bytes@.subrange(pos as int, pos + encoded_len(past[m as int]))
                    =~= encode(past[m as int]));
                lemma_sum_split(past, m as int);
                lemma_sum_split(past.skip(m as int), 1);
                assert(past.skip(m as int).take(1) =~= seq![past[m as int]]);
                assert(sum(seq![past[m as int]]) == past[m as int]) by {
                    reveal_with_fuel(sum, 2);
                    assert(seq![past[m as int]].drop_last() =~= Seq::<u64>::empty());
                }
            }
            let (offset, len) = decode_forward(&self.offset_bytes, pos, Ghost(past[m as int]));
            if offset != 0 && (self.out_of_or_past_end_log > past_end || offset > past_end - self.out_of_or_past_end_log) {
                break;
            }
            let next_oldest = self.out_of_or_past_end_log + offset;
            proof {
                assert(past.take(m as int + 1) =~= past.take(m as int).push(past[m as int]));
                assert(past.take(m as int + 1).drop_last() =~= past.take(m as int));
                lemma_encode_all_push(past.take(m as int), past[m as int]);
                assert(past.skip(m as int).drop_first() =~= past.skip(m as int + 1));
            }
            pos = pos + len;
            self.out_of_or_past_end_log = next_oldest;
            self.past_len = self.past_len - 1;
            proof {
                m = m + 1;
            }
        }
        proof {
            lemma_sum_split(past, m as int);
            lemma_encode_all_split(past, m as int);
            lemma_sum_split(past.skip(m as int), 0);
        }
        self.index = self.index - pos;
        let _drained = deque::drain_front(&mut self.offset_bytes, pos);
        let ghost mid = past.skip(m as int);
        let offset = now - self.last_update;
        proof {
            lemma_sum_split(mid, mid.len() as int);
            assert(mid.take(mid.len() as int) =~= mid);
            lemma_encode_all_push(mid, offset);
            lemma_sum_append(mid, seq![offset]);
            assert(sum(seq![offset]) == offset) by {
                reveal_with_fuel(sum, 2);
                assert(seq![offset].drop_last() =~= Seq::<u64>::empty());
            }
        }
        push_encoded(&mut self.offset_bytes, offset);
        self.last_update = now;
        self.past_len = self.past_len + 1;
        self.index = self.offset_bytes.len();
        self.offsets = Ghost(mid.push(offset));
        self.past_count = Ghost(mid.len() + 1);
        proof {
            assert(self.offsets@.take(self.past_count@ as int) =~= self.offsets@);
            assert(self.offsets@.skip(self.past_count@ as int) =~= Seq::<u64>::empty());
            assert(mid + seq![offset] =~= mid.push(offset));
            assert(sum(Seq::<u64>::empty()) == 0);
            assert(self.offset_bytes@ == encode_all(self.offsets@));
            assert(self.index == encode_all(self.offsets@.take(self.past_count@ as int)).len());
            assert(self.past_len == self.past_count@);
            assert(self.out_of_or_past_end_log + sum(self.offsets@.take(self.past_count@ as int)) <= self.last_update);
            assert(self.last_update + sum(self.offsets@.skip(self.past_count@ as int)) <= u64::MAX);
        }
        self.past_len
    }

    /// Like `update_and_get_past_len` for `updates` updates at `now` in a row: the first one
    /// drops what lies at or before `past_end`, the others add offsets of `0`. Returns the new
    /// past length, or `None` for no update.
    pub fn update_many_get(&mut self, now: u64, past_end: u64, updates: u64) -> (past_len: Option<u64>)
        requires
            old(self).wf(),
            now >= old(self)@.last_update,
            old(self)@.past_count + updates <= u64::MAX,
        ensures
            final(self).wf(),
            final(self).state() == old(self).state(),
            updates == 0 ==> past_len is None && final(self)@ == old(self)@,
            updates > 0 ==> ({
                let offs = old(self)@.offsets.take(old(self)@.past_count as int);
                let m = past_drain_count(old(self)@.out_of_or_past_end_log as int, offs, past_end);
                &&& final(self)@.offsets == offs.skip(m as int).push((now - old(self)@.last_update) as u64)
                    + zero_offsets((updates - 1) as nat)
                &&& final(self)@.past_count == final(self)@.offsets.len()
                &&& final(self)@.last_update == now
                &&& final(self)@.out_of_or_past_end_log == old(self)@.out_of_or_past_end_log + sum(offs.take(m as int))
                &&& past_len is Some && past_len->Some_0 == final(self)@.past_len()
            }),
    {
        if updates == 0 {
            return None;
        }
        proof {
            lemma_past_drain_count_bound(
                self@.out_of_or_past_end_log as int,
                self@.offsets.take(self@.past_count as int),
                past_end,
            );
        }
        self.update_and_get_past_len(now, past_end);
        let ghost base = self.offsets@;
        let ghost out = self.out_of_or_past_end_log;
        let mut pushed: u64 = 1;
        proof {
            assert(base + zero_offsets(0) =~= base);
        }
        while pushed < updates
            invariant
                self.wf(),
                self.state() == old(self).state(),
                1 <= pushed <= updates,
                self.offsets@ == base + zero_offsets((pushed - 1) as nat),
                self.past_count@ == self.offsets@.len(),
                self.last_update == now,
                base.len() <= old(self)@.past_count + 1,
                old(self)@.past_count + updates <= u64::MAX,
                self.out_of_or_past_end_log == out,
            decreases updates - pushed,
        {
            let ghost offs = self.offsets@;
            proof {
                assert(offs.take(offs.len() as int) =~= offs);
                assert(offs.skip(offs.len() as int) =~= Seq::<u64>::empty());
                lemma_encode_all_push(offs, 0);
                lemma_sum_append(offs, seq![0u64]);
                assert(sum(seq![0u64]) == 0) by {
                    reveal_with_fuel(sum, 2);
                    assert(seq![0u64].drop_last() =~= Seq::<u64>::empty());
                }
                assert(offs + seq![0u64] =~= offs.push(0));
            }
            push_encoded(&mut self.offset_bytes, 0);
            self.index = self.offset_bytes.len();
            self.past_len = self.past_len + 1;
            self.offsets = Ghost(offs.push(0));
            self.past_count = Ghost(offs.len() + 1);
            pushed = pushed + 1;
            proof {
                assert(self.offsets@ =~= base + zero_offsets((pushed - 1) as nat));
                assert(self.offsets@.take(self.past_count@ as int) =~= self.offsets@);
                assert(self.offsets@.skip(self.past_count@ as int) =~= Seq::<u64>::empty());
                assert(sum(Seq::<u64>::empty()) == 0);
            }
        }
        Some(self.past_len)
    }

    /// The frames the log was updated at, oldest first, one entry per update, past and future.
    pub fn updated_at(&self) -> (frames: Vec<u64>)
        requires
            self.wf(),
        ensures
            frames@ == self@.update_frames(),
    {
        let ghost offs = self.offsets@;
        let total = self.offset_bytes.len();
        let mut frames: Vec<u64> = Vec::new();
        let mut pos: usize = 0;
        let mut frame = self.out_of_or_past_end_log;
        let ghost mut j: nat = 0;
        proof {
            lemma_sum_split(offs, self.past_count@ as int);
            assert(offs.take(0) =~= Seq::<u64>::empty());
            assert(encode_all(Seq::<u64>::empty()) =~= Seq::<u8>::empty());
        }
        while pos < total
            invariant
                self.wf(),
                offs == self.offsets@,
                total == self.offset_bytes@.len(),
                j <= offs.len(),
                pos == encode_all(offs.take(j as int)).len(),
                frame == self.out_of_or_past_end_log + sum(offs.take(j as int)),
                self.out_of_or_past_end_log + sum(offs) <= u64::MAX,
                frames@ == self@.update_frames().take(j as int),
            decreases total - pos,
        {
            proof {
                lemma_encode_all_split(offs, j as int);
                if j == offs.len() {
                    assert(offs.skip(j as int) =~= Seq::<u64>::empty());
                    assert(encode_all(Seq::<u64>::empty()) =~= Seq::<u8>::empty());
                    assert(offs.take(j as int) =~= offs);
                }
                assert(j < offs.len());
                lemma_encode_all_first(offs.skip(j as int));
                lemma_encode_len(offs[j as int]);
                assert(self.offset_bytes@.subrange(pos as int, pos + encoded_len(offs[j as int]))
                    =~= encode(offs[j as int]));
                assert(offs.take(j as int + 1) =~= offs.take(j as int).push(offs[j as int]));
                lemma_sum_append(offs.take(j as int), seq![offs[j as int]]);
                assert(offs.take(j as int) + seq![offs[j as int]] =~= offs.take(j as int + 1));
                assert(sum(seq![offs[j as int]]) == offs[j as int]) by {
                    reveal_with_fuel(sum, 2);
                    assert(seq![offs[j as int]].drop_last() =~= Seq::<u64>::empty());
                }
                lemma_sum_split(offs, j as int + 1);
                lemma_encode_all_push(offs.take(j as int), offs[j as int]);
            }
            let (offset, len) = decode_forward(&self.offset_bytes, pos, Ghost(offs[j as int]));
            frame = frame + offset;
            frames.push(frame);
            pos = pos + len;
            proof {
                j = j + 1;
                assert(frames@ =~= self@.update_frames().take(j as int));
            }
        }
        proof {
            lemma_encode_all_split(offs, j as int);
            if j < offs.len() {
                lemma_encode_all_first(offs.skip(j as int));
                lemma_encode_len(offs[j as int]);
            }
            assert(self@.update_frames().take(j as int) =~= self@.update_frames());
        }
        frames
    }

    /// Counts one more change of the log at the present frame, for which `pre_update` ran with
    /// `updates` checks of the limits; returns the log's id and how many changes it made at this
    /// frame before.
    pub fn count_update(&mut self, updates: u64) -> (slot: (u32, u32))
        requires
            old(self).state() is Some,
            old(self).state()->Some_0.limits_updates == updates,
            old(self).state()->Some_0.updates_this_frame < u32::MAX,
        ensures
            final(self)@ == old(self)@,
            final(self).wf() == old(self).wf(),
            slot == (old(self).state()->Some_0.id, old(self).state()->Some_0.updates_this_frame),
            final(self).state() == Some(PastLenState {
                updates_this_frame: (old(self).state()->Some_0.updates_this_frame + 1) as u32,
                ..old(self).state()->Some_0
            }),
    {
        limits::count_update(&mut self.update_state, updates)
    }

    /// Brings the log's state up to date with the world's counters before the log's first
    /// change at a frame, and does what that asks: drop everything, drop the future, or
    /// nothing. `next_id` is the id the log takes when it registers anew; returns whether it
    /// took it.
    pub fn pre_update(&mut self, next_id: u32, updates: u64, meta_log_exits: u64, meta_log_clears: u64) -> (took_id: bool)
        requires
            old(self).wf(),
            limits::takes_id(old(self).state(), meta_log_clears) ==> next_id < u32::MAX,
        ensures
            final(self).wf(),
            ({
                let next = limits::next_past_len_state(old(self).state(), next_id, updates, meta_log_exits, meta_log_clears);
                &&& final(self).state() == next.0
                &&& took_id == next.2
                &&& next.1 == PreUpdateVariant::RemoveLog ==> final(self)@ == (PastLenView {
                    offsets: Seq::empty(),
                    past_count: 0,
                    last_update: 0,
                    out_of_or_past_end_log: 0,
                })
                &&& next.1 == PreUpdateVariant::RemoveFuture ==> final(self)@ == (PastLenView {
                    offsets: old(self)@.offsets.take(old(self)@.past_count as int),
                    ..old(self)@
                })
                &&& next.1 == PreUpdateVariant::Nothing ==> final(self)@ == old(self)@
            }),
    {
        let (variant, took_id) = update_past_len_state(&mut self.update_state, next_id, updates, meta_log_exits, meta_log_clears);
        match variant {
            PreUpdateVariant::RemoveLog => {
                self.offset_bytes.clear();
                self.out_of_or_past_end_log = 0;
                self.last_update = 0;
                self.index = 0;
                self.past_len = 0;
                self.offsets = Ghost(Seq::empty());
                self.past_count = Ghost(0);
                proof {
                    assert(self.offset_bytes@ =~= encode_all(Seq::<u64>::empty()));
                    assert(self.offsets@.take(0) =~= Seq::<u64>::empty());
                    assert(self.offsets@.skip(0) =~= Seq::<u64>::empty());
                }
            },
            PreUpdateVariant::RemoveFuture => {
                self.drop_future();
            },
            PreUpdateVariant::Nothing => {},
        }
        took_id
    }

    /// Goes back one update when the log's newest past update is at the frame after `now`, and
    /// returns the earliest frame the present frame may reach before the log expects to go
    /// back again: the frame of the update it goes back to.
    pub fn backward_log(&mut self, now: u64) -> (limit: Option<u64>)
        requires
            old(self).wf(),
            now < u64::MAX,
        ensures
            final(self).wf(),
            final(self).state() == old(self).state(),
            ({
                let v = old(self)@;
                if v.past_count > 0 && v.last_update == now + 1 {
                    &&& final(self)@ == v.step_back()
                    &&& limit == Some(v.step_back().last_update)
                } else {
                    &&& final(self)@ == v
                    &&& limit is None
                }
            }),
    {
        if self.last_update != now + 1 || self.index == 0 {
            proof {
                if self.past_count@ > 0 && self.index == 0 {
                    let k = self.past_count@ as int;
                    lemma_encode_all_last(self.offsets@.take(k));
                    lemma_encode_len(self.offsets@.take(k).last());
                }
            }
            return None;
        }
        let ghost offs = self.offsets@;
        let ghost k = self.past_count@ as int;
        proof {
            if k == 0 {
                assert(offs.take(0) =~= Seq::<u64>::empty());
                assert(encode_all(Seq::<u64>::empty()) =~= Seq::<u8>::empty());
            }
            assert(k > 0);
            lemma_encode_all_split(offs, k);
            lemma_encode_all_last(offs.take(k));
            assert(offs.take(k).drop_last() =~= offs.take(k - 1));
            lemma_encode_len(offs[k - 1]);
            assert(self.offset_bytes@.subrange(self.index - encoded_len(offs[k - 1]), self.index as int)
                =~= encode(offs[k - 1]));
            lemma_sum_split(offs.take(k), k - 1);
            assert(offs.take(k).take(k - 1) =~= offs.take(k - 1));
            assert(offs.take(k).skip(k - 1) =~= seq![offs[k - 1]]);
            assert(sum(seq![offs[k - 1]]) == offs[k - 1]) by {
                reveal_with_fuel(sum, 2);
                assert(seq![offs[k - 1]].drop_last() =~= Seq::<u64>::empty());
            }
            lemma_sum_split(offs.skip(k - 1), 1);
            assert(offs.skip(k - 1).take(1) =~= seq![offs[k - 1]]);
            assert(offs.skip(k - 1).skip(1) =~= offs.skip(k));
        }
        let (offset, len) = decode_backward(&self.offset_bytes, self.index, Ghost(offs[k - 1]));
        self.last_update = self.last_update - offset;
        self.index = self.index - len;
        self.past_len = self.past_len - 1;
        self.past_count = Ghost((k - 1) as nat);
        Some(self.last_update)
    }

    /// Goes back over all updates at the frame after `now`, and returns how many there were,
    /// with the earliest frame the present frame may reach before the log expects to go back
    /// again when there was one.
    pub fn backward_log_many(&mut self, now: u64) -> (r: (u64, Option<u64>))
        requires
            old(self).wf(),
            now < u64::MAX,
        ensures
            final(self).wf(),
            final(self).state() == old(self).state(),
            ({
                let n = old(self)@.updates_back_at(now + 1);
                &&& r.0 == n
                &&& final(self)@ == old(self)@.step_back_n(n)
                &&& r.1 == (if n == 0 { None } else { Some(final(self)@.last_update) })
            }),
    {
        let ghost target = now + 1;
        let ghost total = self@.updates_back_at(target);
        let mut count: u64 = 0;
        let mut limit: Option<u64> = None;
        proof {
            lemma_updates_back_at_bound(self@, target);
        }
        loop
            invariant
                self.wf(),
                self.state() == old(self).state(),
                now < u64::MAX,
                target == now + 1,
                total == old(self)@.updates_back_at(target),
                total <= old(self)@.past_count,
                old(self)@.past_count == old(self).past_len,
                count + self@.updates_back_at(target) == total,
                self@.step_back_n(self@.updates_back_at(target)) == old(self)@.step_back_n(total),
                limit == (if count == 0 { None } else { Some(self@.last_update) }),
            ensures
                self.wf(),
                self.state() == old(self).state(),
                count == total,
                self@ == old(self)@.step_back_n(total),
                limit == (if count == 0 { None } else { Some(self@.last_update) }),
            decreases self@.past_count,
        {
            let ghost before = self@;
            match self.backward_log(now) {
                Some(l) => {
                    proof {
                        assert(before.updates_back_at(target) == 1 + before.step_back().updates_back_at(target));
                        assert(before.step_back_n(before.updates_back_at(target))
                            == before.step_back().step_back_n(before.step_back().updates_back_at(target)));
                    }
                    count = count + 1;
                    limit = Some(l);
                },
                None => {
                    proof {
                        assert(self@.updates_back_at(target) == 0);
                        assert(self@.step_back_n(0) == self@);
                    }
                    break;
                },
            }
        }
        (count, limit)
    }

    /// Goes forward one update when the log's next update is at `now`, and returns the latest
    /// frame the present frame may reach before the log expects to go forward again.
    pub fn forward_log(&mut self, now: u64) -> (limit: Option<u64>)
        requires
            old(self).wf(),
            now > 0,
        ensures
            final(self).wf(),
            final(self).state() == old(self).state(),
            ({
                let v = old(self)@;
                if v.past_count < v.offsets.len() && v.last_update + v.offsets[v.past_count as int] == now {
                    &&& final(self)@ == v.step_forward()
                    &&& limit == Some(v.step_forward().forward_limit(now))
                } else {
                    &&& final(self)@ == v
                    &&& limit is None
                }
            }),
    {
        let ghost offs = self.offsets@;
        let ghost k = self.past_count@ as int;
        let total = self.offset_bytes.len();
        proof {
            lemma_encode_all_split(offs, k);
            lemma_encode_all_len(offs);
        }
        if self.index >= total {
            proof {
                if k < offs.len() {
                    lemma_encode_all_first(offs.skip(k));
                    lemma_encode_len(offs[k]);
                }
            }
            return None;
        }
        proof {
            if k == offs.len() {
                assert(offs.skip(k) =~= Seq::<u64>::empty());
                assert(encode_all(Seq::<u64>::empty()) =~= Seq::<u8>::empty());
            }
            assert(k < offs.len());
            lemma_encode_all_first(offs.skip(k));
            lemma_encode_len(offs[k]);
            assert(self.offset_bytes@.subrange(self.index as int, self.index + encoded_len(offs[k]))
                =~= encode(offs[k]));
            lemma_sum_split(offs.skip(k), 1);
            assert(offs.skip(k).take(1) =~= seq![offs[k]]);
            assert(offs.skip(k).skip(1) =~= offs.skip(k + 1));
            assert(sum(seq![offs[k]]) == offs[k]) by {
                reveal_with_fuel(sum, 2);
                assert(seq![offs[k]].drop_last() =~= Seq::<u64>::empty());
            }
        }
        let (offset, len) = decode_forward(&self.offset_bytes, self.index, Ghost(offs[k]));
        if self.last_update + offset != now {
            return None;
        }
        proof {
            assert(offs.take(k + 1) =~= offs.take(k).push(offs[k]));
            lemma_encode_all_push(offs.take(k), offs[k]);
            lemma_sum_append(offs.take(k), seq![offs[k]]);
            assert(offs.take(k) + seq![offs[k]] =~= offs.take(k + 1));
            lemma_encode_all_split(offs, k + 1);
            lemma_sum_nonneg(offs.skip(k + 1));
        }
        self.last_update = now;
        self.index = self.index + len;
        self.past_len = self.past_len + 1;
        self.past_count = Ghost((k + 1) as nat);
        if self.index >= total {
            proof {
                if k + 1 < offs.len() {
                    lemma_encode_all_first(offs.skip(k + 1));
                    lemma_encode_len(offs[k + 1]);
                }
            }
            return Some(u64::MAX);
        }
        proof {
            if k + 1 == offs.len() {
                assert(offs.skip(k + 1) =~= Seq::<u64>::empty());
                assert(encode_all(Seq::<u64>::empty()) =~= Seq::<u8>::empty());
            }
            assert(k + 1 < offs.len());
            lemma_encode_all_first(offs.skip(k + 1));
            lemma_encode_len(offs[k + 1]);
            assert(self.offset_bytes@.subrange(self.index as int, self.index + encoded_len(offs[k + 1]))
                =~= encode(offs[k + 1]));
            lemma_sum_split(offs.skip(k + 1), 1);
            assert(offs.skip(k + 1).take(1) =~= seq![offs[k + 1]]);
            assert(sum(seq![offs[k + 1]]) == offs[k + 1]) by {
                reveal_with_fuel(sum, 2);
                assert(seq![offs[k + 1]].drop_last() =~= Seq::<u64>::empty());
            }
        }
        let (next, _next_len) = decode_forward(&self.offset_bytes, self.index, Ghost(offs[k + 1]));
        Some(now - 1 + next)
    }

    /// Goes forward over all updates at `now`, and returns how many there were, with the
    /// latest frame the present frame may reach before the log expects to go forward again when
    /// there was one.
    pub fn forward_log_many(&mut self, now: u64) -> (r: (u64, Option<u64>))
        requires
            old(self).wf(),
            now > 0,
        ensures
            final(self).wf(),
            final(self).state() == old(self).state(),
            ({
                let n = old(self)@.updates_forward_at(now as int);
                &&& r.0 == n
                &&& final(self)@ == old(self)@.step_forward_n(n)
                &&& r.1 == (if n == 0 { None } else { Some(final(self)@.forward_limit(now)) })
            }),
    {
        let ghost total = self@.updates_forward_at(now as int);
        let mut count: u64 = 0;
        let mut limit: Option<u64> = None;
        let bytes = self.offset_bytes.len();
        proof {
            lemma_updates_forward_at_bound(self@, now as int);
            lemma_encode_all_len(self.offsets@);
        }
        loop
            invariant
                self.wf(),
                self.state() == old(self).state(),
                now > 0,
                total == old(self)@.updates_forward_at(now as int),
                old(self)@.past_count + total <= old(self)@.offsets.len(),
                old(self)@.offsets.len() <= bytes,
                self@.offsets == old(self)@.offsets,
                self@.past_count == old(self)@.past_count + count,
                count + self@.updates_forward_at(now as int) == total,
                self@.step_forward_n(self@.updates_forward_at(now as int)) == old(self)@.step_forward_n(total),
                limit == (if count == 0 { None } else { Some(self@.forward_limit(now)) }),
            ensures
                self.wf(),
                self.state() == old(self).state(),
                count == total,
                self@ == old(self)@.step_forward_n(total),
                limit == (if count == 0 { None } else { Some(self@.forward_limit(now)) }),
            decreases self@.offsets.len() - self@.past_count,
        {
            let ghost before = self@;
            match self.forward_log(now) {
                Some(l) => {
                    proof {
                        assert(before.updates_forward_at(now as int) == 1 + before.step_forward().updates_forward_at(now as int));
                        assert(before.step_forward_n(before.updates_forward_at(now as int))
                            == before.step_forward().step_forward_n(before.step_forward().updates_forward_at(now as int)));
                    }
                    count = count + 1;
                    limit = Some(l);
                },
                None => {
                    proof {
                        assert(self@.updates_forward_at(now as int) == 0);
                        assert(self@.step_forward_n(0) == self@);
                    }
                    break;
                },
            }
        }
        (count, limit)
    }
}

} // verus!
