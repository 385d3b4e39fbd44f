//! A log of the frames at which a system ran, stored as byte coded offsets between them.
use std::collections::{TryReserveError, VecDeque};
use std::ops::ControlFlow;
use vstd::prelude::*;

use super::deque;
use super::offset_code::{
    decode_backward, decode_forward, encode, encode_all, encoded_len, flatten, lemma_encode_all_first,
    lemma_encode_index, lemma_flatten_append, token_bytes, token_wf, OffsetToken,
    lemma_encode_all_last, lemma_encode_all_push, lemma_encode_all_split, lemma_encode_len,
    lemma_sum_append, lemma_sum_nonneg, lemma_sum_split, push_encoded, sum, lemma_flatten_unique, tokens_wf,
};

verus! {

/// Returned when a log finds that the frame it expected to run at was skipped.
#[derive(Clone, Copy, Debug, PartialEq, Eq, Structural, PartialOrd, Ord, Hash)]
pub struct MissedFrame(pub u64);

/// What a frame transition log holds.
pub ghost struct FrameTransitionView {
    /// The offsets between the frames the log ran at, oldest first.
    pub offsets: Seq<u64>,
    /// How many of the offsets lie in the past; the rest lie in the future.
    pub past_count: nat,
    /// The frame of the newest past run.
    pub last_run: u64,
    /// A frame at or before the oldest logged run, from which the first offset counts.
    pub out_of_or_past_end_log: u64,
    /// The past length that the log reports.
    pub past_len: nat,
}

impl FrameTransitionView {
    /// The log after going back one run: the newest past offset leads back to the run before.
    pub open spec fn step_back(self) -> Self
        recommends
            self.past_count > 0,
    {
        FrameTransitionView {
            past_count: (self.past_count - 1) as nat,
            last_run: (self.last_run - self.offsets[self.past_count - 1]) as u64,
            past_len: (self.past_len - 1) as nat,
            ..self
        }
    }

    /// The frame of the nearest future run.
    pub open spec fn next_run(self) -> int
        recommends
            self.past_count < self.offsets.len(),
    {
        self.last_run + self.offsets[self.past_count as int]
    }

    /// The log after going forward one run.
    pub open spec fn step_forward(self) -> Self
        recommends
            self.past_count < self.offsets.len(),
    {
        FrameTransitionView {
            past_count: self.past_count + 1,
            last_run: self.next_run() as u64,
            past_len: self.past_len + 1,
            ..self
        }
    }
}

/// Going back one run and then forward to the frame it left gives the log back, and going
/// forward one run and then back gives it back too.
pub proof fn lemma_frame_step_back_then_forward(v: FrameTransitionView)
    requires
        v.past_count > 0,
        v.past_count <= v.offsets.len(),
        v.last_run >= v.offsets[v.past_count - 1],
        v.past_len > 0,
    ensures
        v.step_back().past_count < v.step_back().offsets.len(),
        v.step_back().next_run() == v.last_run,
        v.step_back().step_forward() == v,
{
}

/// For a well formed log, going back one run and then forward to the frame the run was at
/// gives the log back; the step forward is within the log's past length bound.
pub proof fn lemma_frame_log_back_then_forward(log: &FrameTransitionLog)
    requires
        log.wf(),
        log@.past_count > 0,
    ensures
        log@.step_back().past_count < log@.step_back().offsets.len(),
        log@.step_back().next_run() == log@.last_run,
        log@.step_back().past_len < usize::MAX,
        log@.step_back().step_forward() == log@,
{
    log.lemma_wf();
    lemma_frame_step_back_then_forward(log@);
}

/// After a run is recorded, going back one run leads to the frame of the run before it.
pub proof fn lemma_frame_run_then_step_back(v: FrameTransitionView, previous_run: u64)
    requires
        v.past_count == v.offsets.len(),
        v.past_count > 0,
        previous_run <= v.last_run,
        v.offsets.last() == v.last_run - previous_run,
    ensures
        v.step_back().last_run == previous_run,
        v.step_back().past_count == v.offsets.len() - 1,
{
}

/// Going forward one run and then back gives the log back.
pub proof fn lemma_frame_step_forward_then_back(v: FrameTransitionView)
    requires
        v.past_count < v.offsets.len(),
        v.next_run() <= u64::MAX,
    ensures
        v.step_forward().past_count > 0,
        v.step_forward().step_back() == v,
{
}

/// How many of the oldest `offsets`, counted from frame `start`, lie at or before `past_end`.
pub open spec fn drain_count(start: int, offsets: Seq<u64>, past_end: u64) -> nat
    decreases offsets.len(),
{
    if offsets.len() == 0 || start + offsets[0] > past_end {
        0
    } else {
        1 + drain_count(start + offsets[0], offsets.drop_first(), past_end)
    }
}

pub proof fn lemma_drain_count_bound(start: int, offsets: Seq<u64>, past_end: u64)
    ensures
        drain_count(start, offsets, past_end) <= offsets.len(),
    decreases offsets.len(),
{
    if offsets.len() > 0 && start + offsets[0] <= past_end {
        lemma_drain_count_bound(start + offsets[0], offsets.drop_first(), past_end);
    }
}

/// A log of the frames at which something ran, for systems that do not run at every frame.
///
/// Pushing at a frame records the offset to the previous run; traversing the log tells at which
/// frames the log ran.
#[derive(Clone)]
pub struct FrameTransitionLog {
    offset_bytes: VecDeque<u8>,
    out_of_or_past_end_log: u64,
    last_run: u64,
    index: usize,
    past_len: usize,
    offsets: Ghost<Seq<u64>>,
    past_count: Ghost<nat>,
}

impl FrameTransitionLog {
    /// The fields agree with the offsets that the bytes hold.
    pub closed spec fn wf(&self) -> bool {
        &&& self.offset_bytes@ == encode_all(self.offsets@)
        &&& self.past_count@ <= self.offsets@.len()
        &&& self.index == encode_all(self.offsets@.take(self.past_count@ as int)).len()
        &&& self.past_len >= self.past_count@
        &&& self.out_of_or_past_end_log + sum(self.offsets@.take(self.past_count@ as int)) <= self.last_run
        &&& self.last_run + sum(self.offsets@.skip(self.past_count@ as int)) <= u64::MAX
    }

    pub closed spec fn view(&self) -> FrameTransitionView {
        FrameTransitionView {
            offsets: self.offsets@,
            past_count: self.past_count@,
            last_run: self.last_run,
            out_of_or_past_end_log: self.out_of_or_past_end_log,
            past_len: self.past_len as nat,
        }
    }

    /// What a well formed log keeps: its newest past run lies at or after the frames its past
    /// offsets lead to, so a step back stays within `u64`, and its future runs lie within `u64`.
    pub proof fn lemma_wf(&self)
        requires
            self.wf(),
        ensures
            self@.past_count <= self@.offsets.len(),
            self@.past_count <= self@.past_len <= usize::MAX,
            self@.out_of_or_past_end_log + sum(self@.offsets.take(self@.past_count as int)) <= self@.last_run,
            self@.last_run + sum(self@.offsets.skip(self@.past_count as int)) <= u64::MAX,
            self@.past_count > 0 ==> self@.offsets[self@.past_count - 1] <= self@.last_run,
            self@.past_count < self@.offsets.len() ==> self@.next_run() <= u64::MAX,
    {
        let offs = self.offsets@;
        let k = self.past_count@ as int;
        if k > 0 {
            lemma_sum_split(offs.take(k), k - 1);
            assert(offs.take(k).skip(k - 1) =~= seq![offs[k - 1]]);
            assert(sum(seq![offs[k - 1]]) == offs[k - 1]) by {
                reveal_with_fuel(sum, 2);
                assert(seq![offs[k - 1]].drop_last() =~= Seq::<u64>::empty());
            }
        }
        if k < offs.len() {
            lemma_sum_split(offs.skip(k), 1);
            assert(offs.skip(k).take(1) =~= seq![offs[k]]);
            assert(sum(seq![offs[k]]) == offs[k]) by {
                reveal_with_fuel(sum, 2);
                assert(seq![offs[k]].drop_last() =~= Seq::<u64>::empty());
            }
        }
    }

    /// The number of stored bytes.
    pub closed spec fn spec_bytes_len(&self) -> nat {
        self.offset_bytes@.len()
    }

    pub fn new() -> (log: Self)
        ensures
            log.wf(),
            log@.offsets.len() == 0,
            log@.past_count == 0,
            log@.last_run == 0,
            log@.out_of_or_past_end_log == 0,
            log@.past_len == 0,
    {
        let log = FrameTransitionLog {
            offset_bytes: VecDeque::new(),
            out_of_or_past_end_log: 0,
            last_run: 0,
            index: 0,
            past_len: 0,
            offsets: Ghost(Seq::empty()),
            past_count: Ghost(0),
        };
        proof {
            assert(log.offset_bytes@ =~= encode_all(Seq::<u64>::empty()));
            assert(log.offsets@.take(0) =~= Seq::<u64>::empty());
            assert(log.offsets@.skip(0) =~= Seq::<u64>::empty());
        }
        log
    }

    pub fn with_capacity(bytes_capacity: usize) -> (log: Self)
        ensures
            log.wf(),
            log@.offsets.len() == 0,
            log@.past_count == 0,
            log@.last_run == 0,
            log@.out_of_or_past_end_log == 0,
            log@.past_len == 0,
    {
        let log = FrameTransitionLog {
            offset_bytes: VecDeque::with_capacity(bytes_capacity),
            out_of_or_past_end_log: 0,
            last_run: 0,
            index: 0,
            past_len: 0,
            offsets: Ghost(Seq::empty()),
            past_count: Ghost(0),
        };
        proof {
            assert(log.offset_bytes@ =~= encode_all(Seq::<u64>::empty()));
            assert(log.offsets@.take(0) =~= Seq::<u64>::empty());
            assert(log.offsets@.skip(0) =~= Seq::<u64>::empty());
        }
        log
    }

    pub fn bytes_len(&self) -> (len: usize)
        requires
            self.wf(),
        ensures
            len == encode_all(self@.offsets).len(),
    {
        self.offset_bytes.len()
    }

    pub fn bytes_capacity(&self) -> (capacity: usize)
        requires
            self.wf(),
        ensures
            capacity >= encode_all(self@.offsets).len(),
    {
        deque::capacity(&self.offset_bytes)
    }

    pub fn bytes_is_empty(&self) -> (empty: bool)
        requires
            self.wf(),
        ensures
            empty == (encode_all(self@.offsets).len() == 0),
    {
        self.offset_bytes.len() == 0
    }

    pub fn bytes_reserve(&mut self, additional: usize)
        requires
            old(self).wf(),
        ensures
            final(self).wf(),
            final(self)@ == old(self)@,
    {
        self.offset_bytes.reserve(additional)
    }

    pub fn bytes_reserve_exact(&mut self, additional: usize)
        requires
            old(self).wf(),
            encode_all(old(self)@.offsets).len() + additional <= usize::MAX,
        ensures
            final(self).wf(),
            final(self)@ == old(self)@,
    {
        deque::reserve_exact(&mut self.offset_bytes, additional)
    }

    pub fn bytes_try_reserve(&mut self, additional: usize) -> (r: Result<(), TryReserveError>)
        requires
            old(self).wf(),
        ensures
            final(self).wf(),
            final(self)@ == old(self)@,
            encode_all(old(self)@.offsets).len() + additional > usize::MAX ==> r is Err,
    {
        deque::try_reserve(&mut self.offset_bytes, additional)
    }

    pub fn bytes_try_reserve_exact(&mut self, additional: usize) -> (r: Result<(), TryReserveError>)
        requires
            old(self).wf(),
        ensures
            final(self).wf(),
            final(self)@ == old(self)@,
            encode_all(old(self)@.offsets).len() + additional > usize::MAX ==> r is Err,
    {
        deque::try_reserve_exact(&mut self.offset_bytes, additional)
    }

    pub fn bytes_shrink_to(&mut self, min_capacity: usize)
        requires
            old(self).wf(),
        ensures
            final(self).wf(),
            final(self)@ == old(self)@,
    {
        deque::shrink_to(&mut self.offset_bytes, min_capacity)
    }

    pub fn bytes_shrink_to_fit(&mut self)
        requires
            old(self).wf(),
        ensures
            final(self).wf(),
            final(self)@ == old(self)@,
    {
        deque::shrink_to_fit(&mut self.offset_bytes)
    }

    /// Drops the offsets that lie in the future.
    pub fn truncate_future(&mut self)
        requires
            old(self).wf(),
        ensures
            final(self).wf(),
            final(self)@ == (FrameTransitionView {
                offsets: old(self)@.offsets.take(old(self)@.past_count as int),
                ..old(self)@
            }),
    {
        let ghost offs = self.offsets@;
        let ghost k = self.past_count@ as int;
        proof {
            lemma_encode_all_split(offs, k);
        }
        self.offset_bytes.truncate(self.index);
        self.offsets = Ghost(offs.take(k));
        proof {
            assert(self.offset_bytes@ =~= encode_all(self.offsets@));
            assert(self.offsets@.take(k) =~= offs.take(k));
            assert(self.offsets@.skip(k) =~= Seq::<u64>::empty());
            lemma_sum_split(offs, k);
        }
    }

    /// Drops all offsets; the other fields stay.
    pub fn clear(&mut self)
        requires
            old(self).wf(),
        ensures
            final(self).wf(),
            final(self)@ == (FrameTransitionView {
                offsets: Seq::empty(),
                past_count: 0,
                ..old(self)@
            }),
    {
        proof {
            lemma_sum_split(self.offsets@, self.past_count@ as int);
        }
        self.offset_bytes.clear();
        self.index = 0;
        self.offsets = Ghost(Seq::empty());
        self.past_count = Ghost(0);
        proof {
            assert(self.offset_bytes@ =~= encode_all(self.offsets@));
            assert(self.offsets@.take(0) =~= Seq::<u64>::empty());
            assert(self.offsets@.skip(0) =~= Seq::<u64>::empty());
        }
    }

    /// Runs the log at frame `now`: drops the future offsets and the oldest past runs at or
    /// before `past_end`, then records the offset from the previous run to `now` and returns the
    /// past length.
    pub fn push_and_get_past_len(&mut self, now: u64, past_end: u64) -> (past_len: usize)
        requires
            old(self).wf(),
            now >= old(self)@.last_run,
            old(self)@.past_len < usize::MAX,
        ensures
            final(self).wf(),
            ({
                let past = old(self)@.offsets.take(old(self)@.past_count as int);
                let m = drain_count(old(self)@.out_of_or_past_end_log as int, past, past_end);
                &&& final(self)@.offsets == past.skip(m as int).push((now - old(self)@.last_run) as u64)
                &&& final(self)@.past_count == final(self)@.offsets.len()
                &&& final(self)@.last_run == now
                &&& final(self)@.out_of_or_past_end_log == old(self)@.out_of_or_past_end_log + sum(past.take(m as int))
                &&& final(self)@.past_len == old(self)@.past_len - m + 1
                &&& past_len == final(self)@.past_len
            }),
    {
        let ghost old_out = self.out_of_or_past_end_log;
        let ghost past = self.offsets@.take(self.past_count@ as int);
        proof {
            lemma_drain_count_bound(old_out as int, past, past_end);
        }
        if self.offset_bytes.len() != 0 {
            self.truncate_future();
            let mut pos: usize = 0;
            let ghost mut m: nat = 0;
            let total = self.offset_bytes.len();
            proof {
                assert(self.offsets@ == past);
                assert(past.take(past.len() as int) =~= past);
                lemma_sum_split(past, 0);
                assert(past.take(0) =~= Seq::<u64>::empty());
                assert(past.skip(0) =~= past);
                assert(encode_all(past.take(0)) =~= Seq::<u8>::empty());
            }
            loop
                invariant
                    self.offset_bytes@ == encode_all(past),
                    self.index == encode_all(past).len(),
                    old_out + sum(past) <= self.last_run,
                    self.offsets@ == past,
                    self.past_count@ == past.len(),
                    total == self.offset_bytes@.len(),
                    m <= past.len(),
                    pos == encode_all(past.take(m as int)).len(),
                    self.out_of_or_past_end_log == old_out + sum(past.take(m as int)),
                    self.past_len == old(self).past_len - m,
                    drain_count(old_out as int, past, past_end) == m + drain_count(
                        self.out_of_or_past_end_log as int,
                        past.skip(m as int),
                        past_end,
                    ),
                    old(self).past_len >= past.len(),
                    self.last_run == old(self).last_run,
                ensures
                    drain_count(self.out_of_or_past_end_log as int, past.skip(m as int), past_end) == 0,
                decreases past.len() - m,
            {
                if pos >= total {
                    proof {
                        lemma_encode_all_split(past, m as int);
                        if m < past.len() {
                            lemma_encode_all_first(past.skip(m as int));
                            lemma_encode_len(past[m as int]);
                        }
                        assert(past.skip(m as int).len() == 0);
                    }
                    break;
                }
                proof {
                    lemma_encode_all_split(past, m as int);
                    if m == past.len() {
                        assert(past.skip(m as int) =~= Seq::<u64>::empty());
                        assert(encode_all(Seq::<u64>::empty()) =~= Seq::<u8>::empty());
                        assert(past.take(m as int) =~= past);
                    }
                    assert(m < past.len());
                    lemma_encode_all_first(past.skip(m as int));
                    lemma_encode_len(past[m as int]);
                    assert(self.offset_bytes@.subrange(pos as int, pos + encoded_len(past[m as int]))
                        =~= encode(past[m as int]));
                    lemma_sum_split(past, m as int);
                    lemma_sum_split(past.skip(m as int), 1);
                    assert(past.skip(m as int).take(1) =~= seq![past[m as int]]);
                    assert(sum(seq![past[m as int]]) == past[m as int]) by {
                        reveal_with_fuel(sum, 2);
                        assert(seq![past[m as int]].drop_last() =~= Seq::<u64>::empty());
                    }
                }
                let (offset, len) = decode_forward(&self.offset_bytes, pos, Ghost(past[m as int]));
                if self.out_of_or_past_end_log > past_end || offset > past_end - self.out_of_or_past_end_log {
                    break;
                }
                let next_oldest = self.out_of_or_past_end_log + offset;
                proof {
                    assert(past.take(m as int + 1) =~= past.take(m as int).push(past[m as int]));
                    assert(past.take(m as int + 1).drop_last() =~= past.take(m as int));
                    lemma_encode_all_push(past.take(m as int), past[m as int]);
                    assert(past.skip(m as int).drop_first() =~= past.skip(m as int + 1));
                }
                pos = pos + len;
                self.out_of_or_past_end_log = next_oldest;
                self.past_len = self.past_len - 1;
                proof {
                    m = m + 1;
                }
            }
            proof {
                lemma_sum_split(past, m as int);
                lemma_encode_all_split(past, m as int);
                lemma_sum_split(past.skip(m as int), 0);
            }
            self.index = self.index - pos;
            let _drained = deque::drain_front(&mut self.offset_bytes, pos);
            self.offsets = Ghost(past.skip(m as int));
            self.past_count = Ghost((past.len() - m) as nat);
            proof {
                assert(self.offsets@.take(self.past_count@ as int) =~= self.offsets@);
                assert(self.offsets@.skip(self.past_count@ as int) =~= Seq::<u64>::empty());
                assert(drain_count(self.out_of_or_past_end_log as int, past.skip(m as int), past_end) == 0);
            }
        } else {
            proof {
                assert(self.offsets@ =~= Seq::<u64>::empty()) by {
                    if self.offsets@.len() > 0 {
                        lemma_encode_all_first(self.offsets@);
                        lemma_encode_len(self.offsets@[0]);
                    }
                }
                assert(past =~= Seq::<u64>::empty());
                assert(past.skip(0) =~= past);
                assert(past.take(0) =~= past);
            }
        }
        let ghost mid = self.offsets@;
        let offset = now - self.last_run;
        proof {
            lemma_sum_split(mid, mid.len() as int);
            assert(mid.take(mid.len() as int) =~= mid);
            lemma_encode_all_push(mid, offset);
            lemma_sum_append(mid, seq![offset]);
            assert(sum(seq![offset]) == offset) by {
                reveal_with_fuel(sum, 2);
                assert(seq![offset].drop_last() =~= Seq::<u64>::empty());
            }
        }
        push_encoded(&mut self.offset_bytes, offset);
        self.last_run = now;
        self.past_len = self.past_len + 1;
        self.index = self.offset_bytes.len();
        self.offsets = Ghost(mid.push(offset));
        self.past_count = Ghost(mid.len() + 1);
        proof {
            assert(self.offsets@.take(self.past_count@ as int) =~= self.offsets@);
            assert(self.offsets@.skip(self.past_count@ as int) =~= Seq::<u64>::empty());
            assert(mid + seq![offset] =~= mid.push(offset));
            assert(self.offset_bytes@ == encode_all(self.offsets@));
            assert(self.past_count@ <= self.offsets@.len());
            assert(self.index == encode_all(self.offsets@.take(self.past_count@ as int)).len());
            assert(self.past_len >= self.past_count@);
            assert(self.out_of_or_past_end_log + sum(self.offsets@.take(self.past_count@ as int)) <= self.last_run);
            assert(self.last_run + sum(self.offsets@.skip(self.past_count@ as int)) <= u64::MAX);
        }
        self.past_len
    }

    /// Goes back one run when the log's newest past run is the frame after `now`; reports a
    /// missed frame when that run lies further ahead.
    pub fn try_backward_log(&mut self, now: u64) -> (r: Result<bool, MissedFrame>)
        requires
            old(self).wf(),
            old(self)@.past_count > 0 ==> now < u64::MAX,
        ensures
            final(self).wf(),
            ({
                let v = old(self)@;
                if v.past_count == 0 || v.last_run < now + 1 {
                    r == Ok::<bool, MissedFrame>(false) && final(self)@ == v
                } else if v.last_run == now + 1 {
                    r == Ok::<bool, MissedFrame>(true) && final(self)@ == v.step_back()
                } else {
                    r == Err::<bool, MissedFrame>(MissedFrame(v.last_run)) && final(self)@ == v
                }
            }),
    {
        if self.index == 0 {
            proof {
                if self.past_count@ > 0 {
                    let k = self.past_count@ as int;
                    lemma_encode_all_last(self.offsets@.take(k));
                    lemma_encode_len(self.offsets@.take(k).last());
                }
            }
            return Ok(false);
        }
        let ghost offs = self.offsets@;
        let ghost k = self.past_count@ as int;
        proof {
            if k == 0 {
                assert(offs.take(0) =~= Seq::<u64>::empty());
                assert(encode_all(Seq::<u64>::empty()) =~= Seq::<u8>::empty());
            }
            assert(k > 0);
            lemma_encode_all_split(offs, k);
            lemma_encode_all_last(offs.take(k));
            assert(offs.take(k).drop_last() =~= offs.take(k - 1));
            lemma_encode_len(offs[k - 1]);
            assert(self.offset_bytes@.subrange(self.index - encoded_len(offs[k - 1]), self.index as int)
                =~= encode(offs[k - 1]));
        }
        let (offset, len) = decode_backward(&self.offset_bytes, self.index, Ghost(offs[k - 1]));
        if self.last_run < now + 1 {
            Ok(false)
        } else if self.last_run == now + 1 {
            proof {
                lemma_sum_split(offs.take(k), k - 1);
                assert(offs.take(k).take(k - 1) =~= offs.take(k - 1));
                assert(offs.take(k).skip(k - 1) =~= seq![offs[k - 1]]);
                assert(sum(seq![offs[k - 1]]) == offs[k - 1]) by {
                    reveal_with_fuel(sum, 2);
                    assert(seq![offs[k - 1]].drop_last() =~= Seq::<u64>::empty());
                }
                lemma_sum_split(offs.skip(k - 1), 1);
                assert(offs.skip(k - 1).take(1) =~= seq![offs[k - 1]]);
                assert(offs.skip(k - 1).skip(1) =~= offs.skip(k));
            }
            self.last_run = self.last_run - offset;
            self.index = self.index - len;
            self.past_len = self.past_len - 1;
            self.past_count = Ghost((k - 1) as nat);
            Ok(true)
        } else {
            Err(MissedFrame(self.last_run))
        }
    }

    /// Like `try_backward_log`, for callers that never miss a frame.
    pub fn backward_log(&mut self, now: u64) -> (went_back: bool)
        requires
            old(self).wf(),
            old(self)@.past_count > 0 ==> now < u64::MAX,
            old(self)@.past_count > 0 ==> old(self)@.last_run <= now + 1,
        ensures
            final(self).wf(),
            ({
                let v = old(self)@;
                if v.past_count == 0 || v.last_run < now + 1 {
                    !went_back && final(self)@ == v
                } else {
                    went_back && final(self)@ == v.step_back()
                }
            }),
    {
        match self.try_backward_log(now) {
            Ok(went_back) => went_back,
            Err(_) => {
                proof {
                    assert(false);
                }
                false
            },
        }
    }

    /// Goes forward one run when the log's nearest future run is at `now`; reports a missed
    /// frame when that run lies before `now`.
    pub fn try_forward_log(&mut self, now: u64) -> (r: Result<bool, MissedFrame>)
        requires
            old(self).wf(),
            old(self)@.past_len < usize::MAX,
        ensures
            final(self).wf(),
            ({
                let v = old(self)@;
                if v.past_count == v.offsets.len() {
                    r == Ok::<bool, MissedFrame>(false) && final(self)@ == v
                } else {
                    let frame = v.last_run + v.offsets[v.past_count as int];
                    if frame > now {
                        r == Ok::<bool, MissedFrame>(false) && final(self)@ == v
                    } else if frame == now {
                        r == Ok::<bool, MissedFrame>(true) && final(self)@ == v.step_forward()
                    } else {
                        r == Err::<bool, MissedFrame>(MissedFrame(frame as u64)) && final(self)@ == v
                    }
                }
            }),
    {
        let ghost offs = self.offsets@;
        let ghost k = self.past_count@ as int;
        proof {
            lemma_encode_all_split(offs, k);
        }
        if self.index >= self.offset_bytes.len() {
            proof {
                if k < offs.len() {
                    lemma_encode_all_first(offs.skip(k));
                    lemma_encode_len(offs[k]);
                }
            }
            return Ok(false);
        }
        proof {
            if k == offs.len() {
                assert(offs.skip(k) =~= Seq::<u64>::empty());
                assert(encode_all(Seq::<u64>::empty()) =~= Seq::<u8>::empty());
            }
            assert(k < offs.len());
            lemma_encode_all_first(offs.skip(k));
            lemma_encode_len(offs[k]);
            assert(self.offset_bytes@.subrange(self.index as int, self.index + encoded_len(offs[k]))
                =~= encode(offs[k]));
            lemma_sum_split(offs.skip(k), 1);
            assert(offs.skip(k).take(1) =~= seq![offs[k]]);
            assert(offs.skip(k).skip(1) =~= offs.skip(k + 1));
            assert(sum(seq![offs[k]]) == offs[k]) by {
                reveal_with_fuel(sum, 2);
                assert(seq![offs[k]].drop_last() =~= Seq::<u64>::empty());
            }
        }
        let (offset, len) = decode_forward(&self.offset_bytes, self.index, Ghost(offs[k]));
        let frame = self.last_run + offset;
        if frame > now {
            Ok(false)
        } else if frame == now {
            proof {
                assert(offs.take(k + 1) =~= offs.take(k).push(offs[k]));
                lemma_encode_all_push(offs.take(k), offs[k]);
                lemma_sum_append(offs.take(k), seq![offs[k]]);
                assert(offs.take(k) + seq![offs[k]] =~= offs.take(k + 1));
            }
            self.last_run = frame;
            self.index = self.index + len;
            self.past_len = self.past_len + 1;
            self.past_count = Ghost((k + 1) as nat);
            Ok(true)
        } else {
            Err(MissedFrame(frame))
        }
    }

    /// Like `try_forward_log`, for callers that never miss a frame.
    pub fn forward_log(&mut self, now: u64) -> (went_forward: bool)
        requires
            old(self).wf(),
            old(self)@.past_len < usize::MAX,
            old(self)@.past_count < old(self)@.offsets.len() ==> old(self)@.last_run + old(self)@.offsets[old(self)@.past_count as int] >= now,
        ensures
            final(self).wf(),
            ({
                let v = old(self)@;
                if v.past_count == v.offsets.len() || v.last_run + v.offsets[v.past_count as int] > now {
                    !went_forward && final(self)@ == v
                } else {
                    went_forward && final(self)@ == v.step_forward()
                }
            }),
    {
        match self.try_forward_log(now) {
            Ok(went_forward) => went_forward,
            Err(_) => {
                proof {
                    assert(false);
                }
                false
            },
        }
    }
}

/// One offset read from a byte code, with the number of bytes it took; each offset of a run of
/// zero offsets takes no byte but the last, which takes the run's one byte.
#[derive(Clone, Copy, Debug, PartialEq, Eq, Structural)]
pub struct IterItem {
    pub offset: u64,
    pub len: usize,
}

/// The number of further zero offsets that a zero run byte stands for after its first one.
pub open spec fn zero_run_rest(byte: u8) -> u8 {
    (256 - byte) as u8
}

/// Every token takes at least one byte.
proof fn lemma_token_bytes_nonempty(token: OffsetToken)
    ensures
        token_bytes(token).len() >= 1,
        token matches OffsetToken::Offset(o) ==> token_bytes(token).len() == encoded_len(o),
        token matches OffsetToken::Offset(o) ==> (o <= 63 <==> token_bytes(token).len() == 1),
{
    if let OffsetToken::Offset(o) = token {
        lemma_encode_len(o);
    }
}

/// Reads the offsets of a byte code from both ends.
pub struct OffsetIter<'a> {
    bytes: &'a VecDeque<u8>,
    front: usize,
    back: usize,
    zeroes: u8,
    tokens: Ghost<Seq<OffsetToken>>,
}

impl<'a> OffsetIter<'a> {
    /// The iterator's range holds the code of its tokens.
    pub closed spec fn wf(&self) -> bool {
        &&& self.front <= self.back <= self.bytes@.len()
        &&& self.bytes@.subrange(self.front as int, self.back as int) == flatten(self.tokens@)
        &&& forall|i: int| 0 <= i < self.tokens@.len() ==> token_wf(#[trigger] self.tokens@[i])
    }

    /// The tokens not yet read.
    pub closed spec fn tokens(&self) -> Seq<OffsetToken> {
        self.tokens@
    }

    /// The zero offsets still to report of a run already read.
    pub closed spec fn zeroes(&self) -> u8 {
        self.zeroes
    }

    /// Reads all of `bytes`, which holds the code of `tokens`.
    pub fn new(bytes: &'a VecDeque<u8>) -> (iter: Self)
        requires
            exists|tokens: Seq<OffsetToken>| #![auto]
                flatten(tokens) == bytes@ && forall|i: int| 0 <= i < tokens.len() ==> token_wf(tokens[i]),
        ensures
            iter.wf(),
            flatten(iter.tokens()) == bytes@,
            tokens_wf(iter.tokens()),
            forall|tokens: Seq<OffsetToken>| #[trigger] flatten(tokens) == bytes@ && tokens_wf(tokens) ==> tokens == iter.tokens(),
            iter.zeroes() == 0,
    {
        let ghost tokens = choose|tokens: Seq<OffsetToken>| #![auto]
            flatten(tokens) == bytes@ && forall|i: int| 0 <= i < tokens.len() ==> token_wf(tokens[i]);
        let iter = OffsetIter { bytes, front: 0, back: bytes.len(), zeroes: 0, tokens: Ghost(tokens) };
        proof {
            assert(bytes@.subrange(0, bytes@.len() as int) =~= bytes@);
            assert forall|other: Seq<OffsetToken>| #[trigger] flatten(other) == bytes@ && tokens_wf(other) implies other == iter.tokens() by {
                lemma_flatten_unique(other, tokens);
            }
        }
        iter
    }

    /// Reports the next zero offset of a run already read, if any.
    fn check_zeroes(&mut self) -> (r: ControlFlow<IterItem>)
        ensures
            final(self).bytes == old(self).bytes,
            final(self).front == old(self).front,
            final(self).back == old(self).back,
            final(self).tokens == old(self).tokens,
            old(self).zeroes == 0 ==> r == ControlFlow::<IterItem>::Continue(()) && final(self).zeroes == 0,
            old(self).zeroes == 1 ==> r == ControlFlow::<IterItem>::Break(IterItem { offset: 0, len: 1 })
                && final(self).zeroes == 0,
            old(self).zeroes > 1 ==> r == ControlFlow::<IterItem>::Break(IterItem { offset: 0, len: 0 })
                && final(self).zeroes == old(self).zeroes - 1,
    {
        if self.zeroes == 0 {
            ControlFlow::Continue(())
        } else if self.zeroes == 1 {
            self.zeroes = 0;
            ControlFlow::Break(IterItem { offset: 0, len: 1 })
        } else {
            self.zeroes = self.zeroes - 1;
            ControlFlow::Break(IterItem { offset: 0, len: 0 })
        }
    }

    /// Handles a byte that starts a token: a zero run byte starts the run, a small offset is
    /// complete; the first byte of a longer code lets the caller read on.
    fn check_first_byte(&mut self, byte: u8) -> (r: ControlFlow<IterItem>)
        ensures
            final(self).bytes == old(self).bytes,
            final(self).front == old(self).front,
            final(self).back == old(self).back,
            final(self).tokens == old(self).tokens,
            byte >= 128 ==> r == ControlFlow::<IterItem>::Break(IterItem { offset: 0, len: 0 })
                && final(self).zeroes == zero_run_rest(byte),
            byte < 64 ==> r == ControlFlow::<IterItem>::Break(IterItem { offset: byte as u64, len: 1 })
                && final(self).zeroes == old(self).zeroes,
            64 <= byte < 128 ==> r == ControlFlow::<IterItem>::Continue(()) && final(self).zeroes == old(self).zeroes,
    {
        if byte >= 128 {
            self.zeroes = (255 - byte) + 1;
            ControlFlow::Break(IterItem { offset: 0, len: 0 })
        } else if byte < 64 {
            ControlFlow::Break(IterItem { offset: byte as u64, len: 1 })
        } else {
            ControlFlow::Continue(())
        }
    }

    /// The next offset from the front.
    pub fn next(&mut self) -> (item: Option<IterItem>)
        requires
            old(self).wf(),
        ensures
            final(self).wf(),
            old(self).zeroes() == 1 ==> item == Some(IterItem { offset: 0, len: 1 })
                && final(self).zeroes() == 0 && final(self).tokens() == old(self).tokens(),
            old(self).zeroes() > 1 ==> item == Some(IterItem { offset: 0, len: 0 })
                && final(self).zeroes() == old(self).zeroes() - 1 && final(self).tokens() == old(self).tokens(),
            old(self).zeroes() == 0 && old(self).tokens().len() == 0 ==> item is None
                && final(self).zeroes() == 0 && final(self).tokens() == old(self).tokens(),
            old(self).zeroes() == 0 && old(self).tokens().len() > 0 ==> {
                &&& final(self).tokens() == old(self).tokens().drop_first()
                &&& match old(self).tokens()[0] {
                    OffsetToken::Zeroes(b) => item == Some(IterItem { offset: 0, len: 0 })
                        && final(self).zeroes() == zero_run_rest(b),
                    OffsetToken::Offset(o) => item == Some(IterItem { offset: o, len: encoded_len(o) as usize })
                        && final(self).zeroes() == 0,
                }
            },
    {
        if let ControlFlow::Break(item) = self.check_zeroes() {
            return Some(item);
        }
        let ghost ts = self.tokens@;
        if self.front >= self.back {
            proof {
                if ts.len() > 0 {
                    lemma_token_bytes_nonempty(ts[0]);
                    assert(flatten(ts) == token_bytes(ts[0]) + flatten(ts.drop_first()));
                }
            }
            return None;
        }
        proof {
            if ts.len() == 0 {
                assert(flatten(ts) =~= Seq::<u8>::empty());
            }
            assert(ts.len() > 0);
            assert(token_wf(ts[0]));
            lemma_token_bytes_nonempty(ts[0]);
            assert(flatten(ts) == token_bytes(ts[0]) + flatten(ts.drop_first()));
            match ts[0] {
                OffsetToken::Offset(o) => {
                    lemma_encode_index(o, 0);
                    lemma_encode_len(o);
                },
                OffsetToken::Zeroes(b) => {},
            }
            assert(self.bytes@[self.front as int] == flatten(ts)[0]);
        }
        let byte = self.bytes[self.front];
        let ghost whole0 = self.bytes@.subrange(self.front as int, self.back as int);
        if let ControlFlow::Break(item) = self.check_first_byte(byte) {
            self.front = self.front + 1;
            self.tokens = Ghost(ts.drop_first());
            proof {
                assert(token_bytes(ts[0]).len() == 1);
                assert(whole0.skip(1) =~= flatten(ts.drop_first()));
                assert(self.bytes@.subrange(self.front as int, self.back as int) =~= whole0.skip(1));
            }
            return Some(item);
        }
        let ghost o = ts[0]->Offset_0;
        proof {
            lemma_encode_len(o);
            assert(self.bytes@.subrange(self.front as int, self.front + encoded_len(o)) =~= encode(o));
        }
        let ghost whole = self.bytes@.subrange(self.front as int, self.back as int);
        let ghost old_front = self.front;
        let (offset, len) = decode_forward(self.bytes, self.front, Ghost(o));
        self.front = self.front + len;
        self.tokens = Ghost(ts.drop_first());
        proof {
            assert(whole == encode(o) + flatten(ts.drop_first()));
            assert(whole.skip(len as int) =~= flatten(ts.drop_first()));
            assert(self.bytes@.subrange(self.front as int, self.back as int) =~= whole.skip(len as int));
        }
        Some(IterItem { offset, len })
    }

    /// The next offset from the back.
    pub fn next_back(&mut self) -> (item: Option<IterItem>)
        requires
            old(self).wf(),
        ensures
            final(self).wf(),
            old(self).zeroes() == 1 ==> item == Some(IterItem { offset: 0, len: 1 })
                && final(self).zeroes() == 0 && final(self).tokens() == old(self).tokens(),
            old(self).zeroes() > 1 ==> item == Some(IterItem { offset: 0, len: 0 })
                && final(self).zeroes() == old(self).zeroes() - 1 && final(self).tokens() == old(self).tokens(),
            old(self).zeroes() == 0 && old(self).tokens().len() == 0 ==> item is None
                && final(self).zeroes() == 0 && final(self).tokens() == old(self).tokens(),
            old(self).zeroes() == 0 && old(self).tokens().len() > 0 ==> {
                &&& final(self).tokens() == old(self).tokens().drop_last()
                &&& match old(self).tokens().last() {
                    OffsetToken::Zeroes(b) => item == Some(IterItem { offset: 0, len: 0 })
                        && final(self).zeroes() == zero_run_rest(b),
                    OffsetToken::Offset(o) => item == Some(IterItem { offset: o, len: encoded_len(o) as usize })
                        && final(self).zeroes() == 0,
                }
            },
    {
        if let ControlFlow::Break(item) = self.check_zeroes() {
            return Some(item);
        }
        let ghost ts = self.tokens@;
        if self.front >= self.back {
            proof {
                if ts.len() > 0 {
                    lemma_token_bytes_nonempty(ts[0]);
                    assert(flatten(ts) == token_bytes(ts[0]) + flatten(ts.drop_first()));
                }
            }
            return None;
        }
        proof {
            if ts.len() == 0 {
                assert(flatten(ts) =~= Seq::<u8>::empty());
            }
            assert(ts.len() > 0);
            assert(token_wf(ts.last()));
            lemma_token_bytes_nonempty(ts.last());
            lemma_flatten_append(ts.drop_last(), seq![ts.last()]);
            assert(ts.drop_last() + seq![ts.last()] =~= ts);
            assert(flatten(seq![ts.last()]) =~= token_bytes(ts.last())) by {
                reveal_with_fuel(flatten, 2);
                assert(seq![ts.last()].drop_first() =~= Seq::<OffsetToken>::empty());
            }
            match ts.last() {
                OffsetToken::Offset(o) => {
                    lemma_encode_len(o);
                    lemma_encode_index(o, (encoded_len(o) - 1) as nat);
                },
                OffsetToken::Zeroes(b) => {},
            }
            assert(self.bytes@[self.back - 1] == flatten(ts)[flatten(ts).len() - 1]);
        }
        let byte = self.bytes[self.back - 1];
        if let ControlFlow::Break(item) = self.check_first_byte(byte) {
            self.back = self.back - 1;
            self.tokens = Ghost(ts.drop_last());
            proof {
                assert(self.bytes@.subrange(self.front as int, self.back as int) =~= flatten(ts.drop_last()));
            }
            return Some(item);
        }
        let ghost o = ts.last()->Offset_0;
        let ghost whole = self.bytes@.subrange(self.front as int, self.back as int);
        let ghost n = encoded_len(o);
        proof {
            lemma_encode_len(o);
            assert(whole == flatten(ts.drop_last()) + encode(o));
            assert(whole.len() == self.back - self.front);
            assert(whole.skip(whole.len() - n) =~= encode(o));
            assert(self.bytes@.subrange(self.back - n, self.back as int) =~= whole.skip(whole.len() - n));
        }
        let (offset, len) = decode_backward(self.bytes, self.back, Ghost(o));
        self.back = self.back - len;
        self.tokens = Ghost(ts.drop_last());
        proof {
            assert(whole.take(whole.len() - n) =~= flatten(ts.drop_last()));
            assert(self.bytes@.subrange(self.front as int, self.back as int) =~= whole.take(whole.len() - n));
        }
        Some(IterItem { offset, len })
    }
}

} // verus!
