//! A log of states that may start without a state: the first push gives it one, and undoing
//! that first push takes it away again.
use std::collections::{TryReserveError, VecDeque};
use vstd::prelude::*;

use super::deque;
use super::dense_state::{DenseStateLog, StateTimeline};
use super::frame_state::{frames_drain_count, lemma_frames_drain_count_bound, past_and_present};
use super::logged_at::LoggedAt;
use super::OutOfLog;

verus! {

#[derive(Debug, Clone)]
enum InitNoneInner<T> {
    /// No state was ever pushed; the deque keeps its allocation for the first push.
    NeverRan { empty: VecDeque<T> },
    /// `undone_first_run` is `None` when the log holds no push that gave it its first state,
    /// `Some(true)` when that push was undone, and `Some(false)` when it was not.
    Ran { log: DenseStateLog<T>, undone_first_run: Option<bool> },
}

/// A log of states that may hold no state.
#[derive(Debug, Clone)]
pub struct InitNoneLog<T>(InitNoneInner<T>);

impl<T> InitNoneLog<T> {
    /// The states, or `None` before the first push.
    pub closed spec fn timeline(&self) -> Option<StateTimeline<T>> {
        match self.0 {
            InitNoneInner::NeverRan { .. } => None,
            InitNoneInner::Ran { log, .. } => Some(log.timeline()),
        }
    }

    /// Whether the push that gave the log its first state was undone, if the log holds it.
    pub closed spec fn undone_first_run(&self) -> Option<bool> {
        match self.0 {
            InitNoneInner::NeverRan { .. } => None,
            InitNoneInner::Ran { undone_first_run, .. } => undone_first_run,
        }
    }

    /// A log that never held a state has no first push to have undone.
    pub proof fn lemma_never_ran(&self)
        ensures
            self.timeline() is None ==> self.undone_first_run() is None,
    {
    }

    /// A log without a state keeps no values; a log whose first push was undone stands at its
    /// oldest state.
    pub closed spec fn wf(&self) -> bool {
        match self.0 {
            InitNoneInner::NeverRan { empty } => empty@.len() == 0,
            InitNoneInner::Ran { log, undone_first_run } => {
                &&& log.wf()
                &&& undone_first_run == Some(true) ==> log.timeline().past.len() == 0
            },
        }
    }

    /// Whether the log holds no state: before its first push or after that push was undone.
    pub open spec fn is_none(&self) -> bool {
        self.timeline() is None || self.undone_first_run() == Some(true)
    }

    /// The present state, if the log holds one.
    pub open spec fn present(&self) -> Option<T> {
        if self.is_none() {
            None
        } else {
            Some(self.timeline()->Some_0.present)
        }
    }

    pub fn new_none() -> (log: Self)
        ensures
            log.wf(),
            log.timeline() is None,
    {
        InitNoneLog(InitNoneInner::NeverRan { empty: VecDeque::new() })
    }

    pub fn new_some(present: T) -> (log: Self)
        ensures
            log.wf(),
            log.timeline() == Some(StateTimeline::only(present)),
            log.undone_first_run() is None,
    {
        InitNoneLog(InitNoneInner::Ran { log: DenseStateLog::new(present), undone_first_run: None })
    }

    pub fn none_with_capacity(states_capacity: usize) -> (log: Self)
        ensures
            log.wf(),
            log.timeline() is None,
    {
        InitNoneLog(InitNoneInner::NeverRan { empty: VecDeque::with_capacity(states_capacity) })
    }

    pub fn some_with_capacity(present: T, states_capacity: usize) -> (log: Self)
        ensures
            log.wf(),
            log.timeline() == Some(StateTimeline::only(present)),
            log.undone_first_run() is None,
    {
        InitNoneLog(InitNoneInner::Ran { log: DenseStateLog::with_capacity(present, states_capacity), undone_first_run: None })
    }

    pub fn into_inner(self) -> (present: Option<T>)
        ensures
            present == self.present(),
    {
        match self.0 {
            InitNoneInner::NeverRan { .. } => None,
            InitNoneInner::Ran { log, undone_first_run } => {
                if undone_first_run == Some(true) {
                    None
                } else {
                    Some(log.into_inner())
                }
            },
        }
    }

    pub fn get(&self) -> (present: Option<&T>)
        ensures
            present is Some <==> self.present() is Some,
            present is Some ==> *present->Some_0 == self.present()->Some_0,
    {
        match &self.0 {
            InitNoneInner::NeverRan { .. } => None,
            InitNoneInner::Ran { log, undone_first_run } => {
                if *undone_first_run == Some(true) {
                    None
                } else {
                    Some(log.get())
                }
            },
        }
    }

    /// The number of stored past and future states.
    pub open spec fn spec_states_len(&self) -> int {
        match self.timeline() {
            None => 0,
            Some(t) => (t.past.len() + t.future.len()) as int,
        }
    }

    pub fn states_len(&self) -> (len: usize)
        requires
            self.wf(),
        ensures
            len == self.spec_states_len(),
    {
        match &self.0 {
            InitNoneInner::NeverRan { .. } => 0,
            InitNoneInner::Ran { log, .. } => {
                proof {
                    log.lemma_states_len();
                }
                log.states_len()
            },
        }
    }

    pub fn states_capacity(&self) -> (capacity: usize)
        requires
            self.wf(),
        ensures
            capacity >= self.spec_states_len(),
    {
        match &self.0 {
            InitNoneInner::NeverRan { empty } => deque::capacity(empty),
            InitNoneInner::Ran { log, .. } => {
                proof {
                    log.lemma_states_len();
                }
                log.states_capacity()
            },
        }
    }

    pub fn states_is_empty(&self) -> (empty: bool)
        requires
            self.wf(),
        ensures
            empty == (self.spec_states_len() == 0),
    {
        match &self.0 {
            InitNoneInner::NeverRan { .. } => true,
            InitNoneInner::Ran { log, .. } => {
                proof {
                    log.lemma_states_len();
                }
                log.states_is_empty()
            },
        }
    }

    pub fn states_reserve(&mut self, additional: usize)
        requires
            old(self).wf(),
        ensures
            final(self).wf(),
            final(self).timeline() == old(self).timeline(),
            final(self).undone_first_run() == old(self).undone_first_run(),
    {
        match &mut self.0 {
            InitNoneInner::NeverRan { empty } => empty.reserve(additional),
            InitNoneInner::Ran { log, .. } => log.states_reserve(additional),
        }
    }

    pub fn states_reserve_exact(&mut self, additional: usize)
        requires
            old(self).wf(),
            old(self).spec_states_len() + additional <= usize::MAX,
        ensures
            final(self).wf(),
            final(self).timeline() == old(self).timeline(),
            final(self).undone_first_run() == old(self).undone_first_run(),
    {
        match &mut self.0 {
            InitNoneInner::NeverRan { empty } => deque::reserve_exact(empty, additional),
            InitNoneInner::Ran { log, .. } => {
                proof {
                    log.lemma_states_len();
                }
                log.states_reserve_exact(additional)
            },
        }
    }

    pub fn states_try_reserve(&mut self, additional: usize) -> (r: Result<(), TryReserveError>)
        requires
            old(self).wf(),
        ensures
            final(self).wf(),
            final(self).timeline() == old(self).timeline(),
            final(self).undone_first_run() == old(self).undone_first_run(),
            old(self).spec_states_len() + additional > usize::MAX ==> r is Err,
    {
        match &mut self.0 {
            InitNoneInner::NeverRan { empty } => deque::try_reserve(empty, additional),
            InitNoneInner::Ran { log, .. } => {
                proof {
                    log.lemma_states_len();
                }
                log.states_try_reserve(additional)
            },
        }
    }

    pub fn states_try_reserve_exact(&mut self, additional: usize) -> (r: Result<(), TryReserveError>)
        requires
            old(self).wf(),
        ensures
            final(self).wf(),
            final(self).timeline() == old(self).timeline(),
            final(self).undone_first_run() == old(self).undone_first_run(),
            old(self).spec_states_len() + additional > usize::MAX ==> r is Err,
    {
        match &mut self.0 {
            InitNoneInner::NeverRan { empty } => deque::try_reserve_exact(empty, additional),
            InitNoneInner::Ran { log, .. } => {
                proof {
                    log.lemma_states_len();
                }
                log.states_try_reserve_exact(additional)
            },
        }
    }

    pub fn states_shrink_to(&mut self, min_capacity: usize)
        requires
            old(self).wf(),
        ensures
            final(self).wf(),
            final(self).timeline() == old(self).timeline(),
            final(self).undone_first_run() == old(self).undone_first_run(),
    {
        match &mut self.0 {
            InitNoneInner::NeverRan { empty } => deque::shrink_to(empty, min_capacity),
            InitNoneInner::Ran { log, .. } => log.states_shrink_to(min_capacity),
        }
    }

    pub fn states_shrink_to_fit(&mut self)
        requires
            old(self).wf(),
        ensures
            final(self).wf(),
            final(self).timeline() == old(self).timeline(),
            final(self).undone_first_run() == old(self).undone_first_run(),
    {
        match &mut self.0 {
            InitNoneInner::NeverRan { empty } => deque::shrink_to_fit(empty),
            InitNoneInner::Ran { log, .. } => log.states_shrink_to_fit(),
        }
    }

    /// Gives a log without a state its first state, keeping the deque's allocation.
    fn never_ran_push(&mut self, present: T)
        requires
            old(self).wf(),
            old(self).timeline() is None,
        ensures
            final(self).wf(),
            final(self).timeline() == Some(StateTimeline::only(present)),
            final(self).undone_first_run() == Some(false),
    {
        let previous = deque::replace(&mut self.0, InitNoneInner::NeverRan { empty: VecDeque::new() });
        match previous {
            InitNoneInner::NeverRan { empty } => {
                let log = DenseStateLog::with_deque(present, empty);
                self.0 = InitNoneInner::Ran { log, undone_first_run: Some(false) };
            },
            InitNoneInner::Ran { .. } => {
                proof {
                    assert(false);
                }
            },
        }
    }

    /// Pushes `state` as the new present state, dropping the future; a log without a state,
    /// or whose first push was undone, starts again from `state`.
    pub fn push_present(&mut self, state: T)
        requires
            old(self).wf(),
        ensures
            final(self).wf(),
            old(self).is_none() ==> final(self).timeline() == Some(StateTimeline::only(state))
                && final(self).undone_first_run() == Some(false),
            !old(self).is_none() ==> final(self).timeline() == Some(old(self).timeline()->Some_0.push(state))
                && final(self).undone_first_run() == old(self).undone_first_run(),
    {
        match &mut self.0 {
            InitNoneInner::NeverRan { .. } => {
                self.never_ran_push(state);
            },
            InitNoneInner::Ran { log, undone_first_run } => {
                if *undone_first_run == Some(true) {
                    log.clear_with(state);
                    *undone_first_run = Some(false);
                } else {
                    log.push(state);
                }
            },
        }
    }

    /// Removes the future states and returns them, nearest first; when the first push was
    /// undone, all states are future and the log is left without a state.
    pub fn drain_future(&mut self) -> (drained: VecDeque<T>)
        requires
            old(self).wf(),
        ensures
            final(self).wf(),
            old(self).timeline() is None ==> drained@.len() == 0 && final(self).timeline() is None,
            old(self).timeline() is Some && old(self).undone_first_run() == Some(true) ==> ({
                let t = old(self).timeline()->Some_0;
                &&& drained@ == seq![t.present] + t.future
                &&& final(self).timeline() is None
            }),
            old(self).timeline() is Some && old(self).undone_first_run() != Some(true) ==> ({
                let t = old(self).timeline()->Some_0;
                &&& drained@ == t.future
                &&& final(self).timeline() == Some(t.without_future())
                &&& final(self).undone_first_run() == old(self).undone_first_run()
            }),
    {
        let undone = match &self.0 {
            InitNoneInner::Ran { undone_first_run, .. } => *undone_first_run == Some(true),
            InitNoneInner::NeverRan { .. } => false,
        };
        if undone {
            let previous = deque::replace(&mut self.0, InitNoneInner::NeverRan { empty: VecDeque::new() });
            match previous {
                InitNoneInner::Ran { log, .. } => {
                    let (oldest, states) = log.into_parts();
                    let mut drained: VecDeque<T> = VecDeque::new();
                    drained.push_back(oldest);
                    let mut states = states;
                    drained.append(&mut states);
                    self.0 = InitNoneInner::NeverRan { empty: states };
                    proof {
                        assert(drained@ =~= seq![old(self).timeline()->Some_0.present] + old(self).timeline()->Some_0.future);
                    }
                    return drained;
                },
                InitNoneInner::NeverRan { .. } => {
                    proof {
                        assert(false);
                    }
                    return VecDeque::new();
                },
            }
        }
        match &mut self.0 {
            InitNoneInner::NeverRan { .. } => VecDeque::new(),
            InitNoneInner::Ran { log, .. } => log.drain_future(),
        }
    }

    /// Removes all states and leaves the log without a state.
    pub fn clear(&mut self)
        requires
            old(self).wf(),
        ensures
            final(self).wf(),
            final(self).timeline() is None,
    {
        let previous = deque::replace(&mut self.0, InitNoneInner::NeverRan { empty: VecDeque::new() });
        match previous {
            InitNoneInner::NeverRan { empty } => {
                self.0 = InitNoneInner::NeverRan { empty };
            },
            InitNoneInner::Ran { log, .. } => {
                let (_present, states) = log.into_parts();
                let mut states = states;
                states.clear();
                self.0 = InitNoneInner::NeverRan { empty: states };
            },
        }
    }

    /// Removes the past and future states and keeps the present one; a log whose first push
    /// was undone is left without a state.
    pub fn clear_log(&mut self)
        requires
            old(self).wf(),
        ensures
            final(self).wf(),
            old(self).timeline() is None ==> final(self).timeline() is None,
            old(self).timeline() is Some && old(self).undone_first_run() == Some(true) ==> final(self).timeline() is None,
            old(self).timeline() is Some && old(self).undone_first_run() != Some(true) ==>
                final(self).timeline() == Some(StateTimeline::only(old(self).timeline()->Some_0.present))
                && final(self).undone_first_run() is None,
    {
        let undone = match &self.0 {
            InitNoneInner::Ran { undone_first_run, .. } => *undone_first_run == Some(true),
            InitNoneInner::NeverRan { .. } => false,
        };
        if undone {
            self.clear();
            return;
        }
        match &mut self.0 {
            InitNoneInner::NeverRan { .. } => {},
            InitNoneInner::Ran { log, undone_first_run } => {
                log.clear();
                *undone_first_run = None;
            },
        }
    }

    /// Removes all states and makes `present` the present state.
    pub fn clear_with(&mut self, present: T)
        requires
            old(self).wf(),
        ensures
            final(self).wf(),
            final(self).timeline() == Some(StateTimeline::only(present)),
            old(self).timeline() is None ==> final(self).undone_first_run() == Some(false),
            old(self).timeline() is Some ==> final(self).undone_first_run() is None,
    {
        match &mut self.0 {
            InitNoneInner::NeverRan { .. } => {
                self.never_ran_push(present);
            },
            InitNoneInner::Ran { log, undone_first_run } => {
                log.clear_with(present);
                *undone_first_run = None;
            },
        }
    }

    /// Steps one state back; a step back from the first pushed state leaves the log without a
    /// state. Fails when there is nothing to step back to.
    pub fn backward_log(&mut self) -> (r: Result<(), OutOfLog>)
        requires
            old(self).wf(),
        ensures
            final(self).wf(),
            old(self).is_none() ==> r is Err && final(self).timeline() == old(self).timeline()
                && final(self).undone_first_run() == old(self).undone_first_run(),
            !old(self).is_none() && old(self).timeline()->Some_0.past.len() > 0 ==> r is Ok
                && final(self).timeline() == Some(old(self).timeline()->Some_0.backward())
                && final(self).undone_first_run() == old(self).undone_first_run(),
            !old(self).is_none() && old(self).timeline()->Some_0.past.len() == 0 ==> final(self).timeline() == old(self).timeline()
                && (old(self).undone_first_run() is None ==> r is Err && final(self).undone_first_run() is None)
                && (old(self).undone_first_run() == Some(false) ==> r is Ok && final(self).undone_first_run() == Some(true)),
    {
        match &mut self.0 {
            InitNoneInner::NeverRan { .. } => Err(OutOfLog),
            InitNoneInner::Ran { log, undone_first_run } => {
                match *undone_first_run {
                    Some(true) => Err(OutOfLog),
                    None => log.backward_log(),
                    Some(false) => {
                        let stepped = log.backward_log();
                        *undone_first_run = Some(stepped.is_err());
                        Ok(())
                    },
                }
            },
        }
    }

    /// Steps one state forward; a log whose first push was undone gets its first state back.
    /// Fails when there is nothing to step forward to.
    pub fn forward_log(&mut self) -> (r: Result<(), OutOfLog>)
        requires
            old(self).wf(),
        ensures
            final(self).wf(),
            old(self).timeline() is None ==> r is Err && final(self).timeline() is None,
            old(self).timeline() is Some && old(self).undone_first_run() == Some(true) ==> r is Ok
                && final(self).timeline() == old(self).timeline() && final(self).undone_first_run() == Some(false),
            !old(self).is_none() ==> final(self).undone_first_run() == old(self).undone_first_run() && ({
                let t = old(self).timeline()->Some_0;
                &&& r is Err <==> t.future.len() == 0
                &&& r is Ok ==> final(self).timeline() == Some(t.forward())
                &&& r is Err ==> final(self).timeline() == old(self).timeline()
            }),
    {
        match &mut self.0 {
            InitNoneInner::NeverRan { .. } => Err(OutOfLog),
            InitNoneInner::Ran { log, undone_first_run } => {
                if *undone_first_run == Some(true) {
                    *undone_first_run = Some(false);
                    Ok(())
                } else {
                    log.forward_log()
                }
            },
        }
    }

    /// Removes and returns the oldest past state when the past holds more than
    /// `max_past_len` states.
    pub fn pop_past_by_len(&mut self, max_past_len: usize) -> (popped: Option<T>)
        requires
            old(self).wf(),
        ensures
            final(self).wf(),
            old(self).is_none() || old(self).timeline()->Some_0.past.len() <= max_past_len ==> popped is None
                && final(self).timeline() == old(self).timeline()
                && final(self).undone_first_run() == old(self).undone_first_run(),
            !old(self).is_none() && old(self).timeline()->Some_0.past.len() > max_past_len ==> ({
                let t = old(self).timeline()->Some_0;
                &&& popped == Some(t.past[0])
                &&& final(self).timeline() == Some(t.drop_past(1))
                &&& final(self).undone_first_run() is None
            }),
    {
        match &mut self.0 {
            InitNoneInner::NeverRan { .. } => None,
            InitNoneInner::Ran { log, undone_first_run } => {
                if *undone_first_run == Some(true) {
                    return None;
                }
                if log.past_len() <= max_past_len {
                    return None;
                }
                let mut drained = log.drain_past(1);
                *undone_first_run = None;
                drained.pop_front()
            },
        }
    }

    /// Removes and returns the oldest past states so that at most `max_past_len` remain.
    pub fn drain_past_by_len(&mut self, max_past_len: usize) -> (drained: VecDeque<T>)
        requires
            old(self).wf(),
        ensures
            final(self).wf(),
            old(self).is_none() ==> drained@.len() == 0 && final(self).timeline() == old(self).timeline()
                && final(self).undone_first_run() == old(self).undone_first_run(),
            !old(self).is_none() ==> ({
                let t = old(self).timeline()->Some_0;
                let n = if t.past.len() > max_past_len { t.past.len() - max_past_len } else { 0 };
                &&& drained@ == t.past.take(n as int)
                &&& final(self).timeline() == Some(t.drop_past(n as nat))
                &&& final(self).undone_first_run() == (if n > 0 { None } else { old(self).undone_first_run() })
            }),
    {
        match &mut self.0 {
            InitNoneInner::NeverRan { .. } => VecDeque::new(),
            InitNoneInner::Ran { log, undone_first_run } => {
                if *undone_first_run == Some(true) {
                    return VecDeque::new();
                }
                let past_len = log.past_len();
                let to_drain = past_len.saturating_sub(max_past_len);
                let drained = log.drain_past(to_drain);
                if to_drain != 0 {
                    *undone_first_run = None;
                }
                proof {
                    assert(log.timeline().past =~= old(self).timeline()->Some_0.past.skip(to_drain as int));
                }
                drained
            },
        }
    }
}

/// The state after the oldest past state: the next past state, or the present one.
pub open spec fn after_oldest<T>(t: StateTimeline<T>) -> T {
    if t.past.len() > 1 {
        t.past[1]
    } else {
        t.present
    }
}

impl<T: LoggedAt> InitNoneLog<T> {
    /// Whether the oldest past state can go: the state after it, which replaced it, was logged
    /// at or before `past_end`, so the world can no longer go back to a frame that needs it.
    pub open spec fn pops_by_logged_at(&self, past_end: u64) -> bool {
        &&& !self.is_none()
        &&& self.timeline()->Some_0.past.len() > 0
        &&& after_oldest(self.timeline()->Some_0).spec_logged_at().0 <= past_end
    }

    /// The frames the past states and the present state were logged at, oldest first.
    pub open spec fn logged_frames(t: StateTimeline<T>) -> Seq<u64> {
        past_and_present(t).map_values(|s: T| s.spec_logged_at().0)
    }

    /// Drops the future states, then removes and returns the oldest past states whose next
    /// state was logged at or before `past_end`. A log without a state keeps its states.
    pub fn truncate_future_drain_past_by_logged_at(&mut self, past_end: u64) -> (drained: VecDeque<T>)
        requires
            old(self).wf(),
        ensures
            final(self).wf(),
            old(self).is_none() ==> drained@.len() == 0 && final(self).timeline() == old(self).timeline()
                && final(self).undone_first_run() == old(self).undone_first_run(),
            !old(self).is_none() ==> ({
                let t = old(self).timeline()->Some_0;
                let n = frames_drain_count(Self::logged_frames(t), past_end);
                &&& drained@ == t.past.take(n as int)
                &&& final(self).timeline() == Some(t.without_future().drop_past(n))
                &&& final(self).undone_first_run() == (if n > 0 { None } else { old(self).undone_first_run() })
            }),
    {
        match &mut self.0 {
            InitNoneInner::NeverRan { .. } => VecDeque::new(),
            InitNoneInner::Ran { log, undone_first_run } => {
                if *undone_first_run == Some(true) {
                    return VecDeque::new();
                }
                let _future = log.drain_future();
                let ghost t = log.timeline();
                let ghost frames = Self::logged_frames(t);
                let n = log.past_len();
                let mut k: usize = 0;
                proof {
                    lemma_frames_drain_count_bound(frames, past_end);
                    assert(frames.skip(0) =~= frames);
                }
                while k < n
                    invariant
                        log.wf(),
                        log.timeline() == t,
                        frames == Self::logged_frames(t),
                        n == t.past.len(),
                        k <= n,
                        frames_drain_count(frames, past_end) == k + frames_drain_count(frames.skip(k as int), past_end),
                    ensures
                        frames_drain_count(frames.skip(k as int), past_end) == 0,
                    decreases n - k,
                {
                    let next = if k + 1 < n {
                        log.past_at(k + 1).logged_at()
                    } else {
                        log.get().logged_at()
                    };
                    proof {
                        assert(frames.skip(k as int)[1] == next.0);
                    }
                    if next.0 > past_end {
                        break;
                    }
                    proof {
                        assert(frames.skip(k as int).drop_first() =~= frames.skip(k as int + 1));
                    }
                    k = k + 1;
                }
                proof {
                    if k == n {
                        assert(frames.skip(k as int).len() == 1);
                    }
                }
                let drained = log.drain_past(k);
                if k > 0 {
                    *undone_first_run = None;
                }
                drained
            },
        }
    }

    /// Removes and returns the oldest past state when the state after it was logged at or
    /// before `past_end`.
    pub fn pop_past_by_logged_at(&mut self, past_end: u64) -> (popped: Option<T>)
        requires
            old(self).wf(),
        ensures
            final(self).wf(),
            !old(self).pops_by_logged_at(past_end) ==> popped is None
                && final(self).timeline() == old(self).timeline()
                && final(self).undone_first_run() == old(self).undone_first_run(),
            old(self).pops_by_logged_at(past_end) ==> ({
                let t = old(self).timeline()->Some_0;
                &&& popped == Some(t.past[0])
                &&& final(self).timeline() == Some(t.drop_past(1))
                &&& final(self).undone_first_run() is None
            }),
    {
        match &mut self.0 {
            InitNoneInner::NeverRan { .. } => None,
            InitNoneInner::Ran { log, undone_first_run } => {
                if *undone_first_run == Some(true) {
                    return None;
                }
                let n = log.past_len();
                if n == 0 {
                    return None;
                }
                let next = if n > 1 {
                    log.past_at(1).logged_at()
                } else {
                    log.get().logged_at()
                };
                if next.0 > past_end {
                    return None;
                }
                let mut drained = log.drain_past(1);
                *undone_first_run = None;
                drained.pop_front()
            },
        }
    }
}

} // verus!
