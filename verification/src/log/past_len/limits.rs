//! The bookkeeping that tells when a past length log missed an update: each log keeps a small
//! state that decides what it does before its first change at a frame, and each of its changes
//! leaves limits between which the present frame has to stay until the log changes again.
use vstd::prelude::*;

verus! {

/// What a past length log does before its first change at a frame.
#[derive(Clone, Copy, Debug, PartialEq, Eq, Structural)]
pub enum PreUpdateVariant {
    /// Everything that was logged is dropped: the log registers anew.
    RemoveLog,
    /// The future is dropped: the world left its log and runs on from the present frame.
    RemoveFuture,
    /// Nothing is to be done.
    Nothing,
}

/// What a past length log knows of the counters it last saw.
#[derive(Clone, Copy, Debug, PartialEq, Eq, Structural)]
pub struct PastLenState {
    /// The log's id.
    pub id: u32,
    /// How many changes the log made at the present frame.
    pub updates_this_frame: u32,
    /// The number of limit checks when the log last saw the counters.
    pub limits_updates: u64,
    /// The number of times the world left its log, when the log last saw the counters.
    pub meta_log_exits: u64,
    /// The number of times the world's log was cleared, when the log last saw the counters.
    pub meta_log_clears: u64,
}

/// A fresh state for the log with id `id`.
pub open spec fn fresh_state(id: u32, updates: u64, meta_log_exits: u64, meta_log_clears: u64) -> PastLenState {
    PastLenState { id, updates_this_frame: 0, limits_updates: updates, meta_log_exits, meta_log_clears }
}

/// The state after a log saw the counters, what it has to do, and whether it took the id
/// `next_id`: a log that saw none registers with `next_id`; a clear of the world's log makes it
/// register anew and drop everything; a departure from the world's log makes it drop its
/// future; a new check of the limits starts a new count of its changes.
pub open spec fn next_past_len_state(
    state: Option<PastLenState>,
    next_id: u32,
    updates: u64,
    meta_log_exits: u64,
    meta_log_clears: u64,
) -> (Option<PastLenState>, PreUpdateVariant, bool) {
    match state {
        None => (Some(fresh_state(next_id, updates, meta_log_exits, meta_log_clears)), PreUpdateVariant::Nothing, true),
        Some(s) => if s.meta_log_clears < meta_log_clears {
            (Some(fresh_state(next_id, updates, meta_log_exits, meta_log_clears)), PreUpdateVariant::RemoveLog, true)
        } else if s.meta_log_exits < meta_log_exits {
            (
                Some(PastLenState { limits_updates: updates, meta_log_exits, updates_this_frame: 0, ..s }),
                PreUpdateVariant::RemoveFuture,
                false,
            )
        } else if s.limits_updates != updates {
            (Some(PastLenState { limits_updates: updates, updates_this_frame: 0, ..s }), PreUpdateVariant::Nothing, false)
        } else {
            (Some(s), PreUpdateVariant::Nothing, false)
        },
    }
}

/// Whether seeing the counters makes the log take a new id.
pub open spec fn takes_id(state: Option<PastLenState>, meta_log_clears: u64) -> bool {
    state is None || state->Some_0.meta_log_clears < meta_log_clears
}

/// A log that already saw the counters the world holds (no clear, no departure and no check of
/// the limits since) keeps its state, its count of changes at this frame included, and has
/// nothing to do.
pub proof fn lemma_same_counters_keep_state(
    s: PastLenState,
    next_id: u32,
    updates: u64,
    meta_log_exits: u64,
    meta_log_clears: u64,
)
    requires
        s.meta_log_clears >= meta_log_clears,
        s.meta_log_exits >= meta_log_exits,
        s.limits_updates == updates,
    ensures
        next_past_len_state(Some(s), next_id, updates, meta_log_exits, meta_log_clears)
            == (Some(s), PreUpdateVariant::Nothing, false),
        next_past_len_state(Some(s), next_id, updates, meta_log_exits, meta_log_clears).0->Some_0.updates_this_frame
            == s.updates_this_frame,
{
}

/// Seeing the same counters twice does what seeing them once does: the second time the log
/// keeps its state and has nothing to do, and takes no id.
pub proof fn lemma_update_idempotent(
    state: Option<PastLenState>,
    next_id: u32,
    next_id2: u32,
    updates: u64,
    meta_log_exits: u64,
    meta_log_clears: u64,
)
    ensures
        ({
            let first = next_past_len_state(state, next_id, updates, meta_log_exits, meta_log_clears);
            let second = next_past_len_state(first.0, next_id2, updates, meta_log_exits, meta_log_clears);
            &&& first.0 is Some
            &&& first.0->Some_0.limits_updates == updates
            &&& second == (first.0, PreUpdateVariant::Nothing, false)
        }),
{
}

/// Updates `state` for the counters the world holds now, `updates` checks of the limits,
/// `meta_log_exits` departures from its log and `meta_log_clears` clears of it; `next_id` is
/// the id a newly registering log takes. Returns what the log has to do and whether it took
/// `next_id`.
pub fn update_past_len_state(
    state: &mut Option<PastLenState>,
    next_id: u32,
    updates: u64,
    meta_log_exits: u64,
    meta_log_clears: u64,
) -> (r: (PreUpdateVariant, bool))
    requires
        takes_id(*old(state), meta_log_clears) ==> next_id < u32::MAX,
    ensures
        ({
            let next = next_past_len_state(*old(state), next_id, updates, meta_log_exits, meta_log_clears);
            &&& *final(state) == next.0
            &&& r == (next.1, next.2)
        }),
        *old(state) is None ==> *final(state) == Some(fresh_state(next_id, updates, meta_log_exits, meta_log_clears))
            && r == (PreUpdateVariant::Nothing, true),
        *old(state) is Some && (*old(state))->Some_0.meta_log_clears < meta_log_clears ==> *final(state) == Some(
            fresh_state(next_id, updates, meta_log_exits, meta_log_clears),
        ) && r == (PreUpdateVariant::RemoveLog, true),
        *old(state) is Some && (*old(state))->Some_0.meta_log_clears >= meta_log_clears
            && (*old(state))->Some_0.meta_log_exits < meta_log_exits ==> {
            &&& *final(state) is Some
            &&& (*final(state))->Some_0.id == (*old(state))->Some_0.id
            &&& (*final(state))->Some_0.meta_log_clears == (*old(state))->Some_0.meta_log_clears
            &&& (*final(state))->Some_0.meta_log_exits == meta_log_exits
            &&& (*final(state))->Some_0.limits_updates == updates
            &&& (*final(state))->Some_0.updates_this_frame == 0
            &&& r == (PreUpdateVariant::RemoveFuture, false)
        },
        *old(state) is Some && (*old(state))->Some_0.meta_log_clears >= meta_log_clears
            && (*old(state))->Some_0.meta_log_exits >= meta_log_exits
            && (*old(state))->Some_0.limits_updates != updates ==> {
            &&& *final(state) is Some
            &&& (*final(state))->Some_0.id == (*old(state))->Some_0.id
            &&& (*final(state))->Some_0.meta_log_clears == (*old(state))->Some_0.meta_log_clears
            &&& (*final(state))->Some_0.meta_log_exits == (*old(state))->Some_0.meta_log_exits
            &&& (*final(state))->Some_0.limits_updates == updates
            &&& (*final(state))->Some_0.updates_this_frame == 0
            &&& r == (PreUpdateVariant::Nothing, false)
        },
        *old(state) is Some && (*old(state))->Some_0.meta_log_clears >= meta_log_clears
            && (*old(state))->Some_0.meta_log_exits >= meta_log_exits
            && (*old(state))->Some_0.limits_updates == updates ==> *final(state) == *old(state)
            && r == (PreUpdateVariant::Nothing, false),
{
    let fresh = PastLenState { id: next_id, updates_this_frame: 0, limits_updates: updates, meta_log_exits, meta_log_clears };
    match state {
        None => {
            *state = Some(fresh);
            (PreUpdateVariant::Nothing, true)
        },
        Some(s) => {
            if s.meta_log_clears < meta_log_clears {
                *state = Some(fresh);
                (PreUpdateVariant::RemoveLog, true)
            } else if s.meta_log_exits < meta_log_exits {
                s.limits_updates = updates;
                s.meta_log_exits = meta_log_exits;
                s.updates_this_frame = 0;
                (PreUpdateVariant::RemoveFuture, false)
            } else {
                if s.limits_updates != updates {
                    s.limits_updates = updates;
                    s.updates_this_frame = 0;
                }
                (PreUpdateVariant::Nothing, false)
            }
        },
    }
}

/// Counts one more change of the log at the present frame, which has to be the one its state
/// was last updated for. Returns the log's id and how many changes it made at this frame
/// before, which place the limits that the change leaves.
pub fn count_update(state: &mut Option<PastLenState>, updates: u64) -> (slot: (u32, u32))
    requires
        (*old(state)) is Some,
        (*old(state))->Some_0.limits_updates == updates,
        (*old(state))->Some_0.updates_this_frame < u32::MAX,
    ensures
        slot == ((*old(state))->Some_0.id, (*old(state))->Some_0.updates_this_frame),
        *final(state) == Some(PastLenState {
            updates_this_frame: ((*old(state))->Some_0.updates_this_frame + 1) as u32,
            ..(*old(state))->Some_0
        }),
{
    match state {
        Some(s) => {
            let slot = (s.id, s.updates_this_frame);
            s.updates_this_frame = s.updates_this_frame + 1;
            slot
        },
        None => {
            proof {
                assert(false);
            }
            (0, 0)
        },
    }
}

/// The frames between which the present frame has to stay until a log changes again.
#[derive(Clone, Copy, Debug, PartialEq, Eq, Structural)]
pub struct PastLenLimits {
    /// The earliest frame; the log changes again going back from it.
    pub past: u64,
    /// The latest frame; the log changes again going forward from it.
    pub future: u64,
}

impl PastLenLimits {
    /// The limits after a change at `now` when the world runs on: no earlier frame, any later.
    pub fn new_not_log(now: u64) -> (limits: Self)
        ensures
            limits == (PastLenLimits { past: now, future: u64::MAX }),
    {
        PastLenLimits { past: now, future: u64::MAX }
    }

    /// The limits after a change while the world traverses its log.
    pub fn new_log(past: u64, future: u64) -> (limits: Self)
        ensures
            limits == (PastLenLimits { past, future }),
    {
        PastLenLimits { past, future }
    }

    /// Limits that no frame breaches, for a log that registered but did not change yet.
    pub fn unbounded() -> (limits: Self)
        ensures
            limits == (PastLenLimits { past: 0, future: u64::MAX }),
    {
        PastLenLimits { past: 0, future: u64::MAX }
    }

    /// Whether frame `now` lies outside the limits.
    pub open spec fn breached(self, now: u64) -> bool {
        now < self.past || now > self.future
    }
}

/// The positions, as ids, of the limits that frame `now` breaches, in order.
pub open spec fn missed_ids(limits: Seq<PastLenLimits>, now: u64) -> Seq<u32>
    decreases limits.len(),
{
    if limits.len() == 0 {
        Seq::empty()
    } else {
        let rest = missed_ids(limits.drop_last(), now);
        if limits.last().breached(now) {
            rest.push((limits.len() - 1) as u32)
        } else {
            rest
        }
    }
}

/// A frame breaches limits exactly when it lies before their earliest frame or after their
/// latest one: both limiting frames themselves lie within.
pub proof fn lemma_breached_iff(limits: PastLenLimits, now: u64)
    ensures
        limits.breached(now) <==> (now < limits.past || now > limits.future),
        now == limits.past && limits.past <= limits.future ==> !limits.breached(now),
        now == limits.future && limits.past <= limits.future ==> !limits.breached(now),
{
}

/// The ids reported for frame `now` are the positions `i` of the limits with `now` before
/// `limits[i].past` or after `limits[i].future`, each once and in increasing order.
pub proof fn lemma_missed_ids(limits: Seq<PastLenLimits>, now: u64)
    requires
        limits.len() <= u32::MAX + 1,
    ensures
        forall|k: int| 0 <= k < missed_ids(limits, now).len() ==> (missed_ids(limits, now)[k] as int) < limits.len(),
        forall|k: int, l: int|
            0 <= k < l < missed_ids(limits, now).len() ==> missed_ids(limits, now)[k] < missed_ids(limits, now)[l],
        forall|i: int|
            0 <= i < limits.len() ==> (missed_ids(limits, now).contains(i as u32) <==> (now < limits[i].past
                || now > limits[i].future)),
    decreases limits.len(),
{
    if limits.len() > 0 {
        let front = limits.drop_last();
        lemma_missed_ids(front, now);
        let rest = missed_ids(front, now);
        let last = (limits.len() - 1) as u32;
        assert forall|i: int|
            0 <= i < limits.len() implies (missed_ids(limits, now).contains(i as u32) <==> (now < limits[i].past
                || now > limits[i].future)) by {
            if i < limits.len() - 1 {
                assert(limits[i] == front[i]);
                if missed_ids(limits, now).contains(i as u32) && !rest.contains(i as u32) {
                    let k = choose|k: int| 0 <= k < missed_ids(limits, now).len() && missed_ids(limits, now)[k] == i as u32;
                    assert(k == rest.len());
                    assert(false);
                }
                if rest.contains(i as u32) {
                    let k = choose|k: int| 0 <= k < rest.len() && rest[k] == i as u32;
                    assert(missed_ids(limits, now)[k] == i as u32);
                }
            } else {
                if limits.last().breached(now) {
                    assert(missed_ids(limits, now)[rest.len() as int] == last);
                } else if rest.contains(i as u32) {
                    let k = choose|k: int| 0 <= k < rest.len() && rest[k] == i as u32;
                    assert(false);
                }
            }
        }
    }
}

/// Gives `limits`, one entry per log id, room for `ids` logs: entries of logs that registered
/// since get limits that no frame breaches, entries beyond `ids` are dropped.
pub fn resize_limits(limits: &mut Vec<PastLenLimits>, ids: u32)
    ensures
        final(limits)@.len() == ids,
        forall|i: int| 0 <= i < ids && i < old(limits)@.len() ==> final(limits)@[i] == old(limits)@[i],
        forall|i: int| old(limits)@.len() <= i < ids ==> final(limits)@[i] == PastLenLimits::unbounded_spec(),
{
    let n = ids as usize;
    if limits.len() > n {
        limits.truncate(n);
        return;
    }
    while limits.len() < n
        invariant
            old(limits)@.len() <= limits@.len() <= n,
            n == ids,
            forall|i: int| 0 <= i < old(limits)@.len() ==> limits@[i] == old(limits)@[i],
            forall|i: int| old(limits)@.len() <= i < limits@.len() ==> limits@[i] == PastLenLimits::unbounded_spec(),
        decreases n - limits@.len(),
    {
        limits.push(PastLenLimits::unbounded());
    }
}

impl PastLenLimits {
    /// Limits that no frame breaches.
    pub open spec fn unbounded_spec() -> Self {
        PastLenLimits { past: 0, future: u64::MAX }
    }
}

/// Checks the limits of all logs, one entry per log id, against frame `now`. While the world
/// traverses its log (`log`), returns the ids of the logs whose limits `now` breaches, which
/// missed a change, and leaves the limits as they are; otherwise the world runs on, no log can
/// have missed a change, and every later limit is lifted because the logs drop their futures.
pub fn check_past_len_limits(limits: &mut Vec<PastLenLimits>, now: u64, log: bool) -> (missed: Vec<u32>)
    requires
        old(limits)@.len() <= u32::MAX + 1,
    ensures
        log ==> missed@ == missed_ids(old(limits)@, now) && final(limits)@ == old(limits)@,
        log ==> forall|i: int|
            0 <= i < old(limits)@.len() ==> (missed@.contains(i as u32) <==> (now < old(limits)@[i].past
                || now > old(limits)@[i].future)),
        log ==> forall|k: int| 0 <= k < missed@.len() ==> (missed@[k] as int) < old(limits)@.len(),
        log ==> forall|k: int, l: int| 0 <= k < l < missed@.len() ==> missed@[k] < missed@[l],
        !log ==> missed@.len() == 0 && final(limits)@.len() == old(limits)@.len()
            && forall|i: int| 0 <= i < old(limits)@.len() ==> #[trigger] final(limits)@[i]
                == (PastLenLimits { future: u64::MAX, ..old(limits)@[i] }),
{
    let mut missed: Vec<u32> = Vec::new();
    let n = limits.len();
    if log {
        let mut i: usize = 0;
        while i < n
            invariant
                n == limits@.len(),
                limits@ == old(limits)@,
                n <= u32::MAX + 1,
                i <= n,
                missed@ == missed_ids(limits@.take(i as int), now),
            decreases n - i,
        {
            let l = limits[i];
            proof {
                assert(limits@.take(i as int + 1).drop_last() =~= limits@.take(i as int));
                assert(limits@.take(i as int + 1).last() == limits@[i as int]);
            }
            if now < l.past || now > l.future {
                missed.push(i as u32);
            }
            i = i + 1;
        }
        proof {
            assert(limits@.take(n as int) =~= limits@);
            lemma_missed_ids(limits@, now);
        }
    } else {
        let mut i: usize = 0;
        while i < n
            invariant
                n == limits@.len(),
                n == old(limits)@.len(),
                i <= n,
                missed@.len() == 0,
                forall|j: int| 0 <= j < i ==> #[trigger] limits@[j] == (PastLenLimits { future: u64::MAX, ..old(limits)@[j] }),
                forall|j: int| i <= j < n ==> #[trigger] limits@[j] == old(limits)@[j],
            decreases n - i,
        {
            let l = limits[i];
            limits.set(i, PastLenLimits { past: l.past, future: u64::MAX });
            i = i + 1;
        }
    }
    missed
}

} // verus!
