//! The frame at which a system, or a system for one entity, ran last, kept in a log that
//! follows the world through the reversible schedule.
use vstd::prelude::*;

use crate::frame::RevFrame;
use crate::log::dense_state::StateTimeline;
use crate::log::InitNoneLog;
use crate::meta::RevDirection;

verus! {

/// Why the last run could not be read.
#[derive(Debug, Clone, Copy, PartialEq, Eq, Structural)]
pub enum LastRunError {
    /// The log does not hold a run at the frame the world moves to; `expected` is the frame
    /// the log would have moved to, if any.
    FrameMismatch { expected: Option<RevFrame> },
    /// The log cannot step back further.
    OutOfLog,
}

/// The log does not hold a run at the frame the world moves forward to.
#[derive(Debug, Clone, Copy, PartialEq, Eq, Structural)]
pub struct FrameMismatch {
    expected: Option<RevFrame>,
}

impl FrameMismatch {
    /// The frame the log would have moved to, if any.
    pub fn expected(&self) -> (expected: Option<RevFrame>)
        ensures
            expected == self.spec_expected(),
    {
        self.expected
    }

    /// The frame the log would have moved to, if any.
    pub closed spec fn spec_expected(&self) -> Option<RevFrame> {
        self.expected
    }

    /// The mismatch that `error` reports, if it reports one.
    pub fn of_error(error: LastRunError) -> (mismatch: Option<FrameMismatch>)
        ensures
            error matches LastRunError::FrameMismatch { expected } ==> mismatch is Some
                && mismatch->Some_0.spec_expected() == expected,
            error is OutOfLog ==> mismatch is None,
    {
        match error {
            LastRunError::FrameMismatch { expected } => Some(FrameMismatch { expected }),
            LastRunError::OutOfLog => None,
        }
    }
}

impl From<FrameMismatch> for LastRunError {
    fn from(value: FrameMismatch) -> (r: Self) {
        LastRunError::FrameMismatch { expected: value.expected }
    }
}

impl vstd::std_specs::convert::FromSpecImpl<FrameMismatch> for LastRunError {
    open spec fn obeys_from_spec() -> bool {
        true
    }

    open spec fn from_spec(value: FrameMismatch) -> Self {
        LastRunError::FrameMismatch { expected: value.spec_expected() }
    }
}

/// The frame before `frame`, wrapping around at `0`.
pub open spec fn frame_before(frame: RevFrame) -> RevFrame {
    if frame.0 == 0 {
        RevFrame(u64::MAX)
    } else {
        RevFrame((frame.0 - 1) as u64)
    }
}

fn previous_frame(frame: RevFrame) -> (r: RevFrame)
    ensures
        r == frame_before(frame),
{
    if frame.0 == 0 {
        RevFrame(u64::MAX)
    } else {
        RevFrame(frame.0 - 1)
    }
}

/// Whether stepping an init-none log back succeeds.
pub open spec fn can_step_back<T>(log: InitNoneLog<T>) -> bool {
    !log.is_none() && (log.timeline()->Some_0.past.len() > 0 || log.undone_first_run() == Some(false))
}

/// The present state of an init-none log after it stepped back.
pub open spec fn present_after_step_back<T>(log: InitNoneLog<T>) -> Option<T> {
    if log.timeline()->Some_0.past.len() > 0 {
        Some(log.timeline()->Some_0.past.last())
    } else {
        None
    }
}

/// `after` is `before` with a run at `now` pushed: the first run when `before` holds none.
pub open spec fn pushed_run<T>(before: InitNoneLog<T>, after: InitNoneLog<T>, now: T) -> bool {
    if before.is_none() {
        after.timeline() == Some(StateTimeline::only(now)) && after.undone_first_run() == Some(false)
    } else {
        after.timeline() == Some(before.timeline()->Some_0.push(now))
            && after.undone_first_run() == before.undone_first_run()
    }
}

/// `after` is `before` with its oldest past run dropped when the run after it lies at or before
/// `past_end`, and then a run at `now` pushed.
pub open spec fn trimmed_and_pushed(before: InitNoneLog<RevFrame>, after: InitNoneLog<RevFrame>, now: RevFrame, past_end: u64) -> bool {
    if before.is_none() {
        after.timeline() == Some(StateTimeline::only(now)) && after.undone_first_run() == Some(false)
    } else {
        let t = before.timeline()->Some_0;
        let pops = before.pops_by_logged_at(past_end);
        let kept = if pops { t.drop_past(1) } else { t };
        &&& after.timeline() == Some(kept.push(now))
        &&& after.undone_first_run() == (if pops { None } else { before.undone_first_run() })
    }
}

/// `after` is `before` stepped forward one run: a log whose first run was undone gets it back,
/// and a log without a next run stays as it is.
pub open spec fn stepped_forward<T>(before: InitNoneLog<T>, after: InitNoneLog<T>) -> bool {
    let t = before.timeline();
    if t is None {
        after.timeline() is None && after.undone_first_run() is None
    } else if before.undone_first_run() == Some(true) {
        after.timeline() == t && after.undone_first_run() == Some(false)
    } else if t->Some_0.future.len() > 0 {
        after.timeline() == Some(t->Some_0.forward()) && after.undone_first_run() == before.undone_first_run()
    } else {
        after.timeline() == t && after.undone_first_run() == before.undone_first_run()
    }
}

/// `after` is `before` stepped back from its present run when that run was at the frame after
/// `now`: the newest past run becomes the present one, or, without a past run, the first run is
/// undone when it was not already; otherwise the log stays as it is.
pub open spec fn stepped_backward(before: InitNoneLog<RevFrame>, after: InitNoneLog<RevFrame>, now: RevFrame) -> bool {
    let unchanged = after.timeline() == before.timeline() && after.undone_first_run() == before.undone_first_run();
    if before.present() is None || frame_before(before.present()->Some_0) != now {
        unchanged
    } else if before.timeline()->Some_0.past.len() > 0 {
        after.timeline() == Some(before.timeline()->Some_0.backward())
            && after.undone_first_run() == before.undone_first_run()
    } else if before.undone_first_run() == Some(false) {
        after.timeline() == before.timeline() && after.undone_first_run() == Some(true)
    } else {
        unchanged
    }
}

/// Records a run at `now` in a last-run log, and returns the previous run.
pub fn forward_last_run(log: &mut InitNoneLog<RevFrame>, now: RevFrame) -> (last_run: Option<RevFrame>)
    requires
        old(log).wf(),
    ensures
        final(log).wf(),
        last_run == old(log).present(),
        final(log).present() == Some(now),
        pushed_run(*old(log), *final(log), now),
{
    let last_run = match log.get() {
        Some(frame) => Some(*frame),
        None => None,
    };
    log.push_present(now);
    last_run
}

/// Moves a last-run log forward to the run at `now`, and returns the run before it. Fails
/// when the log holds no next run, or when its next run was not at `now`.
pub fn forward_log_last_run(log: &mut InitNoneLog<RevFrame>, now: RevFrame) -> (r: Result<Option<RevFrame>, FrameMismatch>)
    requires
        old(log).wf(),
    ensures
        final(log).wf(),
        ({
            let steps = old(log).timeline() is Some && (old(log).undone_first_run() == Some(true)
                || old(log).timeline()->Some_0.future.len() > 0);
            let next = if old(log).undone_first_run() == Some(true) {
                old(log).timeline()->Some_0.present
            } else {
                old(log).timeline()->Some_0.future[0]
            };
            &&& !steps ==> r is Err && r->Err_0.spec_expected() == None::<RevFrame>
            &&& steps && next != now ==> r is Err && r->Err_0.spec_expected() == Some(next)
            &&& steps && next == now ==> r == Ok::<Option<RevFrame>, FrameMismatch>(old(log).present())
            &&& steps ==> final(log).present() == Some(next)
        }),
        stepped_forward(*old(log), *final(log)),
{
    let last_run = match log.get() {
        Some(frame) => Some(*frame),
        None => None,
    };
    proof {
        log.lemma_never_ran();
    }
    let stepped = log.forward_log();
    proof {
        log.lemma_never_ran();
    }
    if stepped.is_err() {
        return Err(FrameMismatch { expected: None });
    }
    let expected = match log.get() {
        Some(frame) => *frame,
        None => {
            proof {
                assert(false);
            }
            now
        },
    };
    if expected != now {
        return Err(FrameMismatch { expected: Some(expected) });
    }
    Ok(last_run)
}

/// Moves a last-run log back from the run at the frame after `now`, and returns the run that
/// is present then. Fails when the log holds no run, when its present run was not at the
/// frame after `now`, or when it cannot step back.
pub fn backward_log_last_run(log: &mut InitNoneLog<RevFrame>, now: RevFrame) -> (r: Result<Option<RevFrame>, LastRunError>)
    requires
        old(log).wf(),
    ensures
        final(log).wf(),
        old(log).present() is None ==> r == Err::<Option<RevFrame>, LastRunError>(LastRunError::FrameMismatch { expected: None })
            && *final(log) == *old(log),
        old(log).present() is Some && frame_before(old(log).present()->Some_0) != now ==> r == Err::<Option<RevFrame>, LastRunError>(
            LastRunError::FrameMismatch { expected: Some(frame_before(old(log).present()->Some_0)) },
        ) && *final(log) == *old(log),
        old(log).present() is Some && frame_before(old(log).present()->Some_0) == now ==> ({
            &&& !can_step_back(*old(log)) ==> r == Err::<Option<RevFrame>, LastRunError>(LastRunError::OutOfLog)
            &&& can_step_back(*old(log)) ==> r == Ok::<Option<RevFrame>, LastRunError>(present_after_step_back(*old(log)))
                && final(log).present() == present_after_step_back(*old(log))
        }),
        stepped_backward(*old(log), *final(log), now),
{
    let present = match log.get() {
        Some(frame) => *frame,
        None => {
            return Err(LastRunError::FrameMismatch { expected: None });
        },
    };
    let expected = previous_frame(present);
    if expected != now {
        return Err(LastRunError::FrameMismatch { expected: Some(expected) });
    }
    let ghost before = *log;
    let stepped = log.backward_log();
    proof {
        // the log holds a state, so its first push is not undone
        if let Some(undone) = before.undone_first_run() {
            if undone {
                assert(before.undone_first_run() == Some(true));
            } else {
                assert(before.undone_first_run() == Some(false));
            }
        }
    }
    if stepped.is_err() {
        return Err(LastRunError::OutOfLog);
    }
    match log.get() {
        Some(frame) => Ok(Some(*frame)),
        None => Ok(None),
    }
}

/// What a further `forward` for an entity within one run of the system gives, after the
/// entity's log already answered `answer` in that run: the recorded previous run. It is asked
/// only after a successful answer.
pub fn cached_forward(answer: Result<Option<RevFrame>, LastRunError>) -> (last_run: Option<RevFrame>)
    requires
        answer is Ok,
    ensures
        last_run == answer->Ok_0,
{
    match answer {
        Ok(last_run) => last_run,
        Err(_) => vstd::pervasive::unreached(),
    }
}

/// What a further `forward_log` for an entity within one run of the system gives, after the
/// entity's log already answered `answer` in that run: the same answer, a mismatch as a
/// mismatch. It is not asked after an answer that the log could not step back.
pub fn cached_forward_log(answer: Result<Option<RevFrame>, LastRunError>) -> (r: Result<Option<RevFrame>, FrameMismatch>)
    requires
        answer != Err::<Option<RevFrame>, LastRunError>(LastRunError::OutOfLog),
    ensures
        answer is Ok ==> r == Ok::<Option<RevFrame>, FrameMismatch>(answer->Ok_0),
        answer matches Err(LastRunError::FrameMismatch { expected }) ==> r is Err && r->Err_0.spec_expected() == expected,
{
    match answer {
        Ok(last_run) => Ok(last_run),
        Err(LastRunError::FrameMismatch { expected }) => Err(FrameMismatch { expected }),
        Err(LastRunError::OutOfLog) => vstd::pervasive::unreached(),
    }
}

/// Updates a system's last-run log for the direction the schedule moves in at `now`, and
/// returns the system's previous run. When the world runs on, the oldest past run goes first
/// when the run after it lies at or before `past_end`, the oldest frame the world can go back
/// to.
pub fn update_system_last_run(
    log: &mut InitNoneLog<RevFrame>,
    direction: RevDirection,
    now: RevFrame,
    past_end: u64,
) -> (r: Result<Option<RevFrame>, LastRunError>)
    requires
        old(log).wf(),
    ensures
        final(log).wf(),
        direction == RevDirection::NotLog ==> r == Ok::<Option<RevFrame>, LastRunError>(old(log).present())
            && final(log).present() == Some(now) && trimmed_and_pushed(*old(log), *final(log), now, past_end),
        direction == RevDirection::ForwardLog ==> stepped_forward(*old(log), *final(log)),
        direction == RevDirection::BackwardLog ==> stepped_backward(*old(log), *final(log), now),
        direction == RevDirection::ForwardLog ==> ({
            let steps = old(log).timeline() is Some && (old(log).undone_first_run() == Some(true)
                || old(log).timeline()->Some_0.future.len() > 0);
            let next = if old(log).undone_first_run() == Some(true) {
                old(log).timeline()->Some_0.present
            } else {
                old(log).timeline()->Some_0.future[0]
            };
            &&& !steps ==> r == Err::<Option<RevFrame>, LastRunError>(LastRunError::FrameMismatch { expected: None })
            &&& steps && next != now ==> r == Err::<Option<RevFrame>, LastRunError>(LastRunError::FrameMismatch { expected: Some(next) })
            &&& steps && next == now ==> r == Ok::<Option<RevFrame>, LastRunError>(old(log).present())
        }),
        direction == RevDirection::BackwardLog ==> ({
            &&& old(log).present() is None ==> r == Err::<Option<RevFrame>, LastRunError>(LastRunError::FrameMismatch { expected: None })
            &&& old(log).present() is Some && frame_before(old(log).present()->Some_0) != now ==> r == Err::<Option<RevFrame>, LastRunError>(
                LastRunError::FrameMismatch { expected: Some(frame_before(old(log).present()->Some_0)) },
            )
            &&& old(log).present() is Some && frame_before(old(log).present()->Some_0) == now && !can_step_back(*old(log))
                ==> r == Err::<Option<RevFrame>, LastRunError>(LastRunError::OutOfLog)
            &&& old(log).present() is Some && frame_before(old(log).present()->Some_0) == now && can_step_back(*old(log))
                ==> r == Ok::<Option<RevFrame>, LastRunError>(present_after_step_back(*old(log)))
        }),
{
    match direction {
        RevDirection::NotLog => {
            let _popped = log.pop_past_by_logged_at(past_end);
            Ok(forward_last_run(log, now))
        },
        RevDirection::ForwardLog => match forward_log_last_run(log, now) {
            Ok(last_run) => Ok(last_run),
            Err(mismatch) => Err(LastRunError::from(mismatch)),
        },
        RevDirection::BackwardLog => backward_log_last_run(log, now),
    }
}

} // verus!
