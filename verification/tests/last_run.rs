use bevy_oozlum::frame::last_run::{
    backward_log_last_run, cached_forward, cached_forward_log, forward_last_run, forward_log_last_run,
    update_system_last_run, LastRunError,
};
use bevy_oozlum::frame::RevFrame;
use bevy_oozlum::hook::HookDirection;
use bevy_oozlum::log::InitNoneLog;
use bevy_oozlum::meta::RevDirection;

#[test]
fn last_run_follows_the_world() {
    let mut log = InitNoneLog::new_none();
    assert_eq!(forward_last_run(&mut log, RevFrame(1)), None);
    assert_eq!(forward_last_run(&mut log, RevFrame(3)), Some(RevFrame(1)));

    // going back from frame 3 to 2 steps back over the run at 3
    assert_eq!(backward_log_last_run(&mut log, RevFrame(2)), Ok(Some(RevFrame(1))));
    // the present run at 1 is not at the frame after 2
    assert_eq!(
        backward_log_last_run(&mut log, RevFrame(1)),
        Err(LastRunError::FrameMismatch { expected: Some(RevFrame(0)) })
    );
    // going back from 1 to 0 undoes the first run
    assert_eq!(backward_log_last_run(&mut log, RevFrame(0)), Ok(None));
    assert_eq!(log.get(), None);
    assert_eq!(backward_log_last_run(&mut log, RevFrame(0)), Err(LastRunError::FrameMismatch { expected: None }));

    // forward again: the first run comes back at 1, then the run at 3
    assert_eq!(forward_log_last_run(&mut log, RevFrame(1)), Ok(None));
    let mismatch = forward_log_last_run(&mut log, RevFrame(2)).expect_err("next run is at 3");
    assert_eq!(mismatch.expected(), Some(RevFrame(3)));
    let mismatch = forward_log_last_run(&mut log, RevFrame(4)).expect_err("no further run");
    assert_eq!(mismatch.expected(), None);
    assert_eq!(LastRunError::from(mismatch), LastRunError::FrameMismatch { expected: None });
}

#[test]
fn system_last_run_by_direction() {
    let mut log = InitNoneLog::new_some(RevFrame(5));
    assert_eq!(update_system_last_run(&mut log, RevDirection::NotLog, RevFrame(6), 0), Ok(Some(RevFrame(5))));
    assert_eq!(update_system_last_run(&mut log, RevDirection::BackwardLog, RevFrame(5), 0), Ok(Some(RevFrame(5))));
    // the log was made with a run, so there is nothing before it
    assert_eq!(update_system_last_run(&mut log, RevDirection::BackwardLog, RevFrame(4), 0), Err(LastRunError::OutOfLog));
    assert_eq!(update_system_last_run(&mut log, RevDirection::ForwardLog, RevFrame(6), 0), Ok(Some(RevFrame(5))));
    assert_eq!(
        update_system_last_run(&mut log, RevDirection::ForwardLog, RevFrame(7), 0),
        Err(LastRunError::FrameMismatch { expected: None })
    );
}

#[test]
fn system_last_run_trims_past() {
    let mut log = InitNoneLog::new_none();
    assert_eq!(update_system_last_run(&mut log, RevDirection::NotLog, RevFrame(1), 0), Ok(None));
    assert_eq!(update_system_last_run(&mut log, RevDirection::NotLog, RevFrame(2), 0), Ok(Some(RevFrame(1))));
    assert_eq!(update_system_last_run(&mut log, RevDirection::NotLog, RevFrame(3), 0), Ok(Some(RevFrame(2))));
    // the world can go back to frame 2 at most: the run at 1 goes
    assert_eq!(update_system_last_run(&mut log, RevDirection::NotLog, RevFrame(4), 2), Ok(Some(RevFrame(3))));
    assert_eq!(update_system_last_run(&mut log, RevDirection::BackwardLog, RevFrame(3), 2), Ok(Some(RevFrame(3))));
    assert_eq!(update_system_last_run(&mut log, RevDirection::BackwardLog, RevFrame(2), 2), Ok(Some(RevFrame(2))));
    assert_eq!(update_system_last_run(&mut log, RevDirection::BackwardLog, RevFrame(1), 2), Err(LastRunError::OutOfLog));
}

#[test]
fn hook_directions() {
    assert_eq!(HookDirection::from(RevDirection::NotLog), HookDirection::Forward { log: false });
    assert_eq!(HookDirection::from(RevDirection::ForwardLog), HookDirection::Forward { log: true });
    assert_eq!(HookDirection::from(RevDirection::BackwardLog), HookDirection::BackwardLog);
    assert_eq!(RevDirection::try_from(HookDirection::Forward { log: true }), Ok(RevDirection::ForwardLog));
    assert_eq!(RevDirection::try_from(HookDirection::IndeterministicBackwardLog), Err(Some(RevDirection::BackwardLog)));
    assert_eq!(RevDirection::try_from(HookDirection::NonReversibleSchedule), Err(None));

    assert_eq!(HookDirection::in_hook(Some(RevDirection::NotLog)), HookDirection::Forward { log: false });
    assert_eq!(HookDirection::in_hook(Some(RevDirection::ForwardLog)), HookDirection::IndeterministicForwardLog);
    assert_eq!(HookDirection::in_hook(None), HookDirection::NonReversibleSchedule);
    assert!(HookDirection::in_hook(Some(RevDirection::NotLog)).is_recorded());
    assert!(!HookDirection::BackwardLog.is_recorded());
}

#[test]
fn cached_answers() {
    assert_eq!(cached_forward(Ok(Some(RevFrame(3)))), Some(RevFrame(3)));
    assert_eq!(cached_forward_log(Ok(None)), Ok(None));
    let mismatch = cached_forward_log(Err(LastRunError::FrameMismatch { expected: Some(RevFrame(4)) }))
        .expect_err("mismatch stays a mismatch");
    assert_eq!(mismatch.expected(), Some(RevFrame(4)));
}
