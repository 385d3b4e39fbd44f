use bevy_oozlum::log::{OutOfLog, RareTransitionLog};

/// Pushes `push` into both logs, shortens one by popping and the other by draining.
fn forward(
    logs: &mut [RareTransitionLog<(u8, u32)>; 2],
    max_past_len: usize,
    push: Option<(u8, u32)>,
    expected_transitions_len: usize,
    expected_popped: Option<(u8, u32)>,
) {
    let [log1, log2] = logs;
    log1.push_present(push);
    assert_eq!(log1.pop_past_by_len(max_past_len), expected_popped);
    assert_eq!(log1.transitions_len(), expected_transitions_len);

    log2.push_present(push);
    let drained = log2.drain_past_by_len(max_past_len);
    assert_eq!(drained.as_slice(), expected_popped.as_slice());
    assert_eq!(log2.transitions_len(), expected_transitions_len);
}

fn backward_log(logs: &mut [RareTransitionLog<(u8, u32)>; 2], expected: Result<Option<(u8, u32)>, OutOfLog>) {
    for log in logs.iter_mut() {
        let actual = log.backward_log().map(|transition| transition.cloned());
        assert_eq!(actual, expected);
    }
}

fn forward_log(logs: &mut [RareTransitionLog<(u8, u32)>; 2], expected: Result<Option<(u8, u32)>, OutOfLog>) {
    for log in logs.iter_mut() {
        let actual = log.forward_log().map(|transition| transition.cloned());
        assert_eq!(actual, expected);
    }
}

#[test]
fn rare_transition_push_and_log_traversal() {
    let mut logs = [RareTransitionLog::new(), RareTransitionLog::new()];

    forward(&mut logs, 1, Some((1, 1)), 1, None);
    forward(&mut logs, 2, None, 1, None);
    // shortened log
    forward(&mut logs, 2, Some((3, 3)), 1, Some((1, 1)));

    backward_log(&mut logs, Ok(Some((3, 3))));
    backward_log(&mut logs, Ok(None));
    backward_log(&mut logs, Err(OutOfLog));

    forward_log(&mut logs, Ok(None));
    forward_log(&mut logs, Ok(Some((3, 3))));
    forward_log(&mut logs, Err(OutOfLog));

    backward_log(&mut logs, Ok(Some((3, 3))));
    backward_log(&mut logs, Ok(None));

    let mut clone = logs.clone();
    for log in clone.iter_mut() {
        assert_eq!(log.drain_future(), vec![(3, 3)]);
        assert_eq!(log.transitions_len(), 0);
    }
    for logs in [&mut logs, &mut clone] {
        // the future entries were dropped by the push
        forward(logs, 2, None, 0, None);
    }
}

#[test]
fn rare_transition_write_through_handed_out_transition() {
    let mut log = RareTransitionLog::new();
    log.push_present(Some(10));
    if let Ok(Some(transition)) = log.backward_log() {
        *transition = 20;
    } else {
        panic!("a transition is handed out");
    }
    assert_eq!(log.forward_log().map(|t| t.cloned()), Ok(Some(20)));
}

#[test]
fn rare_transition_try_reserve_overflow() {
    let mut log: RareTransitionLog<u8> = RareTransitionLog::new();
    log.push_present(Some(1));
    let len = log.transitions_len();
    assert!(log.transitions_try_reserve(usize::MAX).is_err());
    assert!(log.transitions_try_reserve_exact(usize::MAX).is_err());
    assert!(log.transitions_try_reserve(4).is_ok());
    assert_eq!(log.transitions_len(), len);
}
