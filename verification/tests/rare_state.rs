use bevy_oozlum::frame::RevFrame;
use bevy_oozlum::log::{OutOfLog, RareStateLog};

#[test]
fn rare_state_clear() {
    let mut original = RareStateLog::new(1);
    original.push_present(Some(2));
    original.push_present(None);
    original.push_present(Some(3));
    original.backward_log().expect("in log");

    let mut log = original.clone();
    log.clear();
    assert_eq!(*log.get(), 2, "log: {log:#?}\noriginal: {original:#?}");
    assert_eq!(log.states_len(), 0, "log: {log:#?}\noriginal: {original:#?}");

    let mut log = original.clone();
    log.clear_with(4);
    assert_eq!(*log.get(), 4, "log: {log:#?}\noriginal: {original:#?}");
    assert_eq!(log.states_len(), 0, "log: {log:#?}\noriginal: {original:#?}");
}

/// Pushes `state` (or nothing) into both logs, shortens one by popping and the other by
/// draining, and checks both.
fn forward(
    logs: &mut [RareStateLog<(u8, u32)>; 2],
    max_past_len: usize,
    state: (u8, u32),
    state_is_pushed: bool,
    expected_states_len: usize,
    expected_popped: Option<(u8, u32)>,
) {
    let push = if state_is_pushed { Some(state) } else { None };
    let [log1, log2] = logs;
    log1.push_present(push);
    assert_eq!(log1.pop_past_by_len(max_past_len), expected_popped);
    assert_eq!(log1.states_len(), expected_states_len);
    assert_eq!(*log1.get(), state);

    log2.push_present(push);
    let drained = log2.drain_past_by_len(max_past_len);
    assert_eq!(drained.as_slice(), expected_popped.as_slice());
    assert_eq!(log2.states_len(), expected_states_len);
    assert_eq!(*log2.get(), state);
}

fn backward_log(logs: &mut [RareStateLog<(u8, u32)>; 2], state: (u8, u32), expected: Result<bool, OutOfLog>) {
    for log in logs.iter_mut() {
        assert_eq!(log.backward_log(), expected);
        assert_eq!(*log.get(), state);
    }
}

fn forward_log(logs: &mut [RareStateLog<(u8, u32)>; 2], state: (u8, u32), expected: Result<bool, OutOfLog>) {
    for log in logs.iter_mut() {
        assert_eq!(log.forward_log(), expected);
        assert_eq!(*log.get(), state);
    }
}

#[test]
fn push() {
    let mut logs = [RareStateLog::new((0, 0)), RareStateLog::new((0, 0))];

    forward(&mut logs, 0, (0, 0), false, 0, None);
    forward(&mut logs, 1, (2, 2), true, 1, None);
    // the skip after the initial state still counts
    forward(&mut logs, 2, (3, 3), true, 2, None);
    forward(&mut logs, 3, (3, 3), false, 2, None);
    // the oldest entry goes once the pushes after it reach the limit
    forward(&mut logs, 3, (5, 5), true, 2, Some((0, 0)));

    backward_log(&mut logs, (3, 3), Ok(true));
    backward_log(&mut logs, (3, 3), Ok(false));
    backward_log(&mut logs, (2, 2), Ok(true));
    backward_log(&mut logs, (2, 2), Err(OutOfLog));

    forward_log(&mut logs, (3, 3), Ok(true));
    forward_log(&mut logs, (3, 3), Ok(false));
    forward_log(&mut logs, (5, 5), Ok(true));
    forward_log(&mut logs, (5, 5), Err(OutOfLog));

    backward_log(&mut logs, (3, 3), Ok(true));
    backward_log(&mut logs, (3, 3), Ok(false));
    backward_log(&mut logs, (2, 2), Ok(true));

    let mut clone = logs.clone();
    for log in clone.iter_mut() {
        assert_eq!(log.drain_future(), vec![(3, 3), (5, 5)]);
        assert_eq!(log.states_len(), 0);
    }
    for logs in [&mut logs, &mut clone] {
        // the future entries were dropped by the push
        forward(logs, 3, (4, 3), true, 1, None);
    }
}

#[test]
fn rare_state_backward_then_forward_restores() {
    let mut log = RareStateLog::new('a');
    log.push_present(Some('b'));
    log.push_present(None);
    log.push_present(Some('c'));
    let before_len = log.states_len();
    for _ in 0..3 {
        log.backward_log().expect("in log");
    }
    assert_eq!(*log.get(), 'a');
    for _ in 0..3 {
        log.forward_log().expect("in log");
    }
    assert_eq!(*log.get(), 'c');
    assert_eq!(log.states_len(), before_len);
    assert_eq!(log.forward_log(), Err(OutOfLog));
}

#[test]
fn rare_state_pop_past_by_logged_at() {
    let mut log = RareStateLog::new(RevFrame(1));
    log.push_present(Some(RevFrame(2)));
    log.push_present(None);
    log.push_present(Some(RevFrame(4)));
    // the entry after the oldest one was logged at 2
    assert_eq!(log.pop_past_by_logged_at(1), None);
    assert_eq!(log.pop_past_by_logged_at(2), Some(RevFrame(1)));
    // only one past entry is left
    assert_eq!(log.pop_past_by_logged_at(10), None);
    assert_eq!(*log.get(), RevFrame(4));
}
