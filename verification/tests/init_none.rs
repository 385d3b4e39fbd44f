use bevy_oozlum::frame::RevFrame;
use bevy_oozlum::log::{InitNoneLog, InitiallyNoneStateLog, OutOfLog};

/// A pair of logs, one shortened by popping and one by draining, with the frame the world
/// stands at; the world keeps `max_world_states` states.
struct Logs {
    logs: [InitNoneLog<(u8, usize)>; 2],
    now: usize,
}

impl Logs {
    fn new(logs: [InitNoneLog<(u8, usize)>; 2]) -> Self {
        Self { logs, now: 0 }
    }
    fn past_world_states(&self) -> usize {
        self.now.min(2)
    }
    fn forward(&mut self, push: u8, expected_states_len: usize, expected_popped: Option<(u8, usize)>) {
        self.now += 1;
        let push = (push, self.now);
        let max_past_len = self.past_world_states();
        let [log1, log2] = &mut self.logs;
        log1.push_present(push);
        assert_eq!(log1.pop_past_by_len(max_past_len), expected_popped);
        assert_eq!(log1.states_len(), expected_states_len);
        assert_eq!(log1.get().cloned(), Some(push));

        log2.push_present(push);
        let drained: Vec<_> = log2.drain_past_by_len(max_past_len).into_iter().collect();
        assert_eq!(drained.as_slice(), expected_popped.as_slice());
        assert_eq!(log2.states_len(), expected_states_len);
        assert_eq!(log2.get().cloned(), Some(push));
    }
    fn forward_log(&mut self, expected_state: Option<u8>, out_of_log: bool) {
        if !out_of_log {
            self.now += 1;
        }
        for log in self.logs.iter_mut() {
            let result = log.forward_log();
            assert_eq!(result, if out_of_log { Err(OutOfLog) } else { Ok(()) });
            assert_eq!(log.get().cloned(), expected_state.map(|state| (state, self.now)));
        }
    }
    fn backward_log(&mut self, expected_state: Option<u8>, out_of_log: bool) {
        if !out_of_log {
            self.now -= 1;
        }
        for log in self.logs.iter_mut() {
            let result = log.backward_log();
            assert_eq!(result, if out_of_log { Err(OutOfLog) } else { Ok(()) });
            assert_eq!(log.get().cloned(), expected_state.map(|state| (state, self.now)));
        }
    }
    fn drain_future(&self, expected_future: Vec<(u8, usize)>, expected_states_len: usize) -> Self {
        let mut clone = Self { logs: self.logs.clone(), now: self.now };
        for log in clone.logs.iter_mut() {
            let future: Vec<_> = log.drain_future().into_iter().collect();
            assert_eq!(future, expected_future);
            assert_eq!(log.states_len(), expected_states_len);
        }
        clone
    }
}

#[test]
fn init_none_push_and_log_traversal() {
    let mut init_none = Logs::new([InitNoneLog::new_none(), InitNoneLog::new_none()]);
    init_none.forward(1, 0, None);
    // reaching the state before the first push
    init_none.backward_log(None, false);
    init_none.backward_log(None, true);
    // back at the first state
    init_none.forward_log(Some(1), false);
    init_none.forward_log(Some(1), true);
    init_none.forward(2, 1, None);
    init_none.forward(3, 2, None);

    let mut init_some = Logs::new([InitNoneLog::new_some((0, 0)), InitNoneLog::new_some((0, 0))]);
    init_some.forward(1, 1, None);
    init_some.backward_log(Some(0), false);
    init_some.backward_log(Some(0), true);
    init_some.forward_log(Some(1), false);
    init_some.forward_log(Some(1), true);
    init_some.forward(2, 2, None);
    // pops the initial value that left the log
    init_some.forward(3, 2, Some((0, 0)));

    for mut logs in [init_none, init_some] {
        logs.forward(4, 2, Some((1, 1)));

        logs.backward_log(Some(3), false);
        logs.backward_log(Some(2), false);
        logs.backward_log(Some(2), true);

        logs.forward_log(Some(3), false);
        logs.forward_log(Some(4), false);
        logs.forward_log(Some(4), true);

        logs.backward_log(Some(3), false);
        logs.backward_log(Some(2), false);

        let clone = logs.drain_future(vec![(3, 3), (4, 4)], 0);
        for mut logs in [logs, clone] {
            // the future was dropped by the push
            logs.forward(5, 1, None);
        }
    }
}

#[test]
fn init_none_undone_first_push() {
    let mut log = InitNoneLog::new_none();
    assert_eq!(log.get(), None);
    assert_eq!(log.forward_log(), Err(OutOfLog));
    log.push_present('a');
    log.push_present('b');
    log.backward_log().expect("in log");
    log.backward_log().expect("undoes the first push");
    assert_eq!(log.get(), None);
    // with the first push undone, all states are future
    let future: Vec<_> = log.drain_future().into_iter().collect();
    assert_eq!(future, vec!['a', 'b']);
    assert_eq!(log.get(), None);
    assert_eq!(log.backward_log(), Err(OutOfLog));

    let mut log = InitNoneLog::some_with_capacity('x', 4);
    log.push_present('y');
    log.clear_log();
    assert_eq!(log.get(), Some(&'y'));
    assert_eq!(log.states_len(), 0);
    log.clear();
    assert_eq!(log.get(), None);
    log.clear_with('z');
    assert_eq!(log.into_inner(), Some('z'));
}

#[test]
fn initially_none_state_log() {
    let mut log = InitiallyNoneStateLog::new();
    assert_eq!(log.get(), None);
    assert_eq!(log.forward_log().map(|_| ()), Err(OutOfLog));
    assert_eq!(*log.push_present(1).get(), 1);
    log.push_present(2);
    assert_eq!(log.get(), Some(&2));

    assert_eq!(*log.backward_log().expect("in log").get(), 1);
    // stepping back from the first state undoes the first push
    assert!(log.backward_log().is_ok());
    assert_eq!(log.get(), None);
    assert_eq!(log.backward_log().map(|_| ()), Err(OutOfLog));
    assert!(log.get_log().is_none());
    assert!(log.get_log_unchecked().is_some());

    assert_eq!(*log.forward_log().expect("first state back").get(), 1);
    assert_eq!(*log.forward_log().expect("in log").get(), 2);
    if let Some(present) = log.unlogged_get_mut() {
        *present = 3;
    }
    assert_eq!(log.get(), Some(&3));
    assert_eq!(log.get_log_mut().expect("has a state").states_len(), 1);

    log.clear();
    assert_eq!(log.get(), None);
    assert!(log.get_log_mut().is_none());
    assert!(log.get_log_mut_unchecked().is_some());
    log.push_present(4);
    assert_eq!(log.get(), Some(&4));
    log.clear_with(5);
    assert_eq!(log.get(), None);
    assert_eq!(*log.forward_log().expect("state back").get(), 5);

    let mut log = InitiallyNoneStateLog::with_capacity(8);
    log.clear_with(6);
    assert_eq!(log.get(), None);
    log.push_present(7);
    assert_eq!(log.get(), Some(&7));
}

#[test]
fn init_none_try_reserve_overflow() {
    let mut log = InitNoneLog::new_some(1u8);
    log.push_present(2);
    assert!(log.states_try_reserve(usize::MAX).is_err());
    assert!(log.states_try_reserve_exact(usize::MAX).is_err());
    assert!(log.states_try_reserve(4).is_ok());
    assert_eq!(log.states_len(), 1);
    assert_eq!(log.get().cloned(), Some(2));
}

#[test]
fn init_none_pop_past_by_logged_at() {
    let mut log = InitNoneLog::new_none();
    assert_eq!(log.pop_past_by_logged_at(10), None);
    log.push_present(RevFrame(1));
    log.push_present(RevFrame(3));
    log.push_present(RevFrame(5));
    // the state after the oldest one was logged at 3
    assert_eq!(log.pop_past_by_logged_at(2), None);
    assert_eq!(log.pop_past_by_logged_at(3), Some(RevFrame(1)));
    // the present state was logged at 5
    assert_eq!(log.pop_past_by_logged_at(4), None);
    assert_eq!(log.pop_past_by_logged_at(5), Some(RevFrame(3)));
    assert_eq!(log.states_len(), 0);
    assert_eq!(log.get().cloned(), Some(RevFrame(5)));
}

#[test]
fn init_none_truncate_future_drain_past_by_logged_at() {
    let mut log = InitNoneLog::new_none();
    assert!(log.truncate_future_drain_past_by_logged_at(10).is_empty());
    log.push_present(RevFrame(1));
    log.push_present(RevFrame(3));
    log.push_present(RevFrame(5));
    log.backward_log().expect("in log");
    // the future state at 5 goes, then the state at 1 whose next state was logged at 3
    let drained: Vec<RevFrame> = log.truncate_future_drain_past_by_logged_at(3).into_iter().collect();
    assert_eq!(drained, vec![RevFrame(1)]);
    assert_eq!(log.states_len(), 0);
    assert_eq!(log.get().cloned(), Some(RevFrame(3)));
}
