use bevy_oozlum::log::DenseStateLog;

#[test]
fn dense_state_clear() {
    let mut original = DenseStateLog::new(1);
    original.push_and_pop_past(usize::MAX, 2);
    original.push_and_pop_past(usize::MAX, 3);
    original.backward_log().expect("in log");

    let mut log = original.clone();
    log.clear();
    assert_eq!(*log.get(), 2, "\nlog: {log:#?}\noriginal: {original:#?}");
    assert_eq!(log.states_len(), 0, "\nlog: {log:#?}\noriginal: {original:#?}");

    let mut log = original.clone();
    log.clear_with(4);
    assert_eq!(*log.get(), 4, "\nlog: {log:#?}\noriginal: {original:#?}");
    assert_eq!(log.states_len(), 0, "\nlog: {log:#?}\noriginal: {original:#?}");
}

fn forward(logs: &mut [DenseStateLog<char>; 2], max_past_len: usize, push: char, expected_states_len: usize, expected_pop: Option<char>) {
    let [log1, log2] = logs;
    let actual_pop = log1.push_and_pop_past(max_past_len, push);
    assert_eq!(*log1.get(), push);
    assert_eq!(actual_pop, expected_pop);
    assert_eq!(log1.states_len(), expected_states_len);

    let actual_drain: Vec<_> = log2.push_and_drain_past(max_past_len, push).into_iter().collect();
    assert_eq!(*log2.get(), push);
    assert_eq!(actual_drain.as_slice(), expected_pop.as_slice());
    assert_eq!(log2.states_len(), expected_states_len);
}

fn forward_log(logs: &mut [DenseStateLog<char>; 2], expected_state: char, expected_out_of_log: bool) {
    for log in logs.iter_mut() {
        assert_eq!(log.forward_log().is_err(), expected_out_of_log);
        assert_eq!(*log.get(), expected_state);
    }
}

fn backward_log(logs: &mut [DenseStateLog<char>; 2], expected_state: char, expected_out_of_log: bool) {
    for log in logs.iter_mut() {
        assert_eq!(log.backward_log().is_err(), expected_out_of_log);
        assert_eq!(*log.get(), expected_state);
    }
}

#[test]
fn dense_state_log_traversal_works() {
    let mut logs = [DenseStateLog::new('a'), DenseStateLog::new('a')];
    forward(&mut logs, 2, 'b', 1, None);
    forward(&mut logs, 2, 'c', 2, None);
    // shortened log
    forward(&mut logs, 2, 'd', 2, Some('a'));

    backward_log(&mut logs, 'c', false);
    backward_log(&mut logs, 'b', false);
    // out of log, no mutations happend to the logs here
    backward_log(&mut logs, 'b', true);

    forward_log(&mut logs, 'c', false);
    forward_log(&mut logs, 'd', false);
    // nothing ever logged past 'd'
    forward_log(&mut logs, 'd', true);

    backward_log(&mut logs, 'c', false);
    backward_log(&mut logs, 'b', false);

    for log in logs.iter_mut() {
        let future: Vec<_> = log.drain_future().into_iter().collect();
        assert_eq!(future, vec!['c', 'd']);
        assert_eq!(log.states_len(), 0);
    }

    // all entries are truncated as they are in the future
    forward(&mut logs, 2, 'e', 1, None);
}

#[test]
fn dense_state_try_reserve_overflow() {
    let mut log = DenseStateLog::new(1);
    log.push_and_pop_past(usize::MAX, 2);
    assert!(log.states_try_reserve(usize::MAX).is_err());
    assert!(log.states_try_reserve_exact(usize::MAX).is_err());
    assert!(log.states_try_reserve(4).is_ok());
    assert!(log.states_try_reserve_exact(4).is_ok());
    assert_eq!(*log.get(), 2);
    assert_eq!(log.states_len(), 1);
}
