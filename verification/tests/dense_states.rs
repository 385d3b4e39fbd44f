use std::collections::VecDeque;

use bevy_oozlum::log::DenseStatesLog;

fn states(log: &DenseStatesLog<i32, char, 1>) -> (Vec<i32>, char) {
    let (states, entry) = log.get();
    (states.into_iter().cloned().collect(), *entry)
}

#[test]
fn dense_states_clear() {
    let mut original = DenseStatesLog::<_, _, 1>::try_new(VecDeque::from([1, 1]), 'a').unwrap();
    original.try_push(VecDeque::from([2, 2]), 'b').unwrap();
    original.try_push(VecDeque::from([3, 3]), 'c').unwrap();
    original.backward_log().expect("in log");

    let mut log = original.clone();
    log.clear();
    assert_eq!(states(&log), (vec![2, 2], 'b'));
    assert_eq!(log.states_len(), 2);
    assert_eq!(log.entries_len(), 0);

    let mut log = original.clone();
    log.clear_empty('d');
    assert_eq!(states(&log), (vec![], 'd'));
    assert_eq!(log.states_len(), 0);
    assert_eq!(log.entries_len(), 0);

    let mut log = original.clone();
    let err = log
        .try_clear_with(VecDeque::from([0; 256]), 'e')
        .expect_err("pushed too many");
    assert_eq!(err.values, [0; 256]);
    assert_eq!(err.entry_amount.amount(), 256);
    assert_eq!(err.max_amount(), 255);
    assert_eq!(err.entry_amount.entry, 'e');
    // unchanged
    assert_eq!(states(&log), (vec![2, 2], 'b'));
    assert_eq!(log.states_len(), 6);
    assert_eq!(log.entries_len(), 2);

    let mut log = original.clone();
    let result = log.try_clear_with(VecDeque::from([4, 4]), 'f');
    assert!(result.is_ok());
    assert_eq!(states(&log), (vec![4, 4], 'f'));
    assert_eq!(log.states_len(), 2);
    assert_eq!(log.entries_len(), 0);
}

#[test]
fn dense_states_log_traversal_works() {
    let mut log = DenseStatesLog::<char, char, 1>::try_new(VecDeque::from(vec!['a'; 2]), 'A').unwrap();
    let get = |log: &DenseStatesLog<char, char, 1>| {
        let (states, entry) = log.get();
        (states.into_iter().cloned().collect::<Vec<_>>(), *entry)
    };
    assert!(log.try_push_and_pop_past(2, VecDeque::from(vec!['b'; 3]), 'B').unwrap().is_none());
    assert_eq!((log.states_len(), log.entries_len()), (5, 1));
    assert!(log.try_push_and_pop_past(2, VecDeque::from(vec!['c'; 4]), 'C').unwrap().is_none());
    assert_eq!((log.states_len(), log.entries_len()), (9, 2));
    let popped = log.try_push_and_pop_past(2, VecDeque::from(vec!['d'; 5]), 'D').unwrap().unwrap();
    assert_eq!(popped.value, vec!['a'; 2]);
    assert_eq!(popped.entry, 'A');
    assert_eq!((log.states_len(), log.entries_len()), (12, 2));

    assert!(log.backward_log().is_ok());
    assert_eq!(get(&log), (vec!['c'; 4], 'C'));
    assert!(log.backward_log().is_ok());
    assert_eq!(get(&log), (vec!['b'; 3], 'B'));
    assert!(log.backward_log().is_err());
    assert_eq!(get(&log), (vec!['b'; 3], 'B'));

    assert!(log.forward_log().is_ok());
    assert_eq!(get(&log), (vec!['c'; 4], 'C'));
    assert!(log.forward_log().is_ok());
    assert_eq!(get(&log), (vec!['d'; 5], 'D'));
    assert!(log.forward_log().is_err());

    assert!(log.backward_log().is_ok());
    assert!(log.backward_log().is_ok());
    let (future_states, future_entries) = log.drain_future();
    assert_eq!(future_states, vec!['c', 'c', 'c', 'c', 'd', 'd', 'd', 'd', 'd']);
    let entries: Vec<char> = future_entries.iter().map(|e| e.entry).collect();
    assert_eq!(entries, vec!['C', 'D']);
    assert_eq!((log.states_len(), log.entries_len()), (3, 0));

    assert!(log.try_push_and_pop_past(2, VecDeque::from(vec!['e'; 6]), 'E').unwrap().is_none());
    assert_eq!((log.states_len(), log.entries_len()), (9, 1));

    // storing too many states fails and leaves the log unchanged
    let err = log.try_push_and_pop_past(2, VecDeque::from(vec!['f'; 256]), 'F').unwrap_err();
    assert_eq!(err.values.len(), 256);
    assert_eq!(get(&log), (vec!['e'; 6], 'E'));
    assert_eq!((log.states_len(), log.entries_len()), (9, 1));
}

#[test]
fn dense_states_failed_push_drops_future_values() {
    let mut log = DenseStatesLog::<_, _, 1>::try_new(VecDeque::from([1, 1]), 'a').unwrap();
    log.try_push(VecDeque::from([2, 2]), 'b').unwrap();
    log.try_push(VecDeque::from([3, 3]), 'c').unwrap();
    log.backward_log().expect("in log");
    let err = log.try_push(VecDeque::from([0; 256]), 'd').expect_err("pushed too many");
    assert_eq!(err.values, [0; 256]);
    // the values of the future group are gone, the present group stays
    assert_eq!(log.states_len(), 4);
    assert_eq!(states(&log), (vec![2, 2], 'b'));

    // without a future group the log stays as it was
    let mut log = DenseStatesLog::<_, _, 1>::try_new(VecDeque::from([1, 1]), 'a').unwrap();
    assert!(log.try_push(VecDeque::from([0; 256]), 'd').is_err());
    assert_eq!(log.states_len(), 2);
    assert_eq!(states(&log), (vec![1, 1], 'a'));
}
