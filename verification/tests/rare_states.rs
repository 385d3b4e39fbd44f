use std::collections::VecDeque;

use bevy_oozlum::log::{OutOfLog, RareStatesLog};

fn deque(values: &[char]) -> VecDeque<char> {
    values.iter().copied().collect()
}

fn present(log: &RareStatesLog<char, u8, 8>) -> (Vec<char>, u8) {
    let (states, entry) = log.get();
    (states.into_iter().copied().collect(), *entry)
}

#[test]
fn rare_states_push_and_traverse() {
    let mut log = RareStatesLog::<char, u8, 8>::new(deque(&['a', 'b']), 1);
    assert_eq!(log.push_present(deque(&['c', 'd']), 2), None);
    assert_eq!(log.push_present(deque(&['e', 'f']), 3), None);
    log.backward_log().expect("in log");

    assert_eq!(present(&log), (vec!['c', 'd'], 2));
    assert_eq!(log.entries_len(), 2);
    assert_eq!(log.states_len(), 6);

    // a push without values keeps the present group and hands the entry back
    assert_eq!(log.push_present(VecDeque::new(), 9), Some(9));
    assert_eq!(present(&log), (vec!['c', 'd'], 2));
    assert_eq!(log.states_len(), 4);

    // stepping back over that push keeps the present group too
    assert_eq!(log.backward_log(), Ok(()));
    assert_eq!(present(&log), (vec!['c', 'd'], 2));
    assert_eq!(log.backward_log(), Ok(()));
    assert_eq!(present(&log), (vec!['a', 'b'], 1));
    assert_eq!(log.backward_log(), Err(OutOfLog));

    assert_eq!(log.forward_log(), Ok(()));
    assert_eq!(log.forward_log(), Ok(()));
    assert_eq!(present(&log), (vec!['c', 'd'], 2));
    assert_eq!(log.forward_log(), Err(OutOfLog));
}

#[test]
fn rare_states_past_and_future() {
    let mut log = RareStatesLog::<char, u8, 8>::new(deque(&['a']), 1);
    log.push_present(deque(&['b', 'c']), 2);
    log.push_present(deque(&['d']), 3);

    let (past, entry) = log.past_end().expect("past");
    assert_eq!(past.into_iter().copied().collect::<Vec<_>>(), vec!['a']);
    assert_eq!(*entry, 1);

    let popped = log.pop_past().expect("past");
    assert_eq!(popped.value, deque(&['a']));
    assert_eq!(popped.entry, 1);
    assert_eq!(log.states_len(), 3);

    log.backward_log().expect("in log");
    let (states, entries) = log.drain_future();
    assert_eq!(states, deque(&['d']));
    assert_eq!(entries.len(), 1);
    assert_eq!(*entries[0].entry(), 3);
    assert_eq!(entries[0].amount(), 1);
    assert_eq!(present(&log), (vec!['b', 'c'], 2));

    // without future values a clear keeps no values
    let mut cleared = log.clone();
    cleared.clear();
    assert_eq!(cleared.states_len(), 0);
    assert_eq!(cleared.entries_len(), 0);

    log.clear_empty(7);
    assert_eq!(present(&log), (vec![], 7));
    assert_eq!(log.states_len(), 0);
}

#[test]
fn rare_states_shorten_by_len() {
    let mut log = RareStatesLog::<char, u8, 8>::new(deque(&['a']), 1);
    log.push_present(deque(&['b']), 2);
    log.push_present(VecDeque::new(), 0);
    log.push_present(deque(&['c', 'd']), 3);
    // past pushes: 'a' stands for two pushes, 'b' for one
    let mut popped_log = log.clone();
    assert!(popped_log.pop_past_by_len(3).is_none());
    let popped = popped_log.pop_past_by_len(2).expect("the oldest group goes");
    assert_eq!(popped.value, deque(&['a']));
    assert_eq!(popped.entry, 1);

    let drained = log.drain_past_by_len(0);
    assert_eq!(drained, deque(&['a', 'b']));
    assert_eq!(present(&log), (vec!['c', 'd'], 3));
    assert_eq!(log.entries_len(), 0);
}

#[test]
fn rare_states_amount_overflow() {
    let many: VecDeque<u8> = (0..=255).collect();
    let error = RareStatesLog::<u8, (), 1>::try_new(many.clone(), ()).expect_err("pushed too many");
    assert_eq!(error.max_amount(), 255);
    assert_eq!(error.values, many);

    let mut log = RareStatesLog::<u8, (), 1>::try_new((0..255).collect(), ()).expect("fits");
    let error = log.try_push_present(many.clone(), ()).expect_err("pushed too many");
    assert_eq!(error.values.len(), 256);
    assert_eq!(log.states_len(), 255);
    assert_eq!(log.try_push_present((0..3).collect(), ()).map_err(|_| ()), Ok(None));
    assert_eq!(log.states_len(), 258);

    let error = log.try_clear_with(many, ()).expect_err("pushed too many");
    assert_eq!(error.values.len(), 256);
    assert_eq!(log.try_clear_with((0..2).collect(), ()).map_err(|_| ()), Ok(()));
    assert_eq!(log.states_len(), 2);
}

#[test]
fn rare_states_clear_keeps_following_values() {
    let mut log = RareStatesLog::<char, u8, 8>::new(deque(&['a']), 1);
    log.push_present(deque(&['b', 'c']), 2);
    log.push_present(deque(&['d', 'e', 'f']), 3);
    log.backward_log().expect("in log");
    assert_eq!(present(&log), (vec!['b', 'c'], 2));

    // the values up to the end of the present group go; of those that follow, as many stay as
    // the present group holds
    log.clear();
    assert_eq!(log.states_len(), 2);
    assert_eq!(log.entries_len(), 0);
    assert_eq!(present(&log), (vec!['d', 'e'], 2));
}
