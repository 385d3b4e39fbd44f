use std::collections::VecDeque;

use bevy_oozlum::log::{DenseStateLog, DenseTransitionLog, DenseTransitionsLog, OutOfLog, PreLogUpdate};

#[test]
fn dense_transition_push_and_traverse() {
    let mut log = DenseTransitionLog::new();
    assert_eq!(log.push_and_pop_past(2, 'a'), None);
    assert_eq!(log.push_and_pop_past(2, 'b'), None);
    // the past holds at most two transitions
    assert_eq!(log.push_and_pop_past(2, 'c'), Some('a'));
    assert_eq!(log.transitions_len(), 2);

    // undoing hands out the newest transition first; what is written through it stays
    let undone = log.backward_log().expect("in log");
    assert_eq!(*undone, 'c');
    *undone = 'C';
    assert_eq!(log.backward_log().map(|t| *t), Ok('b'));
    assert_eq!(log.backward_log().map(|t| *t), Err(OutOfLog));
    assert_eq!(log.forward_log().map(|t| *t), Ok('b'));
    assert_eq!(log.forward_log().map(|t| *t), Ok('C'));
    assert_eq!(log.forward_log().map(|t| *t), Err(OutOfLog));

    let drained: Vec<_> = log.push_and_drain_past(1, 'd').into_iter().collect();
    assert_eq!(drained, vec!['b', 'C']);
    assert_eq!(log.transitions_len(), 1);
}

#[test]
fn dense_transition_pre_update() {
    let mut log = DenseTransitionLog::with_capacity(4);
    log.push_and_pop_past(usize::MAX, 1);
    log.push_and_pop_past(usize::MAX, 2);
    log.push_and_pop_past(usize::MAX, 3);
    log.backward_log().expect("in log");

    let mut clone = log.clone();
    clone.pre_update(PreLogUpdate::Nothing);
    assert_eq!(clone.transitions_len(), 3);
    clone.pre_update(PreLogUpdate::TruncateOrDrainFuture);
    assert_eq!(clone.transitions_len(), 2);
    clone.pre_update(PreLogUpdate::Clear);
    assert!(clone.transitions_is_empty());

    let mut clone = log.clone();
    assert_eq!(clone.pre_update_drain_future(PreLogUpdate::TruncateOrDrainFuture), VecDeque::from(vec![3]));
    let mut clone = log.clone();
    assert_eq!(clone.pre_update_drain_future(PreLogUpdate::Clear), VecDeque::from(vec![3]));
    assert!(clone.transitions_is_empty());
    let mut clone = log.clone();
    assert_eq!(clone.pre_update_drain_past(PreLogUpdate::Clear), VecDeque::from(vec![1, 2]));
    assert!(clone.transitions_is_empty());
    let mut clone = log.clone();
    assert!(clone.pre_update_drain_past(PreLogUpdate::Nothing).is_empty());
    assert_eq!(clone.drain_future(), VecDeque::from(vec![3]));
    clone.truncate_future();
    clone.clear();
    assert_eq!(clone.transitions_len(), 0);
}

#[test]
fn dense_transitions_groups() {
    let mut log = DenseTransitionsLog::<char, u8, 8>::with_capacities(4, 8);
    log.push(VecDeque::from(vec!['a', 'b']), 1);
    let popped = log.push_and_pop_past(1, VecDeque::from(vec!['c']), 2).expect("the past holds one group");
    assert_eq!(popped.value, VecDeque::from(vec!['a', 'b']));
    assert_eq!(popped.entry, 1);
    log.push(VecDeque::from(vec!['d', 'e']), 3);

    let group = log.backward_log().expect("in log");
    assert_eq!(group.value.into_iter().copied().collect::<Vec<_>>(), vec!['d', 'e']);
    assert_eq!(*group.entry, 3);
    let group = log.backward_log().expect("in log");
    assert_eq!(group.value.into_iter().copied().collect::<Vec<_>>(), vec!['c']);
    assert!(log.backward_log().is_err());
    let group = log.forward_log().expect("in log");
    assert_eq!(*group.entry, 2);

    let (values, entries) = log.drain_future();
    assert_eq!(values, VecDeque::from(vec!['d', 'e']));
    assert_eq!(entries.len(), 1);
    assert_eq!(*entries[0].entry(), 3);

    let (drained_values, drained_entries) = log.push_and_drain_past(0, VecDeque::from(vec!['f']), 4);
    assert_eq!(drained_values, VecDeque::from(vec!['c', 'f']));
    assert_eq!(drained_entries.len(), 2);
    assert_eq!(log.entries_len(), 0);
    assert_eq!(log.transitions_len(), 0);

    let mut small = DenseTransitionsLog::<u8, (), 1>::new();
    let error = small.try_push((0..=255).collect(), ()).expect_err("pushed too many");
    assert_eq!(error.values.len(), 256);
    assert_eq!(error.max_amount(), 255);
    assert!(small.try_push((0..255).collect(), ()).is_ok());
}

#[test]
fn capacity_covers_reserved_room() {
    let mut log = DenseStateLog::with_capacity(0u8, 0);
    log.states_reserve_exact(100);
    assert!(log.states_capacity() >= 100);
    log.push_and_pop_past(usize::MAX, 1);
    assert!(log.states_capacity() >= log.states_len());
}
