use std::collections::VecDeque;

use bevy_oozlum::log::{OutOfLog, RareTransitionsLog};

fn deque(values: &[char]) -> VecDeque<char> {
    values.iter().copied().collect()
}

fn stepped(log: &mut RareTransitionsLog<char, u8, 8>, backward: bool) -> Result<Option<(Vec<char>, u8)>, OutOfLog> {
    let r = if backward { log.backward_log() } else { log.forward_log() };
    r.map(|group| group.map(|group| (group.value.into_iter().copied().collect(), *group.entry)))
}

#[test]
fn rare_transitions_push_and_traverse() {
    let mut log = RareTransitionsLog::<char, u8, 8>::new();
    assert_eq!(log.push_present(deque(&['a', 'b']), 1), None);
    assert_eq!(log.push_present(VecDeque::new(), 2), Some(2));
    assert_eq!(log.push_present(deque(&['c']), 3), None);
    assert_eq!(log.entries_len(), 2);
    assert_eq!(log.transitions_len(), 3);

    assert_eq!(stepped(&mut log, true), Ok(Some((vec!['c'], 3))));
    assert_eq!(stepped(&mut log, true), Ok(None));
    assert_eq!(stepped(&mut log, true), Ok(Some((vec!['a', 'b'], 1))));
    assert_eq!(stepped(&mut log, true), Err(OutOfLog));

    assert_eq!(stepped(&mut log, false), Ok(Some((vec!['a', 'b'], 1))));
    assert_eq!(stepped(&mut log, false), Ok(None));
    assert_eq!(stepped(&mut log, false), Ok(Some((vec!['c'], 3))));
    assert_eq!(stepped(&mut log, false), Err(OutOfLog));

    assert_eq!(log.past_end(), Some(&1));
    let popped = log.pop_past().expect("past");
    assert_eq!(popped.value, deque(&['a', 'b']));
    assert_eq!(popped.entry, 1);
    assert_eq!(log.transitions_len(), 1);
}

#[test]
fn rare_transitions_future_and_limits() {
    let mut log = RareTransitionsLog::<char, u8, 8>::with_capacities(4, 8);
    log.push_present(deque(&['a']), 1);
    log.push_present(deque(&['b', 'c']), 2);
    log.push_present(deque(&['d']), 3);
    log.backward_log().expect("in log");

    let (transitions, entries) = log.drain_future();
    assert_eq!(transitions, deque(&['d']));
    assert_eq!(entries.len(), 1);
    assert_eq!(*entries[0].entry(), 3);

    let mut popped_log = log.clone();
    assert!(popped_log.pop_past_by_len(2).is_none());
    let popped = popped_log.pop_past_by_len(1).expect("the oldest group goes");
    assert_eq!(popped.value, deque(&['a']));

    assert_eq!(log.drain_past_by_len(0), deque(&['a', 'b', 'c']));
    assert_eq!(log.transitions_len(), 0);
    assert_eq!(log.past_end(), None);

    log.clear();
    assert_eq!(log.entries_len(), 0);
    assert_eq!(log.transitions_len(), 0);

    let mut small = RareTransitionsLog::<u8, (), 1>::new();
    let error = small.try_push_present((0..=255).collect(), ()).expect_err("pushed too many");
    assert_eq!(error.values.len(), 256);
    assert_eq!(small.transitions_len(), 0);
}
