use std::collections::VecDeque;

use bevy_oozlum::log::{OutOfLog, RareValueLog, RareValuesLog};

/// Two logs with one push per frame, one shortened by popping and one by draining, and the
/// frame the world stands at; the world keeps up to three states.
#[derive(Clone)]
struct Logs {
    now: usize,
    logs: [RareValueLog<usize>; 2],
}

impl Logs {
    fn new(present: usize) -> Self {
        Self { now: 0, logs: [RareValueLog::new(present), RareValueLog::new(present)] }
    }
    fn past_frames(&self) -> usize {
        self.now.min(2)
    }
    fn forward(&mut self, value: usize, push: bool, minimum_log_len: usize, expected_values_len: usize) {
        self.now += 1;
        let past_frames = self.past_frames();
        let push = if push { Some(value) } else { None };
        let [log1, log2] = &mut self.logs;

        log1.push_present(push);
        log1.pop_past_by_len(past_frames, 1);
        assert!(log1.log_len() >= minimum_log_len);
        assert_eq!(log1.values_len(), expected_values_len);
        assert_eq!(*log1.get(), value);

        log2.push_present(push);
        let _ = log2.drain_past_by_len(past_frames, 1);
        assert!(log2.log_len() >= minimum_log_len);
        assert_eq!(log2.values_len(), expected_values_len);
        assert_eq!(*log2.get(), value);
    }
    fn backward_log(&mut self, expected_value: Result<usize, OutOfLog>) {
        for log in self.logs.iter_mut() {
            match expected_value {
                Ok(value) => {
                    assert_eq!(log.backward_log(), Ok(()));
                    assert_eq!(*log.get(), value);
                },
                Err(error) => assert_eq!(log.backward_log(), Err(error)),
            }
        }
        if expected_value.is_ok() {
            self.now -= 1;
        }
    }
    fn forward_log(&mut self, expected_value: Result<usize, OutOfLog>) {
        for log in self.logs.iter_mut() {
            match expected_value {
                Ok(value) => {
                    assert_eq!(log.forward_log(), Ok(()));
                    assert_eq!(*log.get(), value);
                },
                Err(error) => assert_eq!(log.forward_log(), Err(error)),
            }
        }
        if expected_value.is_ok() {
            self.now += 1;
        }
    }
}

#[test]
fn test() {
    let mut logs = Logs::new(0);

    // the present value is not part of the log
    logs.forward(0, false, 0, 0);
    logs.forward(0, false, 1, 0);
    logs.forward(0, false, 2, 0);
    logs.forward(0, false, 2, 0);

    // the stored value goes once the pushes after it cover the kept frames
    logs.forward(1, true, 2, 1);
    logs.forward(1, false, 2, 1);
    logs.forward(1, false, 2, 0);

    logs.forward(2, true, 2, 1);
    logs.forward(2, false, 2, 1);

    logs.backward_log(Ok(2));
    logs.backward_log(Ok(1));

    logs.forward_log(Ok(2));
    logs.forward_log(Ok(2));
    logs.forward_log(Err(OutOfLog));

    logs.backward_log(Ok(2));
    logs.backward_log(Ok(1));
    logs.forward(1, false, 2, 0);
}

#[test]
fn rare_value_past_end_and_pop() {
    let mut log = RareValueLog::with_capacity('a', 4);
    assert_eq!(log.past_end(), None);
    assert_eq!(log.pop_past(), None);
    log.push_present(Some('b'));
    log.push_present(Some('c'));
    assert_eq!(log.past_end(), Some(&'a'));
    assert_eq!(log.pop_past(), Some('a'));
    assert_eq!(log.log_len(), 1);
    *log.unlogged_get_mut() = 'd';
    log.backward_log().expect("in log");
    assert_eq!(log.drain_future(), vec!['d']);
    log.clear('e');
    assert_eq!(log.into_inner(), 'e');
}

fn deque(values: &[char]) -> VecDeque<char> {
    values.iter().copied().collect()
}

#[test]
fn rare_values_groups() {
    let mut log = RareValuesLog::<char, u8, 8>::new_empty(0);
    assert_eq!(log.push_present(deque(&['a']), 1), None);
    assert_eq!(log.push_present(deque(&['b', 'c']), 2), None);
    assert_eq!(log.push_present(VecDeque::new(), 9), Some(9));
    assert_eq!(log.log_len(), 3);
    assert_eq!(log.values_len(), 3);

    let (values, entry) = log.get();
    assert_eq!(values.into_iter().copied().collect::<Vec<_>>(), vec!['b', 'c']);
    assert_eq!(*entry, 2);

    log.backward_log().expect("in log");
    log.backward_log().expect("in log");
    let (values, entry) = log.get();
    assert_eq!(values.into_iter().copied().collect::<Vec<_>>(), vec!['a']);
    assert_eq!(*entry, 1);

    let (values, entries) = log.drain_future();
    assert_eq!(values, deque(&['b', 'c']));
    assert_eq!(entries, vec![2]);

    let small = RareValuesLog::<u8, (), 1>::new((0..=255).collect(), ());
    assert!(small.is_err());
    // a log made with values counts them in its present entry but places them after it
    let made = RareValuesLog::<u8, (), 1>::new((0..3).collect(), ()).expect("fits");
    assert_eq!(made.values_len(), 3);
    let made = RareValuesLog::<u8, (), 1>::new(VecDeque::new(), ()).expect("fits");
    assert_eq!(made.get().0.len(), 0);
    let mut small = RareValuesLog::<u8, (), 1>::new_empty(());
    assert!(small.clear_with((0..=255).collect(), ()).is_err());
    assert!(small.clear_with((0..3).collect(), ()).is_ok());
    assert_eq!(small.values_len(), 3);
}
