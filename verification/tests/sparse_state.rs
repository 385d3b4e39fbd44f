use bevy_oozlum::log::{OutOfLog, SparseStateLog};

#[test]
fn sparse_state_clear() {
    let mut original = SparseStateLog::new(1);
    original.push_and_pop_past(usize::MAX, Some(2));
    original.push_and_pop_past(usize::MAX, None);
    original.push_and_pop_past(usize::MAX, Some(3));
    original.backward_log().expect("in log");

    let mut log = original.clone();
    log.clear();
    assert_eq!(*log.get(), 2, "log: {log:#?}\noriginal: {original:#?}");
    assert_eq!(log.states_len(), 0, "log: {log:#?}\noriginal: {original:#?}");

    let mut log = original.clone();
    log.clear_with(4);
    assert_eq!(*log.get(), 4, "log: {log:#?}\noriginal: {original:#?}");
    assert_eq!(log.states_len(), 0, "log: {log:#?}\noriginal: {original:#?}");
}

struct Logs(Vec<[SparseStateLog<char>; 2]>);

impl Logs {
    fn new(state: char) -> Self {
        Self(vec![[SparseStateLog::new(state), SparseStateLog::new(state)]])
    }
    fn forward(&mut self, max_past_len: usize, state: char, push: bool, expected_states_len: usize, expected_pop: Option<char>) {
        let push = if push { Some(state) } else { None };
        for [log1, log2] in self.0.iter_mut() {
            let actual_pop = log1.push_and_pop_past(max_past_len, push);
            assert_eq!(*log1.get(), state);
            assert_eq!(actual_pop, expected_pop);
            assert_eq!(log1.states_len(), expected_states_len);

            let actual_drain = log2.push_and_drain_past(max_past_len, push);
            assert_eq!(*log2.get(), state);
            assert_eq!(actual_drain.as_slice(), expected_pop.as_slice());
            assert_eq!(log2.states_len(), expected_states_len);
        }
    }
    fn forward_log(&mut self, expected_state: char, expected_result: Result<bool, OutOfLog>) {
        for log in self.0.iter_mut().flatten() {
            assert_eq!(log.forward_log(), expected_result);
            assert_eq!(*log.get(), expected_state);
        }
    }
    fn backward_log(&mut self, expected_state: char, expected_result: Result<bool, OutOfLog>) {
        for log in self.0.iter_mut().flatten() {
            assert_eq!(log.backward_log(), expected_result);
            assert_eq!(*log.get(), expected_state);
        }
    }
    fn drain_future(&mut self, expected_future: Vec<char>, expected_states_len: usize) {
        self.0 = std::mem::take(&mut self.0)
            .into_iter()
            .flatten()
            .map(|mut log| {
                let before = log.clone();
                let actual_future = log.drain_future();
                assert_eq!(actual_future, expected_future);
                assert_eq!(log.states_len(), expected_states_len);
                [before, log]
            })
            .collect();
    }
}

#[test]
fn sparse_state_log_traversal_works() {
    let mut logs = Logs::new('a');
    logs.forward(2, 'a', false, 0, None);
    logs.forward(2, 'b', true, 1, None);
    // the skip after the initial state still counts
    logs.forward(2, 'c', true, 2, None);
    // shortened log
    logs.forward(2, 'c', false, 1, Some('a'));

    logs.backward_log('c', Ok(false));
    logs.backward_log('b', Ok(true));
    logs.backward_log('b', Err(OutOfLog));

    logs.forward_log('c', Ok(true));
    logs.forward_log('c', Ok(false));
    logs.forward_log('c', Err(OutOfLog));

    logs.backward_log('c', Ok(false));
    logs.backward_log('b', Ok(true));

    logs.drain_future(vec!['c'], 0);

    // the future entries were dropped by the push
    logs.forward(2, 'b', false, 0, None);
}
