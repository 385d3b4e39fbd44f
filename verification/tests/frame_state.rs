use bevy_oozlum::log::FrameStateLog;

/// A frame log with the frame the world stands at; the log keeps the last `max_world_states`
/// frames.
struct Log {
    log: FrameStateLog,
    now: u64,
    max_world_states: u64,
}

impl Log {
    fn new(max_world_states: u64, now: u64) -> Self {
        Self { log: FrameStateLog::new(now), now, max_world_states }
    }
    fn past_end(&self) -> u64 {
        self.now.saturating_sub(self.max_world_states - 1)
    }
    fn forward_skip(&mut self) {
        self.now += 1;
    }
    fn forward(&mut self, push: u64, expected_past_len: usize, expected_drain: Vec<u64>) {
        self.now += 1;
        assert_eq!(self.now, push);
        let actual_drain: Vec<u64> = self.log.push_and_drain_past(self.now, self.past_end()).into_iter().collect();
        assert_eq!(actual_drain, expected_drain);
        assert_eq!(self.log.past_len(), expected_past_len);
    }
    fn forward_log(&mut self, result: bool) {
        self.now += 1;
        assert_eq!(self.log.forward_log(self.now), result);
    }
    fn backward_log(&mut self, result: bool) {
        self.now -= 1;
        assert_eq!(self.log.backward_log(self.now), result);
    }
}

#[test]
fn frame_state_log_traversal_works() {
    let mut log = Log::new(4, 0);
    log.forward(1, 1, vec![]);
    log.forward(2, 2, vec![]);
    log.forward_skip();
    // shortened log
    log.forward(4, 2, vec![0]);
    log.forward_skip();

    log.backward_log(false);
    log.backward_log(true);
    log.backward_log(false);

    log.forward_log(false);
    log.forward_log(true);
    log.forward_log(false);
}

#[test]
fn frame_state_future_and_clear() {
    let mut log = FrameStateLog::with_capacity(5, 8);
    log.push_and_drain_past(6, 0);
    log.push_and_drain_past(8, 0);
    assert!(log.backward_log(7));
    assert_eq!(log.frames_len(), 2);
    assert_eq!(log.drain_future().into_iter().collect::<Vec<_>>(), vec![8]);
    assert!(!log.forward_log(8));
    log.clear();
    assert_eq!(log.frames_len(), 0);
    assert!(!log.backward_log(0));
    log.clear_with(9);
    assert_eq!(log.past_len(), 0);
    assert!(log.frames_is_empty());
}
