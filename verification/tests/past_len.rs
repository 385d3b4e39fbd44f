use bevy_oozlum::log::{PastLenLimits, PastLenLog, PastLenState, PreUpdateVariant};
use bevy_oozlum::log::past_len::limits::{check_past_len_limits, count_update, resize_limits, update_past_len_state};

/// A world that keeps `max_world_states` states, with the counters a past length log sees.
struct MetaAndLog {
    log: PastLenLog,
    now: u64,
    max_world_states: u64,
    updates: u64,
    exits: u64,
    clears: u64,
    next_id: u32,
    in_log: bool,
}

impl MetaAndLog {
    fn new(max_world_states: u64) -> Self {
        Self { log: PastLenLog::new(), now: 0, max_world_states, updates: 0, exits: 0, clears: 0, next_id: 0, in_log: false }
    }
    fn past_len(&self) -> u64 {
        self.now.min(self.max_world_states - 1)
    }
    fn past_end(&self) -> u64 {
        self.now - self.past_len()
    }
    fn pre_update(&mut self) {
        self.updates += 1;
        if self.log.pre_update(self.next_id, self.updates, self.exits, self.clears) {
            self.next_id += 1;
        }
    }
    fn forward(&mut self, past_lens: &[u64], clear: bool) {
        if clear {
            self.clears += 1;
        } else if self.in_log {
            self.exits += 1;
        }
        self.in_log = false;
        self.now += 1;
        self.pre_update();
        for &past_len in past_lens {
            let past_end = self.past_end();
            assert_eq!(self.log.update_and_get_past_len(self.now, past_end), past_len, "{:?}", self.log.updated_at());
            self.log.count_update(self.updates);
        }
    }
    fn forward_log(&mut self, updates: u64) {
        self.in_log = true;
        self.now += 1;
        self.pre_update();
        let before = self.log.clone();
        for _ in 0..updates {
            assert!(self.log.forward_log(self.now).is_some());
        }
        assert_eq!(self.log.forward_log(self.now), None);
        assert_eq!(self.log.forward_log_many(self.now), (0, None));
        let mut many = before;
        assert_eq!(many.forward_log_many(self.now).0, updates);
        assert_eq!(many.updated_at(), self.log.updated_at());
    }
    fn backward_log(&mut self, updates: u64) {
        self.in_log = true;
        self.now -= 1;
        self.pre_update();
        let before = self.log.clone();
        for _ in 0..updates {
            assert!(self.log.backward_log(self.now).is_some());
        }
        assert_eq!(self.log.backward_log(self.now), None);
        assert_eq!(self.log.backward_log_many(self.now), (0, None));
        let mut many = before;
        assert_eq!(many.backward_log_many(self.now).0, updates);
        assert_eq!(many.updated_at(), self.log.updated_at());
    }
}

#[test]
fn mod_log_traversal_works() {
    let mut meta_and_log = MetaAndLog::new(4);

    meta_and_log.forward(&[1], false); // frame #1
    meta_and_log.forward(&[2, 3], false); // frame #2
    meta_and_log.forward(&[4, 5], false);
    meta_and_log.forward(&[], false);
    // shortened log of runs from frame #1 and #2 --> past_len -= 3
    meta_and_log.forward(&[3, 4, 5], false);

    meta_and_log.backward_log(3);
    meta_and_log.backward_log(0);
    meta_and_log.backward_log(2);

    meta_and_log.forward_log(2);
    meta_and_log.forward_log(0);
    meta_and_log.forward_log(3);

    meta_and_log.backward_log(3);
    meta_and_log.backward_log(0);

    meta_and_log.forward(&[3], false);

    meta_and_log.backward_log(1);

    meta_and_log.forward(&[], false); // should unset future limit
    meta_and_log.forward(&[], false);

    meta_and_log.backward_log(0);
    meta_and_log.backward_log(0);

    meta_and_log.forward_log(0);
    meta_and_log.forward_log(0);

    meta_and_log.forward(&[1, 2], false);
    meta_and_log.forward(&[1, 2], true);

    meta_and_log.backward_log(2);

    meta_and_log.forward_log(2);
}

#[test]
fn mod_behaves_like_meta_if_updated_once_per_frame() {
    let mut meta_and_log = MetaAndLog::new(4);

    meta_and_log.forward(&[1], false);
    assert_eq!(meta_and_log.past_len(), 1);

    meta_and_log.forward(&[2], false);
    assert_eq!(meta_and_log.past_len(), 2);

    meta_and_log.forward(&[3], false);
    assert_eq!(meta_and_log.past_len(), 3);

    meta_and_log.forward(&[3], false);
    assert_eq!(meta_and_log.past_len(), 3);
}

#[test]
fn past_len_updated_at_and_limits() {
    let mut log = PastLenLog::new();
    assert_eq!(log.update_and_get_past_len(3, 0), 1);
    assert_eq!(log.update_many_get(5, 0, 3), Some(4));
    assert_eq!(log.update_many_get(6, 0, 0), None);
    assert_eq!(log.updated_at(), vec![3, 5, 5, 5]);
    // the update at frame 3 lies at the past end and is dropped
    assert_eq!(log.update_and_get_past_len(9, 3), 4);
    assert_eq!(log.updated_at(), vec![5, 5, 5, 9]);

    // back from frame 9 to 8: the update at 9 leads back to frame 5
    assert_eq!(log.backward_log(8), Some(5));
    assert_eq!(log.backward_log(8), None);
    // back from frame 5 to 4: all three updates at 5, back to the update at 3
    assert_eq!(log.backward_log_many(4), (3, Some(3)));
    // forward to 5 again: three updates, the next one at 9 limits the present frame to 8
    assert_eq!(log.forward_log_many(5), (3, Some(8)));
    // forward to 9: the last update, no limit ahead
    assert_eq!(log.forward_log(9), Some(u64::MAX));
    assert_eq!(log.forward_log(10), None);
}

#[test]
fn past_len_pre_update_variants() {
    let mut state: Option<PastLenState> = None;
    // a log that registers takes the next id
    assert_eq!(update_past_len_state(&mut state, 7, 1, 0, 0), (PreUpdateVariant::Nothing, true));
    assert_eq!(state.unwrap().id, 7);
    assert_eq!(count_update(&mut state, 1), (7, 0));
    assert_eq!(count_update(&mut state, 1), (7, 1));
    // a new check starts a new count
    assert_eq!(update_past_len_state(&mut state, 8, 2, 0, 0), (PreUpdateVariant::Nothing, false));
    assert_eq!(state.unwrap().updates_this_frame, 0);
    // leaving the log drops the future
    assert_eq!(update_past_len_state(&mut state, 8, 3, 1, 0), (PreUpdateVariant::RemoveFuture, false));
    // a clear drops everything and registers anew
    assert_eq!(update_past_len_state(&mut state, 8, 4, 1, 1), (PreUpdateVariant::RemoveLog, true));
    assert_eq!(state.unwrap().id, 8);

    let mut log = PastLenLog::new();
    assert_eq!(log.id(), None);
    assert!(log.pre_update(0, 1, 0, 0));
    assert_eq!(log.id(), Some(0));
    log.update_and_get_past_len(1, 0);
    log.update_and_get_past_len(2, 0);
    assert!(log.backward_log(1).is_some());
    // leaving the log at frame 2 drops the update at 2
    assert!(!log.pre_update(1, 2, 1, 0));
    assert_eq!(log.updated_at(), vec![1]);
    // a clear drops the rest
    assert!(log.pre_update(1, 3, 1, 1));
    assert_eq!(log.updated_at(), Vec::<u64>::new());
    assert_eq!(log.id(), Some(1));
}

#[test]
fn past_len_missed_updates() {
    let mut limits = Vec::new();
    resize_limits(&mut limits, 3);
    assert_eq!(limits, vec![PastLenLimits::unbounded(); 3]);
    limits[0] = PastLenLimits::new_log(4, 6);
    limits[2] = PastLenLimits::new_not_log(5);
    // at frame 3 the first log should have gone back, the third log should not be behind
    assert_eq!(check_past_len_limits(&mut limits, 3, true), vec![0, 2]);
    assert_eq!(check_past_len_limits(&mut limits, 5, true), Vec::<u32>::new());
    assert_eq!(check_past_len_limits(&mut limits, 7, true), vec![0]);
    // running on lifts every later limit
    assert_eq!(check_past_len_limits(&mut limits, 7, false), Vec::<u32>::new());
    assert_eq!(limits[0], PastLenLimits::new_log(4, u64::MAX));
    resize_limits(&mut limits, 1);
    assert_eq!(limits.len(), 1);
}
