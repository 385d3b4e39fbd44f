use std::collections::VecDeque;

use bevy_oozlum::log::{FrameTransitionLog, IterItem, OffsetIter};

fn item(offset: u64, len: usize) -> IterItem {
    IterItem { offset, len }
}

fn test_bytes() -> (VecDeque<u8>, [u64; 10]) {
    let offsets = [
        0b___________________________________________________________________000000,
        0b____________________________________________________________000010_000001,
        0b____________________________________________________000101_0000100_000011,
        0b____________________________________________001001_0001000_0000111_000110,
        0b____________________________________001110_0001101_0001100_0001011_001010,
        0b____________________________010100_0010011_0010010_0010001_0010000_001111,
        0b____________________011011_0011010_0011001_0011000_0010111_0010110_010101,
        0b____________100011_0100010_0100001_0100000_0011111_0011110_0011101_011100,
        0b____101100_0101011_0101010_0101001_0101000_0100111_0100110_0100101_100100,
        0b10_0110101_0110100_0110011_0110010_0110001_0110000_0101111_0101110_101101,
    ];
    let deque: VecDeque<u8> = [
        0b00_000000,
        0b01_000001, 0b01_000010,
        0b01_000011, 0b1_0000100, 0b01_000101,
        0b01_000110, 0b1_0000111, 0b1_0001000, 0b01_001001,
        0b01_001010, 0b1_0001011, 0b1_0001100, 0b1_0001101, 0b01_001110,
        0b01_001111, 0b1_0010000, 0b1_0010001, 0b1_0010010, 0b1_0010011, 0b01_010100,
        0b01_010101, 0b1_0010110, 0b1_0010111, 0b1_0011000, 0b1_0011001, 0b1_0011010, 0b01_011011,
        0b01_011100, 0b1_0011101, 0b1_0011110, 0b1_0011111, 0b1_0100000, 0b1_0100001, 0b1_0100010,
        0b01_100011,
        0b01_100100, 0b1_0100101, 0b1_0100110, 0b1_0100111, 0b1_0101000, 0b1_0101001, 0b1_0101010,
        0b1_0101011, 0b01_101100,
        0b01_101101, 0b1_0101110, 0b1_0101111, 0b1_0110000, 0b1_0110001, 0b1_0110010, 0b1_0110011,
        0b1_0110100, 0b1_0110101,
        0b01_0000_10, // only least significant two bits are available, more would overflow u64
        // two following zeroes
        0b1_1111111,
        // separator
        0b00_000001,
        // three following zeroes
        0b1_1111110,
        // separator
        0b00_000001,
        // 129 following zeroes
        0b1_0000000,
    ]
    .into();
    (deque, offsets)
}

fn expected_forward(offsets: &[u64; 10]) -> Vec<IterItem> {
    let mut expected = vec![item(offsets[0], 1)];
    for (i, offset) in offsets.iter().enumerate().skip(1) {
        expected.push(item(*offset, i + 1));
    }
    // two following zeroes
    expected.extend([item(0, 0), item(0, 1)]);
    expected.push(item(1, 1));
    // three following zeroes
    expected.extend([item(0, 0), item(0, 0), item(0, 1)]);
    expected.push(item(1, 1));
    // 129 following zeroes
    expected.extend(std::iter::repeat(item(0, 0)).take(128));
    expected.push(item(0, 1));
    expected
}

#[test]
fn frame_transition_offset_iter_works() {
    let (deque, offsets) = test_bytes();
    let expected = expected_forward(&offsets);

    let mut iter = OffsetIter::new(&deque);
    let mut forward = Vec::new();
    while let Some(item) = iter.next() {
        forward.push(item);
    }
    assert_eq!(forward, expected);

    let mut expected_backward = Vec::new();
    // 129 following zeroes
    expected_backward.extend(std::iter::repeat(item(0, 0)).take(128));
    expected_backward.push(item(0, 1));
    expected_backward.push(item(1, 1));
    // three following zeroes
    expected_backward.extend([item(0, 0), item(0, 0), item(0, 1)]);
    expected_backward.push(item(1, 1));
    // two following zeroes
    expected_backward.extend([item(0, 0), item(0, 1)]);
    for (i, offset) in offsets.iter().enumerate().skip(1).rev() {
        expected_backward.push(item(*offset, i + 1));
    }
    expected_backward.push(item(offsets[0], 1));

    let mut iter = OffsetIter::new(&deque);
    let mut backward = Vec::new();
    while let Some(item) = iter.next_back() {
        backward.push(item);
    }
    assert_eq!(backward, expected_backward);
}

#[test]
fn frame_transition_push_and_traverse() {
    let mut log = FrameTransitionLog::new();
    // runs at frames 1, 2, 2, 3, then at 4 with the log keeping frames after 0
    assert_eq!(log.push_and_get_past_len(1, 0), 1);
    assert_eq!(log.push_and_get_past_len(2, 0), 2);
    assert_eq!(log.push_and_get_past_len(2, 0), 3);
    assert_eq!(log.push_and_get_past_len(3, 0), 4);
    // past end moves to frame 2: the three runs at frames 1 and 2 leave the log
    assert_eq!(log.push_and_get_past_len(100, 2), 2);

    // the newest run was at 100, going back to 99 undoes it
    assert!(log.backward_log(99));
    assert!(!log.backward_log(99));
    // going back to frame 2 undoes the run at 3
    assert!(log.backward_log(2));
    // the earlier runs left the log
    assert!(!log.backward_log(2));
    assert!(!log.backward_log(1));

    // nothing ran at frame 2 after the log's start
    assert!(!log.forward_log(2));
    assert!(log.forward_log(3));
    assert!(!log.forward_log(3));
    assert!(log.forward_log(100));
    assert!(!log.forward_log(100));
    // one byte for the offset 1, two for the offset 97
    assert_eq!(log.bytes_len(), 3);
}

/// A world that keeps `max_world_states` states, with a frame transition log that runs in it.
struct Log {
    log: FrameTransitionLog,
    now: u64,
    max_world_states: u64,
}

impl Log {
    fn new(max_world_states: u64, now: u64) -> Self {
        Self { log: FrameTransitionLog::new(), now, max_world_states }
    }
    fn past_len(&self) -> u64 {
        self.now.min(self.max_world_states - 1)
    }
    fn forward(&mut self, updates_with_expected_past_len: Vec<usize>) {
        self.now += 1;
        let past_end = self.now - self.past_len();
        let before = self.log.clone();
        let actual: Vec<usize> = (0..updates_with_expected_past_len.len())
            .map(|_| self.log.push_and_get_past_len(self.now, past_end))
            .collect();
        assert_eq!(actual, updates_with_expected_past_len, "\nbefore: {:?}\nafter: {:?}", before.bytes_len(), self.log.bytes_len());
    }
    fn forward_log(&mut self, expected_forward_log_updates: usize) {
        self.now += 1;
        for _ in 0..expected_forward_log_updates {
            assert!(self.log.forward_log(self.now));
        }
        assert!(!self.log.forward_log(self.now));
    }
    fn backward_log(&mut self, expected_backward_log_updates: usize) {
        self.now -= 1;
        for _ in 0..expected_backward_log_updates {
            assert!(self.log.backward_log(self.now));
        }
        assert!(!self.log.backward_log(self.now));
    }
}

#[test]
fn frame_transition_log_traversal_works() {
    let mut log = Log::new(4, 0);
    log.forward(vec![1]); // frame #1
    log.forward(vec![2, 3]); // frame #2
    log.forward(vec![4]);
    log.forward(vec![]);
    // shortened log of runs from frame #1 and #2
    log.forward(vec![2, 3]);

    log.backward_log(2);
    log.backward_log(0);
    log.backward_log(1);

    log.forward_log(1);
    log.forward_log(0);
    log.forward_log(2);

    log.backward_log(2);
    log.backward_log(0);
    log.backward_log(1);

    log.forward(vec![1]);
}

#[test]
fn frame_transition_behaves_like_meta_if_updated_once_per_frame() {
    let mut log = Log::new(4, 0);

    log.forward(vec![1]); // frame #1
    assert_eq!(log.past_len(), 1);

    log.forward(vec![2]); // frame #2
    assert_eq!(log.past_len(), 2);

    log.forward(vec![3]);
    assert_eq!(log.past_len(), 3);

    log.forward(vec![3]);
    assert_eq!(log.past_len(), 3);
}

#[test]
fn frame_transition_back_then_forward_restores() {
    let mut log = FrameTransitionLog::new();
    log.push_and_get_past_len(2, 0);
    log.push_and_get_past_len(5, 0);
    let mut before = log.clone();
    assert_eq!(log.try_backward_log(4), Ok(true));
    assert_eq!(log.try_forward_log(5), Ok(true));
    assert_eq!(log.bytes_len(), before.bytes_len());
    assert_eq!(log.try_forward_log(5), Ok(false));
    assert_eq!(before.try_forward_log(5), Ok(false));
    assert_eq!(log.push_and_get_past_len(6, 0), before.push_and_get_past_len(6, 0));

    // an empty log has nothing to step back to, at any frame
    let mut empty = FrameTransitionLog::new();
    assert_eq!(empty.try_backward_log(u64::MAX), Ok(false));
    assert_eq!(empty.try_forward_log(u64::MAX), Ok(false));
}
