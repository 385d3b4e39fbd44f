use bevy_oozlum::log::{FramedStateLog, OutOfLog, ValueLoggedAt};

#[test]
fn framed_state_clear() {
    let mut original = FramedStateLog::new(1, 1);
    original.push_and_drain_past(2, 0, 2);
    original.push_and_drain_past(3, 0, 3);
    original.backward_log().expect("in log");

    let mut log = original.clone();
    log.clear();
    assert_eq!(*log.get(), 2, "log: {log:#?}\noriginal: {original:#?}");
    assert_eq!(log.states_len(), 0, "log: {log:#?}\noriginal: {original:#?}");

    let mut log = original.clone();
    log.clear_with(3, 4);
    assert_eq!(*log.get(), 4, "log: {log:#?}\noriginal: {original:#?}");
    assert_eq!(log.states_len(), 0, "log: {log:#?}\noriginal: {original:#?}");
}

#[test]
fn framed_state_drains_by_frame() {
    let mut log = FramedStateLog::new(0, 'a');
    assert!(log.push_and_drain_past(1, 0, 'b').is_empty());
    assert!(log.push_and_drain_past(2, 0, 'c').is_empty());
    // the log covers frames from 2 on: 'a' and 'b' leave it
    let drained: Vec<_> = log.push_and_drain_past(3, 2, 'd').into_iter().collect();
    assert_eq!(drained, vec![ValueLoggedAt { value: 'a', logged_at: 0 }, ValueLoggedAt { value: 'b', logged_at: 1 }]);
    assert_eq!(log.states_len(), 1);

    assert_eq!(log.backward_log(), Ok(()));
    assert_eq!(*log.get(), 'c');
    assert_eq!(log.backward_log(), Err(OutOfLog));
    assert_eq!(log.forward_log(), Ok(()));
    assert_eq!(log.forward_log(), Err(OutOfLog));
    assert_eq!(log.into_inner(), ValueLoggedAt { value: 'd', logged_at: 3 });
}
