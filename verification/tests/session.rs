use herdr_share::session::{
    begin_sending, broadcast_frame, has_guests, init, is_active, is_watched, last_frame,
    publish_frame, request_full_repaint, subscribe, take_repaint_request, ShareState,
};

#[test]
fn an_idle_process_shares_nothing() {
    let mut state = ShareState::new();
    assert!(!is_active(&state));
    assert!(!has_guests(&state));
    assert!(subscribe(&state).is_none());
    broadcast_frame(&mut state, b"frame");
    assert_eq!(last_frame(&state), None);
    request_full_repaint(&mut state);
    assert!(!take_repaint_request(&mut state));
    assert_eq!(begin_sending(&state).unwrap_err().message(), "session not initialised");
}

#[test]
fn sharing_is_set_up_once() {
    let mut state = ShareState::new();
    assert_eq!(init(&mut state).receiver_count(), 0);
    assert!(is_active(&state));
    let mut rx = subscribe(&state).unwrap();
    assert_eq!(init(&mut state).receiver_count(), 1);
    broadcast_frame(&mut state, b"frame");
    assert_eq!(rx.try_recv().unwrap(), b"frame");
    request_full_repaint(&mut state);
    let tx = init(&mut state).clone();
    assert!(init(&mut state).same_channel(&tx));
    assert_eq!(last_frame(&state), Some(b"frame".to_vec()));
    assert!(take_repaint_request(&mut state));
    assert!(init(&mut state).same_channel(&tx));
}

#[test]
fn the_last_frame_is_the_latest() {
    let mut state = ShareState::new();
    init(&mut state);
    assert_eq!(last_frame(&state), None);
    broadcast_frame(&mut state, b"one");
    broadcast_frame(&mut state, b"two");
    assert_eq!(last_frame(&state), Some(b"two".to_vec()));
    broadcast_frame(&mut state, b"");
    assert_eq!(last_frame(&state), None);
}

#[test]
fn guests_come_and_go() {
    let mut state = ShareState::new();
    init(&mut state);
    assert!(!has_guests(&state));
    let rx = subscribe(&state);
    assert!(has_guests(&state));
    drop(rx);
    assert!(!has_guests(&state));
    assert!(!is_watched(&state, 0));
    assert!(is_watched(&state, 1));
    assert!(!is_watched(&ShareState::new(), 1));
}

#[test]
fn a_subscriber_sees_later_frames_in_order() {
    let mut state = ShareState::new();
    init(&mut state);
    broadcast_frame(&mut state, b"early");
    let mut rx = subscribe(&state).unwrap();
    broadcast_frame(&mut state, b"one");
    broadcast_frame(&mut state, b"two");
    assert_eq!(rx.try_recv().unwrap(), b"one");
    assert_eq!(rx.try_recv().unwrap(), b"two");
    assert!(rx.try_recv().is_err());
}

#[test]
fn a_slow_subscriber_loses_the_oldest_frames() {
    let mut state = ShareState::new();
    init(&mut state);
    let mut rx = subscribe(&state).unwrap();
    for n in 0..2049u32 {
        broadcast_frame(&mut state, &n.to_le_bytes());
    }
    assert!(matches!(
        rx.try_recv(),
        Err(tokio::sync::broadcast::error::TryRecvError::Lagged(1))
    ));
    assert_eq!(rx.try_recv().unwrap(), 1u32.to_le_bytes());
}

#[test]
fn frames_go_out_only_to_someone() {
    let mut state = ShareState::new();
    init(&mut state);
    let mut rx = subscribe(&state).unwrap();
    publish_frame(&mut state, b"unseen", 0);
    publish_frame(&mut state, b"seen", 1);
    assert_eq!(rx.try_recv().unwrap(), b"seen");
    assert!(rx.try_recv().is_err());
}

#[test]
fn a_repaint_is_taken_once() {
    let mut state = ShareState::new();
    init(&mut state);
    assert!(!take_repaint_request(&mut state));
    request_full_repaint(&mut state);
    request_full_repaint(&mut state);
    assert!(take_repaint_request(&mut state));
    assert!(!take_repaint_request(&mut state));
}

#[test]
fn sending_begins_with_the_frame_on_the_screen() {
    let mut state = ShareState::new();
    init(&mut state);
    assert_eq!(begin_sending(&state).unwrap().1, None);
    broadcast_frame(&mut state, b"screen");
    let (mut rx, first) = begin_sending(&state).unwrap();
    assert_eq!(first, Some(b"screen".to_vec()));
    broadcast_frame(&mut state, b"next");
    assert_eq!(rx.try_recv().unwrap(), b"next");
}
