use herdr_share::connection::{
    assign_code, open_connection, GuestLink, HostAction, HostEvent, HostLink, LinkAction, LinkEvent, Opening,
    REPLAY_CHUNK,
};
use herdr_share::protocol::{join_request, SHARE_REQUEST};
use herdr_share::relay::Sessions;
use std::path::PathBuf;

fn path() -> PathBuf {
    PathBuf::from("/tmp/herdr-session-test.rec")
}

fn line_of(action: HostAction) -> String {
    match action {
        HostAction::Send(line) => line,
        _ => panic!("expected a line to send"),
    }
}

/// Starts a session and returns its connection and the code that the host was told.
fn share(sessions: &mut Sessions, code: &str) -> (HostLink, String) {
    assert!(matches!(open_connection(sessions, SHARE_REQUEST), Opening::Host));
    let mut host = HostLink::new(code.to_string());
    let line = line_of(host.step(sessions, HostEvent::Opened(path())));
    assert!(matches!(host.step(sessions, HostEvent::Sent(true)), HostAction::Read));
    (host, line.trim().strip_prefix("CODE ").unwrap().to_string())
}

/// Has the host put out one chunk.
fn put_out(sessions: &mut Sessions, host: &mut HostLink, chunk: &[u8], recorded: bool) {
    match host.step(sessions, HostEvent::Read(chunk.to_vec())) {
        HostAction::Record(bytes) => assert_eq!(bytes, chunk),
        _ => panic!("expected a chunk to record"),
    }
    assert!(host.can_record(sessions));
    assert!(matches!(host.step(sessions, HostEvent::Recorded(recorded)), HostAction::Read));
}

/// Starts a session under a code that the relay makes from this seed, or the next that is free.
fn share_from(sessions: &mut Sessions, seed: u128) -> (HostLink, String) {
    let mut ts = seed;
    loop {
        match assign_code(sessions, ts, 7, [0; 8]) {
            Some(code) => return share(sessions, &code),
            None => ts += 1,
        }
    }
}

#[test]
fn relay_assigns_unique_codes() {
    let mut sessions = Sessions::new();
    // The same seed: the relay has to see that the first code is taken.
    let (_host1, code1) = share_from(&mut sessions, 1);
    let (_host2, code2) = share_from(&mut sessions, 1);
    assert!(sessions.join_session(&code1).is_some());
    assert!(sessions.join_session(&code2).is_some());
    assert!(!code1.is_empty(), "code1 should not be empty");
    assert!(!code2.is_empty(), "code2 should not be empty");
    assert_ne!(code1, code2, "codes should differ");
}

#[test]
fn relay_notfound_for_unknown_code() {
    let sessions = Sessions::new();
    match open_connection(&sessions, "JOIN xxxxxx\n") {
        Opening::Refuse(line) => assert_eq!(line.trim(), "NOTFOUND"),
        _ => panic!("expected a refusal"),
    };
}

#[test]
fn data_flows_host_through_relay_to_guest() {
    let mut sessions = Sessions::new();
    let (mut host, code) = share_from(&mut sessions, 3);

    let (mut rx, mut link) = match open_connection(&sessions, &format!("JOIN {code}\n")) {
        Opening::Guest { code: found, reply, joined, link } => {
            assert_eq!(found, code);
            assert_eq!(reply.trim(), "OK");
            (joined.rx, link)
        }
        _ => panic!("expected to be let in"),
    };
    assert!(matches!(link.step(LinkEvent::Sent(true)), LinkAction::Receive));

    let payload = b"hello from host";
    put_out(&mut sessions, &mut host, payload, true);

    let received = match link.step(LinkEvent::Chunk(rx.try_recv().unwrap())) {
        LinkAction::Send(bytes) => bytes,
        _ => panic!("expected a chunk to send"),
    };
    assert_eq!(received, payload);
    assert!(rx.try_recv().is_err());
}

#[test]
fn a_late_guest_sees_everything_once() {
    let mut sessions = Sessions::new();
    let (mut host, code) = share(&mut sessions, "abcdef");
    let mut recording: Vec<u8> = Vec::new();
    for chunk in [&b"one "[..], b"two "] {
        put_out(&mut sessions, &mut host, chunk, true);
        recording.extend_from_slice(chunk);
    }
    let (mut rx, until, mut link) = match open_connection(&sessions, &join_request(&code)) {
        Opening::Guest { joined, link, .. } => {
            assert_eq!(joined.record_path, &path());
            (joined.rx, joined.replay_until, link)
        }
        _ => panic!("expected to be let in"),
    };
    assert_eq!(until, 8);
    for chunk in [&b"three "[..], b"four"] {
        put_out(&mut sessions, &mut host, chunk, true);
        recording.extend_from_slice(chunk);
    }

    let mut seen: Vec<u8> = Vec::new();
    let mut at = 0usize;
    let mut action = link.step(LinkEvent::Sent(true));
    loop {
        let event = match action {
            LinkAction::OpenRecording => LinkEvent::Opened(true),
            LinkAction::ReadRecording(n) => {
                let n = n.min(3);
                at += n;
                LinkEvent::RecordingRead(recording[at - n..at].to_vec())
            }
            LinkAction::Send(bytes) => {
                seen.extend_from_slice(&bytes);
                LinkEvent::Sent(true)
            }
            LinkAction::Receive => match rx.try_recv() {
                Ok(chunk) => LinkEvent::Chunk(chunk),
                Err(_) => LinkEvent::Closed,
            },
            LinkAction::End => break,
            LinkAction::Fail => panic!("the connection broke"),
        };
        action = link.step(event);
    }
    assert_eq!(at, 8);
    assert_eq!(seen, b"one two three four");
}

#[test]
fn a_chunk_that_was_not_recorded_is_still_relayed() {
    let mut sessions = Sessions::new();
    let (mut host, code) = share(&mut sessions, "abcdef");
    let mut early = sessions.join_session(&code).unwrap().rx;
    put_out(&mut sessions, &mut host, b"lost", false);
    put_out(&mut sessions, &mut host, b"kept", true);
    assert_eq!(early.try_recv().unwrap(), b"lost");
    assert_eq!(early.try_recv().unwrap(), b"kept");
    assert_eq!(sessions.join_session(&code).unwrap().replay_until, 4);
}

#[test]
fn a_session_ends_with_its_host() {
    let mut sessions = Sessions::new();
    let (mut host, code) = share(&mut sessions, "abcdef");
    let mut guest = sessions.join_session(&code).unwrap().rx;
    assert!(matches!(host.step(&mut sessions, HostEvent::Read(Vec::new())), HostAction::Finish));
    assert!(sessions.join_session(&code).is_none());
    assert!(guest.try_recv().is_err());
    assert!(matches!(host.step(&mut sessions, HostEvent::Read(vec![1])), HostAction::Fail));
}

#[test]
fn a_broken_host_leaves_its_session_behind() {
    let mut sessions = Sessions::new();
    let (mut host, code) = share(&mut sessions, "abcdef");
    assert!(matches!(host.step(&mut sessions, HostEvent::ReadFailed), HostAction::Fail));
    assert!(sessions.join_session(&code).is_some());

    let mut unsent = HostLink::new("second".to_string());
    line_of(unsent.step(&mut sessions, HostEvent::Opened(path())));
    assert!(matches!(unsent.step(&mut sessions, HostEvent::Sent(false)), HostAction::Fail));
    assert!(sessions.join_session("second").is_some());
}

#[test]
fn without_a_recording_there_is_no_session() {
    let mut sessions = Sessions::new();
    let mut host = HostLink::new("abcdef".to_string());
    assert!(matches!(host.step(&mut sessions, HostEvent::OpenFailed), HostAction::Fail));
    assert!(sessions.join_session("abcdef").is_none());
}

#[test]
fn sessions_do_not_touch_one_another() {
    let mut sessions = Sessions::new();
    let (mut a, _) = share(&mut sessions, "aaaaaa");
    let (mut b, _) = share(&mut sessions, "bbbbbb");
    let (mut c, _) = share(&mut sessions, "cccccc");
    put_out(&mut sessions, &mut a, b"a", true);
    put_out(&mut sessions, &mut b, b"bb", true);
    put_out(&mut sessions, &mut c, b"ccc", true);
    a.step(&mut sessions, HostEvent::Read(Vec::new()));
    assert!(sessions.join_session("aaaaaa").is_none());
    assert_eq!(sessions.join_session("bbbbbb").unwrap().replay_until, 2);
    assert_eq!(sessions.join_session("cccccc").unwrap().replay_until, 3);
    put_out(&mut sessions, &mut c, b"c", true);
    assert_eq!(sessions.join_session("bbbbbb").unwrap().replay_until, 2);
    assert_eq!(sessions.join_session("cccccc").unwrap().replay_until, 4);
}

#[test]
fn a_running_session_keeps_its_code() {
    let mut sessions = Sessions::new();
    let (mut first, code) = share(&mut sessions, "aaaaaa");
    put_out(&mut sessions, &mut first, b"old", true);
    assert!(!sessions.is_free(&code));
    assert!(!sessions.open_session(code.clone(), path()));

    let mut second = HostLink::new(code.clone());
    assert!(matches!(
        second.step(&mut sessions, HostEvent::Opened(path())),
        HostAction::AnotherCode
    ));
    assert_eq!(sessions.join_session(&code).unwrap().replay_until, 3);
    put_out(&mut sessions, &mut first, b"new", true);
    assert_eq!(sessions.join_session(&code).unwrap().replay_until, 6);

    first.step(&mut sessions, HostEvent::Read(Vec::new()));
    assert!(sessions.is_free(&code));
    line_of(second.step(&mut sessions, HostEvent::Opened(path())));
    assert_eq!(sessions.join_session(&code).unwrap().replay_until, 0);
}

#[test]
fn a_taken_code_is_not_assigned() {
    let mut sessions = Sessions::new();
    let code = assign_code(&sessions, 0, 0, [0; 8]).unwrap();
    assert_eq!(code, "6edx78");
    assert!(sessions.open_session(code, path()));
    assert_eq!(assign_code(&sessions, 0, 0, [0; 8]), None);
    assert!(assign_code(&sessions, 1, 0, [0; 8]).is_some());
}

#[test]
fn output_without_a_session_goes_nowhere() {
    let mut sessions = Sessions::new();
    assert!(sessions.can_record("aaaaaa", usize::MAX));
    sessions.relay_chunk("aaaaaa", b"x".to_vec(), true);
    sessions.close_session("aaaaaa");
    assert!(sessions.join_session("aaaaaa").is_none());
}

#[test]
fn unknown_lines_are_refused() {
    let sessions = Sessions::new();
    for line in ["", "\n", "HELLO\n", "share\n", "JOIN\n", "JOIN \n", "SHARE now\n"] {
        match open_connection(&sessions, line) {
            Opening::Refuse(reply) => assert_eq!(reply, "ERROR unknown command\n", "{:?}", line),
            _ => panic!("expected a refusal"),
        };
    }
}

#[test]
fn white_space_around_a_code_does_not_count() {
    let mut sessions = Sessions::new();
    let (_host, _) = share(&mut sessions, "aaaaaa");
    assert!(matches!(open_connection(&sessions, "  JOIN   aaaaaa \r\n"), Opening::Guest { .. }));
    assert!(matches!(open_connection(&sessions, "JOIN aaaaab\n"), Opening::Refuse(_)));
}

#[test]
fn a_replay_asks_for_no_more_than_it_needs() {
    let total = REPLAY_CHUNK as u64 + 10;
    let mut link = GuestLink::new(total);
    assert!(matches!(link.step(LinkEvent::Sent(true)), LinkAction::OpenRecording));
    match link.step(LinkEvent::Opened(true)) {
        LinkAction::ReadRecording(n) => assert_eq!(n, REPLAY_CHUNK),
        _ => panic!("expected to read"),
    }
    match link.step(LinkEvent::RecordingRead(vec![7; REPLAY_CHUNK])) {
        LinkAction::Send(bytes) => assert_eq!(bytes.len(), REPLAY_CHUNK),
        _ => panic!("expected to send"),
    }
    match link.step(LinkEvent::Sent(true)) {
        LinkAction::ReadRecording(n) => assert_eq!(n, 10),
        _ => panic!("expected to read"),
    }
    assert!(matches!(link.step(LinkEvent::RecordingRead(vec![7; 11])), LinkAction::Fail));
}

#[test]
fn a_missing_or_short_recording_is_passed_over() {
    let mut missing = GuestLink::new(5);
    missing.step(LinkEvent::Sent(true));
    assert!(matches!(missing.step(LinkEvent::Opened(false)), LinkAction::Receive));

    let mut short = GuestLink::new(5);
    short.step(LinkEvent::Sent(true));
    short.step(LinkEvent::Opened(true));
    assert!(matches!(short.step(LinkEvent::RecordingRead(Vec::new())), LinkAction::Receive));
    assert!(matches!(short.step(LinkEvent::Lagged), LinkAction::Receive));
    assert!(matches!(short.step(LinkEvent::Chunk(vec![1])), LinkAction::Send(_)));
    assert!(matches!(short.step(LinkEvent::Sent(false)), LinkAction::End));
}

#[test]
fn a_guest_that_cannot_be_served_is_dropped() {
    let mut greeting = GuestLink::new(5);
    assert!(matches!(greeting.step(LinkEvent::Sent(false)), LinkAction::Fail));

    let mut reading = GuestLink::new(5);
    reading.step(LinkEvent::Sent(true));
    reading.step(LinkEvent::Opened(true));
    assert!(matches!(reading.step(LinkEvent::RecordingReadFailed), LinkAction::Fail));

    let mut sending = GuestLink::new(5);
    sending.step(LinkEvent::Sent(true));
    sending.step(LinkEvent::Opened(true));
    sending.step(LinkEvent::RecordingRead(vec![1]));
    assert!(matches!(sending.step(LinkEvent::Sent(false)), LinkAction::Fail));
}

#[test]
fn what_was_read_is_taken_in_but_for_the_chunk_being_recorded() {
    let mut sessions = Sessions::new();
    let (mut host, code) = share(&mut sessions, "aaaaaa");
    let mut live = sessions.join_session(&code).unwrap().rx;
    put_out(&mut sessions, &mut host, b"one", true);
    put_out(&mut sessions, &mut host, b"two", true);
    host.step(&mut sessions, HostEvent::Read(b"three".to_vec()));
    assert_eq!(live.try_recv().unwrap(), b"one".to_vec());
    assert_eq!(live.try_recv().unwrap(), b"two".to_vec());
    assert!(live.try_recv().is_err());
    host.step(&mut sessions, HostEvent::Recorded(true));
    assert_eq!(live.try_recv().unwrap(), b"three".to_vec());
    assert_eq!(sessions.join_session(&code).unwrap().replay_until, 11);
}

#[test]
fn a_chunk_is_lost_when_the_connection_is_given_up() {
    let mut sessions = Sessions::new();
    let (mut host, code) = share(&mut sessions, "aaaaaa");
    put_out(&mut sessions, &mut host, b"one", true);
    host.step(&mut sessions, HostEvent::Read(b"two".to_vec()));
    assert!(matches!(host.step(&mut sessions, HostEvent::ReadFailed), HostAction::Fail));
    assert!(matches!(host.step(&mut sessions, HostEvent::Recorded(true)), HostAction::Fail));
    assert_eq!(sessions.join_session(&code).unwrap().replay_until, 3);
}

#[test]
fn other_hosts_leave_a_session_alone() {
    let mut sessions = Sessions::new();
    let (mut gone, left) = share(&mut sessions, "aaaaaa");
    put_out(&mut sessions, &mut gone, b"left", true);
    gone.step(&mut sessions, HostEvent::ReadFailed);
    let (mut mine, code) = share(&mut sessions, "bbbbbb");
    put_out(&mut sessions, &mut mine, b"mine", true);

    for taken in [&left, &code] {
        let mut other = HostLink::new(taken.to_string());
        assert!(matches!(
            other.step(&mut sessions, HostEvent::Opened(path())),
            HostAction::AnotherCode
        ));
        assert!(matches!(other.step(&mut sessions, HostEvent::Sent(true)), HostAction::Fail));
        assert!(matches!(other.step(&mut sessions, HostEvent::Read(Vec::new())), HostAction::Fail));
    }
    let (mut other, _) = share(&mut sessions, "cccccc");
    put_out(&mut sessions, &mut other, b"other", true);
    other.step(&mut sessions, HostEvent::Read(Vec::new()));

    assert!(!sessions.is_free(&left));
    assert_eq!(sessions.join_session(&left).unwrap().replay_until, 4);
    assert_eq!(sessions.join_session(&code).unwrap().replay_until, 4);
    put_out(&mut sessions, &mut mine, b"!", true);
    assert_eq!(sessions.join_session(&code).unwrap().replay_until, 5);
}
