use herdr_share::client::{
    JoinAction, JoinEvent, JoinLink, ShareAction, ShareEvent, ShareLink,
};
use herdr_share::network::{clipboard_command, pty_size, read_chunk, resolve_relay, Platform};
use herdr_share::protocol::{
    background_share_result, code_reply, guest_admitted, join_reply, join_request, parse_request,
    share_started, Request, Role, ShareError,
};

fn started(background: bool) -> ShareLink {
    let mut link = ShareLink::new(background, "relay:1".to_string());
    match link.step(ShareEvent::Connected) {
        ShareAction::Send(bytes) => assert_eq!(bytes, b"SHARE\n"),
        _ => panic!("expected a request"),
    }
    assert!(matches!(link.step(ShareEvent::Sent(true)), ShareAction::ReadLine));
    link
}

fn announced(background: bool) -> ShareLink {
    let mut link = started(background);
    match link.step(ShareEvent::Line("CODE abc234\n".to_string())) {
        ShareAction::Announce(command) => assert_eq!(command, "herdr join abc234"),
        _ => panic!("expected an announcement"),
    }
    link
}

fn error_of(action: ShareAction) -> String {
    match action {
        ShareAction::Fail(e) => e.message(),
        _ => panic!("expected a failure"),
    }
}

#[test]
fn a_background_share_sends_the_screen_then_output() {
    let mut link = announced(true);
    assert!(matches!(link.step(ShareEvent::Tapped(Some(b"screen".to_vec()))),
        ShareAction::Send(bytes) if bytes == b"screen"));
    assert!(matches!(link.step(ShareEvent::Sent(true)), ShareAction::Receive));
    assert!(matches!(link.step(ShareEvent::Chunk(b"more".to_vec())),
        ShareAction::Send(bytes) if bytes == b"more"));
    assert!(matches!(link.step(ShareEvent::Sent(true)), ShareAction::Receive));
    assert!(matches!(link.step(ShareEvent::Lagged), ShareAction::Repaint));
    assert!(matches!(link.step(ShareEvent::Closed), ShareAction::Withdraw));
}

#[test]
fn a_background_share_withdraws_when_the_relay_is_gone() {
    let mut link = announced(true);
    assert!(matches!(link.step(ShareEvent::Tapped(None)), ShareAction::Receive));
    link.step(ShareEvent::Chunk(b"more".to_vec()));
    assert!(matches!(link.step(ShareEvent::Sent(false)), ShareAction::Withdraw));
}

#[test]
fn a_share_that_breaks_early_does_not_withdraw() {
    let mut first = announced(true);
    first.step(ShareEvent::Tapped(Some(b"screen".to_vec())));
    assert!(matches!(first.step(ShareEvent::Sent(false)), ShareAction::Break));
    let mut line = started(true);
    assert!(matches!(line.step(ShareEvent::LineFailed), ShareAction::Break));
}

#[test]
fn a_foreground_share_carries_on_after_a_gap() {
    let mut link = announced(false);
    link.step(ShareEvent::Tapped(None));
    assert!(matches!(link.step(ShareEvent::Lagged), ShareAction::Receive));
    assert!(matches!(link.step(ShareEvent::Closed), ShareAction::End));
}

#[test]
fn shares_that_do_not_come_about_say_why() {
    let unreachable = |background| {
        let mut link = ShareLink::new(background, "relay:1".to_string());
        error_of(link.step(ShareEvent::ConnectFailed("refused".to_string())))
    };
    assert_eq!(unreachable(true), "cannot reach relay relay:1: refused");
    assert_eq!(
        unreachable(false),
        "cannot reach relay at relay:1: refused\nhint: run 'herdr relay' locally and set HERDR_RELAY_ADDR=localhost:4002"
    );
    let no_code = |background| error_of(started(background).step(ShareEvent::Line("?\n".to_string())));
    assert_eq!(no_code(true), "relay did not send a CODE");
    assert_eq!(no_code(false), "unexpected relay response");
    assert_eq!(error_of(announced(true).step(ShareEvent::NotSetUp)), "session not initialised");
}

fn asked(code: &str) -> JoinLink {
    let mut link = JoinLink::new(code.to_string(), "relay:1".to_string());
    match link.step(JoinEvent::Connected) {
        JoinAction::Send(bytes) => assert_eq!(bytes, format!("JOIN {code}\n").as_bytes()),
        _ => panic!("expected a request"),
    }
    assert!(matches!(link.step(JoinEvent::Sent(true)), JoinAction::ReadLine));
    link
}

fn join_error(action: JoinAction) -> String {
    match action {
        JoinAction::Fail(e) => e.message(),
        _ => panic!("expected a failure"),
    }
}

#[test]
fn a_guest_is_let_in_or_told_why_not() {
    assert!(matches!(asked("abc234").step(JoinEvent::Line(join_reply(true))), JoinAction::Watch));
    assert_eq!(
        join_error(asked("abc234").step(JoinEvent::Line(join_reply(false)))),
        "session 'abc234' not found \u{2014} is the host still sharing?"
    );
    assert_eq!(
        join_error(asked("x").step(JoinEvent::Line("ERROR unknown command\n".to_string()))),
        "unexpected relay response: ERROR unknown command"
    );
    assert_eq!(
        join_error(
            JoinLink::new("x".to_string(), "relay:1".to_string())
                .step(JoinEvent::ConnectFailed("refused".to_string()))
        ),
        "cannot reach relay at relay:1: refused"
    );
    assert!(matches!(asked("x").step(JoinEvent::LineFailed), JoinAction::Break));
    assert!(matches!(
        JoinLink::new("x".to_string(), "r".to_string()).step(JoinEvent::Sent(true)),
        JoinAction::Break
    ));
}

#[test]
fn requests_and_replies_read_back() {
    for code in ["abc234", "a b", "\u{e9}"] {
        assert!(matches!(parse_request(&join_request(code)), Request::Join(c) if c == code));
        assert_eq!(
            share_started(Role::Host, &code_reply(code)).unwrap(),
            format!("herdr join {code}")
        );
    }
    assert!(matches!(parse_request("SHARE\n"), Request::Share));
    assert!(matches!(parse_request(&join_request(" ")), Request::Unknown));
    assert!(guest_admitted("x", "OK\n").is_ok());
    assert!(matches!(guest_admitted("x", "NOTFOUND\r\n"), Err(ShareError::NotFound { code }) if code == "x"));
    assert!(matches!(guest_admitted("x", ""), Err(ShareError::Unexpected { reply }) if reply.is_empty()));
    assert!(matches!(
        share_started(Role::Background, "CODE \n"),
        Err(ShareError::NoCode { role: Role::Background })
    ));
}

#[test]
fn background_shares_time_out_or_fail() {
    assert_eq!(background_share_result(None).unwrap_err().message(), "timed out connecting to relay");
    assert_eq!(
        background_share_result(Some(Err("no runtime".to_string()))).unwrap_err().message(),
        "no runtime"
    );
    assert_eq!(
        background_share_result(Some(Ok("herdr join a".to_string()))).unwrap(),
        "herdr join a"
    );
}

#[test]
fn the_flag_wins_over_the_environment() {
    assert_eq!(resolve_relay(Some("flag:1"), Some("env:2")), "flag:1");
    assert_eq!(resolve_relay(None, Some("env:2")), "env:2");
    assert_eq!(resolve_relay(Some("flag:1"), None), "flag:1");
    assert_eq!(resolve_relay(None, None), "relay.herdr.dev:4002");
}

#[test]
fn reads_give_what_was_read() {
    assert_eq!(read_chunk(b"abcdef", Some(3)), Some(b"abc".to_vec()));
    assert_eq!(read_chunk(b"abcdef", Some(6)), Some(b"abcdef".to_vec()));
    assert_eq!(read_chunk(b"abcdef", Some(0)), None);
    assert_eq!(read_chunk(b"abcdef", None), None);
}

#[test]
fn terminals_have_a_size() {
    assert_eq!(pty_size(Some((120, 40))), (120, 40));
    assert_eq!(pty_size(None), (80, 24));
}

#[test]
fn clipboards_have_commands() {
    let command = |platform, failures| clipboard_command(platform, failures, false);
    assert_eq!(command(Platform::MacOs, 0), Some(vec!["pbcopy"]));
    assert_eq!(command(Platform::MacOs, 1), None);
    assert_eq!(command(Platform::Linux, 0), Some(vec!["wl-copy"]));
    assert_eq!(command(Platform::Linux, 1), Some(vec!["xclip", "-selection", "clipboard"]));
    assert_eq!(command(Platform::Linux, 2), None);
    assert_eq!(command(Platform::Windows, 0), Some(vec!["clip"]));
    assert_eq!(command(Platform::Windows, 1), None);
    assert_eq!(command(Platform::Other, 0), None);
    assert_eq!(command(Platform::OtherUnix, 0), None);
}

#[test]
fn a_copy_that_succeeded_ends_the_attempts() {
    for failures in 0..3 {
        assert_eq!(clipboard_command(Platform::Linux, failures, true), None);
        assert_eq!(clipboard_command(Platform::MacOs, failures, true), None);
    }
}
