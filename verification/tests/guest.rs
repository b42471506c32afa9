use herdr_share::guest::{
    keep_listening, listen_step, scroll_command, GuestAction, GuestEvent, Key, ListenStep,
    Modifiers, Mouse, ScrollCmd, Scrollback, TerminalEvent, HISTORY_CAP,
};

fn output(view: &mut Scrollback, chunk: &str) -> Option<String> {
    shown(view.step(GuestEvent::Output(chunk.as_bytes().to_vec())))
}

fn command(view: &mut Scrollback, cmd: ScrollCmd) -> Option<String> {
    shown(view.step(GuestEvent::Command(cmd)))
}

fn shown(action: GuestAction) -> Option<String> {
    match action {
        GuestAction::Write(bytes) => Some(String::from_utf8(bytes).unwrap()),
        GuestAction::Wait => None,
        GuestAction::Leave => panic!("left"),
    }
}

fn some(s: &str) -> Option<String> {
    Some(s.to_string())
}

#[test]
fn keys_mean_commands() {
    let key = |k, m| scroll_command(TerminalEvent::Key(k, m));
    assert_eq!(key(Key::PageUp, Modifiers::Plain), Some(ScrollCmd::Up));
    assert_eq!(key(Key::PageUp, Modifiers::Other), Some(ScrollCmd::Up));
    assert_eq!(key(Key::Up, Modifiers::Alt), Some(ScrollCmd::Up));
    assert_eq!(key(Key::Up, Modifiers::Plain), None);
    assert_eq!(key(Key::PageDown, Modifiers::Alt), Some(ScrollCmd::Down));
    assert_eq!(key(Key::Down, Modifiers::Alt), Some(ScrollCmd::Down));
    assert_eq!(key(Key::Down, Modifiers::Other), None);
    assert_eq!(key(Key::Esc, Modifiers::Other), Some(ScrollCmd::Live));
    assert_eq!(key(Key::Char('q'), Modifiers::Plain), Some(ScrollCmd::Quit));
    assert_eq!(key(Key::Char('q'), Modifiers::Alt), None);
    assert_eq!(key(Key::Char('Q'), Modifiers::Plain), None);
    assert_eq!(key(Key::Other, Modifiers::Plain), None);
    assert_eq!(scroll_command(TerminalEvent::Mouse(Mouse::ScrollUp)), Some(ScrollCmd::Up));
    assert_eq!(scroll_command(TerminalEvent::Mouse(Mouse::ScrollDown)), Some(ScrollCmd::Down));
    assert_eq!(scroll_command(TerminalEvent::Mouse(Mouse::Other)), None);
    assert_eq!(scroll_command(TerminalEvent::Other), None);
}

#[test]
fn listening_stops_on_errors_and_after_quitting() {
    assert_eq!(listen_step(None), ListenStep::Stop);
    assert_eq!(listen_step(Some(TerminalEvent::Other)), ListenStep::Ignore);
    assert_eq!(
        listen_step(Some(TerminalEvent::Key(Key::Esc, Modifiers::Plain))),
        ListenStep::Send(ScrollCmd::Live)
    );
    assert!(keep_listening(ScrollCmd::Up, true));
    assert!(!keep_listening(ScrollCmd::Up, false));
    assert!(!keep_listening(ScrollCmd::Quit, true));
}

#[test]
fn a_live_guest_sees_each_chunk() {
    let mut view = Scrollback::new();
    assert_eq!(output(&mut view, "a"), some("a"));
    assert_eq!(output(&mut view, "b"), some("b"));
}

#[test]
fn scrolling_shows_older_and_newer_chunks() {
    let mut view = Scrollback::new();
    for chunk in ["a", "b", "c"] {
        output(&mut view, chunk);
    }
    assert_eq!(command(&mut view, ScrollCmd::Up), some("b"));
    assert_eq!(command(&mut view, ScrollCmd::Up), some("a"));
    assert_eq!(command(&mut view, ScrollCmd::Up), some("a"));
    assert_eq!(command(&mut view, ScrollCmd::Down), some("b"));
    assert_eq!(command(&mut view, ScrollCmd::Down), some("c"));
    assert_eq!(command(&mut view, ScrollCmd::Down), some("c"));
}

#[test]
fn a_scrolled_guest_is_not_disturbed_until_it_goes_live() {
    let mut view = Scrollback::new();
    output(&mut view, "a");
    output(&mut view, "b");
    command(&mut view, ScrollCmd::Up);
    assert_eq!(output(&mut view, "c"), None);
    assert_eq!(command(&mut view, ScrollCmd::Live), some("c"));
    assert_eq!(output(&mut view, "d"), some("d"));
}

#[test]
fn there_is_nothing_to_scroll_before_output() {
    let mut view = Scrollback::new();
    assert_eq!(command(&mut view, ScrollCmd::Up), None);
    assert_eq!(command(&mut view, ScrollCmd::Down), None);
    assert_eq!(command(&mut view, ScrollCmd::Live), None);
    assert_eq!(output(&mut view, "a"), some("a"));
    assert_eq!(command(&mut view, ScrollCmd::Up), some("a"));
    assert_eq!(output(&mut view, "b"), some("b"));
}

#[test]
fn scrolling_up_and_down_returns() {
    let mut view = Scrollback::new();
    for chunk in ["a", "b", "c", "d"] {
        output(&mut view, chunk);
    }
    assert_eq!(command(&mut view, ScrollCmd::Up), some("c"));
    assert_eq!(command(&mut view, ScrollCmd::Up), some("b"));
    assert_eq!(command(&mut view, ScrollCmd::Down), some("c"));
}

#[test]
fn quitting_and_endings_leave() {
    for event in [
        GuestEvent::Command(ScrollCmd::Quit),
        GuestEvent::OutputEnded,
        GuestEvent::CommandsEnded,
    ] {
        assert!(matches!(Scrollback::new().step(event), GuestAction::Leave));
    }
}

#[test]
fn the_history_keeps_the_latest_output() {
    let mut view = Scrollback::new();
    for n in 0..HISTORY_CAP + 5 {
        output(&mut view, &n.to_string());
    }
    for _ in 0..HISTORY_CAP - 2 {
        command(&mut view, ScrollCmd::Up);
    }
    assert_eq!(command(&mut view, ScrollCmd::Up), some("5"));
    assert_eq!(command(&mut view, ScrollCmd::Up), some("5"));
    assert_eq!(output(&mut view, "new"), None);
    assert_eq!(command(&mut view, ScrollCmd::Up), some("6"));
    assert_eq!(command(&mut view, ScrollCmd::Live), some("new"));
}

#[test]
fn a_full_history_moves_the_guest_towards_the_newest() {
    let mut view = Scrollback::new();
    for n in 0..HISTORY_CAP {
        output(&mut view, &n.to_string());
    }
    command(&mut view, ScrollCmd::Up);
    assert_eq!(output(&mut view, "new"), some("new"));
}
