use herdr_share::cli::{
    extract_relay_flag, list_addrs, listen_addr, missing_code, parse_join_command,
    parse_relay_command, parse_share_command, unknown_option, JoinCommand, Line, RelayCommand,
    ShareCommand, StopRun, BAD_PORT,
};
use herdr_share::network::Platform;

fn args(list: &[&str]) -> Vec<String> {
    list.iter().map(|s| s.to_string()).collect()
}

fn extracted(list: &[&str]) -> (Option<String>, Vec<String>) {
    extract_relay_flag(&args(list))
}

#[test]
fn what_is_left_names_no_relay() {
    let (addr, rest) = extracted(&["--relay", "h:1", "a", "--relay", "h:2", "--relay"]);
    assert_eq!(addr, Some("h:2".to_string()));
    assert_eq!(rest, args(&["a", "--relay"]));
    assert_eq!(extract_relay_flag(&rest), (None, rest.clone()));
}

#[test]
fn the_relay_flag_stands_anywhere() {
    let addr = Some("h:1".to_string());
    assert_eq!(extracted(&["--relay", "h:1", "a", "b"]), (addr.clone(), args(&["a", "b"])));
    assert_eq!(extracted(&["a", "--relay", "h:1", "b"]), (addr.clone(), args(&["a", "b"])));
    assert_eq!(extracted(&["a", "b", "--relay", "h:1"]), (addr, args(&["a", "b"])));
    assert_eq!(extracted(&["a", "b"]), (None, args(&["a", "b"])));
    assert_eq!(extracted(&[]), (None, args(&[])));
}

#[test]
fn the_last_relay_counts() {
    assert_eq!(
        extracted(&["--relay", "x", "a", "--relay", "y", "b"]),
        (Some("y".to_string()), args(&["a", "b"]))
    );
    assert_eq!(
        extracted(&["--relay", "--relay", "x"]),
        (Some("--relay".to_string()), args(&["x"]))
    );
}

#[test]
fn a_relay_flag_without_an_address_is_kept() {
    assert_eq!(extracted(&["a", "--relay"]), (None, args(&["a", "--relay"])));
    assert_eq!(
        extracted(&["--relay", "x", "--relay"]),
        (Some("x".to_string()), args(&["--relay"]))
    );
}

#[test]
fn share_commands() {
    for word in ["help", "--help", "-h"] {
        assert!(matches!(parse_share_command(&args(&[word])), ShareCommand::Help));
    }
    assert!(matches!(parse_share_command(&args(&["addr"])), ShareCommand::Addr));
    assert!(matches!(parse_share_command(&args(&["stop"])), ShareCommand::Stop));
    assert!(matches!(parse_share_command(&args(&["--relay", "x", "stop"])), ShareCommand::Stop));
    assert!(matches!(parse_share_command(&args(&[])), ShareCommand::Host(None)));
    assert!(matches!(parse_share_command(&args(&["word"])), ShareCommand::Host(None)));
    assert!(matches!(parse_share_command(&args(&[""])), ShareCommand::Host(None)));
    assert!(
        matches!(parse_share_command(&args(&["--relay", "x"])), ShareCommand::Host(Some(r)) if r == "x")
    );
    assert!(
        matches!(parse_share_command(&args(&["--fast"])), ShareCommand::UnknownOption(o) if o == "--fast")
    );
    assert!(
        matches!(parse_share_command(&args(&["--relay"])), ShareCommand::UnknownOption(o) if o == "--relay")
    );
}

#[test]
fn join_commands() {
    assert!(matches!(parse_join_command(&args(&[])), JoinCommand::MissingCode));
    assert!(matches!(parse_join_command(&args(&["--relay", "x"])), JoinCommand::MissingCode));
    assert!(matches!(parse_join_command(&args(&["-h"])), JoinCommand::Help));
    match parse_join_command(&args(&["abc", "--relay", "x"])) {
        JoinCommand::Join { code, relay } => {
            assert_eq!(code, "abc");
            assert_eq!(relay, Some("x".to_string()));
        }
        _ => panic!("expected to join"),
    }
}

#[test]
fn relay_commands() {
    assert_eq!(parse_relay_command(&args(&[])), RelayCommand::Run(4002));
    assert_eq!(parse_relay_command(&args(&["5000"])), RelayCommand::Run(5000));
    assert_eq!(parse_relay_command(&args(&["+80"])), RelayCommand::Run(80));
    assert_eq!(parse_relay_command(&args(&["65535"])), RelayCommand::Run(65535));
    assert_eq!(parse_relay_command(&args(&["65536"])), RelayCommand::BadPort);
    assert_eq!(parse_relay_command(&args(&["port"])), RelayCommand::BadPort);
    assert_eq!(parse_relay_command(&args(&["--help"])), RelayCommand::Help);
    assert_eq!(parse_relay_command(&args(&["--relay", "x"])), RelayCommand::BadPort);
    assert_eq!(BAD_PORT, "port must be a number");
    assert_eq!(listen_addr(4002), "0.0.0.0:4002");
    assert_eq!(listen_addr(0), "0.0.0.0:0");
}

#[test]
fn refusals_say_why() {
    let refusal = unknown_option("--fast");
    assert_eq!(
        refusal.lines,
        vec!["unknown option: --fast", "usage: herdr share [--relay <addr>]"]
    );
    assert_eq!(refusal.exit_code, 2);
    let refusal = missing_code();
    assert_eq!(refusal.lines, vec!["usage: herdr join [--relay <addr>] <code>"]);
    assert_eq!(refusal.exit_code, 2);
}

#[test]
fn the_last_address_is_copied() {
    let one = list_addrs(&args(&["herdr join a"])).ok().unwrap();
    assert_eq!(one.copied, "herdr join a");
    assert_eq!(one.lines, vec!["herdr join a", "(copied to clipboard)"]);
    let two = list_addrs(&args(&["herdr join a", "herdr join b"])).ok().unwrap();
    assert_eq!(two.copied, "herdr join b");
    assert_eq!(
        two.lines,
        vec![
            "herdr join a",
            "herdr join b",
            "(2 active sessions \u{2014} last copied to clipboard)",
        ]
    );
    let none = list_addrs(&[]).err().unwrap();
    assert_eq!(
        none.lines,
        vec!["no active share sessions", "hint: start one with  herdr --share  or  herdr share"]
    );
    assert_eq!(none.exit_code, 1);
}

fn stop_all(platform: Platform, pids: &[u32], signalled: &[bool]) -> (Vec<String>, Vec<String>, i32) {
    let mut run = StopRun::start(platform, pids.to_vec()).ok().unwrap();
    let mut out = Vec::new();
    let mut err = Vec::new();
    let mut i = 0;
    while let Some(pid) = run.next_pid() {
        assert_eq!(pid, pids[i]);
        match run.report(platform, signalled[i]) {
            Line::Output(line) => out.push(line),
            Line::ErrorOutput(line) => err.push(line),
        }
        i += 1;
    }
    assert_eq!(i, pids.len());
    (out, err, run.exit_code())
}

#[test]
fn stopping_succeeds_if_any_was_stopped() {
    let (out, err, code) = stop_all(Platform::Linux, &[3, 40], &[false, true]);
    assert_eq!(out, vec!["share session (pid 40) stopped"]);
    assert_eq!(err, vec!["could not signal process 3 (already exited?)"]);
    assert_eq!(code, 0);
    let (out, err, code) = stop_all(Platform::Windows, &[3], &[false]);
    assert!(out.is_empty());
    assert_eq!(err, vec!["could not open process 3 (already exited?)"]);
    assert_eq!(code, 1);
}

#[test]
fn stopping_may_be_refused() {
    let refusal = StopRun::start(Platform::Linux, Vec::new()).err().unwrap();
    assert_eq!(refusal.lines, vec!["no active share sessions found"]);
    assert_eq!(refusal.exit_code, 1);
    let refusal = StopRun::start(Platform::Other, vec![1]).err().unwrap();
    assert_eq!(refusal.lines, vec!["herdr share stop is not supported on this platform"]);
    assert_eq!(refusal.exit_code, 1);
}
