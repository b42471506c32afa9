use herdr_share::registry::{
    active_entries, clear_share_addr, commands_of, load_share_addrs, load_share_pids,
    other_entries, parse_entries, parse_entry, pids_of, read_active_entries, registry_with,
    registry_without, save_share_addr, write_entries, RegistryUpdate, SHARE_ADDR_FILE,
};

fn entries(list: &[(u32, &str)]) -> Vec<(u32, String)> {
    list.iter().map(|(pid, cmd)| (*pid, cmd.to_string())).collect()
}

fn written(update: RegistryUpdate) -> Option<String> {
    match update {
        RegistryUpdate::Delete => None,
        RegistryUpdate::Write(text) => Some(text),
    }
}

#[test]
fn a_line_holds_a_number_and_a_command() {
    assert_eq!(parse_entry("12 herdr join abc"), Some((12, "herdr join abc".to_string())));
    assert_eq!(parse_entry("  12 herdr join abc \r"), Some((12, "herdr join abc".to_string())));
    assert_eq!(parse_entry("12  two spaces"), Some((12, " two spaces".to_string())));
    assert_eq!(parse_entry("+12 x"), Some((12, "x".to_string())));
    assert_eq!(parse_entry("12"), None);
    assert_eq!(parse_entry("12 "), None);
    assert_eq!(parse_entry("abc def"), None);
    assert_eq!(parse_entry("-1 x"), None);
    assert_eq!(parse_entry("4294967296 x"), None);
    assert_eq!(parse_entry("4294967295 x"), Some((4294967295, "x".to_string())));
    assert_eq!(parse_entry(""), None);
}

#[test]
fn lines_without_an_entry_are_passed_over() {
    let text = "1 herdr join a\nnonsense\n\n2 herdr join b\r\n";
    assert_eq!(parse_entries(Some(text)), entries(&[(1, "herdr join a"), (2, "herdr join b")]));
    assert_eq!(parse_entries(Some("")), entries(&[]));
    assert_eq!(parse_entries(None), entries(&[]));
}

#[test]
fn only_running_processes_count() {
    let text = "1 a\n2 b\n3 c";
    assert_eq!(read_active_entries(Some(text), |pid| pid != 2), entries(&[(1, "a"), (3, "c")]));
    assert_eq!(load_share_addrs(Some(text), |pid| pid != 2), vec!["a", "c"]);
    assert_eq!(load_share_pids(Some(text), |pid| pid != 2), vec![1, 3]);
    assert_eq!(load_share_pids(Some(text), |_| false), Vec::<u32>::new());
    assert_eq!(load_share_addrs(None, |_| true), Vec::<String>::new());
}

#[test]
fn flags_select_entries_in_order() {
    let all = entries(&[(1, "a"), (2, "b"), (3, "c")]);
    assert_eq!(active_entries(&all, &[true, false, true]), entries(&[(1, "a"), (3, "c")]));
    assert_eq!(other_entries(&all, 1), entries(&[(2, "b"), (3, "c")]));
    assert_eq!(other_entries(&all, 9), all);
    assert_eq!(commands_of(&all), vec!["a", "b", "c"]);
    assert_eq!(pids_of(&all), vec![1, 2, 3]);
}

#[test]
fn entries_are_written_one_to_a_line() {
    assert_eq!(write_entries(&[]), "");
    assert_eq!(write_entries(&entries(&[(7, "herdr join x")])), "7 herdr join x");
    assert_eq!(write_entries(&entries(&[(7, "a"), (10, "b")])), "7 a\n10 b");
}

#[test]
fn what_is_written_is_read_back() {
    let all = entries(&[(7, "herdr join abc234"), (4294967295, "x y"), (0, " leading")]);
    assert_eq!(parse_entries(Some(&write_entries(&all))), all);
}

#[test]
fn saving_puts_the_own_entry_last() {
    let text = save_share_addr(Some("1 a\n2 b\n1 c\n3 d"), |pid| pid != 3, 1, "herdr join new");
    assert_eq!(text, "2 b\n1 herdr join new");
    assert_eq!(save_share_addr(None, |_| true, 5, "herdr join x"), "5 herdr join x");
    assert_eq!(load_share_addrs(Some(&text), |_| true), vec!["b", "herdr join new"]);
}

#[test]
fn clearing_undoes_saving() {
    let before = "2 b\n3 c";
    let saved = save_share_addr(Some(before), |_| true, 9, "herdr join x");
    assert_eq!(saved, "2 b\n3 c\n9 herdr join x");
    assert_eq!(written(clear_share_addr(Some(&saved), |_| true, 9)), Some(before.to_string()));
}

#[test]
fn the_last_to_clear_deletes_the_registry() {
    assert_eq!(written(clear_share_addr(Some("9 x"), |_| true, 9)), None);
    assert_eq!(written(clear_share_addr(Some("9 x\n4 y"), |pid| pid != 4, 9)), None);
    assert_eq!(written(clear_share_addr(None, |_| true, 9)), None);
    assert_eq!(written(registry_without(&entries(&[(1, "a")]), 2)), Some("1 a".to_string()));
}

#[test]
fn saving_twice_keeps_the_second_command() {
    let once = registry_with(&entries(&[(1, "a")]), 9, "first");
    let twice = registry_with(&parse_entries(Some(&once)), 9, "second");
    assert_eq!(twice, "1 a\n9 second");
    assert_eq!(parse_entries(Some(&twice)), entries(&[(1, "a"), (9, "second")]));
}

#[test]
fn saving_twice_replaces_a_command_that_reads_back_differently() {
    // Nothing is read back of the first, or it loses its white space at the end.
    for first in ["", "  ", "padded \t"] {
        let once = save_share_addr(Some("1 a\n2 b"), |_| true, 9, first);
        let twice = save_share_addr(Some(&once), |pid| pid != 1, 9, "second");
        assert_eq!(parse_entries(Some(&twice)), entries(&[(2, "b"), (9, "second")]));
    }
    // A command with a line feed leaves its second line behind.
    let once = registry_with(&entries(&[(1, "a")]), 9, "x\n7 y");
    let twice = registry_with(&parse_entries(Some(&once)), 9, "second");
    assert_eq!(parse_entries(Some(&twice)), entries(&[(1, "a"), (7, "y"), (9, "second")]));
}

#[test]
fn clearing_leaves_the_others_and_clearing_again_changes_nothing() {
    let before = " 2 b \n\nnot an entry\n9 x\n3 c\n9 y";
    let cleared = written(clear_share_addr(Some(before), |_| true, 9)).unwrap();
    assert_eq!(cleared, "2 b\n3 c");
    assert_eq!(load_share_addrs(Some(&cleared), |_| true), vec!["b", "c"]);
    assert_eq!(written(clear_share_addr(Some(&cleared), |_| true, 9)), Some(cleared));
    assert_eq!(written(clear_share_addr(Some("9 x"), |_| true, 9)), None);
    assert!(load_share_addrs(None, |_| true).is_empty());
    assert_eq!(written(clear_share_addr(None, |_| true, 9)), None);
}

#[test]
fn the_registry_has_a_name() {
    assert_eq!(SHARE_ADDR_FILE, "herdr-share.addr");
}
