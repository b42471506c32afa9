//! The registry of running shares: a text file with one line, `<pid> <join command>`,
//! for each process that shares.
//!
//! Whether a process still runs is for the operating system to say; every function
//! here takes the answer as a function of the process id.
use crate::protocol::{fits_line, join_command_text};
use crate::text::{
    chars_of, decimal, find_char, first_position, is_digit, law_number_of_decimal,
    law_split_is_at_the_first, law_trim_keeps_bare, law_trimmed_is_bare, lemma_decimal_digits,
    lemma_first_position, lemma_split_at_first, lemma_trimmed_end_concat, lemma_trimmed_within,
    number, occurs_at, parse_number, split_at_first, split_once, string_of, to_decimal, trim,
    trimmed, trimmed_end, trimmed_start,
};
use vstd::prelude::*;
use vstd::slice::*;
use vstd::string::*;

verus! {

/// The name of the registry, within the directory for temporary files.
pub const SHARE_ADDR_FILE: &'static str = "herdr-share.addr";

/// A process id and the command with which to join that process's session.
pub type Entry = (u32, Seq<char>);

/// What a list of entries means.
pub open spec fn entries_of(list: Seq<(u32, String)>) -> Seq<Entry> {
    list.map_values(|e: (u32, String)| (e.0, e.1@))
}

/// The pieces of `s` between line feeds.
pub open spec fn pieces(s: Seq<char>) -> Seq<Seq<char>>
    decreases s.len(),
{
    let i = first_position(s, '\n');
    if 0 <= i < s.len() {
        seq![s.take(i)] + pieces(s.skip(i + 1))
    } else {
        seq![s]
    }
}

/// The entry that a line holds: a number, one space, and a command. White space around
/// the line does not count.
pub open spec fn entry_of(line: Seq<char>) -> Option<Entry> {
    match split_at_first(trimmed(line), ' ') {
        Some((pid, command)) => match number(pid, u32::MAX as nat) {
            Some(n) => Some((n as u32, command)),
            None => None,
        },
        None => None,
    }
}

/// The entries of some lines, without the lines that hold none.
pub open spec fn entries_in(lines: Seq<Seq<char>>) -> Seq<Entry>
    decreases lines.len(),
{
    if lines.len() == 0 {
        Seq::empty()
    } else {
        match entry_of(lines[0]) {
            Some(e) => seq![e] + entries_in(lines.drop_first()),
            None => entries_in(lines.drop_first()),
        }
    }
}

/// The text of a registry, if there is one.
pub open spec fn text_in(content: Option<&str>) -> Option<Seq<char>> {
    match content {
        Some(text) => Some(text@),
        None => None,
    }
}

/// The entries of a registry's text; none if there is no registry.
pub open spec fn listed(content: Option<Seq<char>>) -> Seq<Entry> {
    match content {
        Some(text) => entries_in(pieces(text)),
        None => Seq::empty(),
    }
}

/// The entries whose flag is set, in order.
pub open spec fn kept(entries: Seq<Entry>, flags: Seq<bool>) -> Seq<Entry>
    decreases entries.len(),
{
    if entries.len() == 0 {
        Seq::empty()
    } else if flags[entries.len() - 1] {
        kept(entries.drop_last(), flags.drop_last()).push(entries.last())
    } else {
        kept(entries.drop_last(), flags.drop_last())
    }
}

/// The entries of all processes but `pid`, in order.
pub open spec fn without(entries: Seq<Entry>, pid: u32) -> Seq<Entry>
    decreases entries.len(),
{
    if entries.len() == 0 {
        Seq::empty()
    } else if entries.last().0 != pid {
        without(entries.drop_last(), pid).push(entries.last())
    } else {
        without(entries.drop_last(), pid)
    }
}

/// The entries once `pid` has saved a command: those of the other processes, then its
/// own.
pub open spec fn saved(entries: Seq<Entry>, pid: u32, command: Seq<char>) -> Seq<Entry> {
    without(entries, pid).push((pid, command))
}

/// Whether `is_alive`, asked of each entry's process, may have given these answers.
pub open spec fn may_answer<F: Fn(u32) -> bool>(
    is_alive: F,
    entries: Seq<Entry>,
    answers: Seq<bool>,
) -> bool {
    &&& answers.len() == entries.len()
    &&& forall|i: int|
        0 <= i < entries.len() ==> call_ensures(is_alive, (entries[i].0,), #[trigger] answers[i])
}

/// The line that holds an entry.
pub open spec fn line_of(e: Entry) -> Seq<char> {
    decimal(e.0 as nat).push(' ') + e.1
}

/// The text that holds some entries: their lines, with a line feed between them.
pub open spec fn text_of(entries: Seq<Entry>) -> Seq<char>
    decreases entries.len(),
{
    if entries.len() == 0 {
        Seq::empty()
    } else if entries.len() == 1 {
        line_of(entries[0])
    } else {
        text_of(entries.drop_last()).push('\n') + line_of(entries.last())
    }
}

/// The registry's text once only these entries are left; none if there are none.
pub open spec fn content_of(entries: Seq<Entry>) -> Option<Seq<char>> {
    if entries.len() == 0 {
        None
    } else {
        Some(text_of(entries))
    }
}

/// Reads the entry that a line holds.
pub fn parse_entry(line: &str) -> (r: Option<(u32, String)>)
    ensures
        match r {
            Some(e) => entry_of(line@) == Some((e.0, e.1@)),
            None => entry_of(line@) is None,
        },
{
    match split_once(trim(line), ' ') {
        Some((pid, command)) => match parse_number(pid, u32::MAX as u64) {
            Some(n) => Some((n as u32, command.to_owned())),
            None => None,
        },
        None => None,
    }
}

/// The entries of a registry's text, whether or not their processes still run; none if
/// there is no registry.
pub fn parse_entries(content: Option<&str>) -> (r: Vec<(u32, String)>)
    ensures
        entries_of(r@) == listed(text_in(content)),
{
    let mut out: Vec<(u32, String)> = Vec::new();
    let text = match content {
        None => {
            assert(entries_of(out@) =~= Seq::<Entry>::empty());
            return out;
        },
        Some(text) => text,
    };
    let chars = chars_of(text);
    let n: usize = chars.len();
    let ghost whole = entries_in(pieces(text@));
    let mut start: usize = 0;
    assert(text@.skip(0) =~= text@);
    assert(entries_of(out@) + whole =~= whole);
    loop
        invariant_except_break
            entries_of(out@) + entries_in(pieces(text@.skip(start as int))) == whole,
        invariant
            start <= n,
            n == chars@.len(),
            chars@ == text@,
        ensures
            entries_of(out@) == whole,
        decreases n - start,
    {
        let end: usize = find_char(chars.as_slice(), start, '\n');
        let line = string_of(slice_subrange(chars.as_slice(), start, end));
        let ghost rest = text@.skip(start as int);
        let ghost before = entries_of(out@);
        assert(line@ =~= rest.take(end - start));
        let ghost found = match entry_of(line@) {
            Some(e) => seq![e],
            None => Seq::<Entry>::empty(),
        };
        if let Some(e) = parse_entry(line.as_str()) {
            out.push(e);
        }
        assert(entries_of(out@) =~= before + found);
        if end >= n {
            proof {
                assert(rest.take(end - start) =~= rest);
                assert(pieces(rest) =~= seq![rest]);
                assert(seq![rest].drop_first() =~= Seq::<Seq<char>>::empty());
                reveal_with_fuel(entries_in, 2);
                assert(entries_in(pieces(rest)) =~= found);
            }
            break;
        }
        proof {
            let tail = pieces(text@.skip(end + 1));
            assert(rest.skip(end - start + 1) =~= text@.skip(end + 1));
            assert(pieces(rest) == seq![line@] + tail);
            assert((seq![line@] + tail).drop_first() =~= tail);
            assert(entries_in(pieces(rest)) =~= found + entries_in(tail));
            assert(before + (found + entries_in(tail)) =~= entries_of(out@) + entries_in(tail));
        }
        start = end + 1;
    }
    out
}

/// The entries whose process runs, as `alive` has it for each of them, in order.
pub fn active_entries(entries: &[(u32, String)], alive: &[bool]) -> (r: Vec<(u32, String)>)
    requires
        alive@.len() == entries@.len(),
    ensures
        entries_of(r@) == kept(entries_of(entries@), alive@),
{
    let mut out: Vec<(u32, String)> = Vec::new();
    let n: usize = entries.len();
    let ghost all = entries_of(entries@);
    assert(entries_of(out@) =~= kept(all.take(0), alive@.take(0)));
    for i in 0..n
        invariant
            n == entries@.len(),
            alive@.len() == n,
            all == entries_of(entries@),
            entries_of(out@) == kept(all.take(i as int), alive@.take(i as int)),
    {
        let ghost before = entries_of(out@);
        assert(all.take(i + 1).drop_last() =~= all.take(i as int));
        assert(alive@.take(i + 1).drop_last() =~= alive@.take(i as int));
        if alive[i] {
            let e = (entries[i].0, entries[i].1.clone());
            out.push(e);
            assert(entries_of(out@) =~= before.push(all[i as int]));
        }
    }
    assert(all.take(n as int) =~= all);
    assert(alive@.take(n as int) =~= alive@);
    out
}

/// The entries of a registry's text whose processes run. Each is asked about once, in
/// order.
pub fn read_active_entries<F: Fn(u32) -> bool>(content: Option<&str>, is_alive: F) -> (r: Vec<
    (u32, String),
>)
    requires
        forall|pid: u32| call_requires(is_alive, (pid,)),
    ensures
        exists|alive: Seq<bool>| #[trigger]
            may_answer(is_alive, listed(text_in(content)), alive) && entries_of(r@) == kept(
                listed(text_in(content)),
                alive,
            ),
{
    let entries = parse_entries(content);
    let ghost all = entries_of(entries@);
    let mut alive: Vec<bool> = Vec::new();
    let n: usize = entries.len();
    for i in 0..n
        invariant
            n == entries@.len(),
            all == entries_of(entries@),
            forall|pid: u32| call_requires(is_alive, (pid,)),
            alive@.len() == i,
            forall|j: int|
                0 <= j < i ==> call_ensures(is_alive, (all[j].0,), #[trigger] alive@[j]),
    {
        let answer = is_alive(entries[i].0);
        alive.push(answer);
    }
    assert(may_answer(is_alive, all, alive@));
    active_entries(entries.as_slice(), alive.as_slice())
}

/// The entries of all processes but `pid`, in order.
pub fn other_entries(entries: &[(u32, String)], pid: u32) -> (r: Vec<(u32, String)>)
    ensures
        entries_of(r@) == without(entries_of(entries@), pid),
{
    let mut out: Vec<(u32, String)> = Vec::new();
    let n: usize = entries.len();
    let ghost all = entries_of(entries@);
    assert(entries_of(out@) =~= without(all.take(0), pid));
    for i in 0..n
        invariant
            n == entries@.len(),
            all == entries_of(entries@),
            entries_of(out@) == without(all.take(i as int), pid),
    {
        let ghost before = entries_of(out@);
        assert(all.take(i + 1).drop_last() =~= all.take(i as int));
        if entries[i].0 != pid {
            let e = (entries[i].0, entries[i].1.clone());
            out.push(e);
            assert(entries_of(out@) =~= before.push(all[i as int]));
        }
    }
    assert(all.take(n as int) =~= all);
    out
}

/// The text that holds some entries.
pub fn write_entries(entries: &[(u32, String)]) -> (r: String)
    ensures
        r@ == text_of(entries_of(entries@)),
{
    let mut out = String::new();
    let n: usize = entries.len();
    let ghost all = entries_of(entries@);
    assert(out@ =~= text_of(all.take(0)));
    for i in 0..n
        invariant
            n == entries@.len(),
            all == entries_of(entries@),
            out@ == text_of(all.take(i as int)),
    {
        assert(all.take(i + 1).drop_last() =~= all.take(i as int));
        let ghost before = out@;
        if i > 0 {
            out.push('\n');
        }
        let ghost start = out@;
        let pid = to_decimal(entries[i].0 as u64);
        out.append(pid.as_str());
        out.push(' ');
        out.append(entries[i].1.as_str());
        assert(out@ =~= start + line_of(all[i as int]));
        assert(all.take(i + 1).last() == all[i as int]);
        if i == 0 {
            assert(out@ =~= line_of(all[0]));
        }
    }
    assert(all.take(n as int) =~= all);
    out
}

/// The registry's text once `pid` has saved a command, from the entries that are active.
pub fn registry_with(entries: &[(u32, String)], pid: u32, join_cmd: &str) -> (r: String)
    ensures
        r@ == text_of(saved(entries_of(entries@), pid, join_cmd@)),
{
    let mut next = other_entries(entries, pid);
    let ghost before = entries_of(next@);
    next.push((pid, join_cmd.to_owned()));
    assert(entries_of(next@) =~= before.push((pid, join_cmd@)));
    write_entries(next.as_slice())
}

/// What becomes of the registry when a process stops sharing.
pub enum RegistryUpdate {
    /// Nobody shares any more: delete it.
    Delete,
    /// Write this text.
    Write(String),
}

/// What becomes of the registry when `pid` stops sharing, from the entries that are
/// active.
pub fn registry_without(entries: &[(u32, String)], pid: u32) -> (r: RegistryUpdate)
    ensures
        match r {
            RegistryUpdate::Delete => content_of(without(entries_of(entries@), pid)) is None,
            RegistryUpdate::Write(text) => content_of(without(entries_of(entries@), pid)) == Some(
                text@,
            ),
        },
{
    let rest = other_entries(entries, pid);
    assert(entries_of(rest@).len() == rest@.len());
    if rest.len() == 0 {
        RegistryUpdate::Delete
    } else {
        RegistryUpdate::Write(write_entries(rest.as_slice()))
    }
}

/// Saves the command with which to join the session of `pid`: the registry's new text.
pub fn save_share_addr<F: Fn(u32) -> bool>(
    content: Option<&str>,
    is_alive: F,
    pid: u32,
    join_cmd: &str,
) -> (r: String)
    requires
        forall|p: u32| call_requires(is_alive, (p,)),
    ensures
        exists|alive: Seq<bool>| #[trigger]
            may_answer(is_alive, listed(text_in(content)), alive) && r@ == text_of(
                saved(kept(listed(text_in(content)), alive), pid, join_cmd@),
            ),
{
    let entries = read_active_entries(content, is_alive);
    registry_with(entries.as_slice(), pid, join_cmd)
}

/// Takes `pid` out of the registry: what becomes of it.
pub fn clear_share_addr<F: Fn(u32) -> bool>(content: Option<&str>, is_alive: F, pid: u32) -> (r:
    RegistryUpdate)
    requires
        forall|p: u32| call_requires(is_alive, (p,)),
    ensures
        exists|alive: Seq<bool>| #[trigger]
            may_answer(is_alive, listed(text_in(content)), alive) && ({
                let rest = without(kept(listed(text_in(content)), alive), pid);
                match r {
                    RegistryUpdate::Delete => content_of(rest) is None,
                    RegistryUpdate::Write(text) => content_of(rest) == Some(text@),
                }
            }),
{
    let entries = read_active_entries(content, is_alive);
    registry_without(entries.as_slice(), pid)
}

/// The commands of some entries, in order.
pub fn commands_of(entries: &[(u32, String)]) -> (r: Vec<String>)
    ensures
        r@.map_values(|s: String| s@) == entries_of(entries@).map_values(|e: Entry| e.1),
{
    let mut out: Vec<String> = Vec::new();
    let n: usize = entries.len();
    for i in 0..n
        invariant
            n == entries@.len(),
            out@.len() == i,
            forall|j: int| 0 <= j < i ==> (#[trigger] out@[j])@ == entries@[j].1@,
    {
        out.push(entries[i].1.clone());
    }
    assert(out@.map_values(|s: String| s@) =~= entries_of(entries@).map_values(|e: Entry| e.1));
    out
}

/// The process ids of some entries, in order.
pub fn pids_of(entries: &[(u32, String)]) -> (r: Vec<u32>)
    ensures
        r@ == entries_of(entries@).map_values(|e: Entry| e.0),
{
    let mut out: Vec<u32> = Vec::new();
    let n: usize = entries.len();
    for i in 0..n
        invariant
            n == entries@.len(),
            out@.len() == i,
            forall|j: int| 0 <= j < i ==> #[trigger] out@[j] == entries@[j].0,
    {
        out.push(entries[i].0);
    }
    assert(out@ =~= entries_of(entries@).map_values(|e: Entry| e.0));
    out
}

/// The commands with which to join the active sessions.
pub fn load_share_addrs<F: Fn(u32) -> bool>(content: Option<&str>, is_alive: F) -> (r: Vec<String>)
    requires
        forall|p: u32| call_requires(is_alive, (p,)),
    ensures
        exists|alive: Seq<bool>| #[trigger]
            may_answer(is_alive, listed(text_in(content)), alive) && r@.map_values(|s: String| s@)
                == kept(listed(text_in(content)), alive).map_values(|e: Entry| e.1),
{
    let entries = read_active_entries(content, is_alive);
    commands_of(entries.as_slice())
}

/// The process ids of the active sessions.
pub fn load_share_pids<F: Fn(u32) -> bool>(content: Option<&str>, is_alive: F) -> (r: Vec<u32>)
    requires
        forall|p: u32| call_requires(is_alive, (p,)),
    ensures
        exists|alive: Seq<bool>| #[trigger]
            may_answer(is_alive, listed(text_in(content)), alive) && r@ == kept(
                listed(text_in(content)),
                alive,
            ).map_values(|e: Entry| e.0),
{
    let entries = read_active_entries(content, is_alive);
    pids_of(entries.as_slice())
}

// ---------------------------------------------------------------------------
// Laws
// ---------------------------------------------------------------------------

/// Whether every entry's command stands as it is in a line.
pub open spec fn all_fit(entries: Seq<Entry>) -> bool {
    forall|i: int| 0 <= i < entries.len() ==> fits_line((#[trigger] entries[i]).1)
}

/// What is written to the registry is read back, as it was and in order.
pub proof fn law_registry_round_trip(entries: Seq<Entry>)
    requires
        all_fit(entries),
    ensures
        listed(Some(text_of(entries))) == entries,
    decreases entries.len(),
{
    let text = text_of(entries);
    if entries.len() == 0 {
        lemma_no_entry_in_empty_line();
        assert(pieces(text) =~= seq![text]);
        lemma_entries_in_push(Seq::empty(), text);
        assert(Seq::<Seq<char>>::empty().push(text) =~= seq![text]);
        assert(entries_in(seq![text]) =~= entries);
    } else {
        let e = entries.last();
        let init = entries.drop_last();
        assert(fits_line(entries[entries.len() - 1].1));
        lemma_entry_of_line(e);
        assert forall|i: int| 0 <= i < init.len() implies fits_line((#[trigger] init[i]).1) by {
            assert(fits_line(entries[i].1));
        }
        law_registry_round_trip(init);
        if init.len() == 0 {
            assert(pieces(text) =~= seq![text]) by {
                lemma_first_position(text, '\n');
            }
            lemma_entries_in_push(Seq::empty(), text);
            assert(Seq::<Seq<char>>::empty().push(text) =~= seq![text]);
            assert(entries_in(seq![text]) =~= entries);
        } else {
            lemma_pieces_push(text_of(init), line_of(e));
            lemma_entries_in_push(pieces(text_of(init)), line_of(e));
            assert(init.push(e) =~= entries);
        }
    }
}

/// Whatever text the registry holds, the commands read from it stand as they are in a
/// line.
pub proof fn law_listed_commands_fit(content: Option<Seq<char>>)
    ensures
        all_fit(listed(content)),
{
    if let Some(text) = content {
        lemma_pieces_hold_no_line_feed(text);
        lemma_entries_in_fit(pieces(text));
    }
}

/// A command saved by `pid` is found again: loading the saved registry gives the other
/// active entries as they were, then the new one. This holds of any text that the
/// registry held before.
pub proof fn law_saved_command_is_loaded(
    content: Option<Seq<char>>,
    alive: Seq<bool>,
    pid: u32,
    command: Seq<char>,
)
    requires
        alive.len() == listed(content).len(),
        fits_line(command),
    ensures
        listed(Some(text_of(saved(kept(listed(content), alive), pid, command)))) == saved(
            kept(listed(content), alive),
            pid,
            command,
        ),
{
    law_listed_commands_fit(content);
    lemma_kept_fits(listed(content), alive);
    let active = kept(listed(content), alive);
    lemma_without_fits(active, pid);
    let next = saved(active, pid, command);
    assert forall|i: int| 0 <= i < next.len() implies fits_line((#[trigger] next[i]).1) by {
        if i < next.len() - 1 {
            assert(fits_line(without(active, pid)[i].1));
        }
    }
    law_registry_round_trip(next);
}

/// Of two commands that `pid` saves one after the other, only the second is found: loading gives
/// the entries of the others that were active both times, as they were, then that one. The
/// first may be anything without a line feed.
pub proof fn law_second_save_replaces_first(
    content: Option<Seq<char>>,
    alive: Seq<bool>,
    alive_later: Seq<bool>,
    pid: u32,
    first: Seq<char>,
    second: Seq<char>,
)
    requires
        alive.len() == listed(content).len(),
        !first.contains('\n'),
        fits_line(second),
        alive_later.len() == listed(
            Some(text_of(saved(kept(listed(content), alive), pid, first))),
        ).len(),
    ensures
        ({
            let active = kept(listed(content), alive);
            let others = without(active, pid);
            let once = Some(text_of(saved(active, pid, first)));
            let twice = Some(text_of(saved(kept(listed(once), alive_later), pid, second)));
            &&& others.len() <= alive_later.len()
            &&& listed(twice) == saved(
                kept(others, alive_later.take(others.len() as int)),
                pid,
                second,
            )
        }),
{
    let active = kept(listed(content), alive);
    let others = without(active, pid);
    let once = Some(text_of(saved(active, pid, first)));
    law_saved_command_is_loaded(once, alive_later, pid, second);
    law_listed_commands_fit(content);
    lemma_kept_fits(listed(content), alive);
    lemma_without_fits(active, pid);
    lemma_without(active, pid);
    lemma_own_line_last(others, pid, first);
    let found = listed(once);
    let flags = alive_later.take(others.len() as int);
    if found.len() == others.len() {
        assert(flags =~= alive_later);
    } else {
        assert(found.drop_last() =~= others);
        assert(flags =~= alive_later.drop_last());
    }
    let left = kept(found, alive_later);
    let left_others = kept(others, flags);
    if found.len() > others.len() && alive_later.last() {
        assert(left == left_others.push(found.last()));
        assert(left.drop_last() =~= left_others);
    }
    assert(without(left, pid) == without(left_others, pid));
}

/// After `others`, a line that starts with `pid` and holds no line feed holds an entry of `pid`
/// or none.
proof fn lemma_own_line_last(others: Seq<Entry>, pid: u32, command: Seq<char>)
    requires
        all_fit(others),
        !command.contains('\n'),
    ensures
        ({
            let found = listed(Some(text_of(others.push((pid, command)))));
            ||| found == others
            ||| exists|c: Seq<char>| found == #[trigger] others.push((pid, c))
        }),
{
    let all = others.push((pid, command));
    let line = line_of((pid, command));
    let text = text_of(all);
    assert(all.drop_last() =~= others);
    lemma_own_line(pid, command);
    law_registry_round_trip(others);
    if others.len() == 0 {
        lemma_first_position(text, '\n');
        assert(text == line);
        assert(pieces(text) =~= Seq::<Seq<char>>::empty().push(line));
        lemma_entries_in_push(Seq::empty(), line);
        assert(entries_in(Seq::empty()) =~= others);
    } else {
        lemma_pieces_push(text_of(others), line);
        lemma_entries_in_push(pieces(text_of(others)), line);
    }
    if let Some(e) = entry_of(line) {
        assert(listed(Some(text)) == others.push((pid, e.1)));
    }
}

/// A line that starts with `pid` and a space holds an entry of `pid` or none.
proof fn lemma_own_line(pid: u32, command: Seq<char>)
    requires
        !command.contains('\n'),
    ensures
        !line_of((pid, command)).contains('\n'),
        entry_of(line_of((pid, command))) matches Some(e) ==> e.0 == pid,
{
    let digits = decimal(pid as nat);
    let line = line_of((pid, command));
    lemma_decimal_digits(pid as nat);
    if line.contains('\n') {
        let k = choose|k: int| 0 <= k < line.len() && line[k] == '\n';
        if k < digits.len() {
            assert(is_digit(digits[k]));
        } else if k > digits.len() {
            assert(command[k - digits.len() - 1] == '\n');
        }
    }
    assert(is_digit(digits[0]));
    assert(trimmed_start(line) == line);
    lemma_trimmed_end_concat(digits.push(' '), command);
    if digits.contains(' ') {
        let k = choose|k: int| 0 <= k < digits.len() && digits[k] == ' ';
        assert(is_digit(digits[k]));
    }
    law_number_of_decimal(pid as nat, u32::MAX as nat);
    if trimmed_end(command).len() > 0 {
        lemma_split_at_first(digits, ' ', trimmed_end(command));
    } else {
        assert(is_digit(digits.last())) by {
            assert(is_digit(digits[digits.len() - 1]));
        }
        assert(digits.push(' ').drop_last() =~= digits);
        reveal_with_fuel(trimmed_end, 2);
        assert(trimmed(line) == digits);
        lemma_first_position(digits, ' ');
        assert(split_at_first(digits, ' ') is None);
    }
}

proof fn lemma_kept_all(entries: Seq<Entry>, flags: Seq<bool>)
    requires
        flags.len() == entries.len(),
        forall|i: int| 0 <= i < flags.len() ==> #[trigger] flags[i],
    ensures
        kept(entries, flags) == entries,
    decreases entries.len(),
{
    if entries.len() == 0 {
        assert(kept(entries, flags) =~= entries);
    } else {
        let init = flags.drop_last();
        assert forall|i: int| 0 <= i < init.len() implies #[trigger] init[i] by {
            assert(flags[i]);
        }
        lemma_kept_all(entries.drop_last(), init);
        assert(flags[entries.len() - 1]);
        assert(entries.drop_last().push(entries.last()) =~= entries);
    }
}

/// The command made from a code that the relay sent can always be saved and found
/// again.
pub proof fn law_join_command_fits(code: Seq<char>)
    requires
        fits_line(code),
    ensures
        fits_line(join_command_text(code)),
{
    reveal_strlit("herdr join ");
    let command = join_command_text(code);
    if command.contains('\n') {
        let k = choose|k: int| 0 <= k < command.len() && command[k] == '\n';
        if k >= 11 {
            assert(code[k - 11] == '\n');
        }
    }
}

/// After saving, `pid` has one entry, the last, and the entries of the others are those
/// that were there, in order.
pub proof fn law_save_replaces_own_entry(entries: Seq<Entry>, pid: u32, command: Seq<char>)
    ensures
        saved(entries, pid, command).last() == (pid, command),
        forall|i: int|
            0 <= i < saved(entries, pid, command).len() - 1 ==> (#[trigger] saved(
                entries,
                pid,
                command,
            )[i]).0 != pid,
        without(saved(entries, pid, command), pid) == without(entries, pid),
        forall|again: Seq<char>| #[trigger]
            saved(saved(entries, pid, command), pid, again) == saved(entries, pid, again),
{
    let rest = without(entries, pid);
    lemma_without(entries, pid);
    assert(saved(entries, pid, command).drop_last() =~= rest);
    lemma_without_of_others(rest, pid);
}

/// Clearing removes the entries of `pid` and no others; clearing twice is clearing
/// once.
pub proof fn law_clear_removes_own_entries(entries: Seq<Entry>, pid: u32)
    ensures
        forall|i: int|
            0 <= i < without(entries, pid).len() ==> (#[trigger] without(entries, pid)[i]).0 != pid,
        forall|e: Entry|
            e.0 != pid ==> (#[trigger] without(entries, pid).contains(e) <==> entries.contains(e)),
        without(without(entries, pid), pid) == without(entries, pid),
{
    lemma_without(entries, pid);
    lemma_without_of_others(without(entries, pid), pid);
}

/// After clearing, loading gives the active entries of the others, as they were; clearing again
/// while they run leaves the registry as it is. This holds of any text that the registry held
/// before.
pub proof fn law_cleared_registry_lists_the_others(
    content: Option<Seq<char>>,
    alive: Seq<bool>,
    pid: u32,
    alive_later: Seq<bool>,
)
    requires
        alive.len() == listed(content).len(),
        alive_later.len() == without(kept(listed(content), alive), pid).len(),
        forall|i: int| 0 <= i < alive_later.len() ==> #[trigger] alive_later[i],
    ensures
        ({
            let rest = without(kept(listed(content), alive), pid);
            let cleared = content_of(rest);
            &&& listed(cleared) == rest
            &&& content_of(without(kept(listed(cleared), alive_later), pid)) == cleared
        }),
{
    let active = kept(listed(content), alive);
    let rest = without(active, pid);
    law_listed_commands_fit(content);
    lemma_kept_fits(listed(content), alive);
    lemma_without_fits(active, pid);
    law_registry_round_trip(rest);
    assert(rest.len() == 0 ==> rest =~= Seq::<Entry>::empty());
    lemma_kept_all(rest, alive_later);
    law_clear_removes_own_entries(active, pid);
}

/// Clearing undoes saving, for a process that had no entry before.
pub proof fn law_clear_undoes_save(entries: Seq<Entry>, pid: u32, command: Seq<char>)
    requires
        forall|i: int| 0 <= i < entries.len() ==> (#[trigger] entries[i]).0 != pid,
    ensures
        without(saved(entries, pid, command), pid) == entries,
{
    law_save_replaces_own_entry(entries, pid, command);
    lemma_without_of_others(entries, pid);
}

proof fn lemma_without(entries: Seq<Entry>, pid: u32)
    ensures
        forall|i: int|
            0 <= i < without(entries, pid).len() ==> (#[trigger] without(entries, pid)[i]).0 != pid,
        forall|e: Entry|
            e.0 != pid ==> (#[trigger] without(entries, pid).contains(e) <==> entries.contains(e)),
    decreases entries.len(),
{
    if entries.len() > 0 {
        let init = entries.drop_last();
        lemma_without(init, pid);
        assert forall|e: Entry| e.0 != pid implies (#[trigger] without(entries, pid).contains(e)
            <==> entries.contains(e)) by {
            let rest = without(entries, pid);
            if entries.contains(e) {
                let k = choose|k: int| 0 <= k < entries.len() && entries[k] == e;
                if k < init.len() {
                    assert(init[k] == e);
                    assert(init.contains(e));
                    assert(without(init, pid).contains(e));
                    let j = choose|j: int|
                        0 <= j < without(init, pid).len() && without(init, pid)[j] == e;
                    assert(rest[j] == e);
                } else {
                    assert(rest.last() == e);
                }
            }
            if rest.contains(e) {
                let k = choose|k: int| 0 <= k < rest.len() && rest[k] == e;
                if k < without(init, pid).len() {
                    assert(without(init, pid)[k] == e);
                    assert(without(init, pid).contains(e));
                    let j = choose|j: int| 0 <= j < init.len() && init[j] == e;
                    assert(entries[j] == e);
                } else {
                    assert(entries.last() == e);
                }
            }
        }
    }
}

proof fn lemma_without_of_others(entries: Seq<Entry>, pid: u32)
    requires
        forall|i: int| 0 <= i < entries.len() ==> (#[trigger] entries[i]).0 != pid,
    ensures
        without(entries, pid) == entries,
    decreases entries.len(),
{
    if entries.len() > 0 {
        let init = entries.drop_last();
        assert forall|i: int| 0 <= i < init.len() implies (#[trigger] init[i]).0 != pid by {
            assert(entries[i].0 != pid);
        }
        lemma_without_of_others(init, pid);
        assert(entries[entries.len() - 1].0 != pid);
        assert(init.push(entries.last()) =~= entries);
    } else {
        assert(without(entries, pid) =~= entries);
    }
}

proof fn lemma_kept_fits(entries: Seq<Entry>, flags: Seq<bool>)
    requires
        all_fit(entries),
        flags.len() == entries.len(),
    ensures
        all_fit(kept(entries, flags)),
    decreases entries.len(),
{
    if entries.len() > 0 {
        let init = entries.drop_last();
        assert forall|i: int| 0 <= i < init.len() implies fits_line((#[trigger] init[i]).1) by {
            assert(fits_line(entries[i].1));
        }
        lemma_kept_fits(init, flags.drop_last());
        assert(fits_line(entries[entries.len() - 1].1));
    }
}

proof fn lemma_without_fits(entries: Seq<Entry>, pid: u32)
    requires
        all_fit(entries),
    ensures
        all_fit(without(entries, pid)),
    decreases entries.len(),
{
    if entries.len() > 0 {
        let init = entries.drop_last();
        assert forall|i: int| 0 <= i < init.len() implies fits_line((#[trigger] init[i]).1) by {
            assert(fits_line(entries[i].1));
        }
        lemma_without_fits(init, pid);
        assert(fits_line(entries[entries.len() - 1].1));
    }
}

/// One more line adds the entry that it holds.
proof fn lemma_entries_in_push(lines: Seq<Seq<char>>, line: Seq<char>)
    ensures
        entries_in(lines.push(line)) == match entry_of(line) {
            Some(e) => entries_in(lines).push(e),
            None => entries_in(lines),
        },
    decreases lines.len(),
{
    let more = lines.push(line);
    if lines.len() == 0 {
        assert(more.drop_first() =~= Seq::<Seq<char>>::empty());
        reveal_with_fuel(entries_in, 2);
        assert(entries_in(more) =~= match entry_of(line) {
            Some(e) => entries_in(lines).push(e),
            None => entries_in(lines),
        });
    } else {
        assert(more.drop_first() =~= lines.drop_first().push(line));
        lemma_entries_in_push(lines.drop_first(), line);
        assert(entries_in(more) =~= match entry_of(line) {
            Some(e) => entries_in(lines).push(e),
            None => entries_in(lines),
        });
    }
}

/// A line feed and a line without one add one piece.
proof fn lemma_pieces_push(text: Seq<char>, line: Seq<char>)
    requires
        !line.contains('\n'),
    ensures
        pieces(text.push('\n') + line) == pieces(text).push(line),
    decreases text.len(),
{
    let more = text.push('\n') + line;
    lemma_first_position(text, '\n');
    lemma_first_position(more, '\n');
    lemma_first_position(line, '\n');
    let i = first_position(text, '\n');
    let j = first_position(more, '\n');
    assert(more[text.len() as int] == '\n');
    if i < text.len() {
        assert(more[i] == '\n');
        if j < i {
            assert(text[j] == '\n');
        }
        assert(j == i);
        assert(more.take(i) =~= text.take(i));
        assert(more.skip(i + 1) =~= text.skip(i + 1).push('\n') + line);
        lemma_pieces_push(text.skip(i + 1), line);
        assert(pieces(more) =~= pieces(text).push(line));
    } else {
        if j < text.len() {
            assert(text[j] == '\n');
        }
        assert(j == text.len());
        assert(more.take(j) =~= text);
        assert(more.skip(j + 1) =~= line);
        assert(pieces(line) =~= seq![line]);
        assert(pieces(text) =~= seq![text]);
        assert(pieces(more) =~= pieces(text).push(line));
    }
}

/// The line of an entry holds the entry.
proof fn lemma_entry_of_line(e: Entry)
    requires
        fits_line(e.1),
    ensures
        entry_of(line_of(e)) == Some(e),
        !line_of(e).contains('\n'),
{
    let pid = decimal(e.0 as nat);
    let line = line_of(e);
    lemma_decimal_digits(e.0 as nat);
    assert(is_digit(pid[0]));
    law_trim_keeps_bare(line);
    if pid.contains(' ') {
        let k = choose|k: int| 0 <= k < pid.len() && pid[k] == ' ';
        assert(is_digit(pid[k]));
    }
    lemma_split_at_first(pid, ' ', e.1);
    law_number_of_decimal(e.0 as nat, u32::MAX as nat);
    if line.contains('\n') {
        let k = choose|k: int| 0 <= k < line.len() && line[k] == '\n';
        if k < pid.len() {
            assert(is_digit(pid[k]));
        } else if k > pid.len() {
            assert(e.1[k - pid.len() - 1] == '\n');
        }
    }
}

proof fn lemma_no_entry_in_empty_line()
    ensures
        entry_of(Seq::empty()) is None,
{
}

proof fn lemma_pieces_hold_no_line_feed(text: Seq<char>)
    ensures
        forall|i: int| 0 <= i < pieces(text).len() ==> !(#[trigger] pieces(text)[i]).contains('\n'),
    decreases text.len(),
{
    lemma_first_position(text, '\n');
    let k = first_position(text, '\n');
    if k < text.len() {
        let rest = text.skip(k + 1);
        lemma_pieces_hold_no_line_feed(rest);
        assert forall|i: int| 0 <= i < pieces(text).len() implies !(#[trigger] pieces(
            text,
        )[i]).contains('\n') by {
            if i > 0 {
                assert(pieces(text)[i] == pieces(rest)[i - 1]);
            } else {
                assert(pieces(text)[0] =~= text.take(k));
            }
        }
    }
}

proof fn lemma_entries_in_fit(lines: Seq<Seq<char>>)
    requires
        forall|i: int| 0 <= i < lines.len() ==> !(#[trigger] lines[i]).contains('\n'),
    ensures
        all_fit(entries_in(lines)),
    decreases lines.len(),
{
    if lines.len() > 0 {
        let rest = lines.drop_first();
        assert forall|i: int| 0 <= i < rest.len() implies !(#[trigger] rest[i]).contains('\n') by {
            assert(!lines[i + 1].contains('\n'));
        }
        lemma_entries_in_fit(rest);
        if let Some(e) = entry_of(lines[0]) {
            lemma_entry_fits(lines[0]);
            let all = entries_in(lines);
            assert forall|i: int| 0 <= i < all.len() implies fits_line((#[trigger] all[i]).1) by {
                if i > 0 {
                    assert(all[i] == entries_in(rest)[i - 1]);
                }
            }
        }
    }
}

/// The command of an entry ends where the trimmed line ends.
proof fn lemma_entry_fits(line: Seq<char>)
    requires
        !line.contains('\n'),
        entry_of(line) is Some,
    ensures
        entry_of(line) matches Some(e) && fits_line(e.1),
{
    let body = trimmed(line);
    let e = entry_of(line).unwrap();
    let command = e.1;
    law_trimmed_is_bare(line);
    lemma_trimmed_within(line);
    lemma_first_position(body, ' ');
    let i = first_position(body, ' ');
    if i == body.len() - 1 {
        assert(body.last() == ' ');
    }
    assert(command == body.skip(i + 1));
    assert(command.last() == body.last());
    if command.contains('\n') {
        let k = choose|k: int| 0 <= k < command.len() && command[k] == '\n';
        let at = choose|at: int| occurs_at(line, body, at);
        assert(body[i + 1 + k] == '\n');
        assert(line[at + i + 1 + k] == '\n');
    }
}

/// Whether `is_alive` says of each process what `runs` has of it.
pub open spec fn tells<F: Fn(u32) -> bool>(is_alive: F, runs: spec_fn(u32) -> bool) -> bool {
    forall|pid: u32, answer: bool| #[trigger]
        call_ensures(is_alive, (pid,), answer) ==> answer == runs(pid)
}

/// Of the registry's entries those of running processes count, all of them and in order: their
/// commands and process ids are what is loaded.
pub proof fn law_entries_of_running_processes_are_loaded<F: Fn(u32) -> bool>(
    content: Option<&str>,
    is_alive: F,
    runs: spec_fn(u32) -> bool,
    entries: Vec<(u32, String)>,
    addrs: Vec<String>,
    pids: Vec<u32>,
)
    requires
        tells(is_alive, runs),
        call_ensures(read_active_entries::<F>, (content, is_alive), entries),
        call_ensures(load_share_addrs::<F>, (content, is_alive), addrs),
        call_ensures(load_share_pids::<F>, (content, is_alive), pids),
    ensures
        ({
            let running = listed(text_in(content)).filter(|e: Entry| runs(e.0));
            &&& entries_of(entries@) == running
            &&& addrs@.len() == running.len() && pids@.len() == running.len()
            &&& forall|i: int| 0 <= i < running.len() ==> (#[trigger] addrs@[i])@ == running[i].1
            &&& forall|i: int| 0 <= i < running.len() ==> #[trigger] pids@[i] == running[i].0
        }),
{
    let all = listed(text_in(content));
    let running = all.filter(|e: Entry| runs(e.0));
    assert forall|alive: Seq<bool>| #[trigger] may_answer(is_alive, all, alive) implies kept(
        all,
        alive,
    ) == running by {
        lemma_kept_is_filter(is_alive, runs, all, alive);
    }
    let texts = addrs@.map_values(|s: String| s@);
    assert(texts == running.map_values(|e: Entry| e.1));
    assert(texts.len() == addrs@.len());
    assert forall|i: int| 0 <= i < running.len() implies (#[trigger] addrs@[i])@
        == running[i].1 by {
        assert(texts[i] == addrs@[i]@);
    }
    assert(pids@ == running.map_values(|e: Entry| e.0));
}

/// Saving writes the entries of the other running processes, as they were and in order, and then
/// the new one; so the process has no other entry.
pub proof fn law_saving_keeps_the_other_running_processes<F: Fn(u32) -> bool>(
    content: Option<&str>,
    is_alive: F,
    runs: spec_fn(u32) -> bool,
    pid: u32,
    command: &str,
    r: String,
)
    requires
        tells(is_alive, runs),
        call_ensures(save_share_addr::<F>, (content, is_alive, pid, command), r),
    ensures
        r@ == text_of(
            listed(text_in(content)).filter(|e: Entry| runs(e.0) && e.0 != pid).push(
                (pid, command@),
            ),
        ),
{
    let all = listed(text_in(content));
    assert forall|alive: Seq<bool>| #[trigger] may_answer(is_alive, all, alive) implies without(
        kept(all, alive),
        pid,
    ) == all.filter(|e: Entry| runs(e.0) && e.0 != pid) by {
        lemma_kept_is_filter(is_alive, runs, all, alive);
        lemma_without_is_filter(all, runs, pid);
    }
}

/// Clearing writes the entries of the other running processes, as they were and in order; the
/// registry is deleted just where there are none.
pub proof fn law_clearing_keeps_the_other_running_processes<F: Fn(u32) -> bool>(
    content: Option<&str>,
    is_alive: F,
    runs: spec_fn(u32) -> bool,
    pid: u32,
    r: RegistryUpdate,
)
    requires
        tells(is_alive, runs),
        call_ensures(clear_share_addr::<F>, (content, is_alive, pid), r),
    ensures
        ({
            let rest = listed(text_in(content)).filter(|e: Entry| runs(e.0) && e.0 != pid);
            &&& r is Delete <==> rest.len() == 0
            &&& r matches RegistryUpdate::Write(text) ==> text@ == text_of(rest)
        }),
{
    let all = listed(text_in(content));
    assert forall|alive: Seq<bool>| #[trigger] may_answer(is_alive, all, alive) implies without(
        kept(all, alive),
        pid,
    ) == all.filter(|e: Entry| runs(e.0) && e.0 != pid) by {
        lemma_kept_is_filter(is_alive, runs, all, alive);
        lemma_without_is_filter(all, runs, pid);
    }
}

proof fn lemma_kept_is_filter<F: Fn(u32) -> bool>(
    is_alive: F,
    runs: spec_fn(u32) -> bool,
    entries: Seq<Entry>,
    alive: Seq<bool>,
)
    requires
        tells(is_alive, runs),
        may_answer(is_alive, entries, alive),
    ensures
        kept(entries, alive) == entries.filter(|e: Entry| runs(e.0)),
    decreases entries.len(),
{
    reveal(Seq::filter);
    if entries.len() > 0 {
        let init = entries.drop_last();
        let flags = alive.drop_last();
        assert forall|i: int| 0 <= i < init.len() implies call_ensures(
            is_alive,
            (init[i].0,),
            #[trigger] flags[i],
        ) by {
            assert(call_ensures(is_alive, (entries[i].0,), alive[i]));
        }
        lemma_kept_is_filter(is_alive, runs, init, flags);
        let last = entries.len() - 1;
        assert(call_ensures(is_alive, (entries[last].0,), alive[last]));
    } else {
        assert(kept(entries, alive) =~= entries.filter(|e: Entry| runs(e.0)));
    }
}

proof fn lemma_without_is_filter(entries: Seq<Entry>, runs: spec_fn(u32) -> bool, pid: u32)
    ensures
        without(entries.filter(|e: Entry| runs(e.0)), pid) == entries.filter(
            |e: Entry| runs(e.0) && e.0 != pid,
        ),
    decreases entries.len(),
{
    reveal(Seq::filter);
    if entries.len() > 0 {
        let init = entries.drop_last();
        lemma_without_is_filter(init, runs, pid);
        let before = init.filter(|e: Entry| runs(e.0));
        assert(before.push(entries.last()).drop_last() =~= before);
    } else {
        assert(without(entries.filter(|e: Entry| runs(e.0)), pid) =~= entries);
    }
}

/// The functions on lists of entries keep the order: the flagged ones, those of other processes,
/// and the parts of each.
pub proof fn law_lists_of_entries_keep_their_order(
    entries: &[(u32, String)],
    pid: u32,
    command: &str,
    others: Vec<(u32, String)>,
    commands: Vec<String>,
    pids: Vec<u32>,
    text: String,
    with: String,
    update: RegistryUpdate,
)
    requires
        call_ensures(other_entries, (entries, pid), others),
        call_ensures(commands_of, (entries,), commands),
        call_ensures(pids_of, (entries,), pids),
        call_ensures(write_entries, (entries,), text),
        call_ensures(registry_with, (entries, pid, command), with),
        call_ensures(registry_without, (entries, pid), update),
    ensures
        ({
            let all = entries_of(entries@);
            let rest = all.filter(|e: Entry| e.0 != pid);
            &&& entries_of(others@) == rest
            &&& commands@.len() == all.len() && pids@.len() == all.len()
            &&& forall|i: int| 0 <= i < all.len() ==> (#[trigger] commands@[i])@ == all[i].1
            &&& forall|i: int| 0 <= i < all.len() ==> #[trigger] pids@[i] == all[i].0
            &&& text@ == text_of(all)
            &&& with@ == text_of(rest.push((pid, command@)))
            &&& update is Delete <==> rest.len() == 0
            &&& update matches RegistryUpdate::Write(t) ==> t@ == text_of(rest)
        }),
{
    let all = entries_of(entries@);
    lemma_others_is_filter(all, pid);
    let texts = commands@.map_values(|s: String| s@);
    assert(texts == all.map_values(|e: Entry| e.1));
    assert(texts.len() == commands@.len());
    assert forall|i: int| 0 <= i < all.len() implies (#[trigger] commands@[i])@ == all[i].1 by {
        assert(texts[i] == commands@[i]@);
    }
}

proof fn lemma_others_is_filter(entries: Seq<Entry>, pid: u32)
    ensures
        without(entries, pid) == entries.filter(|e: Entry| e.0 != pid),
    decreases entries.len(),
{
    reveal(Seq::filter);
    if entries.len() > 0 {
        lemma_others_is_filter(entries.drop_last(), pid);
    } else {
        assert(without(entries, pid) =~= entries);
    }
}

/// An entry is active just where its flag is set: what is active of two lists, one after the
/// other, is what is active of each.
pub proof fn law_active_entries_are_the_flagged_ones(
    a: Seq<Entry>,
    fa: Seq<bool>,
    b: Seq<Entry>,
    fb: Seq<bool>,
    e: Entry,
)
    requires
        a.len() == fa.len(),
        b.len() == fb.len(),
    ensures
        kept(a + b, fa + fb) == kept(a, fa) + kept(b, fb),
        kept(seq![e], seq![true]) == seq![e],
        kept(seq![e], seq![false]).len() == 0,
        forall|entries: &[(u32, String)], alive: &[bool], r: Vec<(u32, String)>| #[trigger]
            call_ensures(active_entries, (entries, alive), r) ==> entries_of(r@) == kept(
                entries_of(entries@),
                alive@,
            ),
    decreases b.len(),
{
    let none = Seq::<Entry>::empty();
    assert(seq![e].drop_last() =~= none);
    assert(seq![true].drop_last() =~= Seq::<bool>::empty());
    assert(seq![false].drop_last() =~= Seq::<bool>::empty());
    reveal_with_fuel(kept, 2);
    assert(kept(seq![e], seq![true]) =~= seq![e]);
    if b.len() == 0 {
        assert(a + b =~= a);
        assert(fa + fb =~= fa);
        assert(kept(a, fa) + kept(b, fb) =~= kept(a, fa));
    } else {
        law_active_entries_are_the_flagged_ones(a, fa, b.drop_last(), fb.drop_last(), e);
        assert((a + b).drop_last() =~= a + b.drop_last());
        assert((fa + fb).drop_last() =~= fa + fb.drop_last());
        assert(kept(a + b, fa + fb) =~= kept(a, fa) + kept(b, fb));
    }
}

/// The registry has one line for each entry, in order: the process id, a space and the command.
/// There is a line feed between two lines, and none at the end.
pub proof fn law_registry_has_a_line_for_each_entry(a: Seq<Entry>, b: Seq<Entry>, e: Entry)
    requires
        a.len() > 0,
        b.len() > 0,
    ensures
        text_of(seq![e]) == decimal(e.0 as nat) + seq![' '] + e.1,
        text_of(a + b) == text_of(a) + seq!['\n'] + text_of(b),
        text_of(Seq::empty()).len() == 0,
    decreases b.len(),
{
    assert(text_of(seq![e]) =~= decimal(e.0 as nat) + seq![' '] + e.1);
    assert((a + b).drop_last() =~= a + b.drop_last());
    if b.len() == 1 {
        assert(a + b.drop_last() =~= a);
        assert(text_of(a + b) =~= text_of(a) + seq!['\n'] + text_of(b));
    } else {
        law_registry_has_a_line_for_each_entry(a, b.drop_last(), e);
        assert(text_of(a + b) =~= text_of(a) + seq!['\n'] + text_of(b));
    }
}

/// The registry is read line by line: what is listed in two texts with a line feed between them
/// is what is listed in each. Where there is no registry nothing is listed.
pub proof fn law_registry_is_read_line_by_line(a: Seq<char>, b: Seq<char>)
    ensures
        listed(Some(a.push('\n') + b)) == listed(Some(a)) + listed(Some(b)),
        listed(None).len() == 0,
        forall|content: Option<&str>, r: Vec<(u32, String)>| #[trigger]
            call_ensures(parse_entries, (content,), r) ==> entries_of(r@) == listed(
                text_in(content),
            ),
{
    lemma_pieces_of_two(a, b);
    lemma_entries_in_two(pieces(a), pieces(b));
}

/// A line holds an entry just where it is a process id, a space and a command, the white space
/// around it aside.
pub proof fn law_line_holds_an_entry(line: &str, id: Seq<char>, command: Seq<char>)
    requires
        !line@.contains('\n'),
    ensures
        !trimmed(line@).contains(' ') ==> listed(Some(line@)).len() == 0,
        trimmed(line@) == id.push(' ') + command && !id.contains(' ') ==> listed(Some(line@))
            == match number(id, 0xffff_ffff) {
            Some(pid) => seq![(pid as u32, command)],
            None => Seq::empty(),
        },
        forall|r: Option<(u32, String)>| #[trigger]
            call_ensures(parse_entry, (line,), r) ==> listed(Some(line@)) == match r {
                Some(e) => seq![(e.0, e.1@)],
                None => Seq::empty(),
            },
{
    lemma_first_position(line@, '\n');
    assert(pieces(line@) =~= seq![line@]);
    assert(seq![line@].drop_first() =~= Seq::<Seq<char>>::empty());
    reveal_with_fuel(entries_in, 2);
    let found = match entry_of(line@) {
        Some(e) => seq![e],
        None => Seq::<Entry>::empty(),
    };
    assert(listed(Some(line@)) =~= found);
    law_split_is_at_the_first(trimmed(line@), ' ', id, command);
}

proof fn lemma_pieces_of_two(a: Seq<char>, b: Seq<char>)
    ensures
        pieces(a.push('\n') + b) == pieces(a) + pieces(b),
    decreases a.len(),
{
    let all = a.push('\n') + b;
    lemma_first_position(a, '\n');
    lemma_first_position(all, '\n');
    let i = first_position(a, '\n');
    let j = first_position(all, '\n');
    assert(all[a.len() as int] == '\n');
    if i < a.len() {
        assert(all[i] == '\n');
        if j < i {
            assert(a[j] == '\n');
        }
        assert(all.take(i) =~= a.take(i));
        assert(all.skip(i + 1) =~= a.skip(i + 1).push('\n') + b);
        lemma_pieces_of_two(a.skip(i + 1), b);
        assert(pieces(all) =~= pieces(a) + pieces(b));
    } else {
        if j < a.len() {
            assert(a[j] == '\n');
        }
        assert(all.take(j) =~= a);
        assert(all.skip(j + 1) =~= b);
        assert(pieces(a) =~= seq![a]);
        assert(pieces(all) =~= pieces(a) + pieces(b));
    }
}

proof fn lemma_entries_in_two(a: Seq<Seq<char>>, b: Seq<Seq<char>>)
    ensures
        entries_in(a + b) == entries_in(a) + entries_in(b),
    decreases a.len(),
{
    if a.len() == 0 {
        assert(a + b =~= b);
        assert(entries_in(a) + entries_in(b) =~= entries_in(b));
    } else {
        assert((a + b).drop_first() =~= a.drop_first() + b);
        lemma_entries_in_two(a.drop_first(), b);
        assert(entries_in(a + b) =~= entries_in(a) + entries_in(b));
    }
}

/// A list of entries means those entries, one by one; a registry's text means that text. Its file
/// has a fixed name.
pub proof fn law_lists_mean_their_entries(list: Seq<(u32, String)>, text: &str)
    ensures
        entries_of(list).len() == list.len(),
        forall|i: int|
            0 <= i < list.len() ==> #[trigger] entries_of(list)[i] == (list[i].0, list[i].1@),
        text_in(Some(text)) == Some(text@),
        text_in(None) is None,
        SHARE_ADDR_FILE@ == "herdr-share.addr"@,
{
}

} // verus!
