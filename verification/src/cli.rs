//! The command line: `herdr share`, `herdr join` and `herdr relay`.
use crate::network::Platform;
use crate::relay::DEFAULT_PORT;
use crate::text::{
    decimal, is_digit, join2, join3, law_number_of_decimal, lemma_decimal_digits, number,
    parse_number, same_text, to_decimal,
};
use vstd::prelude::*;
use vstd::string::*;

verus! {

/// What a list of strings means.
pub open spec fn texts(list: Seq<String>) -> Seq<Seq<char>> {
    list.map_values(|s: String| s@)
}

// ---------------------------------------------------------------------------
// The relay flag
// ---------------------------------------------------------------------------

/// The relay that the arguments name with `--relay <addr>`, and the other arguments in
/// order. Of several, the last counts. A `--relay` without anything after it is an
/// argument like any other.
pub open spec fn relay_and_rest(args: Seq<Seq<char>>) -> (Option<Seq<char>>, Seq<Seq<char>>)
    decreases args.len(),
{
    if args.len() == 0 {
        (None, Seq::empty())
    } else if args[0] == "--relay"@ && args.len() >= 2 {
        let (later, rest) = relay_and_rest(args.skip(2));
        (
            if later is Some {
                later
            } else {
                Some(args[1])
            },
            rest,
        )
    } else {
        let (relay, rest) = relay_and_rest(args.skip(1));
        (relay, seq![args[0]] + rest)
    }
}

/// Takes `--relay <addr>` out of the arguments: the relay, and the other arguments.
pub fn extract_relay_flag(args: &[String]) -> (r: (Option<String>, Vec<String>))
    ensures
        match r.0 {
            Some(relay) => relay_and_rest(texts(args@)).0 == Some(relay@),
            None => relay_and_rest(texts(args@)).0 is None,
        },
        texts(r.1@) == relay_and_rest(texts(args@)).1,
{
    let mut relay: Option<String> = None;
    let mut rest: Vec<String> = Vec::new();
    let n: usize = args.len();
    let mut i: usize = 0;
    let ghost all = texts(args@);
    assert(all.skip(0) =~= all);
    assert(texts(rest@) + relay_and_rest(all).1 =~= relay_and_rest(all).1);
    while i < n
        invariant
            i <= n,
            n == args@.len(),
            all == texts(args@),
            relay_and_rest(all).0 == match relay_and_rest(all.skip(i as int)).0 {
                Some(addr) => Some(addr),
                None => match relay {
                    Some(addr) => Some(addr@),
                    None => None,
                },
            },
            relay_and_rest(all).1 == texts(rest@) + relay_and_rest(all.skip(i as int)).1,
        decreases n - i,
    {
        let ghost left = all.skip(i as int);
        let ghost before = texts(rest@);
        assert(left[0] == args@[i as int]@);
        if same_text(args[i].as_str(), "--relay") && i + 1 < n {
            assert(left[1] == args@[i + 1]@);
            assert(left.skip(2) =~= all.skip(i + 2));
            relay = Some(args[i + 1].clone());
            i = i + 2;
        } else {
            assert(left.skip(1) =~= all.skip(i + 1));
            rest.push(args[i].clone());
            assert(texts(rest@) =~= before.push(left[0]));
            assert(before + (seq![left[0]] + relay_and_rest(left.skip(1)).1) =~= texts(rest@)
                + relay_and_rest(left.skip(1)).1);
            i = i + 1;
        }
    }
    assert(texts(rest@) + Seq::<Seq<char>>::empty() =~= texts(rest@));
    (relay, rest)
}

/// Whether an argument asks for help.
pub open spec fn asks_help(arg: Seq<char>) -> bool {
    arg == "help"@ || arg == "--help"@ || arg == "-h"@
}

fn is_help(arg: &str) -> (r: bool)
    ensures
        r == asks_help(arg@),
{
    same_text(arg, "help") || same_text(arg, "--help") || same_text(arg, "-h")
}

// ---------------------------------------------------------------------------
// Parsing the commands
// ---------------------------------------------------------------------------

/// What `herdr share` is asked to do.
pub enum ShareCommand {
    /// Explain itself.
    Help,
    /// List the active sessions.
    Addr,
    /// Stop the active sessions.
    Stop,
    /// An option that it does not have.
    UnknownOption(String),
    /// Share a session, through this relay if one is named.
    Host(Option<String>),
}

/// The meaning of a [`ShareCommand`].
pub enum ShareCommandView {
    Help,
    Addr,
    Stop,
    UnknownOption(Seq<char>),
    Host(Option<Seq<char>>),
}

/// The meaning of an optional string.
pub open spec fn optional_text(s: Option<String>) -> Option<Seq<char>> {
    match s {
        Some(text) => Some(text@),
        None => None,
    }
}

impl View for ShareCommand {
    type V = ShareCommandView;

    open spec fn view(&self) -> ShareCommandView {
        match self {
            ShareCommand::Help => ShareCommandView::Help,
            ShareCommand::Addr => ShareCommandView::Addr,
            ShareCommand::Stop => ShareCommandView::Stop,
            ShareCommand::UnknownOption(arg) => ShareCommandView::UnknownOption(arg@),
            ShareCommand::Host(relay) => ShareCommandView::Host(optional_text(*relay)),
        }
    }
}

/// What the arguments of `herdr share` ask for. The first argument besides the relay
/// decides; a word that is neither a subcommand nor an option is passed over.
pub open spec fn share_command_of(args: Seq<Seq<char>>) -> ShareCommandView {
    let (relay, rest) = relay_and_rest(args);
    if rest.len() == 0 {
        ShareCommandView::Host(relay)
    } else if asks_help(rest[0]) {
        ShareCommandView::Help
    } else if rest[0] == "addr"@ {
        ShareCommandView::Addr
    } else if rest[0] == "stop"@ {
        ShareCommandView::Stop
    } else if rest[0].len() > 0 && rest[0][0] == '-' {
        ShareCommandView::UnknownOption(rest[0])
    } else {
        ShareCommandView::Host(relay)
    }
}

/// Reads the arguments of `herdr share`.
pub fn parse_share_command(args: &[String]) -> (r: ShareCommand)
    ensures
        r@ == share_command_of(texts(args@)),
{
    let (relay, rest) = extract_relay_flag(args);
    assert(texts(rest@).len() == rest@.len());
    if rest.len() == 0 {
        return ShareCommand::Host(relay);
    }
    let first = rest[0].as_str();
    assert(texts(rest@)[0] == first@);
    if is_help(first) {
        ShareCommand::Help
    } else if same_text(first, "addr") {
        ShareCommand::Addr
    } else if same_text(first, "stop") {
        ShareCommand::Stop
    } else if first.unicode_len() > 0 && first.get_char(0) == '-' {
        ShareCommand::UnknownOption(first.to_owned())
    } else {
        ShareCommand::Host(relay)
    }
}

/// What `herdr join` is asked to do.
pub enum JoinCommand {
    /// Nothing: the code is missing.
    MissingCode,
    /// Explain itself.
    Help,
    /// Join the session of this code, through this relay if one is named.
    Join { code: String, relay: Option<String> },
}

/// The meaning of a [`JoinCommand`].
pub enum JoinCommandView {
    MissingCode,
    Help,
    Join { code: Seq<char>, relay: Option<Seq<char>> },
}

impl View for JoinCommand {
    type V = JoinCommandView;

    open spec fn view(&self) -> JoinCommandView {
        match self {
            JoinCommand::MissingCode => JoinCommandView::MissingCode,
            JoinCommand::Help => JoinCommandView::Help,
            JoinCommand::Join { code, relay } => JoinCommandView::Join {
                code: code@,
                relay: optional_text(*relay),
            },
        }
    }
}

/// What the arguments of `herdr join` ask for.
pub open spec fn join_command_of(args: Seq<Seq<char>>) -> JoinCommandView {
    let (relay, rest) = relay_and_rest(args);
    if rest.len() == 0 {
        JoinCommandView::MissingCode
    } else if asks_help(rest[0]) {
        JoinCommandView::Help
    } else {
        JoinCommandView::Join { code: rest[0], relay }
    }
}

/// Reads the arguments of `herdr join`.
pub fn parse_join_command(args: &[String]) -> (r: JoinCommand)
    ensures
        r@ == join_command_of(texts(args@)),
{
    let (relay, rest) = extract_relay_flag(args);
    assert(texts(rest@).len() == rest@.len());
    if rest.len() == 0 {
        return JoinCommand::MissingCode;
    }
    assert(texts(rest@)[0] == rest@[0]@);
    if is_help(rest[0].as_str()) {
        JoinCommand::Help
    } else {
        JoinCommand::Join { code: rest[0].clone(), relay }
    }
}

/// What `herdr relay` is asked to do.
#[derive(Clone, Copy, PartialEq, Eq, Structural, Debug)]
pub enum RelayCommand {
    /// Explain itself.
    Help,
    /// Run a relay on this port.
    Run(u16),
    /// Nothing: the port is not a number that a port can have.
    BadPort,
}

/// What the arguments of `herdr relay` ask for.
pub open spec fn relay_command_of(args: Seq<Seq<char>>) -> RelayCommand {
    if args.len() == 0 {
        RelayCommand::Run(DEFAULT_PORT)
    } else if asks_help(args[0]) {
        RelayCommand::Help
    } else {
        match number(args[0], u16::MAX as nat) {
            Some(port) => RelayCommand::Run(port as u16),
            None => RelayCommand::BadPort,
        }
    }
}

/// Reads the arguments of `herdr relay`.
pub fn parse_relay_command(args: &[String]) -> (r: RelayCommand)
    ensures
        r == relay_command_of(texts(args@)),
{
    assert(texts(args@).len() == args@.len());
    if args.len() == 0 {
        return RelayCommand::Run(DEFAULT_PORT);
    }
    let first = args[0].as_str();
    assert(texts(args@)[0] == first@);
    if is_help(first) {
        RelayCommand::Help
    } else {
        match parse_number(first, u16::MAX as u64) {
            Some(port) => RelayCommand::Run(port as u16),
            None => RelayCommand::BadPort,
        }
    }
}

/// What is said of a port that is not a number.
pub const BAD_PORT: &'static str = "port must be a number";

/// The address that a relay listens on.
pub open spec fn listen_address(port: u16) -> Seq<char> {
    "0.0.0.0:"@ + decimal(port as nat)
}

/// The address that a relay listens on.
pub fn listen_addr(port: u16) -> (r: String)
    ensures
        r@ == listen_address(port),
{
    let number = to_decimal(port as u64);
    join2("0.0.0.0:", number.as_str())
}

// ---------------------------------------------------------------------------
// Reports
// ---------------------------------------------------------------------------

/// Why a command does nothing more: lines for the error output, and the exit code.
pub struct Refusal {
    pub lines: Vec<String>,
    pub exit_code: i32,
}

impl Refusal {
    /// Whether the refusal says just these lines, with this exit code.
    pub open spec fn says(self, lines: Seq<Seq<char>>, exit_code: int) -> bool {
        texts(self.lines@) == lines && self.exit_code == exit_code
    }
}

fn refusal1(line: String, exit_code: i32) -> (r: Refusal)
    ensures
        r.says(seq![line@], exit_code as int),
{
    let mut lines: Vec<String> = Vec::new();
    lines.push(line);
    assert(texts(lines@) =~= seq![line@]);
    Refusal { lines, exit_code }
}

fn refusal2(first: String, second: String, exit_code: i32) -> (r: Refusal)
    ensures
        r.says(seq![first@, second@], exit_code as int),
{
    let mut lines: Vec<String> = Vec::new();
    lines.push(first);
    lines.push(second);
    assert(texts(lines@) =~= seq![first@, second@]);
    Refusal { lines, exit_code }
}

/// Refuses an option that `herdr share` does not have.
pub fn unknown_option(arg: &str) -> (r: Refusal)
    ensures
        r.says(seq!["unknown option: "@ + arg@, "usage: herdr share [--relay <addr>]"@], 2),
{
    refusal2(
        join2("unknown option: ", arg),
        "usage: herdr share [--relay <addr>]".to_owned(),
        2,
    )
}

/// Refuses `herdr join` without a code.
pub fn missing_code() -> (r: Refusal)
    ensures
        r.says(seq!["usage: herdr join [--relay <addr>] <code>"@], 2),
{
    refusal1("usage: herdr join [--relay <addr>] <code>".to_owned(), 2)
}

/// What `herdr share addr` does.
pub struct AddrListing {
    /// The lines to print: the commands, then a note on the clipboard.
    pub lines: Vec<String>,
    /// The command that goes to the clipboard.
    pub copied: String,
}

/// What is said after listing `n` commands.
pub open spec fn copied_note(n: nat) -> Seq<char> {
    if n == 1 {
        "(copied to clipboard)"@
    } else {
        "("@ + decimal(n) + " active sessions \u{2014} last copied to clipboard)"@
    }
}

/// Decides what `herdr share addr` does with the commands of the active sessions: it lists them
/// in order, and the last goes to the clipboard. Refuses if there are none.
pub fn list_addrs(addrs: &[String]) -> (r: Result<AddrListing, Refusal>)
    ensures
        match r {
            Ok(listing) => {
                &&& addrs@.len() > 0
                &&& listing.copied@ == addrs@.last()@
                &&& texts(listing.lines@) == texts(addrs@).push(copied_note(addrs@.len()))
                &&& listing.lines@.len() == addrs@.len() + 1
            },
            Err(refusal) => {
                &&& addrs@.len() == 0
                &&& refusal.says(
                    seq![
                        "no active share sessions"@,
                        "hint: start one with  herdr --share  or  herdr share"@,
                    ],
                    1,
                )
            },
        },
{
    let n: usize = addrs.len();
    if n == 0 {
        return Err(
            refusal2(
                "no active share sessions".to_owned(),
                "hint: start one with  herdr --share  or  herdr share".to_owned(),
                1,
            ),
        );
    }
    let copied = addrs[n - 1].clone();
    let note = if n == 1 {
        "(copied to clipboard)".to_owned()
    } else {
        let count = to_decimal(n as u64);
        join3("(", count.as_str(), " active sessions \u{2014} last copied to clipboard)")
    };
    let mut lines: Vec<String> = Vec::new();
    for i in 0..n
        invariant
            n == addrs@.len(),
            lines@.len() == i,
            forall|j: int| 0 <= j < i ==> (#[trigger] lines@[j])@ == addrs@[j]@,
    {
        lines.push(addrs[i].clone());
    }
    lines.push(note);
    assert(texts(lines@) =~= texts(addrs@).push(copied_note(addrs@.len())));
    Ok(AddrListing { lines, copied })
}

// ---------------------------------------------------------------------------
// Stopping the active sessions
// ---------------------------------------------------------------------------

/// A line to print.
pub enum Line {
    /// To the output.
    Output(String),
    /// To the error output.
    ErrorOutput(String),
}

/// The stopping of the active sessions, one process after the other.
pub struct StopRun {
    pids: Vec<u32>,
    done: usize,
    stopped: usize,
}

/// The meaning of a [`StopRun`].
pub struct StopView {
    /// The processes to stop.
    pub pids: Seq<u32>,
    /// How many have been dealt with.
    pub done: nat,
    /// How many of them were stopped.
    pub stopped: nat,
}

impl View for StopRun {
    type V = StopView;

    closed spec fn view(&self) -> StopView {
        StopView { pids: self.pids@, done: self.done as nat, stopped: self.stopped as nat }
    }
}

impl StopView {
    /// After the next process has been signalled, or not.
    pub open spec fn reported(self, signalled: bool) -> StopView {
        StopView {
            done: self.done + 1,
            stopped: if signalled {
                self.stopped + 1
            } else {
                self.stopped
            },
            ..self
        }
    }

    /// The exit code: success if any process was stopped.
    pub open spec fn exit_code(self) -> int {
        if self.stopped == 0 {
            1
        } else {
            0
        }
    }
}

/// Whether a line is this text, on the output or on the error output.
pub open spec fn prints(line: Line, on_output: bool, text: Seq<char>) -> bool {
    match line {
        Line::Output(s) => on_output && s@ == text,
        Line::ErrorOutput(s) => !on_output && s@ == text,
    }
}

/// What is said of a process that was to be stopped.
pub open spec fn stop_text(platform: Platform, pid: u32, signalled: bool) -> Seq<char> {
    if signalled {
        "share session (pid "@ + decimal(pid as nat) + ") stopped"@
    } else if platform == Platform::Windows {
        "could not open process "@ + decimal(pid as nat) + " (already exited?)"@
    } else {
        "could not signal process "@ + decimal(pid as nat) + " (already exited?)"@
    }
}

impl StopRun {
    #[verifier::type_invariant]
    spec fn well_formed(self) -> bool {
        self.stopped <= self.done <= self.pids@.len()
    }

    /// Starts stopping these processes. Refuses if there are none, and on a platform where
    /// a process cannot be stopped.
    pub fn start(platform: Platform, pids: Vec<u32>) -> (r: Result<Self, Refusal>)
        ensures
            match r {
                Ok(run) => {
                    &&& pids@.len() > 0
                    &&& platform != Platform::Other
                    &&& run@ == (StopView { pids: pids@, done: 0, stopped: 0 })
                },
                Err(refusal) => if pids@.len() == 0 {
                    refusal.says(seq!["no active share sessions found"@], 1)
                } else {
                    &&& platform == Platform::Other
                    &&& refusal.says(seq!["herdr share stop is not supported on this platform"@], 1)
                },
            },
    {
        if pids.len() == 0 {
            Err(refusal1("no active share sessions found".to_owned(), 1))
        } else if platform == Platform::Other {
            Err(refusal1("herdr share stop is not supported on this platform".to_owned(), 1))
        } else {
            Ok(StopRun { pids, done: 0, stopped: 0 })
        }
    }

    /// The next process to stop; `None` once all have been dealt with.
    pub fn next_pid(&self) -> (r: Option<u32>)
        ensures
            self@.stopped <= self@.done <= self@.pids.len(),
            r == if self@.done < self@.pids.len() {
                Some(self@.pids[self@.done as int])
            } else {
                None
            },
    {
        proof {
            use_type_invariant(self);
        }
        if self.done < self.pids.len() {
            Some(self.pids[self.done])
        } else {
            None
        }
    }

    /// Notes whether the next process could be signalled: what to print about it.
    pub fn report(&mut self, platform: Platform, signalled: bool) -> (r: Line)
        requires
            old(self)@.done < old(self)@.pids.len(),
        ensures
            final(self)@ == old(self)@.reported(signalled),
            prints(
                r,
                signalled,
                stop_text(platform, old(self)@.pids[old(self)@.done as int], signalled),
            ),
    {
        proof {
            use_type_invariant(&*self);
            assert(self.done < self.pids.len());
        }
        let pid = to_decimal(self.pids[self.done] as u64);
        self.done = self.done + 1;
        if signalled {
            self.stopped = self.stopped + 1;
            Line::Output(join3("share session (pid ", pid.as_str(), ") stopped"))
        } else if platform == Platform::Windows {
            Line::ErrorOutput(join3("could not open process ", pid.as_str(), " (already exited?)"))
        } else {
            Line::ErrorOutput(join3("could not signal process ", pid.as_str(), " (already exited?)"))
        }
    }

    /// The exit code.
    pub fn exit_code(&self) -> (r: i32)
        ensures
            r == self@.exit_code(),
    {
        if self.stopped == 0 {
            1
        } else {
            0
        }
    }
}

// ---------------------------------------------------------------------------
// Laws
// ---------------------------------------------------------------------------

/// Arguments before which no `--relay` stands are passed through in front of the rest.
pub proof fn law_other_arguments_pass_through(front: Seq<Seq<char>>, back: Seq<Seq<char>>)
    requires
        !front.contains("--relay"@),
    ensures
        relay_and_rest(front + back).0 == relay_and_rest(back).0,
        relay_and_rest(front + back).1 == front + relay_and_rest(back).1,
    decreases front.len(),
{
    let all = front + back;
    if front.len() == 0 {
        assert(all =~= back);
        assert(front + relay_and_rest(back).1 =~= relay_and_rest(back).1);
    } else {
        let less = front.skip(1);
        assert(front[0] != "--relay"@);
        assert(!less.contains("--relay"@)) by {
            if less.contains("--relay"@) {
                let k = choose|k: int| 0 <= k < less.len() && less[k] == "--relay"@;
                assert(front[k + 1] == "--relay"@);
            }
        }
        assert(all.skip(1) =~= less + back);
        law_other_arguments_pass_through(less, back);
        assert(front + relay_and_rest(back).1 =~= seq![front[0]] + (less + relay_and_rest(back).1));
    }
}

/// Wherever `--relay <addr>` stands, it names the relay and the other arguments stay as they
/// are; without it there is no relay.
pub proof fn law_relay_flag_stands_anywhere(
    front: Seq<Seq<char>>,
    addr: Seq<char>,
    back: Seq<Seq<char>>,
)
    requires
        !front.contains("--relay"@),
        !back.contains("--relay"@),
    ensures
        relay_and_rest(front + seq!["--relay"@, addr] + back) == (Some(addr), front + back),
        relay_and_rest(front + back) == (None::<Seq<char>>, front + back),
{
    lemma_no_relay(back);
    let flagged = seq!["--relay"@, addr] + back;
    assert(flagged.skip(2) =~= back);
    assert(front + seq!["--relay"@, addr] + back =~= front + flagged);
    law_other_arguments_pass_through(front, flagged);
    law_other_arguments_pass_through(front, back);
}

/// Of two relays, the last one named counts.
pub proof fn law_last_relay_counts(
    first: Seq<char>,
    between: Seq<Seq<char>>,
    last: Seq<char>,
    back: Seq<Seq<char>>,
)
    requires
        !between.contains("--relay"@),
        !back.contains("--relay"@),
    ensures
        relay_and_rest(seq!["--relay"@, first] + between + seq!["--relay"@, last] + back) == (
            Some(last),
            between + back,
        ),
{
    let tail = between + seq!["--relay"@, last] + back;
    let all = seq!["--relay"@, first] + between + seq!["--relay"@, last] + back;
    assert(all.skip(2) =~= tail);
    law_relay_flag_stands_anywhere(between, last, back);
}

/// A `--relay` at the very end names no relay, and stays among the arguments.
pub proof fn law_relay_without_address_is_kept(front: Seq<Seq<char>>)
    requires
        !front.contains("--relay"@),
    ensures
        relay_and_rest(front.push("--relay"@)) == (None::<Seq<char>>, front.push("--relay"@)),
{
    let flag = seq!["--relay"@];
    assert(front.push("--relay"@) =~= front + flag);
    assert(flag.skip(1) =~= Seq::<Seq<char>>::empty());
    reveal_with_fuel(relay_and_rest, 2);
    assert(relay_and_rest(flag).1 =~= flag);
    law_other_arguments_pass_through(front, flag);
}

/// What is left of the arguments names no relay: taking the flag out again changes nothing.
pub proof fn law_rest_names_no_relay(args: Seq<Seq<char>>)
    ensures
        relay_and_rest(relay_and_rest(args).1) == (
            None::<Seq<char>>,
            relay_and_rest(args).1,
        ),
    decreases args.len(),
{
    let rest = relay_and_rest(args).1;
    if args.len() == 0 {
        assert(relay_and_rest(rest).1 =~= rest);
    } else if args[0] == "--relay"@ && args.len() >= 2 {
        law_rest_names_no_relay(args.skip(2));
    } else {
        let tail = relay_and_rest(args.skip(1)).1;
        law_rest_names_no_relay(args.skip(1));
        assert(rest.skip(1) =~= tail);
        if args[0] == "--relay"@ {
            assert(tail.len() == 0);
        }
        assert(relay_and_rest(rest).1 =~= rest);
    }
}

/// A relay that is named at the front counts unless a later one is named, and makes no other
/// difference; what is taken for its address may be any argument.
pub proof fn law_relay_named_first(addr: Seq<char>, back: Seq<Seq<char>>)
    ensures
        relay_and_rest(seq!["--relay"@, addr] + back).1 == relay_and_rest(back).1,
        relay_and_rest(back).0 is Some ==> relay_and_rest(seq!["--relay"@, addr] + back).0
            == relay_and_rest(back).0,
        relay_and_rest(back).0 is None ==> relay_and_rest(seq!["--relay"@, addr] + back).0 == Some(
            addr,
        ),
        relay_and_rest(Seq::empty()).0 is None,
        relay_and_rest(Seq::empty()).1.len() == 0,
{
    assert((seq!["--relay"@, addr] + back).skip(2) =~= back);
}

/// Taking the flag out of the arguments gives the relay and the rest that the laws speak of.
pub proof fn law_flag_is_taken_out(args: &[String], r: (Option<String>, Vec<String>))
    requires
        call_ensures(extract_relay_flag, (args,), r),
    ensures
        optional_text(r.0) == relay_and_rest(texts(args@)).0,
        texts(r.1@) == relay_and_rest(texts(args@)).1,
{
}

/// The first argument besides the relay is the code of the session to join, whatever word it is
/// and whether or not a relay is named, unless it asks for help; the relay is the one that is
/// named, if any. The code is missing only where there is no argument besides the relay.
pub proof fn law_first_word_is_the_code_to_join(
    args: &[String],
    relay: Option<String>,
    rest: Vec<String>,
    r: JoinCommand,
)
    requires
        call_ensures(extract_relay_flag, (args,), (relay, rest)),
        call_ensures(parse_join_command, (args,), r),
    ensures
        rest@.len() > 0 && rest@[0]@ != "help"@ && rest@[0]@ != "--help"@ && rest@[0]@ != "-h"@ ==> (
        r matches JoinCommand::Join { code, relay: through } && code@ == rest@[0]@
            && optional_text(through) == optional_text(relay)),
        rest@.len() > 0 && (rest@[0]@ == "help"@ || rest@[0]@ == "--help"@ || rest@[0]@ == "-h"@)
            ==> r is Help,
        r is MissingCode <==> rest@.len() == 0,
{
    lemma_first_text(rest@);
}

/// A session is joined by its code wherever the relay is named, before the code or after it, and
/// without one.
pub proof fn law_code_is_joined_with_or_without_relay(code: Seq<char>, addr: Seq<char>)
    requires
        code != "--relay"@,
        code != "help"@ && code != "--help"@ && code != "-h"@,
    ensures
        join_command_of(seq![code]) == (JoinCommandView::Join { code, relay: None }),
        join_command_of(seq!["--relay"@, addr, code]) == (JoinCommandView::Join {
            code,
            relay: Some(addr),
        }),
        join_command_of(seq![code, "--relay"@, addr]) == (JoinCommandView::Join {
            code,
            relay: Some(addr),
        }),
{
    let none = Seq::<Seq<char>>::empty();
    let word = seq![code];
    assert(!none.contains("--relay"@));
    assert(!word.contains("--relay"@)) by {
        if word.contains("--relay"@) {
            assert(word[0] == "--relay"@);
        }
    }
    law_relay_flag_stands_anywhere(none, addr, word);
    law_relay_flag_stands_anywhere(word, addr, none);
    assert(none + word =~= word);
    assert(word + none =~= word);
    assert(none + seq!["--relay"@, addr] + word =~= seq!["--relay"@, addr, code]);
    assert(word + seq!["--relay"@, addr] + none =~= seq![code, "--relay"@, addr]);
}

/// The first argument besides the relay decides what `herdr share` does: it asks for help, for
/// the active sessions or for an end to them, or is an option that there is none of. In every
/// other case, also where it is some other word or there is none, a session is shared, through
/// the relay that is named, if any.
pub proof fn law_first_word_decides_on_sharing(
    args: &[String],
    relay: Option<String>,
    rest: Vec<String>,
    r: ShareCommand,
)
    requires
        call_ensures(extract_relay_flag, (args,), (relay, rest)),
        call_ensures(parse_share_command, (args,), r),
    ensures
        rest@.len() == 0 ==> (r matches ShareCommand::Host(through) && optional_text(through)
            == optional_text(relay)),
        rest@.len() > 0 ==> {
            let word = rest@[0]@;
            &&& r is Help <==> word == "help"@ || word == "--help"@ || word == "-h"@
            &&& r is Addr <==> word == "addr"@
            &&& r is Stop <==> word == "stop"@
            &&& r is UnknownOption <==> word.len() > 0 && word[0] == '-' && word != "--help"@
                && word != "-h"@
            &&& r matches ShareCommand::UnknownOption(option) ==> option@ == word
            &&& r matches ShareCommand::Host(through) ==> optional_text(through) == optional_text(
                relay,
            )
        },
{
    lemma_first_text(rest@);
    reveal_strlit("help");
    reveal_strlit("--help");
    reveal_strlit("-h");
    reveal_strlit("addr");
    reveal_strlit("stop");
    assert("help"@[0] == 'h' && "addr"@[0] == 'a' && "stop"@[0] == 's');
    assert("--help"@[0] == '-' && "-h"@[0] == '-');
}

/// A relay runs on the port that it is given, whatever number that is, and on 4002 without one;
/// what is no number up to 65535 is refused, unless it asks for help. Further arguments make no
/// difference.
pub proof fn law_relay_runs_on_the_port_given(args: &[String], r: RelayCommand)
    requires
        call_ensures(parse_relay_command, (args,), r),
    ensures
        args@.len() == 0 ==> r == RelayCommand::Run(4002),
        args@.len() > 0 ==> {
            let word = args@[0]@;
            let for_help = word == "help"@ || word == "--help"@ || word == "-h"@;
            &&& r is Help <==> for_help
            &&& !for_help ==> match number(word, 0xffff) {
                Some(port) => r matches RelayCommand::Run(p) && p == port,
                None => r is BadPort,
            }
            &&& forall|port: u16|
                word == #[trigger] decimal(port as nat) ==> r == RelayCommand::Run(port)
        },
{
    lemma_first_text(args@);
    if args@.len() > 0 {
        let word = args@[0]@;
        reveal_strlit("help");
        reveal_strlit("--help");
        reveal_strlit("-h");
        assert("help"@[0] == 'h' && "--help"@[0] == '-' && "-h"@[0] == '-');
        assert forall|port: u16| word == #[trigger] decimal(port as nat) implies r
            == RelayCommand::Run(port) by {
            lemma_decimal_digits(port as nat);
            assert(is_digit(decimal(port as nat)[0]));
            law_number_of_decimal(port as nat, 0xffff);
        }
    }
}

/// A relay listens on all addresses, on its port.
pub proof fn law_relay_listens_on_its_port(port: u16, r: String)
    requires
        call_ensures(listen_addr, (port,), r),
    ensures
        r@ == "0.0.0.0:"@ + decimal(port as nat),
{
}

/// What is refused says what is wrong and how it is done, with the exit code for a wrong use.
pub proof fn law_wrong_use_is_explained(arg: &str, option: Refusal, code: Refusal)
    requires
        call_ensures(unknown_option, (arg,), option),
        call_ensures(missing_code, (), code),
    ensures
        option.exit_code == 2 && code.exit_code == 2,
        texts(option.lines@) == seq![
            "unknown option: "@ + arg@,
            "usage: herdr share [--relay <addr>]"@,
        ],
        texts(code.lines@) == seq!["usage: herdr join [--relay <addr>] <code>"@],
        BAD_PORT@ == "port must be a number"@,
{
}

/// Every active session is listed, in order, and the last one goes to the clipboard; the line
/// after them says so, and how many there are if there are several. Without any there is an
/// error.
pub proof fn law_every_active_session_is_listed(
    addrs: &[String],
    r: Result<AddrListing, Refusal>,
)
    requires
        call_ensures(list_addrs, (addrs,), r),
    ensures
        r is Ok <==> addrs@.len() > 0,
        r matches Ok(listing) ==> {
            let n = addrs@.len();
            &&& listing.lines@.len() == n + 1
            &&& forall|i: int| 0 <= i < n ==> (#[trigger] listing.lines@[i])@ == addrs@[i]@
            &&& listing.copied@ == addrs@[n - 1]@
            &&& n == 1 ==> listing.lines@[1]@ == "(copied to clipboard)"@
            &&& n > 1 ==> listing.lines@[n as int]@ == "("@ + decimal(n)
                + " active sessions \u{2014} last copied to clipboard)"@
        },
        r matches Err(refusal) ==> refusal.exit_code == 1 && texts(refusal.lines@) == seq![
            "no active share sessions"@,
            "hint: start one with  herdr --share  or  herdr share"@,
        ],
{
    if let Ok(listing) = r {
        let n = addrs@.len();
        let all = texts(listing.lines@);
        assert forall|i: int| 0 <= i < n implies (#[trigger] listing.lines@[i])@
            == addrs@[i]@ by {
            assert(all[i] == listing.lines@[i]@);
            assert(texts(addrs@)[i] == addrs@[i]@);
        }
        assert(all[n as int] == listing.lines@[n as int]@);
    }
}

proof fn lemma_first_text(list: Seq<String>)
    ensures
        texts(list).len() == list.len(),
        list.len() > 0 ==> texts(list)[0] == list[0]@,
{
}

proof fn lemma_no_relay(args: Seq<Seq<char>>)
    requires
        !args.contains("--relay"@),
    ensures
        relay_and_rest(args) == (None::<Seq<char>>, args),
{
    let none = Seq::<Seq<char>>::empty();
    law_other_arguments_pass_through(args, none);
    assert(args + none =~= args);
    assert(relay_and_rest(none).1 =~= none);
}

/// A run after several processes have been signalled, or not.
pub open spec fn reported_all(s: StopView, signalled: Seq<bool>) -> StopView
    decreases signalled.len(),
{
    if signalled.len() == 0 {
        s
    } else {
        reported_all(s, signalled.drop_last()).reported(signalled.last())
    }
}

/// Stopping succeeds if, and only if, some process could be signalled.
pub proof fn law_stop_succeeds_if_any_was_stopped(pids: Seq<u32>, signalled: Seq<bool>)
    ensures
        ({
            let end = reported_all(StopView { pids, done: 0, stopped: 0 }, signalled);
            &&& end.done == signalled.len()
            &&& end.stopped <= end.done
            &&& end.exit_code() == 0 <==> signalled.contains(true)
        }),
    decreases signalled.len(),
{
    if signalled.len() > 0 {
        let init = signalled.drop_last();
        law_stop_succeeds_if_any_was_stopped(pids, init);
        if signalled.contains(true) && !signalled.last() {
            let k = choose|k: int| 0 <= k < signalled.len() && signalled[k];
            assert(init[k]);
        }
        if init.contains(true) {
            let k = choose|k: int| 0 <= k < init.len() && init[k];
            assert(signalled[k]);
        }
        if signalled.last() {
            assert(signalled[signalled.len() - 1]);
        }
    }
}

/// Over a whole run, the processes that are named are those that the run was started with, each
/// once and in order, whichever of them can be signalled; after the last there is none.
pub proof fn law_every_process_is_named_in_turn(
    platform: Platform,
    pids: Vec<u32>,
    run: StopRun,
    signalled: Seq<bool>,
    now: StopRun,
    next: Option<u32>,
)
    requires
        call_ensures(StopRun::start, (platform, pids), Ok::<StopRun, Refusal>(run)),
        signalled.len() <= pids@.len(),
        now@ == reported_all(run@, signalled),
        call_ensures(StopRun::next_pid, (&now,), next),
    ensures
        now@.pids == pids@,
        signalled.len() < pids@.len() ==> next == Some(pids@[signalled.len() as int]),
        signalled.len() == pids@.len() ==> next is None,
{
    lemma_reported_all(run@, signalled);
}

/// A report leaves the processes as they are and goes on to the next one. It says of the process
/// whose turn it was whether that was stopped, and counts it if it was.
pub proof fn law_report_is_of_the_process_in_turn(platform: Platform, signalled: bool, r: Line)
    ensures
        forall|s: &mut StopRun| #[trigger]
            call_ensures(StopRun::report, (s, platform, signalled), r) && (*s)@.done
                < (*s)@.pids.len() ==> {
                let before = (*s)@;
                let after = (*final(s))@;
                let pid = decimal(before.pids[before.done as int] as nat);
                &&& after.pids == before.pids
                &&& after.done == before.done + 1
                &&& after.stopped == before.stopped + if signalled {
                    1int
                } else {
                    0
                }
                &&& after == before.reported(signalled)
                &&& signalled ==> (r matches Line::Output(line) && line@ == "share session (pid "@
                    + pid + ") stopped"@)
                &&& !signalled && platform == Platform::Windows ==> (r matches Line::ErrorOutput(
                    line,
                ) && line@ == "could not open process "@ + pid + " (already exited?)"@)
                &&& !signalled && platform != Platform::Windows ==> (r matches Line::ErrorOutput(
                    line,
                ) && line@ == "could not signal process "@ + pid + " (already exited?)"@)
            },
{
}

/// A run starts with all the processes there are, none of them dealt with; it is refused where
/// there are none, and on a platform where no process can be stopped.
pub proof fn law_run_starts_with_all_processes(
    platform: Platform,
    pids: Vec<u32>,
    r: Result<StopRun, Refusal>,
)
    requires
        call_ensures(StopRun::start, (platform, pids), r),
    ensures
        r is Ok <==> pids@.len() > 0 && platform != Platform::Other,
        r matches Ok(run) ==> run@.pids == pids@ && run@.done == 0 && run@.stopped == 0,
        r matches Err(refusal) ==> refusal.exit_code == 1 && texts(refusal.lines@) == if pids@.len()
            == 0 {
            seq!["no active share sessions found"@]
        } else {
            seq!["herdr share stop is not supported on this platform"@]
        },
{
}

/// The exit code says success just where some process was stopped in the course of the run.
pub proof fn law_exit_code_says_whether_any_was_stopped(
    platform: Platform,
    pids: Vec<u32>,
    run: StopRun,
    signalled: Seq<bool>,
    now: StopRun,
    code: i32,
)
    requires
        call_ensures(StopRun::start, (platform, pids), Ok::<StopRun, Refusal>(run)),
        now@ == reported_all(run@, signalled),
        call_ensures(StopRun::exit_code, (&now,), code),
    ensures
        code == 0 <==> signalled.contains(true),
        code == 1 <==> !signalled.contains(true),
{
    law_stop_succeeds_if_any_was_stopped(pids@, signalled);
}

proof fn lemma_reported_all(s: StopView, signalled: Seq<bool>)
    ensures
        reported_all(s, signalled).pids == s.pids,
        reported_all(s, signalled).done == s.done + signalled.len(),
    decreases signalled.len(),
{
    if signalled.len() > 0 {
        lemma_reported_all(s, signalled.drop_last());
    }
}

/// A list of strings means their texts, one by one; so does a string that may not be there, and
/// a command means what it holds.
pub proof fn law_lists_and_commands_mean_what_they_hold(
    list: Seq<String>,
    text: String,
    relay: Option<String>,
    refusal: Refusal,
    lines: Seq<Seq<char>>,
    exit_code: int,
)
    ensures
        texts(list).len() == list.len(),
        forall|i: int| 0 <= i < list.len() ==> #[trigger] texts(list)[i] == list[i]@,
        optional_text(Some(text)) == Some(text@),
        optional_text(None) is None,
        ShareCommand::Help@ == ShareCommandView::Help,
        ShareCommand::Addr@ == ShareCommandView::Addr,
        ShareCommand::Stop@ == ShareCommandView::Stop,
        ShareCommand::UnknownOption(text)@ == ShareCommandView::UnknownOption(text@),
        ShareCommand::Host(relay)@ == ShareCommandView::Host(optional_text(relay)),
        JoinCommand::MissingCode@ == JoinCommandView::MissingCode,
        JoinCommand::Help@ == JoinCommandView::Help,
        (JoinCommand::Join { code: text, relay })@ == (JoinCommandView::Join {
            code: text@,
            relay: optional_text(relay),
        }),
        refusal.says(lines, exit_code) <==> texts(refusal.lines@) == lines && refusal.exit_code
            == exit_code,
{
}

} // verus!
