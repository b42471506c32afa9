//! The lines that hosts, guests and the relay exchange.
//!
//! A host opens with `SHARE` and is answered `CODE <code>`. A guest opens with
//! `JOIN <code>` and is answered `OK` or `NOTFOUND`. Raw terminal output follows.
use crate::text::{
    after_prefix, join2, join3, first_position, law_prefix_and_what_follows, law_trim_keeps_bare,
    law_trimmed_is_bare,
    lemma_first_position, lemma_split_at_first, lemma_trimmed_end_concat,
    lemma_trimmed_of_trimmed_end, lemma_trimmed_within, occurs_at, same_text, strip_prefix, trim,
    trimmed, trimmed_end, trimmed_start, white_space,
};
use vstd::prelude::*;
use vstd::string::*;

verus! {

/// A host's opening line.
pub const SHARE_REQUEST: &'static str = "SHARE\n";

/// The relay's answer to a guest that it lets in.
pub const OK_REPLY: &'static str = "OK\n";

/// The relay's answer to a guest whose session is not running.
pub const NOT_FOUND_REPLY: &'static str = "NOTFOUND\n";

/// The relay's answer to a line that it does not understand.
pub const UNKNOWN_REPLY: &'static str = "ERROR unknown command\n";

// ---------------------------------------------------------------------------
// Requests
// ---------------------------------------------------------------------------

/// The first line of a connection, as the relay understands it.
pub enum Request {
    /// Start a session.
    Share,
    /// Join the session of this code.
    Join(String),
    /// Anything else.
    Unknown,
}

/// The meaning of a [`Request`].
pub enum RequestView {
    Share,
    Join(Seq<char>),
    Unknown,
}

impl View for Request {
    type V = RequestView;

    open spec fn view(&self) -> RequestView {
        match self {
            Request::Share => RequestView::Share,
            Request::Join(code) => RequestView::Join(code@),
            Request::Unknown => RequestView::Unknown,
        }
    }
}

/// How the relay understands a line.
pub open spec fn request_of(line: Seq<char>) -> RequestView {
    if trimmed(line) == "SHARE"@ {
        RequestView::Share
    } else {
        match after_prefix(trimmed(line), "JOIN "@) {
            Some(code) => RequestView::Join(trimmed(code)),
            None => RequestView::Unknown,
        }
    }
}

/// A guest's opening line.
pub open spec fn join_request_text(code: Seq<char>) -> Seq<char> {
    "JOIN "@ + code + "\n"@
}

/// Reads the first line of a connection.
pub fn parse_request(line: &str) -> (r: Request)
    ensures
        r@ == request_of(line@),
{
    let command = trim(line);
    if same_text(command, "SHARE") {
        Request::Share
    } else {
        match strip_prefix(command, "JOIN ") {
            Some(code) => Request::Join(trim(code).to_owned()),
            None => Request::Unknown,
        }
    }
}

/// A guest's opening line.
pub fn join_request(code: &str) -> (r: String)
    ensures
        r@ == join_request_text(code@),
{
    join3("JOIN ", code, "\n")
}

// ---------------------------------------------------------------------------
// Replies
// ---------------------------------------------------------------------------

/// The relay's answer to a host.
pub open spec fn code_reply_text(code: Seq<char>) -> Seq<char> {
    "CODE "@ + code + "\n"@
}

/// The code that the relay's answer to a host holds, if it holds one.
pub open spec fn code_of_reply(line: Seq<char>) -> Option<Seq<char>> {
    after_prefix(trimmed(line), "CODE "@)
}

/// The command with which a guest joins the session `code`.
pub open spec fn join_command_text(code: Seq<char>) -> Seq<char> {
    "herdr join "@ + code
}

/// The relay's answer to a host.
pub fn code_reply(code: &str) -> (r: String)
    ensures
        r@ == code_reply_text(code@),
{
    join3("CODE ", code, "\n")
}

/// The relay's answer to a guest: whether its session is running.
pub fn join_reply(found: bool) -> (r: String)
    ensures
        r@ == join_reply_text(found),
{
    if found {
        OK_REPLY.to_owned()
    } else {
        NOT_FOUND_REPLY.to_owned()
    }
}

/// The relay's answer to a guest.
pub open spec fn join_reply_text(found: bool) -> Seq<char> {
    if found {
        OK_REPLY@
    } else {
        NOT_FOUND_REPLY@
    }
}

/// Who talks to the relay.
#[derive(Clone, Copy, PartialEq, Eq, Structural, Debug)]
pub enum Role {
    /// A host that shares in the background.
    Background,
    /// A host in the foreground.
    Host,
    /// A guest.
    Guest,
}

/// Why a session could not be shared or joined.
#[derive(Debug)]
pub enum ShareError {
    /// There is no connection to the relay.
    Unreachable { role: Role, relay: String, cause: String },
    /// The relay did not answer a host with a code.
    NoCode { role: Role },
    /// The relay knows no session of this code.
    NotFound { code: String },
    /// The relay answered a guest with something else.
    Unexpected { reply: String },
    /// Sharing was not set up in this process.
    NotInitialised,
    /// No code arrived in time.
    TimedOut,
    /// The background share failed before it had a code.
    Failed { cause: String },
}

impl ShareError {
    /// The error in words.
    pub open spec fn text(self) -> Seq<char> {
        match self {
            ShareError::Unreachable { role, relay, cause } => match role {
                Role::Background => "cannot reach relay "@ + relay@ + ": "@ + cause@,
                Role::Guest => "cannot reach relay at "@ + relay@ + ": "@ + cause@,
                Role::Host => "cannot reach relay at "@ + relay@ + ": "@ + cause@
                    + LOCAL_RELAY_HINT@,
            },
            ShareError::NoCode { role } => match role {
                Role::Background => "relay did not send a CODE"@,
                _ => "unexpected relay response"@,
            },
            ShareError::NotFound { code } => "session '"@ + code@
                + "' not found \u{2014} is the host still sharing?"@,
            ShareError::Unexpected { reply } => "unexpected relay response: "@ + reply@,
            ShareError::NotInitialised => "session not initialised"@,
            ShareError::TimedOut => "timed out connecting to relay"@,
            ShareError::Failed { cause } => cause@,
        }
    }

    /// The error in words.
    pub fn message(&self) -> (r: String)
        ensures
            r@ == self.text(),
    {
        match self {
            ShareError::Unreachable { role, relay, cause } => {
                match role {
                    Role::Background => {
                        let start = join3("cannot reach relay ", relay.as_str(), ": ");
                        join2(start.as_str(), cause.as_str())
                    },
                    Role::Guest => {
                        let start = join3("cannot reach relay at ", relay.as_str(), ": ");
                        join2(start.as_str(), cause.as_str())
                    },
                    Role::Host => {
                        let start = join3("cannot reach relay at ", relay.as_str(), ": ");
                        join3(start.as_str(), cause.as_str(), LOCAL_RELAY_HINT)
                    },
                }
            },
            ShareError::NoCode { role } => {
                match role {
                    Role::Background => "relay did not send a CODE".to_owned(),
                    _ => "unexpected relay response".to_owned(),
                }
            },
            ShareError::NotFound { code } => {
                join3("session '", code.as_str(), "' not found \u{2014} is the host still sharing?")
            },
            ShareError::Unexpected { reply } => {
                join2("unexpected relay response: ", reply.as_str())
            },
            ShareError::NotInitialised => "session not initialised".to_owned(),
            ShareError::TimedOut => "timed out connecting to relay".to_owned(),
            ShareError::Failed { cause } => cause.clone(),
        }
    }
}

/// What a host that cannot reach the relay is told to try.
pub const LOCAL_RELAY_HINT: &'static str =
    "\nhint: run 'herdr relay' locally and set HERDR_RELAY_ADDR=localhost:4002";

/// Reads the relay's answer to a host: the command with which a guest can join.
pub fn share_started(role: Role, line: &str) -> (r: Result<String, ShareError>)
    ensures
        match r {
            Ok(command) => code_of_reply(line@) matches Some(code) && command@
                == join_command_text(code),
            Err(e) => code_of_reply(line@) is None && e == (ShareError::NoCode { role }),
        },
{
    match strip_prefix(trim(line), "CODE ") {
        Some(code) => Ok(join2("herdr join ", code)),
        None => Err(ShareError::NoCode { role }),
    }
}

/// Reads the relay's answer to a guest that asked for the session `code`.
pub fn guest_admitted(code: &str, line: &str) -> (r: Result<(), ShareError>)
    ensures
        match r {
            Ok(()) => trimmed(line@) == "OK"@,
            Err(ShareError::NotFound { code: c }) => trimmed(line@) != "OK"@ && trimmed(line@)
                == "NOTFOUND"@ && c@ == code@,
            Err(ShareError::Unexpected { reply }) => trimmed(line@) != "OK"@ && trimmed(line@)
                != "NOTFOUND"@ && reply@ == trimmed(line@),
            Err(_) => false,
        },
{
    let answer = trim(line);
    if same_text(answer, "OK") {
        Ok(())
    } else if same_text(answer, "NOTFOUND") {
        Err(ShareError::NotFound { code: code.to_owned() })
    } else {
        Err(ShareError::Unexpected { reply: answer.to_owned() })
    }
}

/// The outcome of starting a background share: what its worker sent back, or `None`
/// if nothing came in time.
pub fn background_share_result(reply: Option<Result<String, String>>) -> (r: Result<
    String,
    ShareError,
>)
    ensures
        match reply {
            None => r matches Err(ShareError::TimedOut),
            Some(Err(cause)) => r matches Err(ShareError::Failed { cause: c }) && c == cause,
            Some(Ok(command)) => r matches Ok(c) && c == command,
        },
{
    match reply {
        None => Err(ShareError::TimedOut),
        Some(Err(cause)) => Err(ShareError::Failed { cause }),
        Some(Ok(command)) => Ok(command),
    }
}

// ---------------------------------------------------------------------------
// Laws
// ---------------------------------------------------------------------------

/// What reading one line gives of a text: everything up to and with the first line
/// feed.
pub open spec fn first_line(s: Seq<char>) -> Seq<char> {
    let i = first_position(s, '\n');
    if i < s.len() {
        s.take(i + 1)
    } else {
        s
    }
}

/// Whether `code` stands as it is in a line: it is not empty, ends in no white space
/// and holds no line feed.
pub open spec fn fits_line(code: Seq<char>) -> bool {
    code.len() > 0 && !white_space(code.last()) && !code.contains('\n')
}

/// What goes over the wire, whoever sends it: a request or reply is a word, what belongs to it
/// after a space, and a line feed.
pub proof fn law_lines_on_the_wire(
    code: &str,
    found: bool,
    request: String,
    code_line: String,
    join_line: String,
)
    requires
        call_ensures(join_request, (code,), request),
        call_ensures(code_reply, (code,), code_line),
        call_ensures(join_reply, (found,), join_line),
    ensures
        SHARE_REQUEST@ == "SHARE\n"@,
        request@ == "JOIN "@ + code@ + "\n"@,
        code_line@ == "CODE "@ + code@ + "\n"@,
        found ==> join_line@ == "OK\n"@,
        !found ==> join_line@ == "NOTFOUND\n"@,
        UNKNOWN_REPLY@ == "ERROR unknown command\n"@,
{
}

/// The relay takes a line for a host's if its only word is `SHARE`, for a guest's if a code
/// follows `JOIN` and a space, and understands no other; white space around the line and around
/// the code does not count.
pub proof fn law_relay_knows_two_requests(line: &str, code: Seq<char>, r: Request)
    requires
        call_ensures(parse_request, (line,), r),
    ensures
        r is Share <==> trimmed(line@) == "SHARE"@,
        trimmed(line@) == "JOIN "@ + code ==> (r matches Request::Join(wanted) && wanted@ == trimmed(
            code,
        )),
        r is Join ==> "JOIN "@.is_prefix_of(trimmed(line@)),
        r is Unknown <==> trimmed(line@) != "SHARE"@ && !"JOIN "@.is_prefix_of(trimmed(line@)),
{
    reveal_strlit("SHARE");
    reveal_strlit("JOIN ");
    if "JOIN "@.is_prefix_of(trimmed(line@)) {
        assert(trimmed(line@)[0] == "JOIN "@[0]);
    }
    if trimmed(line@) == "JOIN "@ + code {
        assert(trimmed(line@)[0] == 'J' && "SHARE"@[0] == 'S');
        law_prefix_and_what_follows(trimmed(line@), "JOIN "@, code);
    }
}

/// A host that is answered `CODE` and a code has the command for that very code to give out;
/// any other answer is an error, in the words of the host's role.
pub proof fn law_host_takes_the_code_it_is_told(
    role: Role,
    line: &str,
    code: Seq<char>,
    r: Result<String, ShareError>,
)
    requires
        call_ensures(share_started, (role, line), r),
    ensures
        trimmed(line@) == "CODE "@ + code ==> (r matches Ok(command) && command@ == "herdr join "@
            + code),
        r is Ok <==> "CODE "@.is_prefix_of(trimmed(line@)),
        r matches Err(e) ==> e.text() == if role == Role::Background {
            "relay did not send a CODE"@
        } else {
            "unexpected relay response"@
        },
{
    law_prefix_and_what_follows(trimmed(line@), "CODE "@, code);
}

/// A guest is in if, and only if, the relay answers `OK`. Otherwise it is told of the code that
/// it asked for, or of the answer that came instead.
pub proof fn law_guest_is_in_by_ok_alone(code: &str, line: &str, r: Result<(), ShareError>)
    requires
        call_ensures(guest_admitted, (code, line), r),
    ensures
        r is Ok <==> trimmed(line@) == "OK"@,
        trimmed(line@) == "NOTFOUND"@ ==> (r matches Err(e) && e.text() == "session '"@ + code@
            + "' not found \u{2014} is the host still sharing?"@),
        trimmed(line@) != "OK"@ && trimmed(line@) != "NOTFOUND"@ ==> (r matches Err(e) && e.text()
            == "unexpected relay response: "@ + trimmed(line@)),
{
    reveal_strlit("OK");
    reveal_strlit("NOTFOUND");
    assert("OK"@.len() != "NOTFOUND"@.len());
}

/// A background share that starts hands on the command of its worker; one that does not says
/// why, or that nothing came in time.
pub proof fn law_background_share_hands_on_its_command(
    command: String,
    cause: String,
    started: Result<String, ShareError>,
    failed: Result<String, ShareError>,
    late: Result<String, ShareError>,
)
    requires
        call_ensures(background_share_result, (Some(Ok::<String, String>(command)),), started),
        call_ensures(background_share_result, (Some(Err::<String, String>(cause)),), failed),
        call_ensures(background_share_result, (None::<Result<String, String>>,), late),
    ensures
        started matches Ok(c) && c == command,
        failed matches Err(e) && e.text() == cause@,
        late matches Err(e) && e.text() == "timed out connecting to relay"@,
{
}

/// An error says what it is about: a relay that cannot be reached is named with the reason, and
/// only a host in the foreground is told what to try.
pub proof fn law_errors_say_what_they_are_about(
    e: ShareError,
    relay: String,
    cause: String,
    code: String,
    r: String,
)
    requires
        call_ensures(ShareError::message, (&e,), r),
    ensures
        e == (ShareError::Unreachable { role: Role::Background, relay, cause }) ==> r@
            == "cannot reach relay "@ + relay@ + ": "@ + cause@,
        e == (ShareError::Unreachable { role: Role::Guest, relay, cause }) ==> r@
            == "cannot reach relay at "@ + relay@ + ": "@ + cause@,
        e == (ShareError::Unreachable { role: Role::Host, relay, cause }) ==> r@
            == "cannot reach relay at "@ + relay@ + ": "@ + cause@
            + "\nhint: run 'herdr relay' locally and set HERDR_RELAY_ADDR=localhost:4002"@,
        e == (ShareError::NoCode { role: Role::Background }) ==> r@ == "relay did not send a CODE"@,
        e == (ShareError::NoCode { role: Role::Host }) ==> r@ == "unexpected relay response"@,
        e == (ShareError::NotFound { code }) ==> r@ == "session '"@ + code@
            + "' not found \u{2014} is the host still sharing?"@,
        e == (ShareError::Unexpected { reply: code }) ==> r@ == "unexpected relay response: "@
            + code@,
        e is NotInitialised ==> r@ == "session not initialised"@,
        e is TimedOut ==> r@ == "timed out connecting to relay"@,
        e == (ShareError::Failed { cause }) ==> r@ == cause@,
{
}

/// The relay understands a host's opening line.
pub proof fn law_share_request_is_understood()
    ensures
        request_of(first_line(SHARE_REQUEST@)) == RequestView::Share,
{
    reveal_strlit("SHARE\n");
    reveal_strlit("SHARE");
    let share = "SHARE"@;
    assert("SHARE\n"@ =~= share.push('\n'));
    lemma_first_line(share);
    law_trim_keeps_bare(share);
}

/// The relay understands a guest's opening line: it looks for the code without the
/// white space around it, and does not understand a line without a code.
pub proof fn law_join_request_is_understood(code: Seq<char>)
    requires
        !code.contains('\n'),
    ensures
        request_of(first_line(join_request_text(code))) == if trimmed(code).len() > 0 {
            RequestView::Join(trimmed(code))
        } else {
            RequestView::Unknown
        },
{
    reveal_strlit("JOIN ");
    reveal_strlit("SHARE");
    reveal_strlit("\n");
    let join = "JOIN "@;
    let text = join_request_text(code);
    assert(text =~= (join + code).push('\n'));
    lemma_first_line(join + code);
    assert(trimmed_start(text) == text);
    assert(text.drop_last() =~= join + code);
    assert(trimmed(text) == trimmed_end(join + code));
    lemma_trimmed_end_concat(join, code);
    lemma_trimmed_of_trimmed_end(code);
    let command = trimmed(text);
    if trimmed_end(code).len() > 0 {
        assert(command == join + trimmed_end(code));
        assert(command[0] == 'J' && "SHARE"@[0] == 'S');
        assert(command.skip(5) =~= trimmed_end(code));
        assert(join.is_prefix_of(command)) by {
            assert(command.take(5) =~= join);
        }
    } else {
        assert(join.drop_last().last() == 'N');
        assert(!white_space('N'));
        assert(trimmed_end(join.drop_last()) == join.drop_last());
        assert(command == join.drop_last());
        assert(command[0] == 'J' && "SHARE"@[0] == 'S');
    }
}

/// A host reads back the code that the relay answered it with.
pub proof fn law_code_reply_is_understood(code: Seq<char>)
    requires
        fits_line(code),
    ensures
        code_of_reply(first_line(code_reply_text(code))) == Some(code),
{
    reveal_strlit("CODE ");
    reveal_strlit("\n");
    let prefix = "CODE "@;
    let text = code_reply_text(code);
    assert(text =~= (prefix + code).push('\n'));
    lemma_first_line(prefix + code);
    law_trim_keeps_bare(prefix + code);
    assert((prefix + code).skip(5) =~= code);
    assert(prefix.is_prefix_of(prefix + code)) by {
        assert((prefix + code).take(5) =~= prefix);
    }
}

/// The code that a host reads from the relay's answer always fits in a line again.
pub proof fn law_received_code_fits_line(reply: Seq<char>)
    ensures
        code_of_reply(first_line(reply)) matches Some(code) ==> fits_line(code),
{
    let line = first_line(reply);
    if let Some(code) = code_of_reply(line) {
        reveal_strlit("CODE ");
        law_trimmed_is_bare(line);
        lemma_trimmed_within(line);
        lemma_first_position(reply, '\n');
        let body = trimmed(line);
        if body.len() == 5 {
            assert(body =~= "CODE "@);
            assert(body.last() == ' ');
        }
        assert(code.len() > 0);
        assert(code.last() == body.last());
        if code.contains('\n') {
            let k = choose|k: int| 0 <= k < code.len() && code[k] == '\n';
            let at = choose|at: int| occurs_at(line, body, at);
            assert(body[k + 5] == '\n');
            assert(line[at + k + 5] == '\n');
            assert(at + k + 5 == line.len() - 1);
            assert(body.last() == '\n');
        }
    }
}

/// A guest understands the relay's answer.
pub proof fn law_join_reply_is_understood(found: bool)
    ensures
        trimmed(first_line(join_reply_text(found))) == if found {
            "OK"@
        } else {
            "NOTFOUND"@
        },
        "OK"@ != "NOTFOUND"@,
{
    reveal_strlit("OK\n");
    reveal_strlit("OK");
    reveal_strlit("NOTFOUND\n");
    reveal_strlit("NOTFOUND");
    let word = if found {
        "OK"@
    } else {
        "NOTFOUND"@
    };
    assert(join_reply_text(found) =~= word.push('\n'));
    lemma_first_line(word);
    law_trim_keeps_bare(word);
}

proof fn lemma_first_line(s: Seq<char>)
    requires
        !s.contains('\n'),
    ensures
        first_line(s.push('\n')) == s.push('\n'),
{
    lemma_split_at_first(s, '\n', Seq::empty());
    assert(s.push('\n') + Seq::<char>::empty() =~= s.push('\n'));
    assert(s.push('\n').take(s.len() as int + 1) =~= s.push('\n'));
}

} // verus!
