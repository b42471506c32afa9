//! One connection to the relay, from its first line to its end: what to send, read and
//! record next, given what came of the last step.
use crate::channel::missed;
use crate::code::{
    code_seed, code_text, generate_code, law_code_reaches_guest_and_relay, sha256_digest,
};
use crate::protocol::{
    code_of_reply, code_reply, code_reply_text, first_line, join_reply, join_reply_text,
    join_request_text, law_join_request_is_understood, law_share_request_is_understood,
    parse_request, request_of, Request, RequestView, SHARE_REQUEST, UNKNOWN_REPLY,
};
use crate::relay::{
    bytes_of, chunks_of, has_room, law_guest_sees_everything, lemma_all_recorded,
    lemma_relayed_all, recorded_bytes, relayed_all, started, table_relayed, table_started, Joined,
    SessionView, Sessions,
};
use crate::text::{law_prefix_and_what_follows, trimmed};
use std::path::PathBuf;
use vstd::prelude::*;
use vstd::string::*;

verus! {

// ---------------------------------------------------------------------------
// The first line
// ---------------------------------------------------------------------------

/// How a connection goes on after its first line.
pub enum Opening<'a> {
    /// A host: make a code for it, and open a recording.
    Host,
    /// A guest: send it the reply, then go on with the link.
    Guest { code: String, reply: String, joined: Joined<'a>, link: GuestLink },
    /// Neither: send the reply and hang up.
    Refuse(String),
}

/// Makes a code for a new session from the time in nanoseconds, the process id and some random
/// bytes. `None` if a running session has that code: try again with others.
pub fn assign_code(sessions: &Sessions, ts: u128, pid: u32, extra: [u8; 8]) -> (r: Option<String>)
    ensures
        ({
            let candidate = code_text(sha256_digest(code_seed(ts, pid, extra@)));
            match r {
                Some(code) => code@ == candidate && !sessions@.contains_key(candidate),
                None => sessions@.contains_key(candidate),
            }
        }),
{
    let code = generate_code(ts, pid, extra);
    if sessions.is_free(code.as_str()) {
        Some(code)
    } else {
        None
    }
}

/// How a connection goes on: as a host's, as a guest's of the session of this code, or not
/// beyond a reply.
pub enum OpeningView {
    Host,
    Guest(Seq<char>),
    Refuse(Seq<char>),
}

/// How a connection goes on after its first line, with these sessions running.
pub open spec fn opening_of(table: Map<Seq<char>, SessionView>, line: Seq<char>) -> OpeningView {
    match request_of(line) {
        RequestView::Share => OpeningView::Host,
        RequestView::Join(code) => if table.contains_key(code) {
            OpeningView::Guest(code)
        } else {
            OpeningView::Refuse(join_reply_text(false))
        },
        RequestView::Unknown => OpeningView::Refuse(UNKNOWN_REPLY@),
    }
}

/// Decides on the first line of a connection. A guest is given its subscription, and how much
/// of the recording precedes it, in one.
pub fn open_connection<'a>(sessions: &'a Sessions, line: &str) -> (r: Opening<'a>)
    ensures
        match opening_of(sessions@, line@) {
            OpeningView::Host => r is Host,
            OpeningView::Guest(wanted) => {
                &&& r matches Opening::Guest { code, reply, joined, link }
                &&& code@ == wanted
                &&& reply@ == join_reply_text(true)
                &&& missed(joined.rx) == sessions@[wanted].sent
                &&& *joined.record_path == sessions@[wanted].record_path
                &&& joined.replay_until == sessions@[wanted].bytes_recorded
                &&& link@ == guest_start(sessions@[wanted].bytes_recorded)
            },
            OpeningView::Refuse(text) => r matches Opening::Refuse(reply) && reply@ == text,
        },
{
    match parse_request(line) {
        Request::Share => Opening::Host,
        Request::Join(code) => match sessions.join_session(code.as_str()) {
            Some(joined) => {
                let link = GuestLink::new(joined.replay_until);
                Opening::Guest { code, reply: join_reply(true), joined, link }
            },
            None => Opening::Refuse(join_reply(false)),
        },
        Request::Unknown => Opening::Refuse(UNKNOWN_REPLY.to_owned()),
    }
}

// ---------------------------------------------------------------------------
// Hosts
// ---------------------------------------------------------------------------

/// Where a host's connection stands.
pub enum HostPhase {
    /// The recording is being opened.
    Starting,
    /// The code is being sent.
    Announcing,
    /// The host's output is being read.
    Reading,
    /// This chunk is being written to the recording.
    Recording(Vec<u8>),
    /// The host is done, and its session has ended.
    Closed,
    /// The connection broke; a session that has started goes on without a host.
    Abandoned,
}

/// What came of the last step of a host's connection.
pub enum HostEvent {
    /// The recording has been opened at this path.
    Opened(PathBuf),
    /// The recording could not be opened.
    OpenFailed,
    /// The code was sent, or could not be.
    Sent(bool),
    /// Output was read; nothing at the end of the stream.
    Read(Vec<u8>),
    /// Reading failed.
    ReadFailed,
    /// The chunk was written to the recording, or could not be.
    Recorded(bool),
}

/// What to do next on a host's connection.
pub enum HostAction {
    /// Send this line.
    Send(String),
    /// A running session has the code: start over with another.
    AnotherCode,
    /// Read more output.
    Read,
    /// Write this chunk to the recording.
    Record(Vec<u8>),
    /// Delete the recording and hang up.
    Finish,
    /// Hang up.
    Fail,
}

/// The meaning of a [`HostPhase`].
pub enum HostPhaseView {
    Starting,
    Announcing,
    Reading,
    Recording(Seq<u8>),
    Closed,
    Abandoned,
}

/// The meaning of a [`HostEvent`].
pub enum HostEventView {
    Opened(PathBuf),
    OpenFailed,
    Sent(bool),
    Read(Seq<u8>),
    ReadFailed,
    Recorded(bool),
}

/// The meaning of a [`HostAction`].
pub enum HostActionView {
    Send(Seq<char>),
    AnotherCode,
    Read,
    Record(Seq<u8>),
    Finish,
    Fail,
}

impl View for HostPhase {
    type V = HostPhaseView;

    open spec fn view(&self) -> HostPhaseView {
        match self {
            HostPhase::Starting => HostPhaseView::Starting,
            HostPhase::Announcing => HostPhaseView::Announcing,
            HostPhase::Reading => HostPhaseView::Reading,
            HostPhase::Recording(chunk) => HostPhaseView::Recording(chunk@),
            HostPhase::Closed => HostPhaseView::Closed,
            HostPhase::Abandoned => HostPhaseView::Abandoned,
        }
    }
}

impl View for HostEvent {
    type V = HostEventView;

    open spec fn view(&self) -> HostEventView {
        match self {
            HostEvent::Opened(path) => HostEventView::Opened(*path),
            HostEvent::OpenFailed => HostEventView::OpenFailed,
            HostEvent::Sent(ok) => HostEventView::Sent(*ok),
            HostEvent::Read(chunk) => HostEventView::Read(chunk@),
            HostEvent::ReadFailed => HostEventView::ReadFailed,
            HostEvent::Recorded(ok) => HostEventView::Recorded(*ok),
        }
    }
}

impl View for HostAction {
    type V = HostActionView;

    open spec fn view(&self) -> HostActionView {
        match self {
            HostAction::Send(line) => HostActionView::Send(line@),
            HostAction::AnotherCode => HostActionView::AnotherCode,
            HostAction::Read => HostActionView::Read,
            HostAction::Record(chunk) => HostActionView::Record(chunk@),
            HostAction::Finish => HostActionView::Finish,
            HostAction::Fail => HostActionView::Fail,
        }
    }
}

/// The phase that follows, where `free` says that no running session has the host's code:
/// only then does the connection get past its start. An event that does not belong to the
/// phase breaks the connection.
pub open spec fn host_next(
    free: bool,
    phase: HostPhaseView,
    event: HostEventView,
) -> HostPhaseView {
    match (phase, event) {
        (HostPhaseView::Starting, HostEventView::Opened(_)) => if free {
            HostPhaseView::Announcing
        } else {
            HostPhaseView::Starting
        },
        (HostPhaseView::Announcing, HostEventView::Sent(true)) => HostPhaseView::Reading,
        (HostPhaseView::Reading, HostEventView::Read(chunk)) => if chunk.len() == 0 {
            HostPhaseView::Closed
        } else {
            HostPhaseView::Recording(chunk)
        },
        (HostPhaseView::Recording(_), HostEventView::Recorded(_)) => HostPhaseView::Reading,
        _ => HostPhaseView::Abandoned,
    }
}

/// What to do next.
pub open spec fn host_action(
    free: bool,
    code: Seq<char>,
    phase: HostPhaseView,
    event: HostEventView,
) -> HostActionView {
    match host_next(free, phase, event) {
        HostPhaseView::Starting => HostActionView::AnotherCode,
        HostPhaseView::Announcing => HostActionView::Send(code_reply_text(code)),
        HostPhaseView::Reading => HostActionView::Read,
        HostPhaseView::Recording(chunk) => HostActionView::Record(chunk),
        HostPhaseView::Closed => HostActionView::Finish,
        _ => HostActionView::Fail,
    }
}

/// What becomes of the running sessions: the session starts once its recording is open, unless
/// its code is taken; it takes in each chunk once that has been recorded or could not be, and
/// ends with the host's output.
pub open spec fn host_table(
    table: Map<Seq<char>, SessionView>,
    code: Seq<char>,
    phase: HostPhaseView,
    event: HostEventView,
) -> Map<Seq<char>, SessionView> {
    match (phase, event) {
        (HostPhaseView::Starting, HostEventView::Opened(path)) => table_started(
            table,
            code,
            path,
        ),
        (HostPhaseView::Reading, HostEventView::Read(chunk)) => if chunk.len() == 0 {
            table.remove(code)
        } else {
            table
        },
        (HostPhaseView::Recording(chunk), HostEventView::Recorded(ok)) => table_relayed(
            table,
            code,
            chunk,
            ok,
        ),
        _ => table,
    }
}

/// A host's connection.
pub struct HostLink {
    code: String,
    phase: HostPhase,
}

impl HostLink {
    /// The code of the host's session.
    pub closed spec fn code(self) -> Seq<char> {
        self.code@
    }

    /// Where the connection stands.
    pub closed spec fn phase(self) -> HostPhaseView {
        self.phase@
    }

    /// A connection of a host whose session is to have this code.
    pub fn new(code: String) -> (r: Self)
        ensures
            r.code() == code@,
            r.phase() == HostPhaseView::Starting,
    {
        HostLink { code, phase: HostPhase::Starting }
    }

    /// Whether the chunk that is being recorded, if there is one, can still be counted.
    pub fn can_record(&self, sessions: &Sessions) -> (r: bool)
        ensures
            r == (self.phase() matches HostPhaseView::Recording(chunk) ==> has_room(
                sessions@,
                self.code(),
                chunk.len(),
            )),
    {
        match &self.phase {
            HostPhase::Recording(chunk) => sessions.can_record(self.code.as_str(), chunk.len()),
            _ => true,
        }
    }

    /// Takes in what came of the last step, and decides what to do next.
    pub fn step(&mut self, sessions: &mut Sessions, event: HostEvent) -> (r: HostAction)
        requires
            event matches HostEvent::Recorded(true) ==> (old(
                self,
            ).phase() matches HostPhaseView::Recording(chunk) ==> has_room(
                old(sessions)@,
                old(self).code(),
                chunk.len(),
            )),
        ensures
            final(self).code() == old(self).code(),
            final(self).phase() == host_next(
                !old(sessions)@.contains_key(old(self).code()),
                old(self).phase(),
                event@,
            ),
            final(sessions)@ == host_table(
                old(sessions)@,
                old(self).code(),
                old(self).phase(),
                event@,
            ),
            r@ == host_action(
                !old(sessions)@.contains_key(old(self).code()),
                old(self).code(),
                old(self).phase(),
                event@,
            ),
    {
        let mut phase = HostPhase::Abandoned;
        std::mem::swap(&mut phase, &mut self.phase);
        match (phase, event) {
            (HostPhase::Starting, HostEvent::Opened(path)) => {
                if sessions.open_session(self.code.clone(), path) {
                    self.phase = HostPhase::Announcing;
                    HostAction::Send(code_reply(self.code.as_str()))
                } else {
                    self.phase = HostPhase::Starting;
                    HostAction::AnotherCode
                }
            },
            (HostPhase::Announcing, HostEvent::Sent(true)) => {
                self.phase = HostPhase::Reading;
                HostAction::Read
            },
            (HostPhase::Reading, HostEvent::Read(chunk)) => {
                if chunk.len() == 0 {
                    sessions.close_session(self.code.as_str());
                    self.phase = HostPhase::Closed;
                    HostAction::Finish
                } else {
                    let copy = chunk.clone();
                    assert(copy@ =~= chunk@);
                    self.phase = HostPhase::Recording(chunk);
                    HostAction::Record(copy)
                }
            },
            (HostPhase::Recording(chunk), HostEvent::Recorded(ok)) => {
                sessions.relay_chunk(self.code.as_str(), chunk, ok);
                self.phase = HostPhase::Reading;
                HostAction::Read
            },
            _ => HostAction::Fail,
        }
    }
}

// ---------------------------------------------------------------------------
// Guests
// ---------------------------------------------------------------------------

/// How much of a recording is read at a time.
pub const REPLAY_CHUNK: usize = 65_536;

/// Where a guest's connection stands.
#[derive(Clone, Copy, PartialEq, Eq, Structural, Debug)]
pub enum GuestPhase {
    /// The reply is being sent.
    Greeting,
    /// The recording is being opened.
    Opening,
    /// The recording is being read.
    Replaying,
    /// A part of the recording is being sent.
    SendingReplay,
    /// The live stream is being received.
    Live,
    /// A chunk of the live stream is being sent.
    SendingLive,
    /// The session has ended, or the guest has left.
    Ended,
    /// The connection broke before the live stream.
    Failed,
}

/// What came of the last step of a guest's connection.
pub enum LinkEvent {
    /// Something was sent, or could not be.
    Sent(bool),
    /// The recording was opened, or could not be.
    Opened(bool),
    /// A part of the recording was read; nothing at its end.
    RecordingRead(Vec<u8>),
    /// Reading the recording failed.
    RecordingReadFailed,
    /// A chunk of the live stream.
    Chunk(Vec<u8>),
    /// The guest was too slow, and some chunks are lost.
    Lagged,
    /// The session has ended.
    Closed,
}

/// What to do next on a guest's connection.
pub enum LinkAction {
    /// Open the recording.
    OpenRecording,
    /// Read at most this much of the recording.
    ReadRecording(usize),
    /// Send this.
    Send(Vec<u8>),
    /// Wait for the live stream.
    Receive,
    /// Hang up.
    End,
    /// Hang up: the connection broke.
    Fail,
}

/// The meaning of a [`LinkEvent`].
pub enum LinkEventView {
    Sent(bool),
    Opened(bool),
    RecordingRead(Seq<u8>),
    RecordingReadFailed,
    Chunk(Seq<u8>),
    Lagged,
    Closed,
}

/// The meaning of a [`LinkAction`].
pub enum LinkActionView {
    OpenRecording,
    ReadRecording(nat),
    Send(Seq<u8>),
    Receive,
    End,
    Fail,
}

impl View for LinkEvent {
    type V = LinkEventView;

    open spec fn view(&self) -> LinkEventView {
        match self {
            LinkEvent::Sent(ok) => LinkEventView::Sent(*ok),
            LinkEvent::Opened(ok) => LinkEventView::Opened(*ok),
            LinkEvent::RecordingRead(bytes) => LinkEventView::RecordingRead(bytes@),
            LinkEvent::RecordingReadFailed => LinkEventView::RecordingReadFailed,
            LinkEvent::Chunk(bytes) => LinkEventView::Chunk(bytes@),
            LinkEvent::Lagged => LinkEventView::Lagged,
            LinkEvent::Closed => LinkEventView::Closed,
        }
    }
}

impl View for LinkAction {
    type V = LinkActionView;

    open spec fn view(&self) -> LinkActionView {
        match self {
            LinkAction::OpenRecording => LinkActionView::OpenRecording,
            LinkAction::ReadRecording(n) => LinkActionView::ReadRecording(*n as nat),
            LinkAction::Send(bytes) => LinkActionView::Send(bytes@),
            LinkAction::Receive => LinkActionView::Receive,
            LinkAction::End => LinkActionView::End,
            LinkAction::Fail => LinkActionView::Fail,
        }
    }
}

/// The state of a guest's connection.
pub struct LinkView {
    pub phase: GuestPhase,
    /// How much of the recording is still to be replayed.
    pub remaining: nat,
}

/// A guest's connection at its start, with so much of the recording to replay.
pub open spec fn guest_start(replay_until: nat) -> LinkView {
    LinkView { phase: GuestPhase::Greeting, remaining: replay_until }
}

/// How much of the recording to ask for, with `remaining` to go.
pub open spec fn replay_request(remaining: nat) -> nat {
    if remaining < REPLAY_CHUNK {
        remaining
    } else {
        REPLAY_CHUNK as nat
    }
}

impl LinkView {
    /// In another phase.
    pub open spec fn to(self, phase: GuestPhase) -> LinkView {
        LinkView { phase, ..self }
    }

    /// The state that follows. The recording is replayed up to where the live stream
    /// starts; a recording that cannot be opened, or is too short, is passed over. An
    /// event that does not belong to the phase breaks the connection.
    pub open spec fn next(self, event: LinkEventView) -> LinkView {
        match (self.phase, event) {
            (GuestPhase::Greeting, LinkEventView::Sent(true)) => if self.remaining > 0 {
                self.to(GuestPhase::Opening)
            } else {
                self.to(GuestPhase::Live)
            },
            (GuestPhase::Opening, LinkEventView::Opened(ok)) => if ok {
                self.to(GuestPhase::Replaying)
            } else {
                self.to(GuestPhase::Live)
            },
            (GuestPhase::Replaying, LinkEventView::RecordingRead(bytes)) => if bytes.len() == 0 {
                self.to(GuestPhase::Live)
            } else if bytes.len() <= replay_request(self.remaining) {
                LinkView {
                    phase: GuestPhase::SendingReplay,
                    remaining: (self.remaining - bytes.len()) as nat,
                }
            } else {
                self.to(GuestPhase::Failed)
            },
            (GuestPhase::SendingReplay, LinkEventView::Sent(true)) => if self.remaining > 0 {
                self.to(GuestPhase::Replaying)
            } else {
                self.to(GuestPhase::Live)
            },
            (GuestPhase::Live, LinkEventView::Chunk(_)) => self.to(GuestPhase::SendingLive),
            (GuestPhase::Live, LinkEventView::Lagged) => self,
            (GuestPhase::Live, LinkEventView::Closed) => self.to(GuestPhase::Ended),
            (GuestPhase::SendingLive, LinkEventView::Sent(ok)) => if ok {
                self.to(GuestPhase::Live)
            } else {
                self.to(GuestPhase::Ended)
            },
            _ => self.to(GuestPhase::Failed),
        }
    }

    /// What to do next.
    pub open spec fn action(self, event: LinkEventView) -> LinkActionView {
        let next = self.next(event);
        match next.phase {
            GuestPhase::Opening => LinkActionView::OpenRecording,
            GuestPhase::Replaying => LinkActionView::ReadRecording(replay_request(next.remaining)),
            GuestPhase::SendingReplay => match event {
                LinkEventView::RecordingRead(bytes) => LinkActionView::Send(bytes),
                _ => LinkActionView::Fail,
            },
            GuestPhase::Live => LinkActionView::Receive,
            GuestPhase::SendingLive => match event {
                LinkEventView::Chunk(bytes) => LinkActionView::Send(bytes),
                _ => LinkActionView::Fail,
            },
            GuestPhase::Ended => LinkActionView::End,
            _ => LinkActionView::Fail,
        }
    }
}

/// A guest's connection.
pub struct GuestLink {
    phase: GuestPhase,
    remaining: u64,
}

impl View for GuestLink {
    type V = LinkView;

    closed spec fn view(&self) -> LinkView {
        LinkView { phase: self.phase, remaining: self.remaining as nat }
    }
}

impl GuestLink {
    /// A connection of a guest that is to see so much of the recording.
    pub fn new(replay_until: u64) -> (r: Self)
        ensures
            r@ == guest_start(replay_until as nat),
    {
        GuestLink { phase: GuestPhase::Greeting, remaining: replay_until }
    }

    fn request(&self) -> (r: usize)
        ensures
            r == replay_request(self@.remaining),
    {
        if self.remaining < REPLAY_CHUNK as u64 {
            self.remaining as usize
        } else {
            REPLAY_CHUNK
        }
    }

    /// Goes on with the replay, or with the live stream once all is replayed.
    fn proceed(&mut self, to_replay: GuestPhase) -> (r: LinkAction)
        requires
            to_replay == GuestPhase::Opening || to_replay == GuestPhase::Replaying,
        ensures
            final(self)@.remaining == old(self)@.remaining,
            final(self)@.phase == if old(self)@.remaining > 0 {
                to_replay
            } else {
                GuestPhase::Live
            },
            r@ == if old(self)@.remaining == 0 {
                LinkActionView::Receive
            } else if to_replay == GuestPhase::Opening {
                LinkActionView::OpenRecording
            } else {
                LinkActionView::ReadRecording(replay_request(old(self)@.remaining))
            },
    {
        if self.remaining == 0 {
            self.phase = GuestPhase::Live;
            return LinkAction::Receive;
        }
        self.phase = to_replay;
        if to_replay == GuestPhase::Opening {
            LinkAction::OpenRecording
        } else {
            LinkAction::ReadRecording(self.request())
        }
    }

    /// Takes in what came of the last step, and decides what to do next.
    pub fn step(&mut self, event: LinkEvent) -> (r: LinkAction)
        ensures
            final(self)@ == old(self)@.next(event@),
            r@ == old(self)@.action(event@),
    {
        match (self.phase, event) {
            (GuestPhase::Greeting, LinkEvent::Sent(true)) => self.proceed(GuestPhase::Opening),
            (GuestPhase::Opening, LinkEvent::Opened(ok)) => {
                if ok {
                    self.phase = GuestPhase::Replaying;
                    LinkAction::ReadRecording(self.request())
                } else {
                    self.phase = GuestPhase::Live;
                    LinkAction::Receive
                }
            },
            (GuestPhase::Replaying, LinkEvent::RecordingRead(bytes)) => {
                if bytes.len() == 0 {
                    self.phase = GuestPhase::Live;
                    LinkAction::Receive
                } else if bytes.len() <= self.request() {
                    self.remaining = self.remaining - bytes.len() as u64;
                    self.phase = GuestPhase::SendingReplay;
                    LinkAction::Send(bytes)
                } else {
                    self.phase = GuestPhase::Failed;
                    LinkAction::Fail
                }
            },
            (GuestPhase::SendingReplay, LinkEvent::Sent(true)) => {
                self.proceed(GuestPhase::Replaying)
            },
            (GuestPhase::Live, LinkEvent::Chunk(bytes)) => {
                self.phase = GuestPhase::SendingLive;
                LinkAction::Send(bytes)
            },
            (GuestPhase::Live, LinkEvent::Lagged) => LinkAction::Receive,
            (GuestPhase::Live, LinkEvent::Closed) => {
                self.phase = GuestPhase::Ended;
                LinkAction::End
            },
            (GuestPhase::SendingLive, LinkEvent::Sent(ok)) => {
                if ok {
                    self.phase = GuestPhase::Live;
                    LinkAction::Receive
                } else {
                    self.phase = GuestPhase::Ended;
                    LinkAction::End
                }
            },
            _ => {
                self.phase = GuestPhase::Failed;
                LinkAction::Fail
            },
        }
    }
}

// ---------------------------------------------------------------------------
// Laws of the first line
// ---------------------------------------------------------------------------

/// A host is known by its opening line, whatever sessions run.
pub proof fn law_host_is_served(table: Map<Seq<char>, SessionView>)
    ensures
        opening_of(table, first_line(SHARE_REQUEST@)) == OpeningView::Host,
{
    law_share_request_is_understood();
}

/// A guest that asks for a session is let in if it runs, and is answered that there is none
/// if it does not. White space around the code does not count.
pub proof fn law_guest_is_let_in_or_not_found(
    table: Map<Seq<char>, SessionView>,
    code: Seq<char>,
)
    requires
        !code.contains('\n'),
        trimmed(code).len() > 0,
    ensures
        opening_of(table, first_line(join_request_text(code))) == if table.contains_key(
            trimmed(code),
        ) {
            OpeningView::Guest(trimmed(code))
        } else {
            OpeningView::Refuse("NOTFOUND\n"@)
        },
{
    law_join_request_is_understood(code);
}

/// The code that a host is told lets guests in: it is the host's code that the relay answers
/// with, the host reads it from the answer as it is, and a guest that asks with it gets the
/// host's session.
pub proof fn law_announced_code_lets_guests_in(
    table: Map<Seq<char>, SessionView>,
    digest: Seq<u8>,
    path: PathBuf,
)
    requires
        !table.contains_key(code_text(digest)),
    ensures
        ({
            let code = code_text(digest);
            let next = host_table(
                table,
                code,
                HostPhaseView::Starting,
                HostEventView::Opened(path),
            );
            &&& host_action(true, code, HostPhaseView::Starting, HostEventView::Opened(path))
                == HostActionView::Send(code_reply_text(code))
            &&& code_of_reply(first_line(code_reply_text(code))) == Some(code)
            &&& opening_of(next, first_line(join_request_text(code))) == OpeningView::Guest(code)
            &&& next[code] == started(path)
        }),
{
    law_code_reaches_guest_and_relay(digest);
}

/// What a connection gets for its first line. A host is served whatever sessions run. A guest
/// of a running session is answered `OK`, with its subscription, the recording, and all that is
/// recorded so far still to be replayed; one of another is answered `NOTFOUND`. Any other line is
/// answered that it is not understood.
pub proof fn law_first_line_decides<'a>(
    sessions: &'a Sessions,
    line: &str,
    code: Seq<char>,
    r: Opening<'a>,
)
    requires
        call_ensures(open_connection, (sessions, line), r),
    ensures
        trimmed(line@) == "SHARE"@ <==> r is Host,
        trimmed(line@) == "JOIN "@ + code && sessions@.contains_key(trimmed(code)) ==> (r matches
            Opening::Guest { code: wanted, reply, joined, link } && {
            let session = sessions@[trimmed(code)];
            &&& wanted@ == trimmed(code)
            &&& reply@ == "OK\n"@
            &&& missed(joined.rx) == session.sent
            &&& *joined.record_path == session.record_path
            &&& joined.replay_until == session.bytes_recorded
            &&& link@.phase == GuestPhase::Greeting
            &&& link@.remaining == session.bytes_recorded
        }),
        trimmed(line@) == "JOIN "@ + code && !sessions@.contains_key(trimmed(code)) ==> (r matches
            Opening::Refuse(reply) && reply@ == "NOTFOUND\n"@),
        trimmed(line@) != "SHARE"@ && !"JOIN "@.is_prefix_of(trimmed(line@)) ==> (r matches
            Opening::Refuse(reply) && reply@ == "ERROR unknown command\n"@),
{
    reveal_strlit("SHARE");
    reveal_strlit("JOIN ");
    law_prefix_and_what_follows(trimmed(line@), "JOIN "@, code);
    if trimmed(line@) == "JOIN "@ + code {
        assert(trimmed(line@)[0] == 'J' && "SHARE"@[0] == 'S');
    }
}

// ---------------------------------------------------------------------------
// Laws of a host's connection
// ---------------------------------------------------------------------------

/// A host's connection together with the running sessions.
pub struct HostRun {
    pub phase: HostPhaseView,
    pub table: Map<Seq<char>, SessionView>,
}

impl HostRun {
    /// After one event.
    pub open spec fn next(self, code: Seq<char>, event: HostEventView) -> HostRun {
        HostRun {
            phase: host_next(!self.table.contains_key(code), self.phase, event),
            table: host_table(self.table, code, self.phase, event),
        }
    }
}

/// A host's connection after several events.
pub open spec fn host_run(s: HostRun, code: Seq<char>, events: Seq<HostEventView>) -> HostRun
    decreases events.len(),
{
    if events.len() == 0 {
        s
    } else {
        host_run(s, code, events.drop_last()).next(code, events.last())
    }
}

/// The output that a host's connection took in over several events: chunks, and whether
/// each was recorded.
pub open spec fn host_output(s: HostRun, code: Seq<char>, events: Seq<HostEventView>) -> Seq<
    (Seq<u8>, bool),
>
    decreases events.len(),
{
    if events.len() == 0 {
        Seq::empty()
    } else {
        let init = events.drop_last();
        match (host_run(s, code, init).phase, events.last()) {
            (HostPhaseView::Recording(chunk), HostEventView::Recorded(ok)) => host_output(
                s,
                code,
                init,
            ).push((chunk, ok)),
            _ => host_output(s, code, init),
        }
    }
}

/// The bytes that were read from a host, over several events.
pub open spec fn bytes_read(events: Seq<HostEventView>) -> Seq<u8>
    decreases events.len(),
{
    if events.len() == 0 {
        Seq::empty()
    } else {
        match events.last() {
            HostEventView::Read(chunk) => bytes_read(events.drop_last()) + chunk,
            _ => bytes_read(events.drop_last()),
        }
    }
}

/// The chunk that a host's connection has read and not yet taken in.
pub open spec fn being_recorded(phase: HostPhaseView) -> Seq<u8> {
    match phase {
        HostPhaseView::Recording(chunk) => chunk,
        _ => Seq::empty(),
    }
}

/// Whether a host with this code, whose recording is open, is told its code.
pub open spec fn is_announced(
    table: Map<Seq<char>, SessionView>,
    code: Seq<char>,
    path: PathBuf,
) -> bool {
    host_action(
        !table.contains_key(code),
        code,
        HostPhaseView::Starting,
        HostEventView::Opened(path),
    ) is Send
}

/// Every session of a relay has its own code: a host that is told a code while another's
/// session runs has a different one, both sessions run, and the other's is as it was.
pub proof fn law_running_sessions_have_different_codes(
    table: Map<Seq<char>, SessionView>,
    first: Seq<char>,
    second: Seq<char>,
    path: PathBuf,
)
    requires
        table.contains_key(first),
        is_announced(table, second, path),
    ensures
        ({
            let next = host_table(
                table,
                second,
                HostPhaseView::Starting,
                HostEventView::Opened(path),
            );
            &&& first != second
            &&& next.contains_key(first) && next.contains_key(second)
            &&& next[first] == table[first]
            &&& next[second] == started(path)
        }),
{
}

/// Two hosts that are told their codes by one relay, one after the other, are told different
/// codes, and both sessions run.
pub proof fn law_announced_codes_differ(
    table: Map<Seq<char>, SessionView>,
    first: Seq<char>,
    second: Seq<char>,
    path1: PathBuf,
    path2: PathBuf,
)
    requires
        is_announced(table, first, path1),
        is_announced(table_started(table, first, path1), second, path2),
    ensures
        first != second,
        table_started(table_started(table, first, path1), second, path2).contains_key(first),
        table_started(table_started(table, first, path1), second, path2).contains_key(second),
{
    law_running_sessions_have_different_codes(
        table_started(table, first, path1),
        first,
        second,
        path2,
    );
}

/// A host whose code is taken changes nothing, and is asked to start over with another; a host
/// whose code is free is told it.
pub proof fn law_taken_code_is_refused(
    table: Map<Seq<char>, SessionView>,
    code: Seq<char>,
    path: PathBuf,
)
    ensures
        is_announced(table, code, path) <==> !table.contains_key(code),
        table.contains_key(code) ==> {
            let start = HostRun { phase: HostPhaseView::Starting, table };
            &&& start.next(code, HostEventView::Opened(path)) == start
            &&& host_action(
                false,
                code,
                HostPhaseView::Starting,
                HostEventView::Opened(path),
            ) == HostActionView::AnotherCode
        },
{
}

/// From the opening of its recording on, whatever happens on a host's connection, its
/// session has been sent the output that was taken in, in order, until the host is
/// done; then there is no such session. No other session is touched.
pub proof fn law_session_follows_its_host(
    table: Map<Seq<char>, SessionView>,
    code: Seq<char>,
    path: PathBuf,
    events: Seq<HostEventView>,
)
    requires
        !table.contains_key(code),
    ensures
        ({
            let start = HostRun { phase: HostPhaseView::Starting, table }.next(
                code,
                HostEventView::Opened(path),
            );
            let end = host_run(start, code, events);
            let output = host_output(start, code, events);
            &&& end.phase !is Starting
            &&& end.phase !is Closed && end.table.contains_key(code) ==> end.table[code]
                == relayed_all(started(path), output)
            &&& end.phase is Closed ==> !end.table.contains_key(code)
            &&& end.phase is Announcing || end.phase is Reading || end.phase is Recording
                ==> end.table.contains_key(code)
            &&& forall|other: Seq<char>|
                #![trigger end.table.contains_key(other)]
                #![trigger end.table[other]]
                other != code ==> end.table.contains_key(other) == table.contains_key(other)
                    && (table.contains_key(other) ==> end.table[other] == table[other])
        }),
    decreases events.len(),
{
    if events.len() > 0 {
        let init = events.drop_last();
        law_session_follows_its_host(table, code, path, init);
        let start = HostRun { phase: HostPhaseView::Starting, table }.next(
            code,
            HostEventView::Opened(path),
        );
        let before = host_run(start, code, init);
        let output = host_output(start, code, init);
        if let HostPhaseView::Recording(chunk) = before.phase {
            if let HostEventView::Recorded(ok) = events.last() {
                assert(output.push((chunk, ok)).drop_last() =~= output);
            }
        }
    }
}

/// The output that a host's connection took in is what was read from the host, in order and
/// without a gap, but for the chunk that is being recorded. Of a connection that was given up
/// it is the start of what was read.
pub proof fn law_output_is_what_was_read(
    s: HostRun,
    code: Seq<char>,
    events: Seq<HostEventView>,
)
    requires
        s.phase !is Recording,
    ensures
        ({
            let end = host_run(s, code, events);
            let taken_in = bytes_of(chunks_of(host_output(s, code, events)));
            &&& end.phase !is Abandoned ==> taken_in + being_recorded(end.phase) == bytes_read(
                events,
            )
            &&& taken_in.is_prefix_of(bytes_read(events))
        }),
    decreases events.len(),
{
    let end = host_run(s, code, events);
    let output = host_output(s, code, events);
    let taken_in = bytes_of(chunks_of(output));
    if events.len() == 0 {
        assert(taken_in + being_recorded(end.phase) =~= bytes_read(events));
    } else {
        let init = events.drop_last();
        law_output_is_what_was_read(s, code, init);
        let before = host_run(s, code, init);
        let output_before = host_output(s, code, init);
        match (before.phase, events.last()) {
            (HostPhaseView::Recording(chunk), HostEventView::Recorded(ok)) => {
                assert(chunks_of(output) =~= chunks_of(output_before).push(chunk));
                assert(chunks_of(output).drop_last() =~= chunks_of(output_before));
                assert(taken_in + being_recorded(end.phase) =~= bytes_read(events));
            },
            (HostPhaseView::Reading, HostEventView::Read(chunk)) => {
                assert(taken_in + being_recorded(end.phase) =~= bytes_read(events));
            },
            _ => {
                if end.phase !is Abandoned {
                    assert(taken_in + being_recorded(end.phase) =~= bytes_read(events));
                }
            },
        }
    }
}

/// A host that was told its code and then hangs up has had its session ended and its
/// recording deleted; one whose connection breaks leaves the session behind.
pub proof fn law_host_end_and_break(
    table: Map<Seq<char>, SessionView>,
    free: bool,
    code: Seq<char>,
)
    ensures
        host_action(free, code, HostPhaseView::Reading, HostEventView::Read(Seq::empty()))
            == HostActionView::Finish,
        host_table(table, code, HostPhaseView::Reading, HostEventView::Read(Seq::empty()))
            == table.remove(code),
        host_action(free, code, HostPhaseView::Reading, HostEventView::ReadFailed)
            == HostActionView::Fail,
        host_table(table, code, HostPhaseView::Reading, HostEventView::ReadFailed) == table,
        host_table(table, code, HostPhaseView::Announcing, HostEventView::Sent(false)) == table,
        host_table(table, code, HostPhaseView::Starting, HostEventView::OpenFailed) == table,
{
}

/// A step of a host's connection is what the laws speak of: the phase and the sessions that
/// follow, and what is to be done.
pub proof fn law_host_link_steps_as_modelled(event: HostEvent, r: HostAction)
    ensures
        forall|s: &mut HostLink, sessions: &mut Sessions| #[trigger]
            call_ensures(HostLink::step, (s, sessions, event), r) ==> {
                let before = HostRun { phase: (*s).phase(), table: (*sessions)@ };
                let code = (*s).code();
                &&& (*final(s)).code() == code
                &&& before.next(code, event@) == (HostRun {
                    phase: (*final(s)).phase(),
                    table: (*final(sessions))@,
                })
                &&& r@ == host_action(
                    !before.table.contains_key(code),
                    code,
                    before.phase,
                    event@,
                )
            },
        forall|code: String, s: HostLink| #[trigger]
            call_ensures(HostLink::new, (code,), s) ==> s.code() == code@ && s.phase()
                == HostPhaseView::Starting,
{
}

/// What happens on the connection of a host whose recording opens and who takes its code, while
/// it puts out chunks; of each, whether it could be recorded.
pub open spec fn served(path: PathBuf, output: Seq<(Seq<u8>, bool)>) -> Seq<HostEventView>
    decreases output.len(),
{
    if output.len() == 0 {
        seq![HostEventView::Opened(path), HostEventView::Sent(true)]
    } else {
        served(path, output.drop_last()) + seq![
            HostEventView::Read(output.last().0),
            HostEventView::Recorded(output.last().1),
        ]
    }
}

/// A host with a free code is served for as long as it puts out anything: its session has been
/// sent all of its output, recorded or not, counts what was recorded, and stands beside the
/// sessions that were there. When the host hangs up, those alone are left.
pub proof fn law_host_is_served_to_its_end(
    table: Map<Seq<char>, SessionView>,
    code: Seq<char>,
    path: PathBuf,
    output: Seq<(Seq<u8>, bool)>,
)
    requires
        !table.contains_key(code),
        forall|i: int| 0 <= i < output.len() ==> (#[trigger] output[i]).0.len() > 0,
    ensures
        ({
            let start = HostRun { phase: HostPhaseView::Starting, table };
            let now = host_run(start, code, served(path, output));
            let hung_up = HostEventView::Read(Seq::empty());
            &&& now.phase == HostPhaseView::Reading
            &&& now.table.dom() == table.dom().insert(code)
            &&& forall|other: Seq<char>|
                other != code && table.contains_key(other) ==> #[trigger] now.table[other]
                    == table[other]
            &&& now.table[code].sent == chunks_of(output)
            &&& now.table[code].bytes_recorded == recorded_bytes(output).len()
            &&& now.table[code].record_path == path
            &&& now.table[code].capacity == 1024
            &&& host_action(false, code, now.phase, hung_up) == HostActionView::Finish
            &&& now.next(code, hung_up).table == table
            &&& now.next(code, hung_up).phase == HostPhaseView::Closed
        }),
{
    let start = HostRun { phase: HostPhaseView::Starting, table };
    lemma_served(table, code, path, output);
    let now = host_run(start, code, served(path, output));
    lemma_relayed_all(started(path), output);
    assert(now.table.dom() =~= table.dom().insert(code));
    assert(started(path).sent + chunks_of(output) =~= chunks_of(output));
    assert(now.table.remove(code) =~= table);
}

proof fn lemma_served(
    table: Map<Seq<char>, SessionView>,
    code: Seq<char>,
    path: PathBuf,
    output: Seq<(Seq<u8>, bool)>,
)
    requires
        !table.contains_key(code),
        forall|i: int| 0 <= i < output.len() ==> (#[trigger] output[i]).0.len() > 0,
    ensures
        ({
            let start = HostRun { phase: HostPhaseView::Starting, table };
            host_run(start, code, served(path, output)) == (HostRun {
                phase: HostPhaseView::Reading,
                table: table.insert(code, relayed_all(started(path), output)),
            })
        }),
    decreases output.len(),
{
    let start = HostRun { phase: HostPhaseView::Starting, table };
    let events = served(path, output);
    if output.len() == 0 {
        let one = seq![HostEventView::Opened(path)];
        assert(events.drop_last() =~= one);
        assert(one.drop_last() =~= Seq::<HostEventView>::empty());
        reveal_with_fuel(host_run, 3);
    } else {
        let init = output.drop_last();
        let (chunk, ok) = output.last();
        assert forall|i: int| 0 <= i < init.len() implies (#[trigger] init[i]).0.len() > 0 by {
            assert(output[i].0.len() > 0);
        }
        lemma_served(table, code, path, init);
        assert(output[output.len() - 1].0.len() > 0);
        let one = served(path, init).push(HostEventView::Read(chunk));
        let two = one.push(HostEventView::Recorded(ok));
        assert(events =~= two);
        assert(two.drop_last() =~= one);
        assert(one.drop_last() =~= served(path, init));
        let before = relayed_all(started(path), init);
        assert(host_run(start, code, one).phase == HostPhaseView::Recording(chunk));
        assert(table.insert(code, before).insert(code, relayed_all(started(path), output))
            =~= table.insert(code, relayed_all(started(path), output)));
    }
}

/// What is to be done on a host's connection, step by step: its code is sent once its recording
/// is open, then its output is read, and every chunk is recorded as it is before the next is
/// read, whether or not recording the last one succeeded.
pub proof fn law_host_is_served_step_by_step(
    code: Seq<char>,
    path: PathBuf,
    chunk: Seq<u8>,
    free: bool,
    recorded: bool,
)
    requires
        chunk.len() > 0,
    ensures
        host_action(true, code, HostPhaseView::Starting, HostEventView::Opened(path))
            == HostActionView::Send("CODE "@ + code + "\n"@),
        host_action(free, code, HostPhaseView::Announcing, HostEventView::Sent(true))
            == HostActionView::Read,
        host_action(free, code, HostPhaseView::Reading, HostEventView::Read(chunk))
            == HostActionView::Record(chunk),
        host_action(
            free,
            code,
            HostPhaseView::Recording(chunk),
            HostEventView::Recorded(recorded),
        ) == HostActionView::Read,
{
}

/// A host's connection breaks where its recording cannot be opened, its code cannot be sent or
/// reading fails; one that is over does nothing any more, and no session changes by it.
pub proof fn law_host_that_breaks_stays_broken(
    table: Map<Seq<char>, SessionView>,
    free: bool,
    code: Seq<char>,
    event: HostEventView,
)
    ensures
        host_action(free, code, HostPhaseView::Starting, HostEventView::OpenFailed)
            == HostActionView::Fail,
        host_action(free, code, HostPhaseView::Announcing, HostEventView::Sent(false))
            == HostActionView::Fail,
        host_action(free, code, HostPhaseView::Reading, HostEventView::ReadFailed)
            == HostActionView::Fail,
        host_action(free, code, HostPhaseView::Closed, event) == HostActionView::Fail,
        host_action(free, code, HostPhaseView::Abandoned, event) == HostActionView::Fail,
        host_next(free, HostPhaseView::Closed, event) == HostPhaseView::Abandoned,
        host_next(free, HostPhaseView::Abandoned, event) == HostPhaseView::Abandoned,
        host_table(table, code, HostPhaseView::Closed, event) == table,
        host_table(table, code, HostPhaseView::Abandoned, event) == table,
{
}

/// Only what answers the last step takes a host's connection on; anything else breaks it, and
/// leaves the sessions as they are.
pub proof fn law_host_goes_on_by_what_was_asked_for(
    table: Map<Seq<char>, SessionView>,
    free: bool,
    code: Seq<char>,
    phase: HostPhaseView,
    event: HostEventView,
)
    ensures
        host_action(free, code, phase, event) !is Fail <==> match phase {
            HostPhaseView::Starting => event is Opened,
            HostPhaseView::Announcing => event == HostEventView::Sent(true),
            HostPhaseView::Reading => event is Read,
            HostPhaseView::Recording(_) => event is Recorded,
            _ => false,
        },
        host_action(free, code, phase, event) is Fail ==> host_next(free, phase, event)
            == HostPhaseView::Abandoned,
        host_action(free, code, phase, event) is Fail ==> host_table(table, code, phase, event)
            == table,
{
}

/// Whether a chunk can be recorded depends on nothing but that its bytes can still be counted.
pub proof fn law_chunk_can_be_recorded_while_it_can_be_counted(
    link: &HostLink,
    sessions: &Sessions,
    r: bool,
)
    requires
        call_ensures(HostLink::can_record, (link, sessions), r),
    ensures
        !sessions@.contains_key(link.code()) ==> r,
        link.phase() !is Recording ==> r,
        link.phase() matches HostPhaseView::Recording(chunk) ==> sessions@.contains_key(link.code())
            ==> r == (sessions@[link.code()].bytes_recorded + chunk.len()
            <= 0xffff_ffff_ffff_ffff),
{
}

/// A code is given to a host if no running session has it: it is the one that the digest gives,
/// and it is refused only where it is taken.
pub proof fn law_free_code_is_assigned(
    sessions: &Sessions,
    ts: u128,
    pid: u32,
    extra: [u8; 8],
    code: String,
    r: Option<String>,
)
    requires
        call_ensures(assign_code, (sessions, ts, pid, extra), r),
        call_ensures(generate_code, (ts, pid, extra), code),
    ensures
        r is Some <==> !sessions@.contains_key(code@),
        r matches Some(given) ==> given@ == code@,
{
}

// ---------------------------------------------------------------------------
// Laws of several hosts
// ---------------------------------------------------------------------------

/// Whether a host in this phase has been given its code and is not done.
pub open spec fn has_session(phase: HostPhaseView) -> bool {
    phase is Announcing || phase is Reading || phase is Recording
}

/// The connections of all hosts, each with its code, together with the running sessions.
pub struct HostsRun {
    pub hosts: Seq<(Seq<char>, HostPhaseView)>,
    pub table: Map<Seq<char>, SessionView>,
}

/// One step of a relay with several hosts.
pub enum HostsStep {
    /// A host connects and is assigned a code.
    Connected(Seq<char>),
    /// Something happens on the connection of one host.
    Happened(int, HostEventView),
}

impl HostsRun {
    /// A relay that no host has connected to.
    pub open spec fn idle() -> HostsRun {
        HostsRun { hosts: Seq::empty(), table: Map::empty() }
    }

    /// After one step.
    pub open spec fn next(self, step: HostsStep) -> HostsRun {
        match step {
            HostsStep::Connected(code) => HostsRun {
                hosts: self.hosts.push((code, HostPhaseView::Starting)),
                table: self.table,
            },
            HostsStep::Happened(i, event) => if 0 <= i < self.hosts.len() {
                let (code, phase) = self.hosts[i];
                let after = HostRun { phase, table: self.table }.next(code, event);
                HostsRun { hosts: self.hosts.update(i, (code, after.phase)), table: after.table }
            } else {
                self
            },
        }
    }

    /// Whether each host that has been given its code has a session under that code, and no two
    /// of them share one.
    pub open spec fn is_sound(self) -> bool {
        &&& forall|i: int|
            0 <= i < self.hosts.len() && has_session((#[trigger] self.hosts[i]).1)
                ==> self.table.contains_key(self.hosts[i].0)
        &&& forall|i: int, j: int|
            0 <= i < j < self.hosts.len() && has_session((#[trigger] self.hosts[i]).1)
                && has_session((#[trigger] self.hosts[j]).1) ==> self.hosts[i].0
                != self.hosts[j].0
    }
}

/// A relay after several steps.
pub open spec fn hosts_run(s: HostsRun, steps: Seq<HostsStep>) -> HostsRun
    decreases steps.len(),
{
    if steps.len() == 0 {
        s
    } else {
        hosts_run(s, steps.drop_last()).next(steps.last())
    }
}

/// Whether a step is on the connection of host `i`.
pub open spec fn is_step_of(step: HostsStep, i: int) -> bool {
    step matches HostsStep::Happened(j, _) && i == j
}

/// At all times, whatever happens on the connections to a relay, each host that has been told
/// its code has a session of its own.
pub proof fn law_hosts_never_share_a_session(steps: Seq<HostsStep>)
    ensures
        hosts_run(HostsRun::idle(), steps).is_sound(),
    decreases steps.len(),
{
    if steps.len() > 0 {
        law_hosts_never_share_a_session(steps.drop_last());
        lemma_step_is_sound(hosts_run(HostsRun::idle(), steps.drop_last()), steps.last());
    }
}

/// Whatever other hosts do, a running session keeps its code and its output, and its host's
/// connection stands where it stood.
pub proof fn law_other_hosts_keep_a_session(s: HostsRun, steps: Seq<HostsStep>, host: int)
    requires
        s.is_sound(),
        0 <= host < s.hosts.len(),
        has_session(s.hosts[host].1),
        forall|k: int| 0 <= k < steps.len() ==> !is_step_of(#[trigger] steps[k], host),
    ensures
        ({
            let code = s.hosts[host].0;
            let end = hosts_run(s, steps);
            &&& end.is_sound()
            &&& end.hosts.len() >= s.hosts.len()
            &&& end.hosts[host] == s.hosts[host]
            &&& end.table.contains_key(code)
            &&& end.table[code] == s.table[code]
        }),
    decreases steps.len(),
{
    if steps.len() > 0 {
        let init = steps.drop_last();
        assert forall|k: int| 0 <= k < init.len() implies !is_step_of(#[trigger] init[k], host) by {
            assert(init[k] == steps[k]);
        }
        law_other_hosts_keep_a_session(s, init, host);
        let before = hosts_run(s, init);
        lemma_step_is_sound(before, steps.last());
        assert(!is_step_of(steps[steps.len() - 1], host));
    }
}

/// Only the host that has been given a session's code changes that session. One whose host is
/// gone stays as it was left, and its code is not given again.
pub proof fn law_only_its_host_changes_a_session(
    s: HostsRun,
    steps: Seq<HostsStep>,
    code: Seq<char>,
)
    requires
        s.table.contains_key(code),
        forall|k: int, i: int|
            0 <= k < steps.len() && 0 <= i < s.hosts.len() && #[trigger] is_step_of(steps[k], i)
                && has_session(s.hosts[i].1) ==> s.hosts[i].0 != code,
    ensures
        ({
            let end = hosts_run(s, steps);
            &&& end.table.contains_key(code)
            &&& end.table[code] == s.table[code]
            &&& forall|i: int|
                0 <= i < end.hosts.len() && has_session((#[trigger] end.hosts[i]).1)
                    && end.hosts[i].0 == code ==> i < s.hosts.len() && s.hosts[i].0 == code
                    && has_session(s.hosts[i].1)
        }),
    decreases steps.len(),
{
    if steps.len() > 0 {
        let init = steps.drop_last();
        let last = steps[steps.len() - 1];
        assert forall|k: int, i: int|
            0 <= k < init.len() && 0 <= i < s.hosts.len() && #[trigger] is_step_of(init[k], i)
                && has_session(s.hosts[i].1) implies s.hosts[i].0 != code by {
            assert(is_step_of(steps[k], i));
        }
        law_only_its_host_changes_a_session(s, init, code);
        if let HostsStep::Happened(i, _) = last {
            assert(is_step_of(last, i));
        }
    }
}

proof fn lemma_step_is_sound(s: HostsRun, step: HostsStep)
    requires
        s.is_sound(),
    ensures
        s.next(step).is_sound(),
{
}

// ---------------------------------------------------------------------------
// Laws of a guest's connection
// ---------------------------------------------------------------------------

/// A guest's connection after several events.
pub open spec fn link_after(total: nat, events: Seq<LinkEventView>) -> LinkView
    decreases events.len(),
{
    if events.len() == 0 {
        guest_start(total)
    } else {
        link_after(total, events.drop_last()).next(events.last())
    }
}

/// What a guest was to be sent after its greeting, over several events.
pub open spec fn link_output(total: nat, events: Seq<LinkEventView>) -> Seq<u8>
    decreases events.len(),
{
    if events.len() == 0 {
        Seq::empty()
    } else {
        let init = events.drop_last();
        match link_after(total, init).action(events.last()) {
            LinkActionView::Send(bytes) => link_output(total, init) + bytes,
            _ => link_output(total, init),
        }
    }
}

/// The chunks of the live stream that a guest's connection took in.
pub open spec fn link_live(total: nat, events: Seq<LinkEventView>) -> Seq<Seq<u8>>
    decreases events.len(),
{
    if events.len() == 0 {
        Seq::empty()
    } else {
        let init = events.drop_last();
        match (link_after(total, init).phase, events.last()) {
            (GuestPhase::Live, LinkEventView::Chunk(bytes)) => link_live(total, init).push(bytes),
            _ => link_live(total, init),
        }
    }
}

/// Whether what was read of the recording is what stands in `file`, each part where the
/// one before it ended.
pub open spec fn reads_follow(total: nat, events: Seq<LinkEventView>, file: Seq<u8>) -> bool
    decreases events.len(),
{
    events.len() > 0 ==> {
        let init = events.drop_last();
        let before = link_after(total, init);
        let at = total - before.remaining;
        &&& reads_follow(total, init, file)
        &&& (before.phase == GuestPhase::Replaying ==> (events.last() matches
            LinkEventView::RecordingRead(bytes) ==> {
            &&& at + bytes.len() <= file.len()
            &&& bytes == file.subrange(at, at + bytes.len())
        }))
    }
}

/// Whatever happens on a guest's connection, it is sent the start of the recording, as far as
/// that was replayed and never further than it was to be, and after that the live stream;
/// nothing comes twice or out of order.
pub proof fn law_guest_is_sent_replay_then_live(
    total: nat,
    events: Seq<LinkEventView>,
    file: Seq<u8>,
)
    requires
        total <= file.len(),
        reads_follow(total, events, file),
    ensures
        link_after(total, events).remaining <= total,
        link_output(total, events) == file.take(total - link_after(total, events).remaining)
            + bytes_of(link_live(total, events)),
    decreases events.len(),
{
    lemma_replay_comes_first(total, events);
    let end = link_after(total, events);
    if events.len() == 0 {
        assert(link_output(total, events) =~= file.take(0) + bytes_of(link_live(total, events)));
    } else {
        let init = events.drop_last();
        let before = link_after(total, init);
        law_guest_is_sent_replay_then_live(total, init, file);
        lemma_replay_comes_first(total, init);
        let at = total - before.remaining;
        match (before.phase, events.last()) {
            (GuestPhase::Replaying, LinkEventView::RecordingRead(bytes)) => {
                if 0 < bytes.len() <= replay_request(before.remaining) {
                    assert(link_live(total, events).len() == 0);
                    assert(file.take(at) + bytes =~= file.take(at + bytes.len()));
                    assert(link_output(total, events) =~= file.take(total - end.remaining)
                        + bytes_of(link_live(total, events)));
                }
            },
            (GuestPhase::Live, LinkEventView::Chunk(bytes)) => {
                let live = link_live(total, init);
                assert(live.push(bytes).drop_last() =~= live);
                assert(link_output(total, events) =~= file.take(at) + bytes_of(live.push(bytes)));
            },
            _ => {},
        }
    }
}

proof fn lemma_replay_comes_first(total: nat, events: Seq<LinkEventView>)
    ensures
        ({
            let phase = link_after(total, events).phase;
            phase == GuestPhase::Greeting || phase == GuestPhase::Opening || phase
                == GuestPhase::Replaying || phase == GuestPhase::SendingReplay ==> link_live(
                total,
                events,
            ).len() == 0
        }),
    decreases events.len(),
{
    if events.len() > 0 {
        lemma_replay_comes_first(total, events.drop_last());
    }
}

/// Output flows from the host through the relay to the guest: a guest that joins after
/// `before`, and whose connection has replayed what it was to and taken in what was sent
/// since, is sent the whole of the host's output, from the first byte on.
pub proof fn law_output_flows_from_host_to_guest(
    record_path: PathBuf,
    before: Seq<(Seq<u8>, bool)>,
    after: Seq<(Seq<u8>, bool)>,
    recording: Seq<u8>,
    events: Seq<LinkEventView>,
)
    requires
        forall|i: int| 0 <= i < before.len() ==> (#[trigger] before[i]).1,
        bytes_of(chunks_of(before)).is_prefix_of(recording),
        ({
            let at_join = relayed_all(started(record_path), before);
            let now = relayed_all(at_join, after);
            &&& reads_follow(at_join.bytes_recorded, events, recording)
            &&& link_after(at_join.bytes_recorded, events).remaining == 0
            &&& link_live(at_join.bytes_recorded, events) == now.sent.skip(
                at_join.sent.len() as int,
            )
        }),
    ensures
        link_output(relayed_all(started(record_path), before).bytes_recorded, events) == bytes_of(
            chunks_of(before + after),
        ),
{
    let at_join = relayed_all(started(record_path), before);
    law_guest_sees_everything(record_path, before, after, recording);
    lemma_relayed_all(started(record_path), before);
    lemma_all_recorded(before);
    law_guest_is_sent_replay_then_live(at_join.bytes_recorded, events, recording);
}

/// What a host sends comes to its guests: a guest that joins after `before`, and whose
/// connection has replayed what it was to and taken in what was sent since, is sent every byte
/// that was read from the host, from the first on, but for the chunk that is being recorded.
pub proof fn law_guest_is_sent_what_the_host_sent(
    table: Map<Seq<char>, SessionView>,
    code: Seq<char>,
    path: PathBuf,
    before: Seq<HostEventView>,
    after: Seq<HostEventView>,
    recording: Seq<u8>,
    events: Seq<LinkEventView>,
)
    requires
        !table.contains_key(code),
        ({
            let start = HostRun { phase: HostPhaseView::Starting, table }.next(
                code,
                HostEventView::Opened(path),
            );
            let output = host_output(start, code, before);
            let at_join = host_run(start, code, before).table[code];
            let end = host_run(start, code, before + after);
            &&& has_session(end.phase)
            &&& forall|i: int| 0 <= i < output.len() ==> (#[trigger] output[i]).1
            &&& bytes_of(chunks_of(output)).is_prefix_of(recording)
            &&& reads_follow(at_join.bytes_recorded, events, recording)
            &&& link_after(at_join.bytes_recorded, events).remaining == 0
            &&& link_live(at_join.bytes_recorded, events) == end.table[code].sent.skip(
                at_join.sent.len() as int,
            )
        }),
    ensures
        ({
            let start = HostRun { phase: HostPhaseView::Starting, table }.next(
                code,
                HostEventView::Opened(path),
            );
            let at_join = host_run(start, code, before).table[code];
            let end = host_run(start, code, before + after);
            link_output(at_join.bytes_recorded, events) + being_recorded(end.phase) == bytes_read(
                before + after,
            )
        }),
{
    let start = HostRun { phase: HostPhaseView::Starting, table }.next(
        code,
        HostEventView::Opened(path),
    );
    let middle = host_run(start, code, before);
    let end = host_run(start, code, before + after);
    let first = host_output(start, code, before);
    let rest = host_output(middle, code, after);
    lemma_host_run_in_two(start, code, before, after);
    lemma_done_stays_done(middle, code, after);
    law_session_follows_its_host(table, code, path, before);
    law_session_follows_its_host(table, code, path, before + after);
    law_output_is_what_was_read(start, code, before + after);
    let at_join = relayed_all(started(path), first);
    lemma_relayed_all(started(path), first);
    lemma_relayed_all(at_join, rest);
    lemma_relayed_all(started(path), first + rest);
    assert(chunks_of(first + rest) =~= chunks_of(first) + chunks_of(rest));
    assert(end.table[code].sent =~= relayed_all(at_join, rest).sent);
    law_output_flows_from_host_to_guest(path, first, rest, recording, events);
}

/// A host's connection over events in two parts.
proof fn lemma_host_run_in_two(
    s: HostRun,
    code: Seq<char>,
    a: Seq<HostEventView>,
    b: Seq<HostEventView>,
)
    ensures
        host_run(s, code, a + b) == host_run(host_run(s, code, a), code, b),
        host_output(s, code, a + b) == host_output(s, code, a) + host_output(
            host_run(s, code, a),
            code,
            b,
        ),
    decreases b.len(),
{
    let middle = host_run(s, code, a);
    if b.len() == 0 {
        assert(a + b =~= a);
        assert(host_output(s, code, a) + host_output(middle, code, b) =~= host_output(s, code, a));
    } else {
        lemma_host_run_in_two(s, code, a, b.drop_last());
        assert((a + b).drop_last() =~= a + b.drop_last());
        assert(host_output(s, code, a + b) =~= host_output(s, code, a) + host_output(
            middle,
            code,
            b,
        ));
    }
}

/// A host's connection that is done does not have a session again.
proof fn lemma_done_stays_done(s: HostRun, code: Seq<char>, events: Seq<HostEventView>)
    ensures
        s.phase is Closed || s.phase is Abandoned ==> !has_session(
            host_run(s, code, events).phase,
        ),
        s.phase is Closed || s.phase is Abandoned ==> host_run(s, code, events).phase !is Starting,
    decreases events.len(),
{
    if events.len() > 0 {
        lemma_done_stays_done(s, code, events.drop_last());
    }
}

/// A step of a guest's connection is what the laws speak of: the state that follows, and what is
/// to be done.
pub proof fn law_guest_link_steps_as_modelled(event: LinkEvent, r: LinkAction)
    ensures
        forall|s: &mut GuestLink| #[trigger]
            call_ensures(GuestLink::step, (s, event), r) ==> (*final(s))@ == (*s)@.next(event@)
                && r@ == (*s)@.action(event@),
        forall|replay_until: u64, s: GuestLink| #[trigger]
            call_ensures(GuestLink::new, (replay_until,), s) ==> s@.remaining == replay_until
                && s@.phase == GuestPhase::Greeting,
{
}

/// Whether the recording is there for a guest as far as it is asked for: it opens, and each read
/// brings something.
pub open spec fn recording_is_there(events: Seq<LinkEventView>) -> bool {
    forall|i: int|
        0 <= i < events.len() ==> match #[trigger] events[i] {
            LinkEventView::Opened(ok) => ok,
            LinkEventView::RecordingRead(bytes) => bytes.len() > 0,
            _ => true,
        }
}

/// However much is recorded when a guest joins, it comes to the live stream only once all of it
/// has been replayed.
pub proof fn law_live_stream_comes_after_the_whole_replay(
    total: nat,
    events: Seq<LinkEventView>,
    event: LinkEventView,
)
    requires
        recording_is_there(events.push(event)),
    ensures
        ({
            let end = link_after(total, events.push(event));
            &&& end.phase == GuestPhase::Live || end.phase == GuestPhase::SendingLive
                ==> end.remaining == 0
            &&& link_after(total, events).action(event) == LinkActionView::Receive ==> end.remaining
                == 0
        }),
{
    lemma_live_after_replay(total, events.push(event));
    assert(events.push(event).drop_last() =~= events);
}

proof fn lemma_live_after_replay(total: nat, events: Seq<LinkEventView>)
    requires
        recording_is_there(events),
    ensures
        link_after(total, events).phase == GuestPhase::Live || link_after(total, events).phase
            == GuestPhase::SendingLive ==> link_after(total, events).remaining == 0,
        link_after(total, events).phase == GuestPhase::Opening || link_after(total, events).phase
            == GuestPhase::Replaying ==> link_after(total, events).remaining > 0,
    decreases events.len(),
{
    if events.len() > 0 {
        let init = events.drop_last();
        assert(recording_is_there(init)) by {
            assert forall|i: int| 0 <= i < init.len() implies match #[trigger] init[i] {
                LinkEventView::Opened(ok) => ok,
                LinkEventView::RecordingRead(bytes) => bytes.len() > 0,
                _ => true,
            } by {
                assert(init[i] == events[i]);
            }
        }
        lemma_live_after_replay(total, init);
        assert(events[events.len() - 1] == events.last());
    }
}

/// What happens on a guest's connection while its sends succeed: the recording is read in
/// `parts` and then `stream` comes, where some chunks may be lost.
pub open spec fn watched(
    total: nat,
    parts: Seq<Seq<u8>>,
    stream: Seq<Option<Seq<u8>>>,
) -> Seq<LinkEventView>
    decreases parts.len() + stream.len(),
{
    if stream.len() > 0 {
        match stream.last() {
            Some(chunk) => watched(total, parts, stream.drop_last()) + seq![
                LinkEventView::Chunk(chunk),
                LinkEventView::Sent(true),
            ],
            None => watched(total, parts, stream.drop_last()) + seq![LinkEventView::Lagged],
        }
    } else if parts.len() > 0 {
        watched(total, parts.drop_last(), stream) + seq![
            LinkEventView::RecordingRead(parts.last()),
            LinkEventView::Sent(true),
        ]
    } else if total > 0 {
        seq![LinkEventView::Sent(true), LinkEventView::Opened(true)]
    } else {
        seq![LinkEventView::Sent(true)]
    }
}

/// The bytes of the live stream that came.
pub open spec fn bytes_streamed(stream: Seq<Option<Seq<u8>>>) -> Seq<u8>
    decreases stream.len(),
{
    if stream.len() == 0 {
        Seq::empty()
    } else {
        match stream.last() {
            Some(chunk) => bytes_streamed(stream.drop_last()) + chunk,
            None => bytes_streamed(stream.drop_last()),
        }
    }
}

/// A guest is sent the recording up to where it joined, in whatever parts that is read, and then
/// the whole of the live stream as far as it comes; it then waits for more. Nothing is missing
/// between the two, and nothing comes twice.
pub proof fn law_guest_is_sent_all_that_is_there(
    total: nat,
    parts: Seq<Seq<u8>>,
    stream: Seq<Option<Seq<u8>>>,
)
    requires
        bytes_of(parts).len() == total,
        forall|i: int| 0 <= i < parts.len() ==> 0 < (#[trigger] parts[i]).len() <= 65_536,
    ensures
        link_after(total, watched(total, parts, stream)).phase == GuestPhase::Live,
        link_after(total, watched(total, parts, stream)).remaining == 0,
        link_output(total, watched(total, parts, stream)) == bytes_of(parts) + bytes_streamed(
            stream,
        ),
    decreases stream.len(),
{
    let events = watched(total, parts, stream);
    if stream.len() == 0 {
        lemma_replayed(total, parts);
        assert(watched(total, parts, stream) == watched(total, parts, Seq::empty())) by {
            assert(stream =~= Seq::<Option<Seq<u8>>>::empty());
        }
        assert(bytes_of(parts) + bytes_streamed(stream) =~= bytes_of(parts));
    } else {
        let init = watched(total, parts, stream.drop_last());
        law_guest_is_sent_all_that_is_there(total, parts, stream.drop_last());
        match stream.last() {
            Some(chunk) => {
                let one = init.push(LinkEventView::Chunk(chunk));
                let two = one.push(LinkEventView::Sent(true));
                assert(events =~= two);
                assert(two.drop_last() =~= one);
                assert(one.drop_last() =~= init);
                assert(link_after(total, one).phase == GuestPhase::SendingLive);
                assert(link_output(total, one) == link_output(total, init) + chunk);
                assert(link_output(total, two) == link_output(total, one));
                assert(link_output(total, events) =~= bytes_of(parts) + bytes_streamed(stream));
            },
            None => {
                let one = init.push(LinkEventView::Lagged);
                assert(events =~= one);
                assert(one.drop_last() =~= init);
            },
        }
    }
}

proof fn lemma_replayed(total: nat, parts: Seq<Seq<u8>>)
    requires
        bytes_of(parts).len() <= total,
        forall|i: int| 0 <= i < parts.len() ==> 0 < (#[trigger] parts[i]).len() <= 65_536,
    ensures
        ({
            let events = watched(total, parts, Seq::empty());
            let end = link_after(total, events);
            &&& end.remaining == total - bytes_of(parts).len()
            &&& end.phase == if end.remaining > 0 {
                GuestPhase::Replaying
            } else {
                GuestPhase::Live
            }
            &&& link_output(total, events) == bytes_of(parts)
        }),
    decreases parts.len(),
{
    let none = Seq::<Option<Seq<u8>>>::empty();
    let events = watched(total, parts, none);
    if parts.len() == 0 {
        let one = seq![LinkEventView::Sent(true)];
        assert(one.drop_last() =~= Seq::<LinkEventView>::empty());
        reveal_with_fuel(link_after, 3);
        reveal_with_fuel(link_output, 3);
        if total > 0 {
            assert(events.drop_last() =~= one);
        }
        assert(link_output(total, events) =~= bytes_of(parts));
    } else {
        let init = parts.drop_last();
        let part = parts.last();
        assert forall|i: int| 0 <= i < init.len() implies 0 < (#[trigger] init[i]).len()
            <= 65_536 by {
            assert(0 < parts[i].len() <= 65_536);
        }
        assert(0 < parts[parts.len() - 1].len() <= 65_536);
        lemma_replayed(total, init);
        let before = watched(total, init, none);
        let one = before.push(LinkEventView::RecordingRead(part));
        let two = one.push(LinkEventView::Sent(true));
        assert(events =~= two);
        assert(two.drop_last() =~= one);
        assert(one.drop_last() =~= before);
        assert(link_after(total, one).phase == GuestPhase::SendingReplay);
        assert(link_output(total, one) == link_output(total, before) + part);
        assert(link_output(total, two) == link_output(total, one));
    }
}

/// What is to be done on a guest's connection, step by step. As long as anything is to be
/// replayed the recording is opened, then read, never further than to where the live stream
/// starts and at most 65536 bytes at a time, and each part is sent as it was read. After that,
/// each chunk of the stream is sent as it comes.
pub proof fn law_guest_is_served_step_by_step(s: LinkView, bytes: Seq<u8>)
    requires
        bytes.len() > 0,
    ensures
        ({
            let asked = if s.remaining < 65_536 {
                s.remaining
            } else {
                65_536
            };
            &&& s.to(GuestPhase::Greeting).action(LinkEventView::Sent(true)) == if s.remaining > 0 {
                LinkActionView::OpenRecording
            } else {
                LinkActionView::Receive
            }
            &&& s.to(GuestPhase::Opening).action(LinkEventView::Opened(true))
                == LinkActionView::ReadRecording(asked)
            &&& bytes.len() <= asked ==> s.to(GuestPhase::Replaying).action(
                LinkEventView::RecordingRead(bytes),
            ) == LinkActionView::Send(bytes)
            &&& bytes.len() <= asked ==> s.to(GuestPhase::Replaying).next(
                LinkEventView::RecordingRead(bytes),
            ).remaining == s.remaining - bytes.len()
            &&& s.to(GuestPhase::SendingReplay).action(LinkEventView::Sent(true)) == if s.remaining
                > 0 {
                LinkActionView::ReadRecording(asked)
            } else {
                LinkActionView::Receive
            }
            &&& s.to(GuestPhase::Live).action(LinkEventView::Chunk(bytes)) == LinkActionView::Send(
                bytes,
            )
            &&& s.to(GuestPhase::SendingLive).action(LinkEventView::Sent(true))
                == LinkActionView::Receive
            &&& s.to(GuestPhase::Live).action(LinkEventView::Lagged) == LinkActionView::Receive
        }),
{
}

/// A recording that cannot be opened, or ends too early, is passed over: the guest goes on with
/// the live stream.
pub proof fn law_missing_recording_is_passed_over(s: LinkView)
    ensures
        s.to(GuestPhase::Opening).action(LinkEventView::Opened(false)) == LinkActionView::Receive,
        s.to(GuestPhase::Replaying).action(LinkEventView::RecordingRead(Seq::empty()))
            == LinkActionView::Receive,
        s.to(GuestPhase::Opening).next(LinkEventView::Opened(false)).phase == GuestPhase::Live,
        s.to(GuestPhase::Replaying).next(LinkEventView::RecordingRead(Seq::empty())).phase
            == GuestPhase::Live,
{
}

/// A guest's connection breaks where sending fails before the live stream, or reading the
/// recording does; it ends with the session, or with the guest once that follows the stream; and
/// one that is over does nothing any more.
pub proof fn law_guest_leaves_or_is_dropped(s: LinkView, event: LinkEventView)
    ensures
        s.to(GuestPhase::Greeting).action(LinkEventView::Sent(false)) == LinkActionView::Fail,
        s.to(GuestPhase::Replaying).action(LinkEventView::RecordingReadFailed)
            == LinkActionView::Fail,
        s.to(GuestPhase::SendingReplay).action(LinkEventView::Sent(false)) == LinkActionView::Fail,
        s.to(GuestPhase::Live).action(LinkEventView::Closed) == LinkActionView::End,
        s.to(GuestPhase::SendingLive).action(LinkEventView::Sent(false)) == LinkActionView::End,
        s.action(event) == LinkActionView::End ==> s.phase == GuestPhase::Live && event
            == LinkEventView::Closed || s.phase == GuestPhase::SendingLive && event
            == LinkEventView::Sent(false),
        s.to(GuestPhase::Ended).action(event) == LinkActionView::Fail,
        s.to(GuestPhase::Failed).action(event) == LinkActionView::Fail,
        s.to(GuestPhase::Ended).next(event).phase == GuestPhase::Failed,
        s.to(GuestPhase::Failed).next(event).phase == GuestPhase::Failed,
{
}

/// What a host sends comes to a guest that joins late and has come to the live stream: while
/// the recording is there, it is sent every byte that was read from the host, from the first on,
/// but for the chunk that is being recorded.
pub proof fn law_late_guest_is_sent_everything(
    table: Map<Seq<char>, SessionView>,
    code: Seq<char>,
    path: PathBuf,
    before: Seq<HostEventView>,
    after: Seq<HostEventView>,
    recording: Seq<u8>,
    events: Seq<LinkEventView>,
)
    requires
        !table.contains_key(code),
        recording_is_there(events),
        ({
            let start = HostRun { phase: HostPhaseView::Starting, table }.next(
                code,
                HostEventView::Opened(path),
            );
            let output = host_output(start, code, before);
            let at_join = host_run(start, code, before).table[code];
            let end = host_run(start, code, before + after);
            let link = link_after(at_join.bytes_recorded, events);
            &&& has_session(end.phase)
            &&& forall|i: int| 0 <= i < output.len() ==> (#[trigger] output[i]).1
            &&& bytes_of(chunks_of(output)).is_prefix_of(recording)
            &&& reads_follow(at_join.bytes_recorded, events, recording)
            &&& link.phase == GuestPhase::Live || link.phase == GuestPhase::SendingLive
            &&& link_live(at_join.bytes_recorded, events) == end.table[code].sent.skip(
                at_join.sent.len() as int,
            )
        }),
    ensures
        ({
            let start = HostRun { phase: HostPhaseView::Starting, table }.next(
                code,
                HostEventView::Opened(path),
            );
            let at_join = host_run(start, code, before).table[code];
            let end = host_run(start, code, before + after);
            link_output(at_join.bytes_recorded, events) + being_recorded(end.phase) == bytes_read(
                before + after,
            )
        }),
{
    let start = HostRun { phase: HostPhaseView::Starting, table }.next(
        code,
        HostEventView::Opened(path),
    );
    let at_join = host_run(start, code, before).table[code];
    lemma_live_after_replay(at_join.bytes_recorded, events);
    law_guest_is_sent_what_the_host_sent(table, code, path, before, after, recording, events);
}

/// Events, phases and actions of hosts mean what they hold.
pub proof fn law_host_events_mean_what_they_hold(
    ok: bool,
    text: String,
    bytes: Vec<u8>,
    path: PathBuf,
)
    ensures
        HostEvent::Opened(path)@ == HostEventView::Opened(path),
        HostEvent::OpenFailed@ == HostEventView::OpenFailed,
        HostEvent::Sent(ok)@ == HostEventView::Sent(ok),
        HostEvent::Read(bytes)@ == HostEventView::Read(bytes@),
        HostEvent::ReadFailed@ == HostEventView::ReadFailed,
        HostEvent::Recorded(ok)@ == HostEventView::Recorded(ok),
        HostPhase::Starting@ == HostPhaseView::Starting,
        HostPhase::Announcing@ == HostPhaseView::Announcing,
        HostPhase::Reading@ == HostPhaseView::Reading,
        HostPhase::Recording(bytes)@ == HostPhaseView::Recording(bytes@),
        HostPhase::Closed@ == HostPhaseView::Closed,
        HostPhase::Abandoned@ == HostPhaseView::Abandoned,
        HostAction::Send(text)@ == HostActionView::Send(text@),
        HostAction::AnotherCode@ == HostActionView::AnotherCode,
        HostAction::Read@ == HostActionView::Read,
        HostAction::Record(bytes)@ == HostActionView::Record(bytes@),
        HostAction::Finish@ == HostActionView::Finish,
        HostAction::Fail@ == HostActionView::Fail,
{
}

/// Events and actions of guests mean what they hold.
pub proof fn law_link_events_mean_what_they_hold(ok: bool, bytes: Vec<u8>, n: usize)
    ensures
        LinkEvent::Sent(ok)@ == LinkEventView::Sent(ok),
        LinkEvent::Opened(ok)@ == LinkEventView::Opened(ok),
        LinkEvent::RecordingRead(bytes)@ == LinkEventView::RecordingRead(bytes@),
        LinkEvent::RecordingReadFailed@ == LinkEventView::RecordingReadFailed,
        LinkEvent::Chunk(bytes)@ == LinkEventView::Chunk(bytes@),
        LinkEvent::Lagged@ == LinkEventView::Lagged,
        LinkEvent::Closed@ == LinkEventView::Closed,
        LinkAction::OpenRecording@ == LinkActionView::OpenRecording,
        LinkAction::ReadRecording(n)@ == LinkActionView::ReadRecording(n as nat),
        LinkAction::Send(bytes)@ == LinkActionView::Send(bytes@),
        LinkAction::Receive@ == LinkActionView::Receive,
        LinkAction::End@ == LinkActionView::End,
        LinkAction::Fail@ == LinkActionView::Fail,
{
}

/// Only what answers the last step takes a guest's connection on; anything else breaks it, and so
/// does more of the recording than was asked for.
pub proof fn law_guest_goes_on_by_what_was_asked_for(s: LinkView, event: LinkEventView)
    ensures
        ({
            let asked = if s.remaining < 65_536 {
                s.remaining
            } else {
                65_536
            };
            &&& s.action(event) !is Fail <==> match s.phase {
                GuestPhase::Greeting => event == LinkEventView::Sent(true),
                GuestPhase::Opening => event is Opened,
                GuestPhase::Replaying => event matches LinkEventView::RecordingRead(bytes)
                    && bytes.len() <= asked,
                GuestPhase::SendingReplay => event == LinkEventView::Sent(true),
                GuestPhase::Live => event is Chunk || event is Lagged || event is Closed,
                GuestPhase::SendingLive => event is Sent,
                _ => false,
            }
            &&& s.action(event) is Fail ==> s.next(event).phase == GuestPhase::Failed
            &&& s.action(event) is End ==> s.next(event).phase == GuestPhase::Ended
        }),
{
}

} // verus!
