//! The relay's clients: how a host gets its code and sends its output, and how a guest gets
//! in.
use crate::protocol::{
    code_of_reply, code_reply_text, first_line, fits_line, guest_admitted, join_command_text,
    join_reply_text, join_request, join_request_text, law_code_reply_is_understood,
    law_join_reply_is_understood, share_started, Role, ShareError,
    LOCAL_RELAY_HINT, SHARE_REQUEST,
};
use crate::relay::bytes_of;
use crate::text::{law_prefix_and_what_follows, trimmed};
use vstd::prelude::*;
use vstd::string::*;
use vstd::utf8::*;

verus! {

// ---------------------------------------------------------------------------
// Hosts
// ---------------------------------------------------------------------------

/// Where a host's connection to the relay stands.
#[derive(Clone, Copy, PartialEq, Eq, Structural, Debug)]
pub enum SharePhase {
    /// The relay is being connected to.
    Connecting,
    /// The request is being sent.
    Requesting,
    /// The answer is being read.
    AwaitingCode,
    /// The code has arrived; the output is being tapped.
    Announced,
    /// The frame that is on the screen already is being sent.
    SendingFirst,
    /// Output is being waited for.
    Receiving,
    /// Output is being sent.
    Sending,
    /// The output has ended, or the relay is gone.
    Ended,
    /// It came to nothing.
    Failed,
}

/// What came of the last step of a host's connection to the relay.
pub enum ShareEvent {
    /// The relay is connected.
    Connected,
    /// The relay cannot be connected to, for this reason.
    ConnectFailed(String),
    /// Something was sent, or could not be.
    Sent(bool),
    /// A line was read.
    Line(String),
    /// Reading the line failed.
    LineFailed,
    /// The output is tapped; the frame on the screen, if there is one to send first.
    Tapped(Option<Vec<u8>>),
    /// There is no output to tap, because sharing is not set up.
    NotSetUp,
    /// A chunk of output.
    Chunk(Vec<u8>),
    /// Sending was too slow, and some output is lost.
    Lagged,
    /// The output has ended.
    Closed,
}

/// What to do next on a host's connection to the relay.
pub enum ShareAction {
    /// Send this.
    Send(Vec<u8>),
    /// Read a line.
    ReadLine,
    /// Make this command known, then tap the output.
    Announce(String),
    /// Wait for output.
    Receive,
    /// Have everything drawn again, then wait for output.
    Repaint,
    /// Take the share out of the registry and hang up.
    Withdraw,
    /// Hang up.
    End,
    /// Give up: the share did not come about.
    Fail(ShareError),
    /// Give up: the connection broke.
    Break,
}

/// The meaning of a [`ShareEvent`].
pub enum ShareEventView {
    Connected,
    ConnectFailed(Seq<char>),
    Sent(bool),
    Line(Seq<char>),
    LineFailed,
    Tapped(Option<Seq<u8>>),
    NotSetUp,
    Chunk(Seq<u8>),
    Lagged,
    Closed,
}

/// The meaning of a [`ShareAction`]; of an error, its words.
pub enum ShareActionView {
    Send(Seq<u8>),
    ReadLine,
    Announce(Seq<char>),
    Receive,
    Repaint,
    Withdraw,
    End,
    Fail(Seq<char>),
    Break,
}

impl View for ShareEvent {
    type V = ShareEventView;

    open spec fn view(&self) -> ShareEventView {
        match self {
            ShareEvent::Connected => ShareEventView::Connected,
            ShareEvent::ConnectFailed(cause) => ShareEventView::ConnectFailed(cause@),
            ShareEvent::Sent(ok) => ShareEventView::Sent(*ok),
            ShareEvent::Line(line) => ShareEventView::Line(line@),
            ShareEvent::LineFailed => ShareEventView::LineFailed,
            ShareEvent::Tapped(first) => ShareEventView::Tapped(
                match first {
                    Some(frame) => Some(frame@),
                    None => None,
                },
            ),
            ShareEvent::NotSetUp => ShareEventView::NotSetUp,
            ShareEvent::Chunk(chunk) => ShareEventView::Chunk(chunk@),
            ShareEvent::Lagged => ShareEventView::Lagged,
            ShareEvent::Closed => ShareEventView::Closed,
        }
    }
}

impl View for ShareAction {
    type V = ShareActionView;

    open spec fn view(&self) -> ShareActionView {
        match self {
            ShareAction::Send(bytes) => ShareActionView::Send(bytes@),
            ShareAction::ReadLine => ShareActionView::ReadLine,
            ShareAction::Announce(command) => ShareActionView::Announce(command@),
            ShareAction::Receive => ShareActionView::Receive,
            ShareAction::Repaint => ShareActionView::Repaint,
            ShareAction::Withdraw => ShareActionView::Withdraw,
            ShareAction::End => ShareActionView::End,
            ShareAction::Fail(e) => ShareActionView::Fail(e.text()),
            ShareAction::Break => ShareActionView::Break,
        }
    }
}

/// The state of a host's connection to the relay.
pub struct ShareLinkView {
    /// Whether the share runs in the background.
    pub background: bool,
    /// The relay's address.
    pub relay: Seq<char>,
    pub phase: SharePhase,
}

impl ShareLinkView {
    /// In another phase.
    pub open spec fn to(self, phase: SharePhase) -> ShareLinkView {
        ShareLinkView { phase, ..self }
    }

    /// The state that follows. An event that does not belong to the phase breaks the
    /// connection.
    pub open spec fn next(self, event: ShareEventView) -> ShareLinkView {
        match (self.phase, event) {
            (SharePhase::Connecting, ShareEventView::Connected) => self.to(SharePhase::Requesting),
            (SharePhase::Requesting, ShareEventView::Sent(true)) => self.to(
                SharePhase::AwaitingCode,
            ),
            (SharePhase::AwaitingCode, ShareEventView::Line(line)) => if code_of_reply(
                line,
            ) is Some {
                self.to(SharePhase::Announced)
            } else {
                self.to(SharePhase::Failed)
            },
            (SharePhase::Announced, ShareEventView::Tapped(first)) => if first is Some {
                self.to(SharePhase::SendingFirst)
            } else {
                self.to(SharePhase::Receiving)
            },
            (SharePhase::SendingFirst, ShareEventView::Sent(true)) => self.to(
                SharePhase::Receiving,
            ),
            (SharePhase::Receiving, ShareEventView::Chunk(_)) => self.to(SharePhase::Sending),
            (SharePhase::Receiving, ShareEventView::Lagged) => self,
            (SharePhase::Receiving, ShareEventView::Closed) => self.to(SharePhase::Ended),
            (SharePhase::Sending, ShareEventView::Sent(ok)) => if ok {
                self.to(SharePhase::Receiving)
            } else {
                self.to(SharePhase::Ended)
            },
            _ => self.to(SharePhase::Failed),
        }
    }

    /// What is done at the end: only a background share has itself to take out of the
    /// registry.
    pub open spec fn end(self) -> ShareActionView {
        if self.background {
            ShareActionView::Withdraw
        } else {
            ShareActionView::End
        }
    }

    /// What is said if the relay cannot be reached.
    pub open spec fn unreachable(self, cause: Seq<char>) -> Seq<char> {
        if self.background {
            "cannot reach relay "@ + self.relay + ": "@ + cause
        } else {
            "cannot reach relay at "@ + self.relay + ": "@ + cause + LOCAL_RELAY_HINT@
        }
    }

    /// What is said if the relay answers with something other than a code.
    pub open spec fn no_code(self) -> Seq<char> {
        if self.background {
            "relay did not send a CODE"@
        } else {
            "unexpected relay response"@
        }
    }

    /// What to do next.
    pub open spec fn action(self, event: ShareEventView) -> ShareActionView {
        match (self.phase, event) {
            (SharePhase::Connecting, ShareEventView::Connected) => ShareActionView::Send(
                SHARE_REQUEST.spec_bytes(),
            ),
            (SharePhase::Connecting, ShareEventView::ConnectFailed(cause)) => ShareActionView::Fail(
                self.unreachable(cause),
            ),
            (SharePhase::Requesting, ShareEventView::Sent(true)) => ShareActionView::ReadLine,
            (SharePhase::AwaitingCode, ShareEventView::Line(line)) => match code_of_reply(line) {
                Some(code) => ShareActionView::Announce(join_command_text(code)),
                None => ShareActionView::Fail(self.no_code()),
            },
            (SharePhase::Announced, ShareEventView::Tapped(first)) => match first {
                Some(frame) => ShareActionView::Send(frame),
                None => ShareActionView::Receive,
            },
            (SharePhase::Announced, ShareEventView::NotSetUp) => ShareActionView::Fail(
                "session not initialised"@,
            ),
            (SharePhase::SendingFirst, ShareEventView::Sent(true)) => ShareActionView::Receive,
            (SharePhase::Receiving, ShareEventView::Chunk(chunk)) => ShareActionView::Send(chunk),
            (SharePhase::Receiving, ShareEventView::Lagged) => if self.background {
                ShareActionView::Repaint
            } else {
                ShareActionView::Receive
            },
            (SharePhase::Receiving, ShareEventView::Closed) => self.end(),
            (SharePhase::Sending, ShareEventView::Sent(ok)) => if ok {
                ShareActionView::Receive
            } else {
                self.end()
            },
            _ => ShareActionView::Break,
        }
    }
}

/// A host's connection to the relay.
pub struct ShareLink {
    background: bool,
    relay: String,
    phase: SharePhase,
}

impl View for ShareLink {
    type V = ShareLinkView;

    closed spec fn view(&self) -> ShareLinkView {
        ShareLinkView { background: self.background, relay: self.relay@, phase: self.phase }
    }
}

impl ShareLink {
    /// A host that is about to connect to the relay.
    pub fn new(background: bool, relay: String) -> (r: Self)
        ensures
            r@ == (ShareLinkView { background, relay: relay@, phase: SharePhase::Connecting }),
    {
        ShareLink { background, relay, phase: SharePhase::Connecting }
    }

    fn role(&self) -> (r: Role)
        ensures
            r == if self@.background {
                Role::Background
            } else {
                Role::Host
            },
    {
        if self.background {
            Role::Background
        } else {
            Role::Host
        }
    }

    fn end(&mut self) -> (r: ShareAction)
        ensures
            final(self)@ == old(self)@.to(SharePhase::Ended),
            r@ == old(self)@.end(),
    {
        self.phase = SharePhase::Ended;
        if self.background {
            ShareAction::Withdraw
        } else {
            ShareAction::End
        }
    }

    /// Takes in what came of the last step, and decides what to do next.
    pub fn step(&mut self, event: ShareEvent) -> (r: ShareAction)
        ensures
            final(self)@ == old(self)@.next(event@),
            r@ == old(self)@.action(event@),
    {
        match (self.phase, event) {
            (SharePhase::Connecting, ShareEvent::Connected) => {
                self.phase = SharePhase::Requesting;
                ShareAction::Send(SHARE_REQUEST.as_bytes_vec())
            },
            (SharePhase::Connecting, ShareEvent::ConnectFailed(cause)) => {
                self.phase = SharePhase::Failed;
                ShareAction::Fail(
                    ShareError::Unreachable { role: self.role(), relay: self.relay.clone(), cause },
                )
            },
            (SharePhase::Requesting, ShareEvent::Sent(true)) => {
                self.phase = SharePhase::AwaitingCode;
                ShareAction::ReadLine
            },
            (SharePhase::AwaitingCode, ShareEvent::Line(line)) => {
                match share_started(self.role(), line.as_str()) {
                    Ok(command) => {
                        self.phase = SharePhase::Announced;
                        ShareAction::Announce(command)
                    },
                    Err(e) => {
                        self.phase = SharePhase::Failed;
                        ShareAction::Fail(e)
                    },
                }
            },
            (SharePhase::Announced, ShareEvent::Tapped(first)) => {
                match first {
                    Some(frame) => {
                        self.phase = SharePhase::SendingFirst;
                        ShareAction::Send(frame)
                    },
                    None => {
                        self.phase = SharePhase::Receiving;
                        ShareAction::Receive
                    },
                }
            },
            (SharePhase::Announced, ShareEvent::NotSetUp) => {
                self.phase = SharePhase::Failed;
                ShareAction::Fail(ShareError::NotInitialised)
            },
            (SharePhase::SendingFirst, ShareEvent::Sent(true)) => {
                self.phase = SharePhase::Receiving;
                ShareAction::Receive
            },
            (SharePhase::Receiving, ShareEvent::Chunk(chunk)) => {
                self.phase = SharePhase::Sending;
                ShareAction::Send(chunk)
            },
            (SharePhase::Receiving, ShareEvent::Lagged) => {
                if self.background {
                    ShareAction::Repaint
                } else {
                    ShareAction::Receive
                }
            },
            (SharePhase::Receiving, ShareEvent::Closed) => self.end(),
            (SharePhase::Sending, ShareEvent::Sent(ok)) => {
                if ok {
                    self.phase = SharePhase::Receiving;
                    ShareAction::Receive
                } else {
                    self.end()
                }
            },
            _ => {
                self.phase = SharePhase::Failed;
                ShareAction::Break
            },
        }
    }
}

// ---------------------------------------------------------------------------
// Guests
// ---------------------------------------------------------------------------

/// Where a guest's way in stands.
#[derive(Clone, Copy, PartialEq, Eq, Structural, Debug)]
pub enum JoinPhase {
    /// The relay is being connected to.
    Connecting,
    /// The request is being sent.
    Requesting,
    /// The answer is being read.
    AwaitingReply,
    /// The guest is in.
    Watching,
    /// It came to nothing.
    Failed,
}

/// What came of the last step of a guest's way in.
pub enum JoinEvent {
    /// The relay is connected.
    Connected,
    /// The relay cannot be connected to, for this reason.
    ConnectFailed(String),
    /// The request was sent, or could not be.
    Sent(bool),
    /// A line was read.
    Line(String),
    /// Reading the line failed.
    LineFailed,
}

/// What to do next on a guest's way in.
pub enum JoinAction {
    /// Send this.
    Send(Vec<u8>),
    /// Read a line.
    ReadLine,
    /// Show the session.
    Watch,
    /// Give up: the guest is not let in.
    Fail(ShareError),
    /// Give up: the connection broke.
    Break,
}

/// The meaning of a [`JoinEvent`].
pub enum JoinEventView {
    Connected,
    ConnectFailed(Seq<char>),
    Sent(bool),
    Line(Seq<char>),
    LineFailed,
}

/// The meaning of a [`JoinAction`]; of an error, its words.
pub enum JoinActionView {
    Send(Seq<u8>),
    ReadLine,
    Watch,
    Fail(Seq<char>),
    Break,
}

impl View for JoinEvent {
    type V = JoinEventView;

    open spec fn view(&self) -> JoinEventView {
        match self {
            JoinEvent::Connected => JoinEventView::Connected,
            JoinEvent::ConnectFailed(cause) => JoinEventView::ConnectFailed(cause@),
            JoinEvent::Sent(ok) => JoinEventView::Sent(*ok),
            JoinEvent::Line(line) => JoinEventView::Line(line@),
            JoinEvent::LineFailed => JoinEventView::LineFailed,
        }
    }
}

impl View for JoinAction {
    type V = JoinActionView;

    open spec fn view(&self) -> JoinActionView {
        match self {
            JoinAction::Send(bytes) => JoinActionView::Send(bytes@),
            JoinAction::ReadLine => JoinActionView::ReadLine,
            JoinAction::Watch => JoinActionView::Watch,
            JoinAction::Fail(e) => JoinActionView::Fail(e.text()),
            JoinAction::Break => JoinActionView::Break,
        }
    }
}

/// The state of a guest's way in.
pub struct JoinLinkView {
    /// The code of the session.
    pub code: Seq<char>,
    /// The relay's address.
    pub relay: Seq<char>,
    pub phase: JoinPhase,
}

impl JoinLinkView {
    /// In another phase.
    pub open spec fn to(self, phase: JoinPhase) -> JoinLinkView {
        JoinLinkView { phase, ..self }
    }

    /// The state that follows. An event that does not belong to the phase breaks the
    /// connection.
    pub open spec fn next(self, event: JoinEventView) -> JoinLinkView {
        match (self.phase, event) {
            (JoinPhase::Connecting, JoinEventView::Connected) => self.to(JoinPhase::Requesting),
            (JoinPhase::Requesting, JoinEventView::Sent(true)) => self.to(
                JoinPhase::AwaitingReply,
            ),
            (JoinPhase::AwaitingReply, JoinEventView::Line(line)) => if trimmed(line) == "OK"@ {
                self.to(JoinPhase::Watching)
            } else {
                self.to(JoinPhase::Failed)
            },
            _ => self.to(JoinPhase::Failed),
        }
    }

    /// What is said of an answer that does not let the guest in.
    pub open spec fn refusal(self, answer: Seq<char>) -> Seq<char> {
        if answer == "NOTFOUND"@ {
            "session '"@ + self.code + "' not found \u{2014} is the host still sharing?"@
        } else {
            "unexpected relay response: "@ + answer
        }
    }

    /// What to do next.
    pub open spec fn action(self, event: JoinEventView) -> JoinActionView {
        match (self.phase, event) {
            (JoinPhase::Connecting, JoinEventView::Connected) => JoinActionView::Send(
                encode_utf8(join_request_text(self.code)),
            ),
            (JoinPhase::Connecting, JoinEventView::ConnectFailed(cause)) => JoinActionView::Fail(
                "cannot reach relay at "@ + self.relay + ": "@ + cause,
            ),
            (JoinPhase::Requesting, JoinEventView::Sent(true)) => JoinActionView::ReadLine,
            (JoinPhase::AwaitingReply, JoinEventView::Line(line)) => if trimmed(line) == "OK"@ {
                JoinActionView::Watch
            } else {
                JoinActionView::Fail(self.refusal(trimmed(line)))
            },
            _ => JoinActionView::Break,
        }
    }
}

/// A guest's way in.
pub struct JoinLink {
    code: String,
    relay: String,
    phase: JoinPhase,
}

impl View for JoinLink {
    type V = JoinLinkView;

    closed spec fn view(&self) -> JoinLinkView {
        JoinLinkView { code: self.code@, relay: self.relay@, phase: self.phase }
    }
}

impl JoinLink {
    /// A guest that is about to connect to the relay.
    pub fn new(code: String, relay: String) -> (r: Self)
        ensures
            r@ == (JoinLinkView { code: code@, relay: relay@, phase: JoinPhase::Connecting }),
    {
        JoinLink { code, relay, phase: JoinPhase::Connecting }
    }

    /// Takes in what came of the last step, and decides what to do next.
    pub fn step(&mut self, event: JoinEvent) -> (r: JoinAction)
        ensures
            final(self)@ == old(self)@.next(event@),
            r@ == old(self)@.action(event@),
    {
        match (self.phase, event) {
            (JoinPhase::Connecting, JoinEvent::Connected) => {
                self.phase = JoinPhase::Requesting;
                let request = join_request(self.code.as_str());
                JoinAction::Send(request.as_str().as_bytes_vec())
            },
            (JoinPhase::Connecting, JoinEvent::ConnectFailed(cause)) => {
                self.phase = JoinPhase::Failed;
                JoinAction::Fail(
                    ShareError::Unreachable { role: Role::Guest, relay: self.relay.clone(), cause },
                )
            },
            (JoinPhase::Requesting, JoinEvent::Sent(true)) => {
                self.phase = JoinPhase::AwaitingReply;
                JoinAction::ReadLine
            },
            (JoinPhase::AwaitingReply, JoinEvent::Line(line)) => {
                match guest_admitted(self.code.as_str(), line.as_str()) {
                    Ok(()) => {
                        self.phase = JoinPhase::Watching;
                        JoinAction::Watch
                    },
                    Err(e) => {
                        self.phase = JoinPhase::Failed;
                        JoinAction::Fail(e)
                    },
                }
            },
            _ => {
                self.phase = JoinPhase::Failed;
                JoinAction::Break
            },
        }
    }
}

// ---------------------------------------------------------------------------
// Laws
// ---------------------------------------------------------------------------

/// A guest is let in by the relay's answer for a running session, and told that there is no
/// such session by its answer for any other.
pub proof fn law_guest_understands_relay(s: JoinLinkView, found: bool)
    requires
        s.phase == JoinPhase::AwaitingReply,
    ensures
        s.action(JoinEventView::Line(first_line(join_reply_text(found)))) == if found {
            JoinActionView::Watch
        } else {
            JoinActionView::Fail(
                "session '"@ + s.code + "' not found \u{2014} is the host still sharing?"@,
            )
        },
{
    law_join_reply_is_understood(found);
}

/// A host announces the command for the very code that the relay answered with.
pub proof fn law_host_announces_relayed_code(s: ShareLinkView, code: Seq<char>)
    requires
        s.phase == SharePhase::AwaitingCode,
        fits_line(code),
    ensures
        s.action(ShareEventView::Line(first_line(code_reply_text(code))))
            == ShareActionView::Announce(join_command_text(code)),
{
    law_code_reply_is_understood(code);
}

/// A background share takes itself out of the registry when its output has ended or the relay
/// is gone, and at no other time.
pub proof fn law_background_share_withdraws_at_its_end(s: ShareLinkView, event: ShareEventView)
    ensures
        s.action(event) == ShareActionView::Withdraw <==> s.background && s.next(event).phase
            == SharePhase::Ended,
        s.next(event).background == s.background && s.next(event).relay == s.relay,
{
}

/// A host's connection after several events.
pub open spec fn share_after(s: ShareLinkView, events: Seq<ShareEventView>) -> ShareLinkView
    decreases events.len(),
{
    if events.len() == 0 {
        s
    } else {
        share_after(s, events.drop_last()).next(events.last())
    }
}

/// What a host was to send over several events.
pub open spec fn share_sent(s: ShareLinkView, events: Seq<ShareEventView>) -> Seq<u8>
    decreases events.len(),
{
    if events.len() == 0 {
        Seq::empty()
    } else {
        let init = events.drop_last();
        match share_after(s, init).action(events.last()) {
            ShareActionView::Send(bytes) => share_sent(s, init) + bytes,
            _ => share_sent(s, init),
        }
    }
}

/// The output that a host took in over several events: the frame that was on the screen, then
/// the chunks that came.
pub open spec fn share_output(s: ShareLinkView, events: Seq<ShareEventView>) -> Seq<Seq<u8>>
    decreases events.len(),
{
    if events.len() == 0 {
        Seq::empty()
    } else {
        let init = events.drop_last();
        match (share_after(s, init).phase, events.last()) {
            (SharePhase::Announced, ShareEventView::Tapped(Some(frame))) => share_output(
                s,
                init,
            ).push(frame),
            (SharePhase::Receiving, ShareEventView::Chunk(chunk)) => share_output(s, init).push(
                chunk,
            ),
            _ => share_output(s, init),
        }
    }
}

/// A host sends its request and then its output, the frame on the screen first, in order and
/// nothing else, whatever happens on the way.
pub proof fn law_host_sends_request_then_output(s: ShareLinkView, events: Seq<ShareEventView>)
    requires
        s.phase == SharePhase::Connecting,
        events.len() > 0 && events[0] == ShareEventView::Connected,
    ensures
        share_sent(s, events) == SHARE_REQUEST.spec_bytes() + bytes_of(share_output(s, events)),
    decreases events.len(),
{
    let request = SHARE_REQUEST.spec_bytes();
    let init = events.drop_last();
    if events.len() == 1 {
        reveal_with_fuel(share_after, 2);
        reveal_with_fuel(share_sent, 2);
        reveal_with_fuel(share_output, 2);
        assert(events.last() == events[0]);
        assert(share_output(s, events).len() == 0);
        assert(share_sent(s, events) =~= request + bytes_of(share_output(s, events)));
    } else {
        lemma_connects_once(s, init);
        assert(init[0] == events[0]);
        law_host_sends_request_then_output(s, init);
        let before = share_output(s, init);
        match (share_after(s, init).phase, events.last()) {
            (SharePhase::Announced, ShareEventView::Tapped(Some(frame))) => {
                assert(before.push(frame).drop_last() =~= before);
                assert(share_sent(s, events) =~= request + bytes_of(before.push(frame)));
            },
            (SharePhase::Receiving, ShareEventView::Chunk(chunk)) => {
                assert(before.push(chunk).drop_last() =~= before);
                assert(share_sent(s, events) =~= request + bytes_of(before.push(chunk)));
            },
            _ => {},
        }
    }
}

proof fn lemma_connects_once(s: ShareLinkView, events: Seq<ShareEventView>)
    requires
        s.phase == SharePhase::Connecting,
        events.len() > 0,
    ensures
        share_after(s, events).phase != SharePhase::Connecting,
    decreases events.len(),
{
    if events.len() == 1 {
        reveal_with_fuel(share_after, 2);
    } else {
        lemma_connects_once(s, events.drop_last());
    }
}

/// A step of a host's connection is what the laws speak of: the state that follows, and what is
/// to be done.
pub proof fn law_share_link_steps_as_modelled(event: ShareEvent, r: ShareAction)
    ensures
        forall|s: &mut ShareLink| #[trigger]
            call_ensures(ShareLink::step, (s, event), r) ==> (*final(s))@ == (*s)@.next(event@)
                && r@ == (*s)@.action(event@),
        forall|background: bool, relay: String, s: ShareLink| #[trigger]
            call_ensures(ShareLink::new, (background, relay), s) ==> s@.background == background
                && s@.relay == relay@ && s@.phase == SharePhase::Connecting,
{
}

/// What happens to a host whose sends succeed, while its output comes: each chunk is sent, and
/// where some output was lost there is nothing to send.
pub open spec fn streamed(output: Seq<Option<Seq<u8>>>) -> Seq<ShareEventView>
    decreases output.len(),
{
    if output.len() == 0 {
        Seq::empty()
    } else {
        match output.last() {
            Some(chunk) => streamed(output.drop_last()) + seq![
                ShareEventView::Chunk(chunk),
                ShareEventView::Sent(true),
            ],
            None => streamed(output.drop_last()) + seq![ShareEventView::Lagged],
        }
    }
}

/// The bytes of the output that came.
pub open spec fn bytes_that_came(output: Seq<Option<Seq<u8>>>) -> Seq<u8>
    decreases output.len(),
{
    if output.len() == 0 {
        Seq::empty()
    } else {
        match output.last() {
            Some(chunk) => bytes_that_came(output.drop_last()) + chunk,
            None => bytes_that_came(output.drop_last()),
        }
    }
}

/// What happens to a host that reaches the relay, is answered with `line` and taps its output,
/// with `frame` on the screen.
pub open spec fn set_up(line: Seq<char>, frame: Option<Seq<u8>>) -> Seq<ShareEventView> {
    let start = seq![
        ShareEventView::Connected,
        ShareEventView::Sent(true),
        ShareEventView::Line(line),
        ShareEventView::Tapped(frame),
    ];
    if frame is Some {
        start.push(ShareEventView::Sent(true))
    } else {
        start
    }
}

/// In the foreground and in the background alike, a host that is told a code and whose sends
/// succeed sends the request, then the frame on the screen, then every chunk that comes, all of
/// it and nothing else, for as long as output comes; it then waits for more.
pub proof fn law_host_sends_all_that_comes(
    background: bool,
    relay: Seq<char>,
    line: Seq<char>,
    code: Seq<char>,
    frame: Option<Seq<u8>>,
    output: Seq<Option<Seq<u8>>>,
)
    requires
        trimmed(line) == "CODE "@ + code,
    ensures
        ({
            let start = ShareLinkView { background, relay, phase: SharePhase::Connecting };
            let events = set_up(line, frame) + streamed(output);
            let first = match frame {
                Some(bytes) => bytes,
                None => Seq::empty(),
            };
            &&& share_after(start, events) == start.to(SharePhase::Receiving)
            &&& share_sent(start, events) == encode_utf8("SHARE\n"@) + first + bytes_that_came(
                output,
            )
        }),
{
    let start = ShareLinkView { background, relay, phase: SharePhase::Connecting };
    let opening = set_up(line, frame);
    lemma_set_up(start, line, code, frame);
    lemma_share_in_two(start, opening, streamed(output));
    lemma_streamed(share_after(start, opening), output);
    let first = match frame {
        Some(bytes) => bytes,
        None => Seq::empty(),
    };
    assert(share_sent(start, opening + streamed(output)) =~= encode_utf8("SHARE\n"@) + first
        + bytes_that_came(output));
}

/// What a host does step by step until it waits for output: it sends the request, reads a line,
/// makes the command for its code known, and sends the frame on the screen, if there is one.
pub proof fn law_host_is_set_up_step_by_step(
    s: ShareLinkView,
    line: Seq<char>,
    code: Seq<char>,
    frame: Seq<u8>,
)
    requires
        trimmed(line) == "CODE "@ + code,
    ensures
        s.to(SharePhase::Connecting).action(ShareEventView::Connected) == ShareActionView::Send(
            encode_utf8("SHARE\n"@),
        ),
        s.to(SharePhase::Requesting).action(ShareEventView::Sent(true))
            == ShareActionView::ReadLine,
        s.to(SharePhase::AwaitingCode).action(ShareEventView::Line(line))
            == ShareActionView::Announce("herdr join "@ + code),
        s.to(SharePhase::Announced).action(ShareEventView::Tapped(Some(frame)))
            == ShareActionView::Send(frame),
        s.to(SharePhase::Announced).action(ShareEventView::Tapped(None)) == ShareActionView::Receive,
        s.to(SharePhase::SendingFirst).action(ShareEventView::Sent(true))
            == ShareActionView::Receive,
{
    law_prefix_and_what_follows(trimmed(line), "CODE "@, code);
}

/// While output comes, a host sends each chunk as it is and goes on to wait for the next. Where
/// some was lost only a background share has everything drawn again.
pub proof fn law_host_goes_on_while_output_comes(s: ShareLinkView, chunk: Seq<u8>)
    requires
        s.phase == SharePhase::Receiving,
    ensures
        s.action(ShareEventView::Chunk(chunk)) == ShareActionView::Send(chunk),
        s.next(ShareEventView::Chunk(chunk)).action(ShareEventView::Sent(true))
            == ShareActionView::Receive,
        s.next(ShareEventView::Chunk(chunk)).next(ShareEventView::Sent(true)) == s,
        s.action(ShareEventView::Lagged) == if s.background {
            ShareActionView::Repaint
        } else {
            ShareActionView::Receive
        },
        s.next(ShareEventView::Lagged) == s,
{
}

/// A share ends when its output does, or when the relay does not take the output any more: a
/// background share takes itself out of the registry, one in the foreground just hangs up.
pub proof fn law_share_ends_with_its_output(s: ShareLinkView)
    ensures
        ({
            let end = if s.background {
                ShareActionView::Withdraw
            } else {
                ShareActionView::End
            };
            &&& s.to(SharePhase::Receiving).action(ShareEventView::Closed) == end
            &&& s.to(SharePhase::Sending).action(ShareEventView::Sent(false)) == end
            &&& forall|event: ShareEventView|
                (#[trigger] s.action(event) == ShareActionView::End || s.action(event)
                    == ShareActionView::Withdraw) ==> s.phase == SharePhase::Receiving && event
                    == ShareEventView::Closed || s.phase == SharePhase::Sending && event
                    == ShareEventView::Sent(false)
        }),
{
}

/// A share that does not come about says why: the relay and the reason if it cannot be reached,
/// in the foreground with a hint; what the relay failed to send; that sharing is not set up.
pub proof fn law_share_that_fails_says_why(s: ShareLinkView, cause: Seq<char>, line: Seq<char>)
    ensures
        s.to(SharePhase::Connecting).action(ShareEventView::ConnectFailed(cause))
            == ShareActionView::Fail(
            if s.background {
                "cannot reach relay "@ + s.relay + ": "@ + cause
            } else {
                "cannot reach relay at "@ + s.relay + ": "@ + cause
                    + "\nhint: run 'herdr relay' locally and set HERDR_RELAY_ADDR=localhost:4002"@
            },
        ),
        !"CODE "@.is_prefix_of(trimmed(line)) ==> s.to(SharePhase::AwaitingCode).action(
            ShareEventView::Line(line),
        ) == ShareActionView::Fail(
            if s.background {
                "relay did not send a CODE"@
            } else {
                "unexpected relay response"@
            },
        ),
        s.to(SharePhase::Announced).action(ShareEventView::NotSetUp) == ShareActionView::Fail(
            "session not initialised"@,
        ),
{
}

/// Where a send or a read fails before output flows, the connection has broken.
pub proof fn law_share_breaks_before_output_flows(s: ShareLinkView)
    ensures
        s.to(SharePhase::Requesting).action(ShareEventView::Sent(false)) == ShareActionView::Break,
        s.to(SharePhase::AwaitingCode).action(ShareEventView::LineFailed)
            == ShareActionView::Break,
        s.to(SharePhase::SendingFirst).action(ShareEventView::Sent(false))
            == ShareActionView::Break,
{
}

/// A share that has ended, failed or broken does nothing any more.
pub proof fn law_share_that_is_over_stays_over(s: ShareLinkView, event: ShareEventView)
    ensures
        s.action(event) is End || s.action(event) is Withdraw || s.action(event) is Fail
            || s.action(event) is Break ==> {
            let over = s.next(event);
            &&& over.phase == SharePhase::Ended || over.phase == SharePhase::Failed
            &&& forall|later: ShareEventView| #[trigger]
                over.action(later) == ShareActionView::Break
            &&& forall|later: ShareEventView| (#[trigger] over.next(later)).phase
                == SharePhase::Failed
        },
{
}

proof fn lemma_set_up(
    start: ShareLinkView,
    line: Seq<char>,
    code: Seq<char>,
    frame: Option<Seq<u8>>,
)
    requires
        start.phase == SharePhase::Connecting,
        trimmed(line) == "CODE "@ + code,
    ensures
        share_after(start, set_up(line, frame)) == start.to(SharePhase::Receiving),
        share_sent(start, set_up(line, frame)) == encode_utf8("SHARE\n"@) + match frame {
            Some(bytes) => bytes,
            None => Seq::empty(),
        },
{
    law_prefix_and_what_follows(trimmed(line), "CODE "@, code);
    let e1 = seq![ShareEventView::Connected];
    let e2 = e1.push(ShareEventView::Sent(true));
    let e3 = e2.push(ShareEventView::Line(line));
    let e4 = e3.push(ShareEventView::Tapped(frame));
    let none = Seq::<ShareEventView>::empty();
    assert(e1.drop_last() =~= none);
    assert(e2.drop_last() =~= e1);
    assert(e3.drop_last() =~= e2);
    assert(e4.drop_last() =~= e3);
    assert(share_after(start, none) == start);
    assert(share_after(start, e1) == start.to(SharePhase::Requesting));
    assert(share_after(start, e2) == start.to(SharePhase::AwaitingCode));
    assert(share_after(start, e3) == start.to(SharePhase::Announced));
    assert(share_sent(start, none) =~= Seq::<u8>::empty());
    assert(share_sent(start, e1) =~= encode_utf8("SHARE\n"@));
    assert(share_sent(start, e2) == share_sent(start, e1));
    assert(share_sent(start, e3) == share_sent(start, e2));
    match frame {
        Some(bytes) => {
            let e5 = e4.push(ShareEventView::Sent(true));
            assert(e5.drop_last() =~= e4);
            assert(share_after(start, e4) == start.to(SharePhase::SendingFirst));
            assert(share_sent(start, e4) == share_sent(start, e3) + bytes);
            assert(share_sent(start, e5) == share_sent(start, e4));
            assert(set_up(line, frame) =~= e5);
        },
        None => {
            assert(set_up(line, frame) =~= e4);
            assert(share_sent(start, e4) =~= encode_utf8("SHARE\n"@) + Seq::<u8>::empty());
        },
    }
}

proof fn lemma_streamed(s: ShareLinkView, output: Seq<Option<Seq<u8>>>)
    requires
        s.phase == SharePhase::Receiving,
    ensures
        share_after(s, streamed(output)) == s,
        share_sent(s, streamed(output)) == bytes_that_came(output),
    decreases output.len(),
{
    if output.len() > 0 {
        let init = streamed(output.drop_last());
        lemma_streamed(s, output.drop_last());
        match output.last() {
            Some(chunk) => {
                let one = init.push(ShareEventView::Chunk(chunk));
                let two = one.push(ShareEventView::Sent(true));
                assert(streamed(output) =~= two);
                assert(two.drop_last() =~= one);
                assert(one.drop_last() =~= init);
                assert(share_after(s, one) == s.to(SharePhase::Sending));
                assert(share_sent(s, one) == share_sent(s, init) + chunk);
                assert(share_sent(s, two) == share_sent(s, one));
            },
            None => {
                let one = init.push(ShareEventView::Lagged);
                assert(streamed(output) =~= one);
                assert(one.drop_last() =~= init);
            },
        }
    }
}

proof fn lemma_share_in_two(s: ShareLinkView, a: Seq<ShareEventView>, b: Seq<ShareEventView>)
    ensures
        share_after(s, a + b) == share_after(share_after(s, a), b),
        share_sent(s, a + b) == share_sent(s, a) + share_sent(share_after(s, a), b),
    decreases b.len(),
{
    if b.len() == 0 {
        assert(a + b =~= a);
        assert(share_sent(s, a) + share_sent(share_after(s, a), b) =~= share_sent(s, a));
    } else {
        lemma_share_in_two(s, a, b.drop_last());
        assert((a + b).drop_last() =~= a + b.drop_last());
        assert(share_sent(s, a + b) =~= share_sent(s, a) + share_sent(share_after(s, a), b));
    }
}

/// A step of a guest's way in is what the laws speak of: the state that follows, and what is to
/// be done.
pub proof fn law_join_link_steps_as_modelled(event: JoinEvent, r: JoinAction)
    ensures
        forall|s: &mut JoinLink| #[trigger]
            call_ensures(JoinLink::step, (s, event), r) ==> (*final(s))@ == (*s)@.next(event@)
                && r@ == (*s)@.action(event@),
        forall|code: String, relay: String, s: JoinLink| #[trigger]
            call_ensures(JoinLink::new, (code, relay), s) ==> s@.code == code@ && s@.relay == relay@
                && s@.phase == JoinPhase::Connecting,
{
}

/// A guest asks for the very code that it was given, reads one line, and is in if that says
/// `OK`; else it says that the session of its code was not found, or what came instead.
pub proof fn law_guest_asks_and_is_let_in(code: Seq<char>, relay: Seq<char>, line: Seq<char>)
    ensures
        ({
            let start = JoinLinkView { code, relay, phase: JoinPhase::Connecting };
            let asked = start.next(JoinEventView::Connected);
            let waiting = asked.next(JoinEventView::Sent(true));
            &&& start.action(JoinEventView::Connected) == JoinActionView::Send(
                encode_utf8("JOIN "@ + code + "\n"@),
            )
            &&& asked.action(JoinEventView::Sent(true)) == JoinActionView::ReadLine
            &&& waiting.action(JoinEventView::Line(line)) == JoinActionView::Watch <==> trimmed(line)
                == "OK"@
            &&& trimmed(line) == "NOTFOUND"@ ==> waiting.action(JoinEventView::Line(line))
                == JoinActionView::Fail(
                "session '"@ + code + "' not found \u{2014} is the host still sharing?"@,
            )
            &&& trimmed(line) != "OK"@ && trimmed(line) != "NOTFOUND"@ ==> waiting.action(
                JoinEventView::Line(line),
            ) == JoinActionView::Fail("unexpected relay response: "@ + trimmed(line))
        }),
{
    reveal_strlit("OK");
    reveal_strlit("NOTFOUND");
    assert("OK"@.len() != "NOTFOUND"@.len());
}

/// A guest that cannot reach the relay names it and the reason; where sending or reading fails
/// the connection has broken.
pub proof fn law_guest_that_fails_says_why(code: Seq<char>, relay: Seq<char>, cause: Seq<char>)
    ensures
        ({
            let start = JoinLinkView { code, relay, phase: JoinPhase::Connecting };
            let asked = start.next(JoinEventView::Connected);
            let waiting = asked.next(JoinEventView::Sent(true));
            &&& start.action(JoinEventView::ConnectFailed(cause)) == JoinActionView::Fail(
                "cannot reach relay at "@ + relay + ": "@ + cause,
            )
            &&& asked.action(JoinEventView::Sent(false)) == JoinActionView::Break
            &&& waiting.action(JoinEventView::LineFailed) == JoinActionView::Break
        }),
{
}

/// A guest that is in or has failed takes no more steps.
pub proof fn law_way_in_ends_once(s: JoinLinkView, event: JoinEventView, later: JoinEventView)
    ensures
        s.action(event) is Watch || s.action(event) is Fail || s.action(event) is Break ==> s.next(
            event,
        ).action(later) == JoinActionView::Break,
        s.action(event) is Watch ==> s.phase == JoinPhase::AwaitingReply,
        s.next(event).code == s.code && s.next(event).relay == s.relay,
{
}

/// Events and actions of hosts mean what they hold; an error means its words.
pub proof fn law_share_events_mean_what_they_hold(
    ok: bool,
    text: String,
    bytes: Vec<u8>,
    error: ShareError,
)
    ensures
        ShareEvent::Connected@ == ShareEventView::Connected,
        ShareEvent::ConnectFailed(text)@ == ShareEventView::ConnectFailed(text@),
        ShareEvent::Sent(ok)@ == ShareEventView::Sent(ok),
        ShareEvent::Line(text)@ == ShareEventView::Line(text@),
        ShareEvent::LineFailed@ == ShareEventView::LineFailed,
        ShareEvent::Tapped(Some(bytes))@ == ShareEventView::Tapped(Some(bytes@)),
        ShareEvent::Tapped(None)@ == ShareEventView::Tapped(None),
        ShareEvent::NotSetUp@ == ShareEventView::NotSetUp,
        ShareEvent::Chunk(bytes)@ == ShareEventView::Chunk(bytes@),
        ShareEvent::Lagged@ == ShareEventView::Lagged,
        ShareEvent::Closed@ == ShareEventView::Closed,
        ShareAction::Send(bytes)@ == ShareActionView::Send(bytes@),
        ShareAction::ReadLine@ == ShareActionView::ReadLine,
        ShareAction::Announce(text)@ == ShareActionView::Announce(text@),
        ShareAction::Receive@ == ShareActionView::Receive,
        ShareAction::Repaint@ == ShareActionView::Repaint,
        ShareAction::Withdraw@ == ShareActionView::Withdraw,
        ShareAction::End@ == ShareActionView::End,
        ShareAction::Fail(error)@ == ShareActionView::Fail(error.text()),
        ShareAction::Break@ == ShareActionView::Break,
{
}

/// Events and actions of guests mean what they hold; an error means its words.
pub proof fn law_join_events_mean_what_they_hold(
    ok: bool,
    text: String,
    bytes: Vec<u8>,
    error: ShareError,
)
    ensures
        JoinEvent::Connected@ == JoinEventView::Connected,
        JoinEvent::ConnectFailed(text)@ == JoinEventView::ConnectFailed(text@),
        JoinEvent::Sent(ok)@ == JoinEventView::Sent(ok),
        JoinEvent::Line(text)@ == JoinEventView::Line(text@),
        JoinEvent::LineFailed@ == JoinEventView::LineFailed,
        JoinAction::Send(bytes)@ == JoinActionView::Send(bytes@),
        JoinAction::ReadLine@ == JoinActionView::ReadLine,
        JoinAction::Watch@ == JoinActionView::Watch,
        JoinAction::Fail(error)@ == JoinActionView::Fail(error.text()),
        JoinAction::Break@ == JoinActionView::Break,
{
}

/// Only what answers the last step takes a host's connection on; anything else breaks it.
pub proof fn law_host_goes_on_by_what_was_asked_for(s: ShareLinkView, event: ShareEventView)
    ensures
        s.action(event) !is Break <==> match s.phase {
            SharePhase::Connecting => event is Connected || event is ConnectFailed,
            SharePhase::Requesting => event == ShareEventView::Sent(true),
            SharePhase::AwaitingCode => event is Line,
            SharePhase::Announced => event is Tapped || event is NotSetUp,
            SharePhase::SendingFirst => event == ShareEventView::Sent(true),
            SharePhase::Receiving => event is Chunk || event is Lagged || event is Closed,
            SharePhase::Sending => event is Sent,
            _ => false,
        },
        s.action(event) is Break ==> s.next(event).phase == SharePhase::Failed,
{
}

/// Only what answers the last step takes a guest further in; anything else breaks the connection.
pub proof fn law_guest_goes_on_by_what_was_asked_for(s: JoinLinkView, event: JoinEventView)
    ensures
        s.action(event) !is Break <==> match s.phase {
            JoinPhase::Connecting => event is Connected || event is ConnectFailed,
            JoinPhase::Requesting => event == JoinEventView::Sent(true),
            JoinPhase::AwaitingReply => event is Line,
            _ => false,
        },
        s.action(event) is Break ==> s.next(event).phase == JoinPhase::Failed,
        s.action(event) is Fail ==> s.next(event).phase == JoinPhase::Failed,
        s.action(event) is Watch ==> s.next(event).phase == JoinPhase::Watching,
{
}

} // verus!
