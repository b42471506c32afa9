//! The guest's side: which keys scroll, and what is shown of the host's output.
use crate::relay::bytes_of;
use std::collections::VecDeque;
use vstd::prelude::*;

verus! {

/// How many chunks of the host's output a guest can scroll back through.
pub const HISTORY_CAP: usize = 100_000;

// ---------------------------------------------------------------------------
// Keys
// ---------------------------------------------------------------------------

/// What a guest asks for.
#[derive(Clone, Copy, PartialEq, Eq, Structural, Debug)]
pub enum ScrollCmd {
    /// One chunk back.
    Up,
    /// One chunk forward.
    Down,
    /// Back to the live stream.
    Live,
    /// Leave the session.
    Quit,
}

/// The keys that mean something to a guest.
#[derive(Clone, Copy, PartialEq, Eq, Structural, Debug)]
pub enum Key {
    PageUp,
    PageDown,
    Up,
    Down,
    Esc,
    Char(char),
    Other,
}

/// The modifier keys held down: none, Alt alone, or anything else.
#[derive(Clone, Copy, PartialEq, Eq, Structural, Debug)]
pub enum Modifiers {
    Plain,
    Alt,
    Other,
}

/// What the mouse did.
#[derive(Clone, Copy, PartialEq, Eq, Structural, Debug)]
pub enum Mouse {
    ScrollUp,
    ScrollDown,
    Other,
}

/// One event of the guest's terminal.
#[derive(Clone, Copy, PartialEq, Eq, Structural, Debug)]
pub enum TerminalEvent {
    Key(Key, Modifiers),
    Mouse(Mouse),
    Other,
}

/// The command that an event stands for: Page Up, Alt with the up arrow and the mouse
/// wheel scroll back; Page Down, Alt with the down arrow and the wheel scroll
/// forward; Escape goes live; `q` quits.
pub open spec fn command_of(event: TerminalEvent) -> Option<ScrollCmd> {
    match event {
        TerminalEvent::Key(Key::PageUp, _) => Some(ScrollCmd::Up),
        TerminalEvent::Key(Key::Up, Modifiers::Alt) => Some(ScrollCmd::Up),
        TerminalEvent::Key(Key::PageDown, _) => Some(ScrollCmd::Down),
        TerminalEvent::Key(Key::Down, Modifiers::Alt) => Some(ScrollCmd::Down),
        TerminalEvent::Key(Key::Esc, _) => Some(ScrollCmd::Live),
        TerminalEvent::Key(Key::Char('q'), Modifiers::Plain) => Some(ScrollCmd::Quit),
        TerminalEvent::Mouse(Mouse::ScrollUp) => Some(ScrollCmd::Up),
        TerminalEvent::Mouse(Mouse::ScrollDown) => Some(ScrollCmd::Down),
        _ => None,
    }
}

/// What the reader of the guest's terminal does next.
#[derive(Clone, Copy, PartialEq, Eq, Structural, Debug)]
pub enum ListenStep {
    /// Pass the command on.
    Send(ScrollCmd),
    /// Wait for the next event.
    Ignore,
    /// Stop reading.
    Stop,
}

/// Decides on one event of the guest's terminal, or on the failure to read one.
pub fn listen_step(event: Option<TerminalEvent>) -> (r: ListenStep)
    ensures
        r == match event {
            None => ListenStep::Stop,
            Some(e) => match command_of(e) {
                Some(cmd) => ListenStep::Send(cmd),
                None => ListenStep::Ignore,
            },
        },
{
    match event {
        None => ListenStep::Stop,
        Some(e) => match scroll_command(e) {
            Some(cmd) => ListenStep::Send(cmd),
            None => ListenStep::Ignore,
        },
    }
}

/// The command that an event stands for.
pub fn scroll_command(event: TerminalEvent) -> (r: Option<ScrollCmd>)
    ensures
        r == command_of(event),
{
    match event {
        TerminalEvent::Key(Key::PageUp, _) => Some(ScrollCmd::Up),
        TerminalEvent::Key(Key::Up, Modifiers::Alt) => Some(ScrollCmd::Up),
        TerminalEvent::Key(Key::PageDown, _) => Some(ScrollCmd::Down),
        TerminalEvent::Key(Key::Down, Modifiers::Alt) => Some(ScrollCmd::Down),
        TerminalEvent::Key(Key::Esc, _) => Some(ScrollCmd::Live),
        TerminalEvent::Key(Key::Char(c), Modifiers::Plain) => if c == 'q' {
            Some(ScrollCmd::Quit)
        } else {
            None
        },
        TerminalEvent::Mouse(Mouse::ScrollUp) => Some(ScrollCmd::Up),
        TerminalEvent::Mouse(Mouse::ScrollDown) => Some(ScrollCmd::Down),
        _ => None,
    }
}

/// Whether to go on reading the terminal after a command: not once it was to quit, nor
/// when nobody took it.
pub fn keep_listening(cmd: ScrollCmd, delivered: bool) -> (r: bool)
    ensures
        r == (delivered && cmd != ScrollCmd::Quit),
{
    delivered && cmd != ScrollCmd::Quit
}

// ---------------------------------------------------------------------------
// Scrollback
// ---------------------------------------------------------------------------

/// What a guest has seen, and where in it the guest is.
pub struct ScrollbackView {
    /// The latest chunks of the host's output, oldest first.
    pub history: Seq<Seq<u8>>,
    /// How many chunks the guest has scrolled back; none when it follows live.
    pub offset: nat,
}

impl ScrollbackView {
    /// The history is within its limit, and the position within the history.
    pub open spec fn well_formed(self) -> bool {
        &&& self.history.len() <= HISTORY_CAP
        &&& self.offset < self.history.len() || self.offset == 0
    }

    /// The chunk at the guest's position.
    pub open spec fn shown(self) -> Option<Seq<u8>> {
        if self.history.len() == 0 {
            None
        } else {
            Some(self.history[self.history.len() - 1 - self.offset])
        }
    }

    /// After one more chunk of output. When the history is full the oldest chunk goes,
    /// and the position moves one closer to the newest.
    pub open spec fn received(self, chunk: Seq<u8>) -> ScrollbackView {
        if self.history.len() >= HISTORY_CAP {
            ScrollbackView {
                history: self.history.drop_first().push(chunk),
                offset: if self.offset > 0 {
                    (self.offset - 1) as nat
                } else {
                    0
                },
            }
        } else {
            ScrollbackView { history: self.history.push(chunk), offset: self.offset }
        }
    }

    /// After a command of the guest.
    pub open spec fn scrolled(self, cmd: ScrollCmd) -> ScrollbackView {
        match cmd {
            ScrollCmd::Up => ScrollbackView {
                offset: if self.offset + 1 < self.history.len() {
                    self.offset + 1
                } else if self.history.len() > 0 {
                    (self.history.len() - 1) as nat
                } else {
                    0
                },
                ..self
            },
            ScrollCmd::Down => ScrollbackView {
                offset: if self.offset > 0 {
                    (self.offset - 1) as nat
                } else {
                    0
                },
                ..self
            },
            ScrollCmd::Live => ScrollbackView { offset: 0, ..self },
            ScrollCmd::Quit => self,
        }
    }
}

/// The chunks and the position in them.
struct Frames {
    history: VecDeque<Vec<u8>>,
    offset: usize,
}

impl Frames {
    spec fn model(self) -> ScrollbackView {
        ScrollbackView {
            history: self.history@.map_values(|c: Vec<u8>| c@),
            offset: self.offset as nat,
        }
    }

    /// The chunk at the guest's position.
    fn current(&self) -> (r: Option<Vec<u8>>)
        requires
            self.model().well_formed(),
        ensures
            match r {
                Some(chunk) => self.model().shown() == Some(chunk@),
                None => self.model().shown() is None,
            },
    {
        let n: usize = self.history.len();
        if n == 0 {
            return None;
        }
        let i: usize = n - 1 - self.offset;
        let chunk = self.history[i].clone();
        assert(chunk@ =~= self.history@[i as int]@);
        assert(self.model().history[i as int] == self.history@[i as int]@);
        Some(chunk)
    }

    fn receive(&mut self, chunk: Vec<u8>)
        requires
            old(self).model().well_formed(),
        ensures
            final(self).model().well_formed(),
            final(self).model() == old(self).model().received(chunk@),
    {
        if self.history.len() >= HISTORY_CAP {
            self.history.pop_front();
            self.offset = self.offset.saturating_sub(1);
        }
        self.history.push_back(chunk);
        assert(self.model().history =~= old(self).model().received(chunk@).history);
    }

    fn scroll(&mut self, cmd: ScrollCmd)
        requires
            old(self).model().well_formed(),
        ensures
            final(self).model().well_formed(),
            final(self).model() == old(self).model().scrolled(cmd),
    {
        match cmd {
            ScrollCmd::Up => {
                let last: usize = self.history.len().saturating_sub(1);
                self.offset = if self.offset + 1 < last {
                    self.offset + 1
                } else {
                    last
                };
            },
            ScrollCmd::Down => {
                self.offset = self.offset.saturating_sub(1);
            },
            ScrollCmd::Live => {
                self.offset = 0;
            },
            ScrollCmd::Quit => {},
        }
    }
}

/// What happens to a guest.
pub enum GuestEvent {
    /// A chunk of the host's output.
    Output(Vec<u8>),
    /// The stream has ended or broken.
    OutputEnded,
    /// A command.
    Command(ScrollCmd),
    /// There will be no more commands.
    CommandsEnded,
}

/// What a guest does about it.
pub enum GuestAction {
    /// Write these bytes to the terminal.
    Write(Vec<u8>),
    /// Nothing.
    Wait,
    /// Leave the session.
    Leave,
}

/// The meaning of a [`GuestEvent`].
pub enum GuestEventView {
    Output(Seq<u8>),
    OutputEnded,
    Command(ScrollCmd),
    CommandsEnded,
}

impl View for GuestEvent {
    type V = GuestEventView;

    open spec fn view(&self) -> GuestEventView {
        match self {
            GuestEvent::Output(chunk) => GuestEventView::Output(chunk@),
            GuestEvent::OutputEnded => GuestEventView::OutputEnded,
            GuestEvent::Command(cmd) => GuestEventView::Command(*cmd),
            GuestEvent::CommandsEnded => GuestEventView::CommandsEnded,
        }
    }
}

/// The meaning of a [`GuestAction`].
pub enum GuestActionView {
    Write(Seq<u8>),
    Wait,
    Leave,
}

impl View for GuestAction {
    type V = GuestActionView;

    open spec fn view(&self) -> GuestActionView {
        match self {
            GuestAction::Write(bytes) => GuestActionView::Write(bytes@),
            GuestAction::Wait => GuestActionView::Wait,
            GuestAction::Leave => GuestActionView::Leave,
        }
    }
}

impl ScrollbackView {
    /// The state after an event.
    pub open spec fn after(self, event: GuestEventView) -> ScrollbackView {
        match event {
            GuestEventView::Output(chunk) => self.received(chunk),
            GuestEventView::Command(cmd) => self.scrolled(cmd),
            _ => self,
        }
    }

    /// What is done about an event: output is written while the guest follows live; a
    /// scrolling guest is shown the chunk at its new position.
    pub open spec fn action(self, event: GuestEventView) -> GuestActionView {
        match event {
            GuestEventView::Output(chunk) => if self.received(chunk).offset == 0 {
                GuestActionView::Write(chunk)
            } else {
                GuestActionView::Wait
            },
            GuestEventView::Command(cmd) => if cmd == ScrollCmd::Quit {
                GuestActionView::Leave
            } else {
                match self.scrolled(cmd).shown() {
                    Some(chunk) => GuestActionView::Write(chunk),
                    None => GuestActionView::Wait,
                }
            },
            _ => GuestActionView::Leave,
        }
    }
}

/// What a guest has seen, and where in it the guest is.
pub struct Scrollback {
    frames: Frames,
}

impl View for Scrollback {
    type V = ScrollbackView;

    closed spec fn view(&self) -> ScrollbackView {
        self.frames.model()
    }
}

impl Scrollback {
    #[verifier::type_invariant]
    spec fn well_formed(self) -> bool {
        self.frames.model().well_formed()
    }

    /// A guest that has seen nothing yet.
    pub fn new() -> (r: Self)
        ensures
            r@ == (ScrollbackView { history: Seq::empty(), offset: 0 }),
    {
        let frames = Frames { history: VecDeque::with_capacity(HISTORY_CAP + 1), offset: 0 };
        assert(frames.model().history =~= Seq::<Seq<u8>>::empty());
        Scrollback { frames }
    }

    /// Takes in an event, and decides what to do about it.
    pub fn step(&mut self, event: GuestEvent) -> (r: GuestAction)
        ensures
            old(self)@.well_formed(),
            final(self)@.well_formed(),
            final(self)@ == old(self)@.after(event@),
            r@ == old(self)@.action(event@),
    {
        proof {
            use_type_invariant(&*self);
        }
        let mut frames = Frames { history: VecDeque::new(), offset: 0 };
        std::mem::swap(&mut frames, &mut self.frames);
        let action = match event {
            GuestEvent::Output(chunk) => {
                let copy = chunk.clone();
                assert(copy@ =~= chunk@);
                frames.receive(chunk);
                if frames.offset == 0 {
                    GuestAction::Write(copy)
                } else {
                    GuestAction::Wait
                }
            },
            GuestEvent::Command(cmd) => {
                frames.scroll(cmd);
                if cmd == ScrollCmd::Quit {
                    GuestAction::Leave
                } else {
                    match frames.current() {
                        Some(chunk) => GuestAction::Write(chunk),
                        None => GuestAction::Wait,
                    }
                }
            },
            GuestEvent::OutputEnded => GuestAction::Leave,
            GuestEvent::CommandsEnded => GuestAction::Leave,
        };
        self.frames = frames;
        action
    }
}

// ---------------------------------------------------------------------------
// Laws
// ---------------------------------------------------------------------------

/// Page Up and Page Down scroll back and forward, whatever modifiers are held.
pub proof fn law_page_keys_scroll_with_any_modifiers(
    modifiers: Modifiers,
    up: Option<ScrollCmd>,
    down: Option<ScrollCmd>,
)
    requires
        call_ensures(scroll_command, (TerminalEvent::Key(Key::PageUp, modifiers),), up),
        call_ensures(scroll_command, (TerminalEvent::Key(Key::PageDown, modifiers),), down),
    ensures
        up == Some(ScrollCmd::Up),
        down == Some(ScrollCmd::Down),
{
}

/// The arrows scroll with Alt alone, as the page keys do; with any other modifiers, or none, they
/// do nothing.
pub proof fn law_arrows_scroll_with_alt_alone(
    modifiers: Modifiers,
    up: Option<ScrollCmd>,
    down: Option<ScrollCmd>,
)
    requires
        call_ensures(scroll_command, (TerminalEvent::Key(Key::Up, modifiers),), up),
        call_ensures(scroll_command, (TerminalEvent::Key(Key::Down, modifiers),), down),
    ensures
        up is Some <==> modifiers == Modifiers::Alt,
        down is Some <==> modifiers == Modifiers::Alt,
        up matches Some(cmd) ==> cmd == ScrollCmd::Up,
        down matches Some(cmd) ==> cmd == ScrollCmd::Down,
{
}

/// The mouse scrolls by its wheel and does nothing else.
pub proof fn law_mouse_scrolls_by_its_wheel(mouse: Mouse, r: Option<ScrollCmd>)
    requires
        call_ensures(scroll_command, (TerminalEvent::Mouse(mouse),), r),
    ensures
        r == Some(ScrollCmd::Up) <==> mouse == Mouse::ScrollUp,
        r == Some(ScrollCmd::Down) <==> mouse == Mouse::ScrollDown,
        r is None <==> mouse == Mouse::Other,
{
}

/// Escape goes live, whatever modifiers are held. Of the characters only `q`, without
/// modifiers, is a command: it quits. Nothing else quits or goes live, and other keys and events
/// do nothing.
pub proof fn law_escape_goes_live_and_plain_q_quits(
    event: TerminalEvent,
    modifiers: Modifiers,
    c: char,
    r: Option<ScrollCmd>,
)
    requires
        call_ensures(scroll_command, (event,), r),
    ensures
        event == TerminalEvent::Key(Key::Esc, modifiers) ==> r == Some(ScrollCmd::Live),
        r == Some(ScrollCmd::Live) ==> (event matches TerminalEvent::Key(key, _) && key == Key::Esc),
        r == Some(ScrollCmd::Quit) <==> event == TerminalEvent::Key(
            Key::Char('q'),
            Modifiers::Plain,
        ),
        event == TerminalEvent::Key(Key::Char(c), modifiers) && (c != 'q' || modifiers
            != Modifiers::Plain) ==> r is None,
        event == TerminalEvent::Key(Key::Other, modifiers) || event == TerminalEvent::Other ==> r
            is None,
{
}

/// Every command is passed on as it is, and what is none is passed over; the reader stops only
/// where reading fails.
pub proof fn law_commands_are_passed_on(
    event: TerminalEvent,
    cmd: Option<ScrollCmd>,
    r: ListenStep,
    failed: ListenStep,
)
    requires
        call_ensures(scroll_command, (event,), cmd),
        call_ensures(listen_step, (Some(event),), r),
        call_ensures(listen_step, (None::<TerminalEvent>,), failed),
    ensures
        cmd matches Some(c) ==> r == ListenStep::Send(c),
        cmd is None ==> r == ListenStep::Ignore,
        failed == ListenStep::Stop,
{
}

/// The reader goes on after every command that was taken, but for the one to quit.
pub proof fn law_reader_goes_on_until_quit(
    cmd: ScrollCmd,
    taken: bool,
    lost: bool,
)
    requires
        call_ensures(keep_listening, (cmd, true), taken),
        call_ensures(keep_listening, (cmd, false), lost),
    ensures
        !lost,
        !taken <==> cmd == ScrollCmd::Quit,
{
}

/// The state after a run of events.
pub open spec fn after_all(s: ScrollbackView, events: Seq<GuestEventView>) -> ScrollbackView
    decreases events.len(),
{
    if events.len() == 0 {
        s
    } else {
        after_all(s, events.drop_last()).after(events.last())
    }
}

/// The chunks of output among some events.
pub open spec fn output_of(events: Seq<GuestEventView>) -> Seq<Seq<u8>>
    decreases events.len(),
{
    if events.len() == 0 {
        Seq::empty()
    } else {
        match events.last() {
            GuestEventView::Output(chunk) => output_of(events.drop_last()).push(chunk),
            _ => output_of(events.drop_last()),
        }
    }
}

/// The last `n` chunks, or all of them if there are no more.
pub open spec fn latest(chunks: Seq<Seq<u8>>, n: nat) -> Seq<Seq<u8>> {
    if chunks.len() <= n {
        chunks
    } else {
        chunks.skip(chunks.len() - n)
    }
}

/// The history is the latest output, whatever the guest did in between, and the
/// guest's position stays within it.
pub proof fn law_history_is_latest_output(events: Seq<GuestEventView>)
    ensures
        ({
            let start = ScrollbackView { history: Seq::empty(), offset: 0 };
            let end = after_all(start, events);
            &&& end.history == latest(output_of(events), 100_000)
            &&& end.well_formed()
        }),
    decreases events.len(),
{
    let start = ScrollbackView { history: Seq::empty(), offset: 0 };
    if events.len() > 0 {
        law_history_is_latest_output(events.drop_last());
        let before = after_all(start, events.drop_last());
        if let GuestEventView::Output(chunk) = events.last() {
            assert(before.received(chunk).history =~= latest(output_of(events), 100_000));
        }
    }
}

/// A guest that follows live goes on following: each chunk is written as it comes.
pub proof fn law_live_guest_sees_each_chunk(s: ScrollbackView, chunk: Seq<u8>)
    requires
        s.well_formed(),
        s.offset == 0,
    ensures
        s.action(GuestEventView::Output(chunk)) == GuestActionView::Write(chunk),
        s.after(GuestEventView::Output(chunk)).offset == 0,
        s.after(GuestEventView::Output(chunk)).shown() == Some(chunk),
{
}

/// A guest that has scrolled back is not disturbed by output, unless that moves it back
/// to the newest chunk.
pub proof fn law_scrolled_guest_is_not_disturbed(s: ScrollbackView, chunk: Seq<u8>)
    requires
        s.well_formed(),
        s.offset > 0,
        s.history.len() < HISTORY_CAP || s.offset > 1,
    ensures
        s.action(GuestEventView::Output(chunk)) == GuestActionView::Wait,
        s.after(GuestEventView::Output(chunk)).offset > 0,
{
}

/// Scrolling back and forward again returns to the same place, unless the guest was at
/// the oldest chunk; so does forward and back, unless it was at the newest.
pub proof fn law_scrolling_can_be_undone(s: ScrollbackView)
    requires
        s.well_formed(),
    ensures
        s.offset + 1 < s.history.len() ==> s.scrolled(ScrollCmd::Up).scrolled(ScrollCmd::Down) == s,
        s.offset > 0 ==> s.scrolled(ScrollCmd::Down).scrolled(ScrollCmd::Up) == s,
{
}

/// Going live shows the newest chunk, from wherever the guest was, and twice is the same
/// as once.
pub proof fn law_live_returns_to_newest(s: ScrollbackView)
    requires
        s.well_formed(),
        s.history.len() > 0,
    ensures
        s.action(GuestEventView::Command(ScrollCmd::Live)) == GuestActionView::Write(
            s.history.last(),
        ),
        s.scrolled(ScrollCmd::Live).offset == 0,
        s.scrolled(ScrollCmd::Live).scrolled(ScrollCmd::Live) == s.scrolled(ScrollCmd::Live),
{
}

/// Only output changes the history, and no command leads out of it.
pub proof fn law_commands_keep_history(s: ScrollbackView, cmd: ScrollCmd)
    requires
        s.well_formed(),
    ensures
        s.scrolled(cmd).history == s.history,
        s.scrolled(cmd).well_formed(),
{
}

/// A step of the scrollback is what the laws speak of: the state that follows, and what is done.
pub proof fn law_scrollback_steps_as_modelled(event: GuestEvent, r: GuestAction)
    ensures
        forall|s: &mut Scrollback| #[trigger]
            call_ensures(Scrollback::step, (s, event), r) ==> (*s)@.well_formed() && (*final(s))@
                == (*s)@.after(event@) && r@ == (*s)@.action(event@),
        forall|s: Scrollback| #[trigger]
            call_ensures(Scrollback::new, (), s) ==> s@.history.len() == 0 && s@.offset == 0,
{
}

/// Scrolling back shows the chunk before the one that the guest is at, and moves there; at the
/// oldest it stays.
pub proof fn law_up_shows_the_chunk_before(s: ScrollbackView)
    requires
        s.well_formed(),
        s.history.len() > 0,
    ensures
        ({
            let at = s.history.len() - 1 - s.offset;
            let to = if at > 0 {
                at - 1
            } else {
                0
            };
            let up = GuestEventView::Command(ScrollCmd::Up);
            &&& s.action(up) == GuestActionView::Write(s.history[to])
            &&& s.after(up).history == s.history
            &&& s.after(up).history.len() - 1 - s.after(up).offset == to
        }),
{
}

/// Scrolling forward shows the chunk after the one that the guest is at, and moves there; at the
/// newest it stays.
pub proof fn law_down_shows_the_chunk_after(s: ScrollbackView)
    requires
        s.well_formed(),
        s.history.len() > 0,
    ensures
        ({
            let at = s.history.len() - 1 - s.offset;
            let to = if at + 1 < s.history.len() {
                at + 1
            } else {
                at
            };
            let down = GuestEventView::Command(ScrollCmd::Down);
            &&& s.action(down) == GuestActionView::Write(s.history[to])
            &&& s.after(down).history == s.history
            &&& s.after(down).history.len() - 1 - s.after(down).offset == to
        }),
{
}

/// Scrolling back `n` times from the newest chunk shows the one `n` before it, as far as there
/// are any.
pub proof fn law_scrolling_back_goes_chunk_by_chunk(s: ScrollbackView, ups: Seq<GuestEventView>)
    requires
        s.well_formed(),
        s.offset == 0,
        0 < ups.len() < s.history.len(),
        forall|i: int|
            0 <= i < ups.len() ==> #[trigger] ups[i] == GuestEventView::Command(ScrollCmd::Up),
    ensures
        after_all(s, ups).shown() == Some(s.history[s.history.len() - 1 - ups.len()]),
        after_all(s, ups).history == s.history,
{
    lemma_ups(s, ups);
}

proof fn lemma_ups(s: ScrollbackView, ups: Seq<GuestEventView>)
    requires
        s.well_formed(),
        s.offset == 0,
        ups.len() < s.history.len(),
        forall|i: int|
            0 <= i < ups.len() ==> #[trigger] ups[i] == GuestEventView::Command(ScrollCmd::Up),
    ensures
        after_all(s, ups) == (ScrollbackView { history: s.history, offset: ups.len() }),
    decreases ups.len(),
{
    if ups.len() > 0 {
        let init = ups.drop_last();
        assert forall|i: int| 0 <= i < init.len() implies #[trigger] init[i]
            == GuestEventView::Command(ScrollCmd::Up) by {
            assert(ups[i] == GuestEventView::Command(ScrollCmd::Up));
        }
        lemma_ups(s, init);
        assert(ups[ups.len() - 1] == GuestEventView::Command(ScrollCmd::Up));
    }
}

/// Where there is no output yet there is nothing to show, and scrolling changes nothing.
pub proof fn law_without_output_nothing_is_shown(s: ScrollbackView, cmd: ScrollCmd)
    requires
        s.well_formed(),
        s.history.len() == 0,
        cmd != ScrollCmd::Quit,
    ensures
        s.action(GuestEventView::Command(cmd)) == GuestActionView::Wait,
        s.after(GuestEventView::Command(cmd)) == s,
{
}

/// A guest leaves when it quits, when the stream ends and when there will be no more commands,
/// and at no other time; leaving changes nothing.
pub proof fn law_guest_leaves_at_the_end_alone(s: ScrollbackView, event: GuestEventView)
    ensures
        s.action(event) == GuestActionView::Leave <==> event == GuestEventView::Command(
            ScrollCmd::Quit,
        ) || event == GuestEventView::OutputEnded || event == GuestEventView::CommandsEnded,
        s.action(event) == GuestActionView::Leave ==> s.after(event) == s,
{
}

/// Output leaves a guest as far from the newest chunk as it was; only where the oldest chunk
/// goes does it come one closer. It is written just where that is at the newest.
pub proof fn law_output_keeps_the_position(s: ScrollbackView, chunk: Seq<u8>)
    requires
        s.well_formed(),
    ensures
        ({
            let after = s.after(GuestEventView::Output(chunk));
            &&& s.history.len() < 100_000 ==> after.history == s.history.push(chunk)
            &&& s.history.len() < 100_000 ==> after.offset == s.offset
            &&& s.history.len() == 100_000 ==> after.history == s.history.skip(1).push(chunk)
            &&& s.history.len() == 100_000 && s.offset > 0 ==> after.offset == s.offset - 1
            &&& s.offset == 0 ==> after.offset == 0
            &&& s.action(GuestEventView::Output(chunk)) == if after.offset == 0 {
                GuestActionView::Write(chunk)
            } else {
                GuestActionView::Wait
            }
        }),
{
    assert(s.history.drop_first() =~= s.history.skip(1));
}

/// What is written to a guest's terminal over some events.
pub open spec fn written(s: ScrollbackView, events: Seq<GuestEventView>) -> Seq<u8>
    decreases events.len(),
{
    if events.len() == 0 {
        Seq::empty()
    } else {
        let init = events.drop_last();
        match after_all(s, init).action(events.last()) {
            GuestActionView::Write(bytes) => written(s, init) + bytes,
            _ => written(s, init),
        }
    }
}

/// A guest that follows live and does not scroll is written all of the host's output, in order
/// and once.
pub proof fn law_live_guest_sees_all_output(s: ScrollbackView, events: Seq<GuestEventView>)
    requires
        s.well_formed(),
        s.offset == 0,
        forall|i: int| 0 <= i < events.len() ==> #[trigger] events[i] is Output,
    ensures
        written(s, events) == bytes_of(output_of(events)),
        after_all(s, events).offset == 0,
        after_all(s, events).well_formed(),
    decreases events.len(),
{
    if events.len() > 0 {
        let init = events.drop_last();
        assert forall|i: int| 0 <= i < init.len() implies #[trigger] init[i] is Output by {
            assert(events[i] is Output);
        }
        law_live_guest_sees_all_output(s, init);
        assert(events[events.len() - 1] is Output);
        if let GuestEventView::Output(chunk) = events.last() {
            let before = output_of(init);
            assert(before.push(chunk).drop_last() =~= before);
        }
    }
}

/// Events and actions mean what they hold.
pub proof fn law_guest_events_mean_what_they_hold(bytes: Vec<u8>, cmd: ScrollCmd)
    ensures
        GuestEvent::Output(bytes)@ == GuestEventView::Output(bytes@),
        GuestEvent::OutputEnded@ == GuestEventView::OutputEnded,
        GuestEvent::Command(cmd)@ == GuestEventView::Command(cmd),
        GuestEvent::CommandsEnded@ == GuestEventView::CommandsEnded,
        GuestAction::Write(bytes)@ == GuestActionView::Write(bytes@),
        GuestAction::Wait@ == GuestActionView::Wait,
        GuestAction::Leave@ == GuestActionView::Leave,
{
}

} // verus!
