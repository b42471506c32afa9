//! What a sharing process remembers: the channel to its guests, the last frame drawn,
//! and whether a full repaint has been asked for.
use crate::channel::{capacity, missed, new_channel, receiver_count, send, sent, subscribe_to};
use crate::protocol::ShareError;
use tokio::sync::broadcast;
use vstd::prelude::*;
use vstd::slice::*;

verus! {

/// How many frames are kept for a guest that falls behind.
pub const SHARE_BACKLOG: usize = 2048;

/// What a process shares.
pub struct ShareState {
    tx: Option<broadcast::Sender<Vec<u8>>>,
    // The last complete frame, so that a guest sees the screen on joining.
    frame: Vec<u8>,
    // Set to have everything drawn again on the next tick.
    repaint: bool,
}

/// The channel to the guests.
pub struct ChannelView {
    /// The frames sent so far.
    pub sent: Seq<Seq<u8>>,
    /// How many frames are kept for a guest that falls behind.
    pub capacity: nat,
}

/// The meaning of a [`ShareState`].
pub struct ShareView {
    /// The channel to the guests, once sharing has been set up.
    pub channel: Option<ChannelView>,
    /// The last frame.
    pub frame: Seq<u8>,
    /// Whether a full repaint has been asked for.
    pub repaint: bool,
}

impl View for ShareState {
    type V = ShareView;

    closed spec fn view(&self) -> ShareView {
        ShareView {
            channel: match self.tx {
                Some(tx) => Some(ChannelView { sent: sent(tx), capacity: capacity(tx) }),
                None => None,
            },
            frame: self.frame@,
            repaint: self.repaint,
        }
    }
}

impl ShareView {
    /// Before sharing is set up.
    pub open spec fn idle() -> ShareView {
        ShareView { channel: None, frame: Seq::empty(), repaint: false }
    }

    /// After sharing is set up; the first time opens the channel, later times do nothing.
    pub open spec fn initialised(self) -> ShareView {
        match self.channel {
            Some(_) => self,
            None => ShareView {
                channel: Some(ChannelView { sent: Seq::empty(), capacity: SHARE_BACKLOG as nat }),
                ..self
            },
        }
    }

    /// The last frame, if one has been drawn while sharing.
    pub open spec fn last_frame(self) -> Option<Seq<u8>> {
        if self.channel is Some && self.frame.len() > 0 {
            Some(self.frame)
        } else {
            None
        }
    }

    /// After a full repaint has been asked for, which counts only while sharing.
    pub open spec fn repaint_requested(self) -> ShareView {
        if self.channel is Some {
            ShareView { repaint: true, ..self }
        } else {
            self
        }
    }

    /// After the request for a full repaint has been taken.
    pub open spec fn repaint_taken(self) -> ShareView {
        ShareView { repaint: false, ..self }
    }

    /// After a frame has been drawn, with so many guests at the time: it becomes the last
    /// frame, and goes out if anyone is there to see it.
    pub open spec fn published(self, frame: Seq<u8>, guests: nat) -> ShareView {
        match self.channel {
            Some(channel) => ShareView {
                channel: Some(
                    ChannelView {
                        sent: if guests > 0 {
                            channel.sent.push(frame)
                        } else {
                            channel.sent
                        },
                        ..channel
                    },
                ),
                frame,
                ..self
            },
            None => self,
        }
    }
}

impl ShareState {
    /// A process that has not set up sharing.
    pub fn new() -> (r: Self)
        ensures
            r@ == ShareView::idle(),
    {
        let r = ShareState { tx: None, frame: Vec::new(), repaint: false };
        assert(r@.frame =~= Seq::<u8>::empty());
        r
    }

    /// The sender of the channel, once sharing has been set up.
    pub closed spec fn sender(self) -> Option<broadcast::Sender<Vec<u8>>> {
        self.tx
    }

    /// Whether `n` is what counting the receivers of the channel may give at this moment.
    pub closed spec fn counted(self, n: usize) -> bool {
        self.tx matches Some(tx) && call_ensures(receiver_count, (&tx,), n)
    }
}

/// Sets up sharing, unless that has been done: the sender of the channel, the same one every
/// time.
pub fn init(state: &mut ShareState) -> (r: &broadcast::Sender<Vec<u8>>)
    ensures
        final(state)@ == old(state)@.initialised(),
        final(state)@.channel == Some(ChannelView { sent: sent(*r), capacity: capacity(*r) }),
        final(state).sender() == Some(*r),
        old(state).sender() is Some ==> final(state).sender() == old(state).sender(),
        old(state).sender() is Some <==> old(state)@.channel is Some,
{
    if state.tx.is_none() {
        state.tx = Some(new_channel(SHARE_BACKLOG));
    }
    state.tx.as_ref().unwrap()
}

/// A receiver of the frames to come; `None` if sharing is not set up.
pub fn subscribe(state: &ShareState) -> (r: Option<broadcast::Receiver<Vec<u8>>>)
    ensures
        match r {
            Some(rx) => state@.channel matches Some(channel) && missed(rx) == channel.sent,
            None => state@.channel is None,
        },
{
    match &state.tx {
        Some(tx) => Some(subscribe_to(tx)),
        None => None,
    }
}

/// Whether sharing is set up.
pub fn is_active(state: &ShareState) -> (r: bool)
    ensures
        r == (state@.channel is Some),
{
    state.tx.is_some()
}

/// Whether anyone watches, with so many receivers of the channel.
pub fn is_watched(state: &ShareState, receivers: usize) -> (r: bool)
    ensures
        r == (state@.channel is Some && receivers > 0),
{
    is_active(state) && receivers > 0
}

/// Whether anyone watches at this moment. Guests come and go by themselves; without
/// sharing there are none.
pub fn has_guests(state: &ShareState) -> (r: bool)
    ensures
        state@.channel is None ==> !r,
        state@.channel is Some ==> exists|n: usize| #[trigger] state.counted(n) && r == (n > 0),
{
    match &state.tx {
        Some(tx) => {
            let receivers: usize = ask(receiver_count, tx);
            assert(state.counted(receivers));
            is_watched(state, receivers)
        },
        None => false,
    }
}

/// Asks `count` about a channel: what it gave.
fn ask<F: Fn(&broadcast::Sender<Vec<u8>>) -> usize>(
    count: F,
    tx: &broadcast::Sender<Vec<u8>>,
) -> (n: usize)
    requires
        call_requires(count, (tx,)),
    ensures
        call_ensures(count, (tx,), n),
{
    count(tx)
}

/// Asks for everything to be drawn again, if sharing is set up.
pub fn request_full_repaint(state: &mut ShareState)
    ensures
        final(state)@ == old(state)@.repaint_requested(),
        final(state).sender() == old(state).sender(),
{
    if state.tx.is_some() {
        state.repaint = true;
    }
}

/// Whether a full repaint has been asked for since the last call.
pub fn take_repaint_request(state: &mut ShareState) -> (r: bool)
    ensures
        r == old(state)@.repaint,
        final(state)@ == old(state)@.repaint_taken(),
        final(state).sender() == old(state).sender(),
{
    let requested = state.repaint;
    state.repaint = false;
    requested
}

/// The last frame drawn while sharing; `None` if there is none, or it was empty.
pub fn last_frame(state: &ShareState) -> (r: Option<Vec<u8>>)
    ensures
        match r {
            Some(frame) => state@.last_frame() == Some(frame@),
            None => state@.last_frame() is None,
        },
{
    if state.tx.is_none() || state.frame.len() == 0 {
        None
    } else {
        let frame = state.frame.clone();
        assert(frame@ =~= state.frame@);
        Some(frame)
    }
}

/// Takes in a frame that has been drawn, with so many receivers of the channel.
pub fn publish_frame(state: &mut ShareState, bytes: &[u8], receivers: usize)
    ensures
        final(state)@ == old(state)@.published(bytes@, receivers as nat),
{
    if let Some(tx) = &mut state.tx {
        if receivers > 0 {
            send(tx, slice_to_vec(bytes));
        }
        state.frame = slice_to_vec(bytes);
    }
}

/// Takes in a frame that has been drawn: keeps it as the last one, and sends it to the
/// guests there are at this moment. Does nothing if sharing is not set up.
pub fn broadcast_frame(state: &mut ShareState, bytes: &[u8])
    ensures
        old(state)@.channel is None ==> final(state)@ == old(state)@,
        old(state)@.channel is Some ==> exists|n: usize| #[trigger]
            old(state).counted(n) && final(state)@ == old(state)@.published(bytes@, n as nat),
{
    let receivers: usize = match &state.tx {
        Some(tx) => ask(receiver_count, tx),
        None => 0,
    };
    assert(state.tx is Some ==> state.counted(receivers));
    publish_frame(state, bytes, receivers);
}

/// What a share that starts sending is given: a receiver of the frames to come, and the
/// last frame, which goes out first so that a guest does not see an empty terminal
/// until the next one. An error if sharing is not set up.
pub fn begin_sending(state: &ShareState) -> (r: Result<
    (broadcast::Receiver<Vec<u8>>, Option<Vec<u8>>),
    ShareError,
>)
    ensures
        match r {
            Ok((rx, first)) => {
                &&& state@.channel matches Some(channel)
                &&& missed(rx) == channel.sent
                &&& match first {
                    Some(frame) => state@.last_frame() == Some(frame@),
                    None => state@.last_frame() is None,
                }
            },
            Err(e) => state@.channel is None && e is NotInitialised,
        },
{
    match subscribe(state) {
        Some(rx) => Ok((rx, last_frame(state))),
        None => Err(ShareError::NotInitialised),
    }
}

// ---------------------------------------------------------------------------
// Laws
// ---------------------------------------------------------------------------

/// While sharing, the last frame is the one drawn last, whether or not anyone watched; an
/// empty one counts as none.
pub proof fn law_last_frame_is_the_latest(s: ShareView, frame: Seq<u8>, guests: nat)
    requires
        s.channel is Some,
    ensures
        s.published(frame, guests).last_frame() == if frame.len() > 0 {
            Some(frame)
        } else {
            None
        },
{
}

/// A request for a repaint is taken once, and is lost if sharing is not set up.
pub proof fn law_repaint_is_taken_once(s: ShareView)
    ensures
        s.channel is Some ==> s.repaint_requested().repaint,
        !s.repaint_taken().repaint,
        s.repaint_taken().channel == s.channel && s.repaint_taken().frame == s.frame,
        s.channel is None ==> s.repaint_requested() == s,
        s.repaint_requested().repaint_requested() == s.repaint_requested(),
{
}

/// Until sharing is set up, frames and requests leave no trace.
pub proof fn law_idle_process_shares_nothing(frame: Seq<u8>, guests: nat)
    ensures
        ShareView::idle().published(frame, guests) == ShareView::idle(),
        ShareView::idle().repaint_requested() == ShareView::idle(),
        ShareView::idle().last_frame() is None,
{
}

/// Sharing is set up once: doing it again changes nothing, and whatever follows, it stays
/// set up.
pub proof fn law_sharing_is_set_up_once(s: ShareView, frame: Seq<u8>, guests: nat)
    ensures
        s.initialised().channel is Some,
        s.initialised().initialised() == s.initialised(),
        s.channel is Some ==> s.initialised() == s,
        s.initialised().published(frame, guests).channel is Some,
        s.initialised().repaint_requested().channel is Some,
{
}

/// A subscriber that joins between two frames gets the second and not the first.
pub proof fn law_subscriber_sees_later_frames(
    s: ShareView,
    early: Seq<u8>,
    late: Seq<u8>,
    guests_early: nat,
    guests_late: nat,
)
    requires
        s.channel is Some,
        guests_late > 0,
    ensures
        ({
            let at_join = s.published(early, guests_early);
            let now = at_join.published(late, guests_late);
            &&& at_join.channel matches Some(before)
            &&& now.channel matches Some(after)
            &&& after.sent.skip(before.sent.len() as int) == seq![late]
        }),
{
    let at_join = s.published(early, guests_early);
    let now = at_join.published(late, guests_late);
    let before = at_join.channel.unwrap();
    let after = now.channel.unwrap();
    assert(after.sent.skip(before.sent.len() as int) =~= seq![late]);
}

/// A process after several frames have been drawn, with so many guests at the time of each.
pub open spec fn published_all(s: ShareView, frames: Seq<(Seq<u8>, nat)>) -> ShareView
    decreases frames.len(),
{
    if frames.len() == 0 {
        s
    } else {
        published_all(s, frames.drop_last()).published(frames.last().0, frames.last().1)
    }
}

/// The frames that someone was there to see.
pub open spec fn frames_watched(frames: Seq<(Seq<u8>, nat)>) -> Seq<Seq<u8>>
    decreases frames.len(),
{
    if frames.len() == 0 {
        Seq::empty()
    } else if frames.last().1 > 0 {
        frames_watched(frames.drop_last()).push(frames.last().0)
    } else {
        frames_watched(frames.drop_last())
    }
}

/// While sharing, every frame that is drawn when someone watches goes out, in order and once, and
/// no other; the frame drawn last is kept, watched or not, and neither the backlog nor a request
/// for a repaint is touched.
pub proof fn law_watched_frames_go_out_in_order(s: ShareView, frames: Seq<(Seq<u8>, nat)>)
    requires
        s.channel is Some,
    ensures
        ({
            let end = published_all(s, frames);
            &&& end.channel matches Some(channel)
            &&& s.channel matches Some(before)
            &&& channel.sent == before.sent + frames_watched(frames)
            &&& channel.capacity == before.capacity
            &&& end.repaint == s.repaint
            &&& end.frame == if frames.len() > 0 {
                frames.last().0
            } else {
                s.frame
            }
        }),
    decreases frames.len(),
{
    let before = s.channel.unwrap();
    if frames.len() == 0 {
        assert(before.sent + frames_watched(frames) =~= before.sent);
    } else {
        law_watched_frames_go_out_in_order(s, frames.drop_last());
        let end = published_all(s, frames);
        assert(end.channel.unwrap().sent =~= before.sent + frames_watched(frames));
    }
}

/// A frame that is taken in is kept as the last one, and goes out just where someone watches;
/// without sharing nothing happens.
pub proof fn law_frame_is_kept_and_sent(bytes: &[u8], receivers: usize, r: ())
    ensures
        forall|s: &mut ShareState| #[trigger]
            call_ensures(publish_frame, (s, bytes, receivers), r) ==> {
                let before = (*s)@;
                let after = (*final(s))@;
                &&& before.channel is None ==> after == before
                &&& before.channel matches Some(channel) ==> {
                    &&& after.frame == bytes@
                    &&& after.repaint == before.repaint
                    &&& after.channel matches Some(now)
                    &&& now.capacity == channel.capacity
                    &&& receivers > 0 ==> now.sent == channel.sent.push(bytes@)
                    &&& receivers == 0 ==> now.sent == channel.sent
                }
            },
        forall|s: &mut ShareState| #[trigger]
            call_ensures(broadcast_frame, (s, bytes), r) ==> {
                let before = (*s)@;
                let after = (*final(s))@;
                &&& before.channel is None ==> after == before
                &&& before.channel matches Some(channel) ==> {
                    &&& after.frame == bytes@
                    &&& after.repaint == before.repaint
                    &&& after.channel matches Some(now)
                    &&& now.capacity == channel.capacity
                    &&& exists|n: usize| #[trigger]
                        (*s).counted(n) && now.sent == if n > 0 {
                            channel.sent.push(bytes@)
                        } else {
                            channel.sent
                        }
                }
            },
{
}

/// Sharing is set up with a backlog of two thousand and some frames and nothing sent; what was
/// there before stays, and setting it up again changes nothing.
pub proof fn law_sharing_starts_with_nothing_sent(s: ShareView)
    ensures
        s.channel is None ==> (s.initialised().channel matches Some(channel) && channel.sent.len()
            == 0 && channel.capacity == 2048),
        s.channel is Some ==> s.initialised().channel == s.channel,
        s.initialised().frame == s.frame,
        s.initialised().repaint == s.repaint,
        ShareView::idle().channel is None,
        ShareView::idle().frame.len() == 0,
        !ShareView::idle().repaint,
{
}

/// Setting up sharing hands out the sender of the channel, the same one as long as the process
/// runs, and touches nothing else.
pub proof fn law_sender_is_handed_out(r: &broadcast::Sender<Vec<u8>>)
    ensures
        forall|s: &mut ShareState| #[trigger]
            call_ensures(init, (s,), r) ==> {
                let before = (*s)@;
                let after = (*final(s))@;
                &&& (*final(s)).sender() == Some(*r)
                &&& before.channel is Some ==> (*s).sender() == Some(*r)
                &&& after.channel == Some(ChannelView { sent: sent(*r), capacity: capacity(*r) })
                &&& before.channel is None ==> sent(*r).len() == 0 && capacity(*r) == 2048
                &&& before.channel is Some ==> after == before
                &&& after.frame == before.frame
                &&& after.repaint == before.repaint
            },
        forall|s: ShareState| #[trigger]
            call_ensures(ShareState::new, (), s) ==> s@.channel is None && s@.frame.len() == 0
                && !s@.repaint,
{
}

/// A request for a repaint is there once it has been made while sharing, is seen by the next to
/// ask, and then is gone; the frames are not touched by it.
pub proof fn law_repaint_is_seen_by_the_next_to_ask(r: (), q: bool)
    ensures
        forall|s: &mut ShareState| #[trigger]
            call_ensures(request_full_repaint, (s,), r) ==> {
                let before = (*s)@;
                let after = (*final(s))@;
                &&& after.repaint == (before.repaint || before.channel is Some)
                &&& after.frame == before.frame && after.channel == before.channel
            },
        forall|s: &mut ShareState| #[trigger]
            call_ensures(take_repaint_request, (s,), q) ==> {
                let before = (*s)@;
                let after = (*final(s))@;
                &&& q == before.repaint
                &&& !after.repaint
                &&& after.frame == before.frame && after.channel == before.channel
            },
{
}

/// What a process that shares can be asked: whether it does, whether anyone watches, and the
/// frame on the screen, which an empty one is not.
pub proof fn law_sharing_can_be_asked_about(
    state: &ShareState,
    receivers: usize,
    active: bool,
    watched: bool,
    guests: bool,
    frame: Option<Vec<u8>>,
)
    requires
        call_ensures(is_active, (state,), active),
        call_ensures(is_watched, (state, receivers), watched),
        call_ensures(has_guests, (state,), guests),
        call_ensures(last_frame, (state,), frame),
    ensures
        active <==> state@.channel is Some,
        watched <==> active && receivers > 0,
        guests ==> active,
        active ==> exists|n: usize| #[trigger] state.counted(n) && (guests <==> n > 0),
        frame is Some <==> active && state@.frame.len() > 0,
        frame matches Some(bytes) ==> bytes@ == state@.frame,
{
}

/// Who subscribes to a process that shares receives what is sent from then on; a share that
/// starts sending is given that, and the frame on the screen with it. Without sharing there is
/// neither.
pub proof fn law_subscribers_receive_what_comes(
    state: &ShareState,
    rx: Option<broadcast::Receiver<Vec<u8>>>,
    begun: Result<(broadcast::Receiver<Vec<u8>>, Option<Vec<u8>>), ShareError>,
    frame: Option<Vec<u8>>,
)
    requires
        call_ensures(subscribe, (state,), rx),
        call_ensures(begin_sending, (state,), begun),
        call_ensures(last_frame, (state,), frame),
    ensures
        rx is Some <==> state@.channel is Some,
        begun is Ok <==> state@.channel is Some,
        state@.channel matches Some(channel) ==> {
            &&& rx matches Some(receiver)
            &&& begun matches Ok((other, first))
            &&& missed(receiver) == channel.sent
            &&& missed(other) == channel.sent
            &&& first is Some <==> frame is Some
            &&& first matches Some(bytes) ==> bytes@ == state@.frame
        },
        begun matches Err(e) ==> e.text() == "session not initialised"@,
{
}

} // verus!
