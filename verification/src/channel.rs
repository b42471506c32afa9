//! The broadcast channel that carries terminal output to every guest.
//!
//! The channel itself is `tokio::sync::broadcast`. What is stated here of it is
//! taken from its documentation and source: a sender hands each value to every
//! receiver that is subscribed at that moment, in the order of sending, and a
//! receiver sees the values sent after it subscribed.
use tokio::sync::broadcast;
use vstd::prelude::*;

verus! {

/// `tokio::sync::broadcast::Sender`, opaque.
#[verifier::external_type_specification]
#[verifier::external_body]
#[verifier::reject_recursive_types(T)]
pub struct ExSender<T>(broadcast::Sender<T>);

/// `tokio::sync::broadcast::Receiver`, opaque.
#[verifier::external_type_specification]
#[verifier::external_body]
#[verifier::reject_recursive_types(T)]
pub struct ExReceiver<T>(broadcast::Receiver<T>);

/// The chunks that this library has handed to `send` on this sender, oldest first.
pub uninterp spec fn sent(tx: broadcast::Sender<Vec<u8>>) -> Seq<Seq<u8>>;

/// The number of chunks that the sender's channel was made to keep for a receiver that
/// falls behind; the channel may keep a few more.
pub uninterp spec fn capacity(tx: broadcast::Sender<Vec<u8>>) -> nat;

/// The chunks that had been handed to the sender before this receiver subscribed:
/// those that it never sees.
pub uninterp spec fn missed(rx: broadcast::Receiver<Vec<u8>>) -> Seq<Seq<u8>>;

/// `tokio::sync::broadcast::channel`: a new channel, to which nothing has been sent, and
/// which keeps at least `keep` values for a slow receiver. The receiver that comes with
/// it is dropped. The call panics for a capacity of zero, or over half of
/// `usize::MAX`.
#[verifier::external_body]
pub(crate) fn new_channel(keep: usize) -> (tx: broadcast::Sender<Vec<u8>>)
    requires
        0 < keep <= usize::MAX / 2,
    ensures
        sent(tx) == Seq::<Seq<u8>>::empty(),
        capacity(tx) == keep,
{
    broadcast::channel(keep).0
}

/// `tokio::sync::broadcast::Sender::send`: hands one chunk to every receiver that is
/// subscribed at this moment. Without a receiver the chunk goes nowhere, and the
/// error that says so is dropped: the number of receivers is up to the tasks that
/// hold them, so nothing is stated of it.
#[verifier::external_body]
pub(crate) fn send(tx: &mut broadcast::Sender<Vec<u8>>, chunk: Vec<u8>)
    ensures
        sent(*final(tx)) == sent(*old(tx)).push(chunk@),
        capacity(*final(tx)) == capacity(*old(tx)),
{
    let _ = tx.send(chunk);
}

/// `tokio::sync::broadcast::Sender::subscribe`: a new receiver, which sees the values
/// sent after this call. The call panics only where there are a quarter of `usize::MAX`
/// receivers already, which no memory holds.
#[verifier::external_body]
pub(crate) fn subscribe_to(tx: &broadcast::Sender<Vec<u8>>) -> (rx: broadcast::Receiver<Vec<u8>>)
    ensures
        missed(rx) == sent(*tx),
{
    tx.subscribe()
}

/// `tokio::sync::broadcast::Sender::receiver_count`: how many receivers there are at
/// this moment. They come and go with the tasks that hold them, so nothing is stated
/// of the number.
#[verifier::external_body]
pub(crate) fn receiver_count(tx: &broadcast::Sender<Vec<u8>>) -> (n: usize) {
    tx.receiver_count()
}

} // verus!
