//! The single-slot queues that hand results from a worker to the session.

use crossbeam_channel::{Receiver, Sender, TryRecvError, TrySendError};
use vstd::prelude::*;

verus! {

#[verifier::external_type_specification]
#[verifier::external_body]
#[verifier::reject_recursive_types(T)]
pub struct ExSender<T>(Sender<T>);

#[verifier::external_type_specification]
#[verifier::external_body]
#[verifier::reject_recursive_types(T)]
pub struct ExReceiver<T>(Receiver<T>);

/// What a queue gave when it was asked without waiting.
#[derive(Debug, Clone, PartialEq)]
pub enum Received<T> {
    /// A value was waiting.
    Item(T),
    /// Nothing was waiting.
    Empty,
    /// Nothing was waiting and no sender is left.
    Disconnected,
}

/// Makes a queue with `crossbeam_channel::bounded`.  Nothing is claimed of
/// the two ends.
#[verifier::external_body]
pub(crate) fn bounded_queue<T>(capacity: usize) -> (ends: (Sender<T>, Receiver<T>))
    requires
        capacity == 1,
{
    crossbeam_channel::bounded(capacity)
}

/// Asks a queue for a value with `Receiver::try_recv`, which never waits.
/// What comes back depends on the other threads, so nothing is claimed of it.
#[verifier::external_body]
pub(crate) fn poll<T>(receiver: &Receiver<T>) -> (got: Received<T>) {
    match receiver.try_recv() {
        Ok(value) => Received::Item(value),
        Err(TryRecvError::Empty) => Received::Empty,
        Err(TryRecvError::Disconnected) => Received::Disconnected,
    }
}

/// Offers a value to a queue with `Sender::try_send`, which never waits.
/// The value comes back where the queue did not take it.
#[verifier::external_body]
pub(crate) fn offer<T>(sender: &Sender<T>, value: T) -> (refused: Option<T>)
    ensures
        refused matches Some(back) ==> back == value,
{
    match sender.try_send(value) {
        Ok(()) => None,
        Err(TrySendError::Full(back)) => Some(back),
        Err(TrySendError::Disconnected(back)) => Some(back),
    }
}

/// A second handle on the sending end, made with `Sender::clone`.  The
/// clone refers to the channel that the sender refers to and holds nothing
/// else, so it is the value that the sender is.
#[verifier::external_body]
pub(crate) fn share_sender<T>(sender: &Sender<T>) -> (shared: Sender<T>)
    ensures
        shared == *sender,
{
    sender.clone()
}

/// A second handle on the receiving end, made with `Receiver::clone`.  The
/// clone refers to the channel that the receiver refers to and holds nothing
/// else, so it is the value that the receiver is.
#[verifier::external_body]
pub(crate) fn share_receiver<T>(receiver: &Receiver<T>) -> (shared: Receiver<T>)
    ensures
        shared == *receiver,
{
    receiver.clone()
}

} // verus!
