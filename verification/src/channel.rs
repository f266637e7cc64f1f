//! Non-blocking access to the bounded queues that join the threads.
//!
//! What a queue holds at any moment depends on the thread at its other end,
//! so nothing is claimed about the outcome of an attempt: callers decide
//! what to do for every outcome.

use vstd::prelude::*;
use crossbeam_channel::{Receiver, Sender, TryRecvError, TrySendError};

verus! {

/// `crossbeam_channel::Sender`, the sending end of a queue. Nothing is
/// known of what is inside: a sender is only carried and handed to the
/// functions below.
#[verifier::external_type_specification]
#[verifier::external_body]
#[verifier::reject_recursive_types(T)]
pub struct ExSender<T>(Sender<T>);

/// `crossbeam_channel::Receiver`, the receiving end of a queue. Nothing is
/// known of what is inside: a receiver is only carried and handed to the
/// functions below.
#[verifier::external_type_specification]
#[verifier::external_body]
#[verifier::reject_recursive_types(T)]
pub struct ExReceiver<T>(Receiver<T>);

/// How an attempt to enqueue a message ended.
#[derive(Clone, Copy, Debug, PartialEq, Eq, Structural)]
pub enum SendStatus {
    /// The message is in the queue.
    Sent,
    /// The queue was at capacity; the message is gone.
    Full,
    /// Every receiver is gone; so is the message.
    Disconnected,
}

/// How an attempt to dequeue a message ended.
pub enum Received<T> {
    /// The oldest queued message.
    Message(T),
    /// Nothing was queued.
    Empty,
    /// Nothing was queued and every sender is gone.
    Disconnected,
}

/// Calls `crossbeam_channel::Sender::try_send` and reports which of its
/// three outcomes occurred. The call never blocks. Nothing is claimed
/// about which outcome it is.
#[verifier::external_body]
pub(crate) fn try_send<T>(sender: &Sender<T>, message: T) -> SendStatus {
    match sender.try_send(message) {
        Ok(()) => SendStatus::Sent,
        Err(TrySendError::Full(_)) => SendStatus::Full,
        Err(TrySendError::Disconnected(_)) => SendStatus::Disconnected,
    }
}

/// Calls `crossbeam_channel::Receiver::try_recv` and reports which of its
/// three outcomes occurred. The call never blocks. Nothing is claimed
/// about which outcome it is, nor about which message is received: a
/// message is some value of its type.
#[verifier::external_body]
pub(crate) fn try_recv<T>(receiver: &Receiver<T>) -> Received<T> {
    match receiver.try_recv() {
        Ok(message) => Received::Message(message),
        Err(TryRecvError::Empty) => Received::Empty,
        Err(TryRecvError::Disconnected) => Received::Disconnected,
    }
}

/// Calls `Clone::clone` of `crossbeam_channel::Receiver`. For every kind
/// of queue the clone is another handle to the same queue, so the result
/// stands for the queue that `receiver` stands for.
#[verifier::external_body]
pub(crate) fn share_receiver<T>(receiver: &Receiver<T>) -> (r: Receiver<T>)
    ensures
        r == *receiver,
{
    receiver.clone()
}

/// Calls `crossbeam_channel::Receiver::len`, the number of messages in
/// the queue at the moment of the call. Nothing is claimed about it: the
/// sender may add messages at any time.
#[verifier::external_body]
pub(crate) fn queued<T>(receiver: &Receiver<T>) -> usize {
    receiver.len()
}

/// Largest capacity that [`bounded`] accepts.
pub const MAX_QUEUE_CAPACITY: usize = 65536;

/// Calls `crossbeam_channel::bounded`, which makes a queue that holds up to
/// `capacity` messages and returns its two ends. The capacity is limited
/// because the call panics on a capacity near the largest integer.
#[verifier::external_body]
pub(crate) fn bounded<T>(capacity: usize) -> (Sender<T>, Receiver<T>)
    requires
        capacity <= MAX_QUEUE_CAPACITY,
{
    crossbeam_channel::bounded(capacity)
}

} // verus!
