//! How subscribers are told that the inventory has changed.

use tokio::sync::broadcast::{Receiver, Sender};
use vstd::prelude::*;

verus! {

/// `tokio::sync::broadcast::Sender`: the sending half of a channel whose every
/// value reaches every receiver.
#[verifier::external_type_specification]
#[verifier::external_body]
#[verifier::reject_recursive_types(T)]
pub struct ExSender<T>(tokio::sync::broadcast::Sender<T>);

/// `tokio::sync::broadcast::Receiver`: a receiving half.
#[verifier::external_type_specification]
#[verifier::external_body]
#[verifier::reject_recursive_types(T)]
pub struct ExReceiver<T>(tokio::sync::broadcast::Receiver<T>);

/// The values that were handed to a sender since its channel was made, in their
/// order. A value that no receiver was there to get is among them.
pub uninterp spec fn sent(sender: Sender<()>) -> Seq<()>;

/// How many values the channel of a sender was asked to keep for a slow receiver.
pub uninterp spec fn backlog(sender: Sender<()>) -> nat;

/// The values that had been handed to the sender of a receiver's channel when the
/// receiver subscribed. It gets none of them, and those that follow.
pub uninterp spec fn missed(receiver: Receiver<()>) -> Seq<()>;

/// Whether a receiver is one of the sender's channel.
pub uninterp spec fn is_subscribed(sender: Sender<()>, receiver: Receiver<()>) -> bool;

/// The values for a receiver of the sender's channel: all that were sent since it
/// subscribed. The channel keeps them until it is read, as long as they are no more
/// than the channel was asked to keep.
pub open spec fn delivered(sender: Sender<()>, receiver: Receiver<()>) -> Seq<()> {
    if is_subscribed(sender, receiver) {
        sent(sender).skip(missed(receiver).len() as int)
    } else {
        Seq::empty()
    }
}

/// Calls `tokio::sync::broadcast::channel` and keeps the sender alone: nothing has
/// been sent yet, and the channel was asked to keep the given number of values.
/// `channel` panics where it is asked for none, or for more than half of what `usize`
/// counts.
#[verifier::external_body]
pub(crate) fn channel(capacity: usize) -> (r: Sender<()>)
    requires
        0 < capacity <= usize::MAX / 2,
    ensures
        sent(r) == Seq::<()>::empty(),
        backlog(r) == capacity,
{
    let (sender, _) = tokio::sync::broadcast::channel(capacity);
    sender
}

/// Calls `tokio::sync::broadcast::Sender::send`: one more value has been handed to
/// the sender, and the channel is otherwise as it was, with the receivers it had. That
/// no receiver is there to get the value is no failure.
#[verifier::external_body]
pub(crate) fn send(sender: &mut Sender<()>)
    ensures
        sent(*final(sender)) == sent(*old(sender)).push(()),
        backlog(*final(sender)) == backlog(*old(sender)),
        forall|receiver: Receiver<()>|
            is_subscribed(*final(sender), receiver) == is_subscribed(*old(sender), receiver),
{
    let _ = sender.send(());
}

/// Calls `tokio::sync::broadcast::Sender::subscribe`: the receiver is one of the
/// sender's channel, and gets what is sent from now on, and nothing of what was sent before. `subscribe` panics where a
/// quarter of what `usize` counts are subscribed already, more than memory holds.
#[verifier::external_body]
pub(crate) fn subscribe(sender: &Sender<()>) -> (r: Receiver<()>)
    ensures
        is_subscribed(*sender, r),
        missed(r) == sent(*sender),
{
    sender.subscribe()
}

} // verus!
