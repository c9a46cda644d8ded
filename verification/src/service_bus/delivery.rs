//! Channels, and what is handed to them.

use tokio::sync::mpsc::{UnboundedReceiver, UnboundedSender};
use vstd::prelude::*;

verus! {

/// `tokio::sync::mpsc::UnboundedSender`, the sending end of a channel. To proofs a
/// sender stands for the channel that it feeds.
#[verifier::external_type_specification]
#[verifier::external_body]
#[verifier::reject_recursive_types(T)]
pub struct ExUnboundedSender<T>(tokio::sync::mpsc::UnboundedSender<T>);

/// `tokio::sync::mpsc::UnboundedReceiver`, the receiving end of a channel.
#[verifier::external_type_specification]
#[verifier::external_body]
#[verifier::reject_recursive_types(T)]
pub struct ExUnboundedReceiver<T>(tokio::sync::mpsc::UnboundedReceiver<T>);

/// The receiving end of a channel together with who feeds it. Only opening a
/// channel makes one.
#[verifier::reject_recursive_types(T)]
pub struct Inbox<T> {
    receiver: UnboundedReceiver<T>,
    source: Ghost<UnboundedSender<T>>,
}

impl<T> Inbox<T> {
    /// The sending end of the channel.
    pub closed spec fn fed_by(self) -> UnboundedSender<T> {
        self.source@
    }

    /// The receiving end of the channel.
    pub closed spec fn receiver(self) -> UnboundedReceiver<T> {
        self.receiver
    }

    /// Takes the receiving end of the channel out.
    pub fn into_receiver(self) -> (receiver: UnboundedReceiver<T>)
        ensures
            receiver == self.receiver(),
    {
        self.receiver
    }
}

/// `tokio::sync::mpsc::unbounded_channel`: both ends of a new channel; what is sent
/// at the one arrives at the other.
#[verifier::external_body]
pub(crate) fn open_channel<T>() -> (ends: (UnboundedSender<T>, Inbox<T>))
    ensures
        ends.1.fed_by() == ends.0,
{
    let (sender, receiver) = tokio::sync::mpsc::unbounded_channel();
    (sender, Inbox { receiver, source: Ghost(sender) })
}

/// The proof that a value was handed to a channel. Only handing one over makes it.
#[verifier::reject_recursive_types(T)]
pub struct Receipt<T> {
    sent: bool,
    channel: Ghost<UnboundedSender<T>>,
    value: Ghost<T>,
}

impl<T> Receipt<T> {
    /// The channel that was handed the value.
    pub closed spec fn channel(self) -> UnboundedSender<T> {
        self.channel@
    }

    /// The value that was handed to the channel.
    pub closed spec fn value(self) -> T {
        self.value@
    }

    /// Whether the channel took the value.
    pub closed spec fn accepted(self) -> bool {
        self.sent
    }

    /// Whether the channel took the value.
    pub fn is_accepted(&self) -> (yes: bool)
        ensures
            yes == self.accepted(),
    {
        self.sent
    }
}

/// `UnboundedSender::send`: hands a value to the channel. Whether the channel takes
/// it depends on whether the receiving end is still open, and what the channel then
/// holds on its other senders and its receiver: both are left unsaid.
#[verifier::external_body]
pub(crate) fn send_to<T>(tx: &UnboundedSender<T>, value: T) -> (receipt: Receipt<T>)
    ensures
        receipt.channel() == *tx,
        receipt.value() == value,
{
    Receipt { channel: Ghost(*tx), value: Ghost(value), sent: tx.send(value).is_ok() }
}

} // verus!
