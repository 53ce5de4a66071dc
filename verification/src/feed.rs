//! The feeds on which published messages reach their subscribers.

use bytes::Bytes;
use tokio::sync::broadcast::{Receiver, Sender};
use vstd::prelude::*;

verus! {

#[verifier::external_type_specification]
#[verifier::external_body]
#[verifier::reject_recursive_types(T)]
pub struct ExSender<T>(tokio::sync::broadcast::Sender<T>);

#[verifier::external_type_specification]
#[verifier::external_body]
#[verifier::reject_recursive_types(T)]
pub struct ExReceiver<T>(tokio::sync::broadcast::Receiver<T>);

#[verifier::external_type_specification]
#[verifier::external_body]
pub struct ExBytes(bytes::Bytes);

/// The number of messages that a feed holds for its slowest receiver. A
/// receiver that falls further behind misses the oldest messages; the
/// publisher never waits.
pub const FEED_CAPACITY: usize = 1024;

/// Calls `tokio::sync::broadcast::channel`, which makes a feed for
/// `capacity` pending messages and its first receiver. That function
/// refuses a capacity of zero and one above half of `usize::MAX`, which the
/// precondition leaves out. Nothing is claimed of the two handles.
#[verifier::external_body]
pub(crate) fn new_feed(capacity: usize) -> (r: (Sender<Bytes>, Receiver<Bytes>))
    requires
        0 < capacity <= usize::MAX / 2,
{
    tokio::sync::broadcast::channel(capacity)
}

/// Calls `tokio::sync::broadcast::Sender::subscribe`, which makes one more
/// receiver on the feed: it gets what is sent from then on. That function
/// gives up only on a feed that has a quarter of `usize::MAX` receivers
/// already, more than fit in memory at once. Nothing is claimed of the
/// receiver.
#[verifier::external_body]
pub(crate) fn receiver_on(feed: &Sender<Bytes>) -> (rx: Receiver<Bytes>) {
    feed.subscribe()
}

/// Calls `tokio::sync::broadcast::Sender::send` with the message as
/// `bytes::Bytes`. The result is the number of receivers that the feed had
/// at that moment, or nothing if it had none; it depends on who listens, so
/// nothing is claimed of it.
#[verifier::external_body]
pub(crate) fn send_on(feed: &Sender<Bytes>, message: Vec<u8>) -> (sent: Option<usize>) {
    match feed.send(Bytes::from(message)) {
        Ok(n) => Some(n),
        Err(_) => None,
    }
}

} // verus!
