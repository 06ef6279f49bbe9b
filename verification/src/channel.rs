//! Trusted boundary around the multi-producer/single-consumer channels.
//!
//! Producer threads hand work to the update thread, and the pipeline hands
//! results back to the asset-loading system, over unbounded crossbeam
//! channels. The channel state is shared between threads, so nothing useful
//! can be promised to the verifier about what a given call observes; every
//! function that consumes drained messages takes them as ordinary arguments
//! and is verified for every possible value of them.

use vstd::prelude::*;
use crossbeam_channel::Receiver;
use crossbeam_channel::Sender;

verus! {

#[verifier::external_type_specification]
#[verifier::external_body]
#[verifier::reject_recursive_types(T)]
pub struct ExSender<T>(Sender<T>);

#[verifier::external_type_specification]
#[verifier::external_body]
#[verifier::reject_recursive_types(T)]
pub struct ExReceiver<T>(Receiver<T>);

/// Relies on crossbeam_channel::unbounded: returns a connected
/// sender/receiver pair for a channel of unbounded capacity.
#[verifier::external_body]
pub(crate) fn channel_unbounded<T>() -> (Sender<T>, Receiver<T>) {
    crossbeam_channel::unbounded()
}

/// Relies on crossbeam_channel::Sender::send: on an unbounded channel it
/// never blocks, fails exactly when every receiver has been dropped, and does
/// not unwind. The outcome depends on the far end of the channel, so nothing
/// is stated about it.
#[verifier::external_body]
pub(crate) fn channel_send<T>(sender: &Sender<T>, message: T) -> (accepted: bool)
    opens_invariants none
    no_unwind
{
    sender.send(message).is_ok()
}

/// Relies on crossbeam_channel::Sender::clone: the clone feeds the same
/// channel as the original sender.
#[verifier::external_body]
pub(crate) fn channel_sender_clone<T>(sender: &Sender<T>) -> Sender<T> {
    sender.clone()
}

/// Relies on crossbeam_channel::Receiver::try_iter: yields, without blocking,
/// every message queued in the channel at the time of the call, in the order
/// they were queued.
#[verifier::external_body]
pub(crate) fn channel_drain<T>(receiver: &Receiver<T>) -> Vec<T> {
    receiver.try_iter().collect()
}

} // verus!
