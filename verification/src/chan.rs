//! Trusted surface over the cross-thread queues that carry commands between
//! the broker, the catalog mainloop, and per-plugin worker threads.
//!
//! A queue is shared with other threads, so nothing can be stated about what
//! a concurrent receiver observes; the contracts of the callers therefore
//! never depend on delivery, only on their own state.

use vstd::prelude::*;

verus! {

#[verifier::external_type_specification]
#[verifier::external_body]
#[verifier::reject_recursive_types(T)]
pub struct ExSender<T>(crossbeam_channel::Sender<T>);

#[verifier::external_type_specification]
#[verifier::external_body]
#[verifier::reject_recursive_types(T)]
pub struct ExReceiver<T>(crossbeam_channel::Receiver<T>);

/// Relies on crossbeam_channel::unbounded: creates a connected
/// sender/receiver pair over one unbounded queue.
#[verifier::external_body]
pub(crate) fn channel_pair<T>() -> (crossbeam_channel::Sender<T>, crossbeam_channel::Receiver<T>) {
    crossbeam_channel::unbounded()
}

/// Relies on crossbeam_channel::Sender::send: queues the message for the
/// receiving side unless every receiver is gone; returns whether it was
/// accepted.  On a bounded, full channel `send` blocks until space or
/// disconnection; every channel this crate creates is unbounded, where the
/// call never blocks.
#[verifier::external_body]
pub(crate) fn channel_send<T>(tx: &crossbeam_channel::Sender<T>, msg: T) -> bool {
    tx.send(msg).is_ok()
}

} // verus!
