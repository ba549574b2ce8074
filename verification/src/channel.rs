//! Trusted view of the per-task progress channel: a single-producer,
//! single-consumer unbounded queue from a background runner to the router.
//!
//! Values on a channel arrive from another thread, so nothing can be promised
//! about what one poll returns; the registry's monotonicity rule is the
//! correctness backstop, and every caller is verified against all outcomes.

use vstd::prelude::*;
use tokio::sync::mpsc::{UnboundedReceiver, UnboundedSender};

verus! {

#[verifier::external_type_specification]
#[verifier::external_body]
#[verifier::reject_recursive_types(T)]
pub struct ExUnboundedSender<T>(UnboundedSender<T>);

#[verifier::external_type_specification]
#[verifier::external_body]
#[verifier::reject_recursive_types(T)]
pub struct ExUnboundedReceiver<T>(UnboundedReceiver<T>);

/// Outcome of one non-blocking poll of a progress channel.
pub enum RecvOutcome {
    /// A progress value, in micro-units, was waiting.
    Got(u64),
    /// Nothing is waiting right now; the producer may send more later.
    Pending,
    /// The producer end was dropped: no more values will ever arrive.
    Closed,
}

/// Relies on tokio::sync::mpsc::unbounded_channel: creates a fresh unbounded
/// single-producer, single-consumer queue. What will flow through the pair
/// depends on the producer's thread, so nothing is promised of it.
#[verifier::external_body]
pub(crate) fn progress_channel() -> (UnboundedSender<u64>, UnboundedReceiver<u64>) {
    tokio::sync::mpsc::unbounded_channel()
}

/// Relies on tokio::sync::mpsc::UnboundedReceiver::try_recv: returns a queued
/// value without ever blocking, or reports whether the queue is merely empty
/// for now or closed for good. Which outcome comes back depends on the
/// producer's thread, so nothing is promised of it.
#[verifier::external_body]
pub(crate) fn try_recv_progress(rx: &mut UnboundedReceiver<u64>) -> RecvOutcome {
    match rx.try_recv() {
        Ok(v) => RecvOutcome::Got(v),
        Err(tokio::sync::mpsc::error::TryRecvError::Empty) => RecvOutcome::Pending,
        Err(tokio::sync::mpsc::error::TryRecvError::Disconnected) => RecvOutcome::Closed,
    }
}

} // verus!
