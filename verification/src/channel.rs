//! The result channel: worker threads hand finished jobs back to the
//! scheduler through a multi-producer/single-consumer channel, and the
//! scheduler polls it without blocking once per frame.

use vstd::prelude::*;

verus! {

/// The receiving end of `std::sync::mpsc`; the scheduler owns one and the
/// workers own clones of the matching sender.
#[verifier::external_type_specification]
#[verifier::external_body]
#[verifier::reject_recursive_types(T)]
pub struct ExReceiver<T>(std::sync::mpsc::Receiver<T>);

/// Relies on `std::sync::mpsc::Receiver::try_recv`: returns a value that a
/// sender queued, without ever blocking, or nothing when the channel is
/// empty or disconnected. What arrives (and when) depends on the worker
/// threads, so nothing is promised of the result.
#[verifier::external_body]
pub(crate) fn try_recv<T>(rx: &std::sync::mpsc::Receiver<T>) -> Option<T> {
    rx.try_recv().ok()
}

} // verus!
