//! The message channels that connect the profiler, its handles and its reporters.

use vstd::prelude::*;

verus! {

/// Declares `std::sync::mpsc::Sender`, carried opaquely.
#[verifier::external_type_specification]
#[verifier::external_body]
#[verifier::reject_recursive_types(T)]
pub struct ExSender<T>(std::sync::mpsc::Sender<T>);

/// Declares `std::sync::mpsc::Receiver`, carried opaquely.
#[verifier::external_type_specification]
#[verifier::external_body]
#[verifier::reject_recursive_types(T)]
pub struct ExReceiver<T>(std::sync::mpsc::Receiver<T>);

/// Relies on `std::sync::mpsc::channel`: a fresh, unbounded channel. Nothing is stated of it.
#[verifier::external_body]
pub(crate) fn new_channel<T>() -> (std::sync::mpsc::Sender<T>, std::sync::mpsc::Receiver<T>) {
    std::sync::mpsc::channel()
}

/// Relies on `std::sync::mpsc::Sender::send`: `true` when the value was queued, `false` when
/// the receiving end is gone. Which of the two comes is not stated.
#[verifier::external_body]
pub(crate) fn send_on<T>(s: &std::sync::mpsc::Sender<T>, v: T) -> bool {
    s.send(v).is_ok()
}

/// Relies on `std::sync::mpsc::Receiver::recv`: blocks for the next value, `None` once every
/// sender is gone. What arrives is not stated.
#[verifier::external_body]
pub(crate) fn receive<T>(r: &std::sync::mpsc::Receiver<T>) -> Option<T> {
    r.recv().ok()
}

} // verus!
