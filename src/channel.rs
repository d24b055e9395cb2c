//! The point-to-point channels of `std::sync::mpsc` that connect the state
//! holder with its users.
use vstd::prelude::*;
use std::sync::mpsc::{Receiver, Sender};

verus! {

#[verifier::external_type_specification]
#[verifier::external_body]
#[verifier::reject_recursive_types(T)]
pub struct ExSender<T>(Sender<T>);

#[verifier::external_type_specification]
#[verifier::external_body]
#[verifier::reject_recursive_types(T)]
pub struct ExReceiver<T>(Receiver<T>);

/// Relies on `Sender::clone`: another sending end of the same channel.
pub assume_specification<T>[ <Sender<T> as Clone>::clone ](s: &Sender<T>) -> Sender<T>;

/// Relies on `std::sync::mpsc::channel`: a new channel, as its sending and
/// receiving end.
#[verifier::external_body]
pub(crate) fn new_channel<T>() -> (Sender<T>, Receiver<T>) {
    std::sync::mpsc::channel()
}

/// Relies on `Sender::send`, which never blocks; `false` when the receiving
/// end is gone and the value was dropped.
#[verifier::external_body]
pub(crate) fn send<T>(tx: &Sender<T>, value: T) -> bool {
    tx.send(value).is_ok()
}

/// Relies on `Receiver::recv`: blocks for the next value; `None` once every
/// sending end is gone and the channel is empty.
#[verifier::external_body]
pub(crate) fn recv<T>(rx: &Receiver<T>) -> Option<T> {
    rx.recv().ok()
}

} // verus!
