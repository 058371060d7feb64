//! Declarations for the channel endpoints that effect managers hand to the
//! runtime. The endpoints are opaque here: the library creates, stores and
//! hands them over; every send and receive happens outside the library.

use vstd::prelude::*;

verus! {

/// Relies on async_std::channel::Sender: the sending endpoint of a queue,
/// held and handed over here, used only outside the library.
#[verifier::external_type_specification]
#[verifier::external_body]
#[verifier::reject_recursive_types(T)]
pub struct ExSender<T>(async_std::channel::Sender<T>);

/// Relies on async_std::channel::Receiver: the receiving endpoint of a
/// queue, held and handed over here, used only outside the library.
#[verifier::external_type_specification]
#[verifier::external_body]
#[verifier::reject_recursive_types(T)]
pub struct ExReceiver<T>(async_std::channel::Receiver<T>);

/// Relies on async_std::channel::unbounded: returns the sending and the
/// receiving endpoint of one fresh unbounded queue.
#[verifier::external_body]
pub fn channel_pair<T>() -> (async_std::channel::Sender<T>, async_std::channel::Receiver<T>) {
    async_std::channel::unbounded()
}

} // verus!
