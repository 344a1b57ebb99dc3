//! The parts of flume's channel API that the library calls.
//!
//! A channel's contents are shared with other handles and other threads, so
//! nothing is stated of what a send or a receive finds there.

use vstd::prelude::*;

verus! {

/// flume's sending handle; opaque here.
#[verifier::external_type_specification]
#[verifier::external_body]
#[verifier::reject_recursive_types(T)]
pub struct ExSender<T>(flume::Sender<T>);

/// flume's receiving handle; opaque here.
#[verifier::external_type_specification]
#[verifier::external_body]
#[verifier::reject_recursive_types(T)]
pub struct ExReceiver<T>(flume::Receiver<T>);

/// flume's error for a send on a channel whose receivers are all gone; opaque here.
#[verifier::external_type_specification]
#[verifier::external_body]
#[verifier::reject_recursive_types(T)]
pub struct ExSendError<T>(flume::SendError<T>);

/// Relies on flume::unbounded: it makes a new channel without a capacity bound
/// and returns its two ends. It neither blocks nor fails.
pub assume_specification<T>[ flume::unbounded::<T> ]() -> (flume::Sender<T>, flume::Receiver<T>);

/// Relies on flume::Sender::send: on an unbounded channel it never blocks, and
/// it fails exactly when every receiver of the channel has been dropped, which
/// other handles decide; so nothing is stated of the outcome.
pub assume_specification<T>[ flume::Sender::<T>::send ](
    sender: &flume::Sender<T>,
    msg: T,
) -> Result<(), flume::SendError<T>>;

} // verus!
