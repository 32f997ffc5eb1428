use vstd::prelude::*;

use tokio::sync::mpsc::{Receiver, Sender};

verus! {

#[verifier::external_type_specification]
#[verifier::external_body]
#[verifier::reject_recursive_types(T)]
pub struct ExSender<T>(Sender<T>);

#[verifier::external_type_specification]
#[verifier::external_body]
#[verifier::reject_recursive_types(T)]
pub struct ExReceiver<T>(Receiver<T>);

/// `tokio::sync::mpsc::channel`: a bounded queue of `buffer` places, as its
/// sending and its receiving end. The call panics on a capacity of 0 or above
/// `Semaphore::MAX_PERMITS` (`usize::MAX >> 3`), which `requires` leaves out. Nothing is stated of the two ends:
/// they are opaque.
#[verifier::external_body]
pub(crate) fn open_queue<M>(buffer: usize) -> (Sender<M>, Receiver<M>)
    requires
        0 < buffer,
        buffer <= usize::MAX / 8,
{
    tokio::sync::mpsc::channel(buffer)
}

/// `Sender::clone`: another sending end of the same queue. The handle holds
/// an `Arc` of the queue, which the clone copies, so the clone is the same
/// handle value as the original.
pub assume_specification<T>[ <Sender<T> as Clone>::clone ](s: &Sender<T>) -> (r: Sender<T>)
    ensures
        r == *s,
;

} // verus!
