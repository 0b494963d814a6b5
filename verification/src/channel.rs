//! The channel that carries reference changes from the handles to the server.

use crate::ref_delete::Received;
use crate::ref_delete::RefChange;
use crossbeam_channel::Receiver;
use crossbeam_channel::Sender;
use crossbeam_channel::TryRecvError;
use vstd::prelude::*;

verus! {

/// The sending end of a crossbeam channel.
#[verifier::external_type_specification]
#[verifier::external_body]
#[verifier::reject_recursive_types(T)]
pub struct ExSender<T>(Sender<T>);

/// The receiving end of a crossbeam channel.
#[verifier::external_type_specification]
#[verifier::external_body]
#[verifier::reject_recursive_types(T)]
pub struct ExReceiver<T>(Receiver<T>);

/// `crossbeam_channel::unbounded`: the two ends of a new channel.
#[verifier::external_body]
pub(crate) fn unbounded_channel() -> (ends: (Sender<RefChange>, Receiver<RefChange>)) {
    crossbeam_channel::unbounded()
}

/// `Sender::send`: puts the change on the channel and says whether that was
/// done. It is not done where no receiver is left. On a channel without a
/// bound the call neither waits nor unwinds.
#[verifier::external_body]
pub(crate) fn send_change(sender: &Sender<RefChange>, change: RefChange) -> (sent: bool)
    opens_invariants none
    no_unwind
{
    sender.send(change).is_ok()
}

/// `Sender::clone`: another sender into the same channel.
#[verifier::external_body]
pub(crate) fn clone_sender(sender: &Sender<RefChange>) -> (other: Sender<RefChange>) {
    sender.clone()
}

/// `Receiver::len`: how many changes are waiting at this moment.
#[verifier::external_body]
pub(crate) fn waiting_changes(receiver: &Receiver<RefChange>) -> (waiting: usize) {
    receiver.len()
}

/// `Receiver::try_recv`: takes a change off the channel if one is waiting.
#[verifier::external_body]
pub(crate) fn try_recv_change(receiver: &Receiver<RefChange>) -> (received: Received) {
    match receiver.try_recv() {
        Ok(change) => Received::Change(change),
        Err(TryRecvError::Empty) => Received::Empty,
        Err(TryRecvError::Disconnected) => Received::Disconnected,
    }
}

} // verus!
