//! The channel through which an agent gets its commands.

use crate::messages::CommandRequest;
use crate::server::ClientState;
use tokio::sync::mpsc;
use vstd::prelude::*;

verus! {

/// The sending end of a bounded channel, `tokio::sync::mpsc::Sender`.
#[verifier::external_type_specification]
#[verifier::external_body]
#[verifier::reject_recursive_types(T)]
pub struct ExSender<T>(mpsc::Sender<T>);

/// The receiving end of a bounded channel, `tokio::sync::mpsc::Receiver`.
#[verifier::external_type_specification]
#[verifier::external_body]
#[verifier::reject_recursive_types(T)]
pub struct ExReceiver<T>(mpsc::Receiver<T>);

/// How many commands the channel of a sender was made to hold.
pub uninterp spec fn capacity(sender: mpsc::Sender<CommandRequest>) -> nat;

/// Whether what goes into the sender comes out at the receiver: the two are the
/// ends of one channel.
pub uninterp spec fn connected(
    sender: mpsc::Sender<CommandRequest>,
    receiver: mpsc::Receiver<CommandRequest>,
) -> bool;

/// Makes a channel, by `tokio::sync::mpsc::channel`: the two ends belong to one
/// channel, which holds as many commands as asked, and nothing else belongs to it:
/// no other receiver, and no sender that a client already has. (The clients are
/// here for that claim alone.) That function panics on a capacity of zero and on
/// one above `usize::MAX >> 3`, the most permits that tokio's semaphore takes.
///
/// What is in the channel changes under the hands of whoever holds one of its
/// ends, so nothing is claimed of it here: that commands come out in the order in
/// which they went in, and that a sender waits where the channel is full, are
/// tokio's doing.
#[verifier::external_body]
pub(crate) fn command_channel(size: usize, _clients: &Vec<ClientState>) -> (res: (
    mpsc::Sender<CommandRequest>,
    mpsc::Receiver<CommandRequest>,
))
    requires
        0 < size <= usize::MAX / 8,
    ensures
        capacity(res.0) == size,
        connected(res.0, res.1),
        forall|other: mpsc::Receiver<CommandRequest>| #[trigger]
            connected(res.0, other) ==> other == res.1,
        forall|other: mpsc::Sender<CommandRequest>| #[trigger]
            connected(other, res.1) ==> other == res.0,
        forall|i: int|
            0 <= i < _clients@.len() ==> (#[trigger] _clients@[i]).command_sender != Some(res.0),
{
    mpsc::channel(size)
}

/// `Clone` of `tokio::sync::mpsc::Sender`: the copy is a handle on the same
/// channel, so the two are the same sender to whoever uses them.
pub assume_specification<T>[ <mpsc::Sender<T> as Clone>::clone ](sender: &mpsc::Sender<T>) -> (res:
    mpsc::Sender<T>)
    ensures
        res == *sender,
;

/// `tokio::sync::mpsc::Sender::same_channel`: whether two senders are handles on
/// one channel, and so the same sender to whoever uses them.
pub assume_specification<T>[ mpsc::Sender::<T>::same_channel ](
    sender: &mpsc::Sender<T>,
    other: &mpsc::Sender<T>,
) -> (res: bool)
    ensures
        res == (*sender == *other),
;

} // verus!
