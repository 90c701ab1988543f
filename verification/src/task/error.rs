//! The error types of a session whose packets are awaited.
use vstd::prelude::*;

verus! {

/// Why a received packet is not handed to the task that received it.
#[derive(Clone, Debug, PartialEq, Eq)]
pub enum AsyncRecvError {
    /// The packet was outside the receive window.
    DroppedTooEarly,
    /// The packet was a duplicate of a previously received packet.
    DroppedDuplicate,
    /// The packet is an answer that another task awaits.
    AsyncReply,
    /// The packet will not arrive here any more. Either the session was dropped while the packet had
    /// to wait, or another copy of the packet, which was received in the meantime, was handed to the
    /// task that received that copy.
    SeqExClosed,
}

/// Why a sent packet has no reply.
#[derive(Clone, Debug, PartialEq, Eq)]
pub enum AsyncError {
    /// The remote peer answered with an ack.
    EndOfExchange,
    /// The session was dropped.
    SeqExClosed,
}

impl AsyncRecvError {
    /// What to tell the user about this error.
    pub fn to_string(&self) -> (text: String)
        ensures
            match self {
                AsyncRecvError::DroppedTooEarly => text@ == "packet arrived too early"@,
                AsyncRecvError::DroppedDuplicate => text@ == "packet was a duplicate"@,
                AsyncRecvError::AsyncReply => text@ == "packet was an async reply"@,
                AsyncRecvError::SeqExClosed => text@ == "the instance of SeqEx was dropped"@,
            },
    {
        match self {
            AsyncRecvError::DroppedTooEarly => "packet arrived too early".to_owned(),
            AsyncRecvError::DroppedDuplicate => "packet was a duplicate".to_owned(),
            AsyncRecvError::AsyncReply => "packet was an async reply".to_owned(),
            AsyncRecvError::SeqExClosed => "the instance of SeqEx was dropped".to_owned(),
        }
    }
}

impl AsyncError {
    /// What to tell the user about this error.
    pub fn to_string(&self) -> (text: String)
        ensures
            match self {
                AsyncError::EndOfExchange => text@ == "peer replied with an ack"@,
                AsyncError::SeqExClosed => text@ == "the window was closed before a reply could be received"@,
            },
    {
        match self {
            AsyncError::EndOfExchange => "peer replied with an ack".to_owned(),
            AsyncError::SeqExClosed => "the window was closed before a reply could be received".to_owned(),
        }
    }
}

} // verus!
