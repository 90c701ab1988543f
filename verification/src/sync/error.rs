//! The error types of a session that several threads share.
use crate::error::TryError;
use vstd::prelude::*;

verus! {

/// These are the error types that can be returned by `SeqEx::try_receive`.
///
/// Some of these errors specify that SEQEX is waiting on some event to occur before it can proceed.
#[derive(Debug, Clone, Copy, PartialEq, Eq)]
pub enum TryRecvError {
    /// Either the receive window is full, or the received packet is SeqCst and cannot enter the
    /// critical section where it is processed. In either case there currently exists some reply
    /// guard that must be dropped or consumed before this packet can be processed.
    ///
    /// If the receive window was full, the packet was dropped.
    /// Otherwise if the packet is SeqCst, then the packet was saved to the receive window.
    WaitingForReply,
    /// The packet was received but cannot be processed yet to preserve losslessness or
    /// in-order transport. No action needs to be taken by the caller.
    OutOfSequence,
    /// The session has been explicitly closed.
    /// It can no longer send or receive data.
    ///
    /// A session will never close by itself, only the caller can close it.
    Closed,
}

/// These are the error types that can be returned by `SeqEx::receive`.
#[derive(Debug, Clone, Copy, PartialEq, Eq)]
pub enum RecvError {
    /// The packet was received but cannot be processed yet to preserve losslessness or
    /// in-order transport. No action needs to be taken by the caller.
    OutOfSequence,
    /// The session has been explicitly closed.
    /// It can no longer send or receive data.
    Closed,
}

/// A generic error that can be returned by a `try_send` or `send_timeout` function.
/// They specify what event must occur before a future call to `try_send` can succeed.
#[derive(Debug, Clone, Copy, PartialEq, Eq)]
pub enum TrySendError {
    /// The packet could not be sent at this time because the send window is full.
    /// Acknowledgements must be received from the remote peer to empty the send window.
    ///
    /// If this error is returned by a `send_timeout` function, then the function timed-out.
    WaitingForRecv,
    /// Some currently issued reply number must be returned to SEQEX to send either an Ack or a
    /// Reply.
    ///
    /// If this error is returned by a `send_timeout` function, then the function timed-out.
    WaitingForReply,
    /// The session has been explicitly closed.
    /// It can no longer send or receive data.
    Closed,
}

/// The session has been explicitly closed.
/// It can no longer send or receive data.
///
/// A session will never close by itself, only the caller can close it.
#[derive(Debug, Clone, Copy, PartialEq, Eq)]
pub struct ClosedError;

impl TryRecvError {
    /// What to tell the user about this error.
    pub fn to_string(&self) -> (text: String)
        ensures
            match self {
                TryRecvError::OutOfSequence => text@ == "packet arrived but cannot yet be processed"@,
                TryRecvError::WaitingForReply => text@ == "can't process packet until a reply is finished"@,
                TryRecvError::Closed => text@ == "can't receive packet because the session was explicitly closed"@,
            },
    {
        match self {
            TryRecvError::OutOfSequence => "packet arrived but cannot yet be processed".to_owned(),
            TryRecvError::WaitingForReply => "can't process packet until a reply is finished".to_owned(),
            TryRecvError::Closed => "can't receive packet because the session was explicitly closed".to_owned(),
        }
    }
}

impl RecvError {
    /// What to tell the user about this error.
    pub fn to_string(&self) -> (text: String)
        ensures
            match self {
                RecvError::OutOfSequence => text@ == "packet arrived but cannot yet be processed"@,
                RecvError::Closed => text@ == "can't receive packet because the session was explicitly closed"@,
            },
    {
        TryRecvError::from(*self).to_string()
    }
}

impl TrySendError {
    /// What to tell the user about this error.
    pub fn to_string(&self) -> (text: String)
        ensures
            match self {
                TrySendError::WaitingForRecv => text@ == "can't send until another packet is received"@,
                TrySendError::WaitingForReply => text@ == "can't send until a reply is finished"@,
                TrySendError::Closed => text@ == "can't send because the session was explicitly closed"@,
            },
    {
        match self {
            TrySendError::WaitingForRecv => "can't send until another packet is received".to_owned(),
            TrySendError::WaitingForReply => "can't send until a reply is finished".to_owned(),
            TrySendError::Closed => "can't send because the session was explicitly closed".to_owned(),
        }
    }
}

impl ClosedError {
    /// What to tell the user about this error.
    pub fn to_string(&self) -> (text: String)
        ensures
            text@ == "can't send because the session was explicitly closed"@,
    {
        "can't send because the session was explicitly closed".to_owned()
    }
}

impl From<RecvError> for TryRecvError {
    fn from(value: RecvError) -> (error: Self) {
        match value {
            RecvError::OutOfSequence => TryRecvError::OutOfSequence,
            RecvError::Closed => TryRecvError::Closed,
        }
    }
}

impl vstd::std_specs::convert::FromSpecImpl<RecvError> for TryRecvError {
    open spec fn obeys_from_spec() -> bool {
        true
    }

    open spec fn from_spec(value: RecvError) -> Self {
        match value {
            RecvError::OutOfSequence => TryRecvError::OutOfSequence,
            RecvError::Closed => TryRecvError::Closed,
        }
    }
}

impl From<TryError> for TrySendError {
    fn from(value: TryError) -> (error: Self) {
        match value {
            TryError::WaitingForRecv => TrySendError::WaitingForRecv,
            TryError::WaitingForReply => TrySendError::WaitingForReply,
        }
    }
}

impl vstd::std_specs::convert::FromSpecImpl<TryError> for TrySendError {
    open spec fn obeys_from_spec() -> bool {
        true
    }

    open spec fn from_spec(value: TryError) -> Self {
        match value {
            TryError::WaitingForRecv => TrySendError::WaitingForRecv,
            TryError::WaitingForReply => TrySendError::WaitingForReply,
        }
    }
}

} // verus!
