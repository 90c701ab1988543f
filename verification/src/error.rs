//! The error types that can be returned by SEQEX.
use crate::transport_layer::SeqNo;
use vstd::prelude::*;

verus! {

/// These are the error types that can be returned by a non-blocking SEQEX receive function.
///
/// Some of these errors specify that SEQEX is waiting on some event to occur before it can proceed.
#[derive(Debug, Clone, PartialEq, Eq)]
pub enum TryRawRecvError {
    /// This packet had to be dropped because it arrived far enough out-of-order that it was
    /// outside the receive window.
    /// This packet will eventually be resent, so no data will be lost.
    DroppedTooEarly,
    /// This packet was a duplicate of a previously received packet. It must have been resent
    /// before the remote peer received the ack for the packet.
    /// Since this packet is a duplicate, no data is lost by dropping it.
    DroppedDuplicate,
    /// This packet was a duplicate of a previously received packet. We need to resend an Ack
    /// packet containing the reply number within this error instance.
    ///
    /// So `Packet::Ack(SeqNo)` should be sent to the remote peer immediately.
    DroppedDuplicateResendAck(SeqNo),
    /// In order to preserve losslessness or in-order transport, the received packet cannot be
    /// processed until some other packet is received. The packet was saved to the receive window.
    WaitingForRecv,
    /// Either the receive window is full, or the received packet is SeqCst and cannot be processed
    /// yet. In either case some currently issued reply number must be returned to SEQEX to send
    /// either an Ack or a Reply. If using reply guards, then some currently existing reply guard
    /// must be dropped or consumed.
    /// Until this occurs the received packet cannot be processed.
    ///
    /// If the receive window was full, the packet was dropped.
    /// Otherwise if the packet is SeqCst, then the packet was saved to the receive window.
    WaitingForReply,
}

/// The error types of a receive function that resends acknowledgements by itself.
#[derive(Debug, Clone, PartialEq, Eq)]
pub enum TryRecvError {
    /// This packet had to be dropped because it arrived far enough out-of-order that it was
    /// outside the receive window.
    /// This packet will eventually be resent, so no data will be lost.
    DroppedTooEarly,
    /// This packet was a duplicate of a previously received packet.
    /// Since this packet is a duplicate, no data is lost by dropping it.
    DroppedDuplicate,
    /// In order to preserve losslessness or in-order transport, the received packet cannot be
    /// processed until some other packet is received. The packet was saved to the receive window.
    WaitingForRecv,
    /// Either the receive window is full, or the received packet is SeqCst and cannot enter the
    /// critical section where it is processed. In either case there currently exists some reply
    /// guard that must be dropped or consumed before this packet can be processed.
    ///
    /// If the receive window was full, the packet was dropped.
    /// Otherwise if the packet is SeqCst, then the packet was saved to the receive window.
    WaitingForReply,
}

/// These are the error types that can be returned by a blocking SEQEX receive function.
///
/// Some of these errors specify that SEQEX is waiting on some event to occur before it can proceed.
#[derive(Debug, Clone, PartialEq, Eq)]
pub enum RecvError {
    /// This packet arrived far enough out-of-order that it was outside the receive window.
    DroppedTooEarly,
    /// This packet was a duplicate of a previously received packet.
    DroppedDuplicate,
    /// The packet cannot be processed until some other packet is received.
    WaitingForRecv,
    /// Some reply guard must be dropped or consumed before this packet can be processed.
    WaitingForReply,
    /// The session has been explicitly closed.
    Closed,
}

/// A generic error that can be returned by a `try_send` or `try_pump` function.
/// They specify what event must occur before a future call to `try_send` or `try_pump` can
/// succeed.
#[derive(Debug, Clone, PartialEq, Eq)]
pub enum TryError {
    /// The packet could not be sent or processed at this time.
    /// Some other packet must be received from the remote peer first.
    WaitingForRecv,
    /// Some currently issued reply number must be returned to SEQEX to send either an Ack or a
    /// Reply. If using reply guards, then some currently existing reply guard must be dropped or
    /// consumed.
    /// Until this occurs the packet cannot be sent or processed.
    WaitingForReply,
}

/// The error of a send function on a session that can be closed.
#[derive(Debug, Clone, PartialEq, Eq)]
pub enum TrySendError {
    /// The packet could not be sent at this time.
    /// Some other packet must be received from the remote peer first.
    WaitingForRecv,
    /// Some currently issued reply number must be returned to SEQEX before the packet can be sent.
    WaitingForReply,
    /// The session has been explicitly closed.
    Closed,
}

/// This session has been explicitly closed.
/// It can no longer send or receive data.
///
/// A session will never close by itself, only the caller can close it.
#[derive(Debug, Clone, PartialEq, Eq)]
pub struct ClosedError;

impl TryRawRecvError {
    /// What to tell the user about this error.
    pub fn to_string(&self) -> (text: String)
        ensures
            match self {
                TryRawRecvError::DroppedTooEarly => text@ == "packet arrived too early"@,
                TryRawRecvError::DroppedDuplicate => text@ == "packet was a duplicate"@,
                TryRawRecvError::DroppedDuplicateResendAck(_) => text@ == "packet was a duplicate, resending ack"@,
                TryRawRecvError::WaitingForRecv => text@ == "can't process until another packet is received"@,
                TryRawRecvError::WaitingForReply => text@ == "can't process until a reply is finished"@,
            },
    {
        match self {
            TryRawRecvError::DroppedTooEarly => "packet arrived too early".to_owned(),
            TryRawRecvError::DroppedDuplicate => "packet was a duplicate".to_owned(),
            TryRawRecvError::DroppedDuplicateResendAck(_) => "packet was a duplicate, resending ack".to_owned(),
            TryRawRecvError::WaitingForRecv => "can't process until another packet is received".to_owned(),
            TryRawRecvError::WaitingForReply => "can't process until a reply is finished".to_owned(),
        }
    }
}

impl TryRecvError {
    /// What to tell the user about this error.
    pub fn to_string(&self) -> (text: String)
        ensures
            match self {
                TryRecvError::DroppedTooEarly => text@ == "packet arrived too early"@,
                TryRecvError::DroppedDuplicate => text@ == "packet was a duplicate"@,
                TryRecvError::WaitingForRecv => text@ == "can't process packet until another packet is received"@,
                TryRecvError::WaitingForReply => text@ == "can't process packet until a reply is finished"@,
            },
    {
        match self {
            TryRecvError::DroppedTooEarly => "packet arrived too early".to_owned(),
            TryRecvError::DroppedDuplicate => "packet was a duplicate".to_owned(),
            TryRecvError::WaitingForRecv => "can't process packet until another packet is received".to_owned(),
            TryRecvError::WaitingForReply => "can't process packet until a reply is finished".to_owned(),
        }
    }
}

impl RecvError {
    /// What to tell the user about this error.
    pub fn to_string(&self) -> (text: String)
        ensures
            match self {
                RecvError::DroppedTooEarly => text@ == "packet arrived too early"@,
                RecvError::DroppedDuplicate => text@ == "packet was a duplicate"@,
                RecvError::WaitingForRecv => text@ == "can't process packet until another packet is received"@,
                RecvError::WaitingForReply => text@ == "can't process packet until a reply is finished"@,
                RecvError::Closed => text@ == "can't receive packet because the session was explicitly closed"@,
            },
    {
        match self {
            RecvError::DroppedTooEarly => "packet arrived too early".to_owned(),
            RecvError::DroppedDuplicate => "packet was a duplicate".to_owned(),
            RecvError::WaitingForRecv => "can't process packet until another packet is received".to_owned(),
            RecvError::WaitingForReply => "can't process packet until a reply is finished".to_owned(),
            RecvError::Closed => "can't receive packet because the session was explicitly closed".to_owned(),
        }
    }
}

impl TryError {
    /// What to tell the user about this error.
    pub fn to_string(&self) -> (text: String)
        ensures
            match self {
                TryError::WaitingForRecv => text@ == "can't process until another packet is received"@,
                TryError::WaitingForReply => text@ == "can't process until a reply is finished"@,
            },
    {
        match self {
            TryError::WaitingForRecv => "can't process until another packet is received".to_owned(),
            TryError::WaitingForReply => "can't process until a reply is finished".to_owned(),
        }
    }
}

impl TrySendError {
    /// What to tell the user about this error.
    pub fn to_string(&self) -> (text: String)
        ensures
            match self {
                TrySendError::WaitingForRecv => text@ == "can't send until another packet is received"@,
                TrySendError::WaitingForReply => text@ == "can't send until a reply is finished"@,
                TrySendError::Closed => text@ == "can't send because the session was explicitly closed"@,
            },
    {
        match self {
            TrySendError::WaitingForRecv => "can't send until another packet is received".to_owned(),
            TrySendError::WaitingForReply => "can't send until a reply is finished".to_owned(),
            TrySendError::Closed => "can't send because the session was explicitly closed".to_owned(),
        }
    }
}

impl ClosedError {
    /// What to tell the user about this error.
    pub fn to_string(&self) -> (text: String)
        ensures
            text@ == "can't send because the session was explicitly closed"@,
    {
        "can't send because the session was explicitly closed".to_owned()
    }
}

impl From<TryRecvError> for RecvError {
    fn from(value: TryRecvError) -> (error: Self) {
        match value {
            TryRecvError::DroppedTooEarly => RecvError::DroppedTooEarly,
            TryRecvError::DroppedDuplicate => RecvError::DroppedDuplicate,
            TryRecvError::WaitingForRecv => RecvError::WaitingForRecv,
            TryRecvError::WaitingForReply => RecvError::WaitingForReply,
        }
    }
}

impl vstd::std_specs::convert::FromSpecImpl<TryRecvError> for RecvError {
    open spec fn obeys_from_spec() -> bool {
        true
    }

    open spec fn from_spec(value: TryRecvError) -> Self {
        match value {
            TryRecvError::DroppedTooEarly => RecvError::DroppedTooEarly,
            TryRecvError::DroppedDuplicate => RecvError::DroppedDuplicate,
            TryRecvError::WaitingForRecv => RecvError::WaitingForRecv,
            TryRecvError::WaitingForReply => RecvError::WaitingForReply,
        }
    }
}

impl From<TryError> for TrySendError {
    fn from(value: TryError) -> (error: Self) {
        match value {
            TryError::WaitingForRecv => TrySendError::WaitingForRecv,
            TryError::WaitingForReply => TrySendError::WaitingForReply,
        }
    }
}

impl vstd::std_specs::convert::FromSpecImpl<TryError> for TrySendError {
    open spec fn obeys_from_spec() -> bool {
        true
    }

    open spec fn from_spec(value: TryError) -> Self {
        match value {
            TryError::WaitingForRecv => TrySendError::WaitingForRecv,
            TryError::WaitingForReply => TrySendError::WaitingForReply,
        }
    }
}

impl From<TryRawRecvError> for TryRecvError {
    fn from(value: TryRawRecvError) -> (error: Self) {
        match value {
            TryRawRecvError::DroppedTooEarly => TryRecvError::DroppedTooEarly,
            TryRawRecvError::DroppedDuplicate => TryRecvError::DroppedDuplicate,
            TryRawRecvError::DroppedDuplicateResendAck(_) => TryRecvError::DroppedDuplicate,
            TryRawRecvError::WaitingForRecv => TryRecvError::WaitingForRecv,
            TryRawRecvError::WaitingForReply => TryRecvError::WaitingForReply,
        }
    }
}

impl vstd::std_specs::convert::FromSpecImpl<TryRawRecvError> for TryRecvError {
    open spec fn obeys_from_spec() -> bool {
        true
    }

    open spec fn from_spec(value: TryRawRecvError) -> Self {
        match value {
            TryRawRecvError::DroppedTooEarly => TryRecvError::DroppedTooEarly,
            TryRawRecvError::DroppedDuplicate => TryRecvError::DroppedDuplicate,
            TryRawRecvError::DroppedDuplicateResendAck(_) => TryRecvError::DroppedDuplicate,
            TryRawRecvError::WaitingForRecv => TryRecvError::WaitingForRecv,
            TryRawRecvError::WaitingForReply => TryRecvError::WaitingForReply,
        }
    }
}

} // verus!
