//! What is said of errors, and what they become.
use crate::error::{ClosedError, RecvError, TryError, TryRawRecvError, TryRecvError, TrySendError};
use crate::task::{AsyncError, AsyncRecvError};
use vstd::prelude::*;

verus! {

/// The text of `TryRawRecvError` tells what happened.
pub proof fn try_raw_recv_error_tells_its_reason(error: TryRawRecvError, text: String)
    requires
        call_ensures(TryRawRecvError::to_string, (&error,), text),
    ensures
        error is DroppedTooEarly ==> text@ == "packet arrived too early"@,
        error is DroppedDuplicate ==> text@ == "packet was a duplicate"@,
        error is DroppedDuplicateResendAck ==> text@ == "packet was a duplicate, resending ack"@,
        error is WaitingForRecv ==> text@ == "can't process until another packet is received"@,
        error is WaitingForReply ==> text@ == "can't process until a reply is finished"@,
{
}

/// The text of `TryRecvError` tells what happened.
pub proof fn try_recv_error_tells_its_reason(error: TryRecvError, text: String)
    requires
        call_ensures(TryRecvError::to_string, (&error,), text),
    ensures
        error is DroppedTooEarly ==> text@ == "packet arrived too early"@,
        error is DroppedDuplicate ==> text@ == "packet was a duplicate"@,
        error is WaitingForRecv ==> text@ == "can't process packet until another packet is received"@,
        error is WaitingForReply ==> text@ == "can't process packet until a reply is finished"@,
{
}

/// The text of `RecvError` tells what happened.
pub proof fn recv_error_tells_its_reason(error: RecvError, text: String)
    requires
        call_ensures(RecvError::to_string, (&error,), text),
    ensures
        error is DroppedTooEarly ==> text@ == "packet arrived too early"@,
        error is DroppedDuplicate ==> text@ == "packet was a duplicate"@,
        error is WaitingForRecv ==> text@ == "can't process packet until another packet is received"@,
        error is WaitingForReply ==> text@ == "can't process packet until a reply is finished"@,
        error is Closed ==> text@ == "can't receive packet because the session was explicitly closed"@,
{
}

/// The text of `TryError` tells what happened.
pub proof fn try_error_tells_its_reason(error: TryError, text: String)
    requires
        call_ensures(TryError::to_string, (&error,), text),
    ensures
        error is WaitingForRecv ==> text@ == "can't process until another packet is received"@,
        error is WaitingForReply ==> text@ == "can't process until a reply is finished"@,
{
}

/// The text of `TrySendError` tells what happened.
pub proof fn try_send_error_tells_its_reason(error: TrySendError, text: String)
    requires
        call_ensures(TrySendError::to_string, (&error,), text),
    ensures
        error is WaitingForRecv ==> text@ == "can't send until another packet is received"@,
        error is WaitingForReply ==> text@ == "can't send until a reply is finished"@,
        error is Closed ==> text@ == "can't send because the session was explicitly closed"@,
{
}

/// The text of `ClosedError` tells what happened.
pub proof fn closed_error_tells_its_reason(error: ClosedError, text: String)
    requires
        call_ensures(ClosedError::to_string, (&error,), text),
    ensures
        text@ == "can't send because the session was explicitly closed"@,
{
}

/// The text of `sync::TryRecvError` tells what happened.
pub proof fn shared_try_recv_error_tells_its_reason(error: crate::sync::TryRecvError, text: String)
    requires
        call_ensures(crate::sync::TryRecvError::to_string, (&error,), text),
    ensures
        error is OutOfSequence ==> text@ == "packet arrived but cannot yet be processed"@,
        error is WaitingForReply ==> text@ == "can't process packet until a reply is finished"@,
        error is Closed ==> text@ == "can't receive packet because the session was explicitly closed"@,
{
}

/// The text of `sync::RecvError` tells what happened.
pub proof fn shared_recv_error_tells_its_reason(error: crate::sync::RecvError, text: String)
    requires
        call_ensures(crate::sync::RecvError::to_string, (&error,), text),
    ensures
        error is OutOfSequence ==> text@ == "packet arrived but cannot yet be processed"@,
        error is Closed ==> text@ == "can't receive packet because the session was explicitly closed"@,
{
}

/// The text of `sync::TrySendError` tells what happened.
pub proof fn shared_try_send_error_tells_its_reason(error: crate::sync::TrySendError, text: String)
    requires
        call_ensures(crate::sync::TrySendError::to_string, (&error,), text),
    ensures
        error is WaitingForRecv ==> text@ == "can't send until another packet is received"@,
        error is WaitingForReply ==> text@ == "can't send until a reply is finished"@,
        error is Closed ==> text@ == "can't send because the session was explicitly closed"@,
{
}

/// The text of `sync::ClosedError` tells what happened.
pub proof fn shared_closed_error_tells_its_reason(error: crate::sync::ClosedError, text: String)
    requires
        call_ensures(crate::sync::ClosedError::to_string, (&error,), text),
    ensures
        text@ == "can't send because the session was explicitly closed"@,
{
}

/// The text of `AsyncRecvError` tells what happened.
pub proof fn async_recv_error_tells_its_reason(error: AsyncRecvError, text: String)
    requires
        call_ensures(AsyncRecvError::to_string, (&error,), text),
    ensures
        error is DroppedTooEarly ==> text@ == "packet arrived too early"@,
        error is DroppedDuplicate ==> text@ == "packet was a duplicate"@,
        error is AsyncReply ==> text@ == "packet was an async reply"@,
        error is SeqExClosed ==> text@ == "the instance of SeqEx was dropped"@,
{
}

/// The text of `AsyncError` tells what happened.
pub proof fn async_error_tells_its_reason(error: AsyncError, text: String)
    requires
        call_ensures(AsyncError::to_string, (&error,), text),
    ensures
        error is EndOfExchange ==> text@ == "peer replied with an ack"@,
        error is SeqExClosed ==> text@ == "the window was closed before a reply could be received"@,
{
}

/// An error keeps its name where a session can be closed.
pub proof fn receive_error_keeps_its_name(value: TryRecvError, error: RecvError)
    requires
        call_ensures(<RecvError as From<TryRecvError>>::from, (value,), error),
    ensures
        error is DroppedTooEarly <==> value is DroppedTooEarly,
        error is DroppedDuplicate <==> value is DroppedDuplicate,
        error is WaitingForRecv <==> value is WaitingForRecv,
        error is WaitingForReply <==> value is WaitingForReply,
{
}

/// An error keeps its name where a session can be closed.
pub proof fn send_error_keeps_its_name(value: TryError, error: TrySendError)
    requires
        call_ensures(<TrySendError as From<TryError>>::from, (value,), error),
    ensures
        error is WaitingForRecv <==> value is WaitingForRecv,
        error is WaitingForReply <==> value is WaitingForReply,
{
}

/// A duplicate is a duplicate, whether or not an ack has to be sent again.
pub proof fn raw_error_forgets_the_ack(value: TryRawRecvError, error: TryRecvError)
    requires
        call_ensures(<TryRecvError as From<TryRawRecvError>>::from, (value,), error),
    ensures
        error is DroppedTooEarly <==> value is DroppedTooEarly,
        error is DroppedDuplicate <==> value is DroppedDuplicate || value is DroppedDuplicateResendAck,
        error is WaitingForRecv <==> value is WaitingForRecv,
        error is WaitingForReply <==> value is WaitingForReply,
{
}

/// An error keeps its name where a packet may also have to wait for a reply.
pub proof fn shared_receive_error_keeps_its_name(
    value: crate::sync::RecvError,
    error: crate::sync::TryRecvError,
)
    requires
        call_ensures(
            <crate::sync::TryRecvError as From<crate::sync::RecvError>>::from,
            (value,),
            error,
        ),
    ensures
        error is OutOfSequence <==> value is OutOfSequence,
        error is Closed <==> value is Closed,
{
}

/// An error keeps its name where a session can be closed.
pub proof fn shared_send_error_keeps_its_name(value: TryError, error: crate::sync::TrySendError)
    requires
        call_ensures(<crate::sync::TrySendError as From<TryError>>::from, (value,), error),
    ensures
        error is WaitingForRecv <==> value is WaitingForRecv,
        error is WaitingForReply <==> value is WaitingForReply,
{
}

} // verus!
