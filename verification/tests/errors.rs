use seqex::error::{ClosedError, RecvError, TryError, TryRawRecvError, TryRecvError, TrySendError};
use seqex::{sync, task};

#[test]
fn raw_receive_errors_have_texts() {
    assert_eq!(TryRawRecvError::DroppedTooEarly.to_string(), "packet arrived too early");
    assert_eq!(TryRawRecvError::DroppedDuplicate.to_string(), "packet was a duplicate");
    assert_eq!(
        TryRawRecvError::DroppedDuplicateResendAck(3).to_string(),
        "packet was a duplicate, resending ack"
    );
    assert_eq!(
        TryRawRecvError::WaitingForRecv.to_string(),
        "can't process until another packet is received"
    );
    assert_eq!(
        TryRawRecvError::WaitingForReply.to_string(),
        "can't process until a reply is finished"
    );
}

#[test]
fn receive_errors_have_texts() {
    assert_eq!(TryRecvError::DroppedTooEarly.to_string(), "packet arrived too early");
    assert_eq!(TryRecvError::DroppedDuplicate.to_string(), "packet was a duplicate");
    assert_eq!(
        TryRecvError::WaitingForRecv.to_string(),
        "can't process packet until another packet is received"
    );
    assert_eq!(
        TryRecvError::WaitingForReply.to_string(),
        "can't process packet until a reply is finished"
    );
    assert_eq!(RecvError::DroppedTooEarly.to_string(), "packet arrived too early");
    assert_eq!(RecvError::DroppedDuplicate.to_string(), "packet was a duplicate");
    assert_eq!(
        RecvError::WaitingForRecv.to_string(),
        "can't process packet until another packet is received"
    );
    assert_eq!(
        RecvError::WaitingForReply.to_string(),
        "can't process packet until a reply is finished"
    );
    assert_eq!(
        RecvError::Closed.to_string(),
        "can't receive packet because the session was explicitly closed"
    );
}

#[test]
fn send_errors_have_texts() {
    assert_eq!(
        TryError::WaitingForRecv.to_string(),
        "can't process until another packet is received"
    );
    assert_eq!(TryError::WaitingForReply.to_string(), "can't process until a reply is finished");
    assert_eq!(
        TrySendError::WaitingForRecv.to_string(),
        "can't send until another packet is received"
    );
    assert_eq!(TrySendError::WaitingForReply.to_string(), "can't send until a reply is finished");
    assert_eq!(
        TrySendError::Closed.to_string(),
        "can't send because the session was explicitly closed"
    );
    assert_eq!(ClosedError.to_string(), "can't send because the session was explicitly closed");
}

#[test]
fn errors_convert() {
    assert_eq!(RecvError::from(TryRecvError::DroppedTooEarly), RecvError::DroppedTooEarly);
    assert_eq!(RecvError::from(TryRecvError::DroppedDuplicate), RecvError::DroppedDuplicate);
    assert_eq!(RecvError::from(TryRecvError::WaitingForRecv), RecvError::WaitingForRecv);
    assert_eq!(RecvError::from(TryRecvError::WaitingForReply), RecvError::WaitingForReply);
    assert_eq!(TrySendError::from(TryError::WaitingForRecv), TrySendError::WaitingForRecv);
    assert_eq!(TrySendError::from(TryError::WaitingForReply), TrySendError::WaitingForReply);
    assert_eq!(
        TryRecvError::from(TryRawRecvError::DroppedDuplicateResendAck(4)),
        TryRecvError::DroppedDuplicate
    );
    assert_eq!(
        TryRecvError::from(TryRawRecvError::DroppedTooEarly),
        TryRecvError::DroppedTooEarly
    );
    assert_eq!(
        TryRecvError::from(TryRawRecvError::WaitingForRecv),
        TryRecvError::WaitingForRecv
    );
    assert_eq!(
        TryRecvError::from(TryRawRecvError::WaitingForReply),
        TryRecvError::WaitingForReply
    );
    assert_eq!(
        TryRecvError::from(TryRawRecvError::DroppedDuplicate),
        TryRecvError::DroppedDuplicate
    );
}

#[test]
fn shared_session_errors_have_texts_and_convert() {
    assert_eq!(
        sync::TryRecvError::OutOfSequence.to_string(),
        "packet arrived but cannot yet be processed"
    );
    assert_eq!(
        sync::TryRecvError::WaitingForReply.to_string(),
        "can't process packet until a reply is finished"
    );
    assert_eq!(
        sync::TryRecvError::Closed.to_string(),
        "can't receive packet because the session was explicitly closed"
    );
    assert_eq!(
        sync::RecvError::OutOfSequence.to_string(),
        "packet arrived but cannot yet be processed"
    );
    assert_eq!(
        sync::RecvError::Closed.to_string(),
        "can't receive packet because the session was explicitly closed"
    );
    assert_eq!(
        sync::TrySendError::WaitingForRecv.to_string(),
        "can't send until another packet is received"
    );
    assert_eq!(
        sync::TrySendError::WaitingForReply.to_string(),
        "can't send until a reply is finished"
    );
    assert_eq!(
        sync::TrySendError::Closed.to_string(),
        "can't send because the session was explicitly closed"
    );
    assert_eq!(
        sync::ClosedError.to_string(),
        "can't send because the session was explicitly closed"
    );
    assert_eq!(
        sync::TryRecvError::from(sync::RecvError::OutOfSequence),
        sync::TryRecvError::OutOfSequence
    );
    assert_eq!(sync::TryRecvError::from(sync::RecvError::Closed), sync::TryRecvError::Closed);
    assert_eq!(
        sync::TrySendError::from(TryError::WaitingForReply),
        sync::TrySendError::WaitingForReply
    );
    assert_eq!(
        sync::TrySendError::from(TryError::WaitingForRecv),
        sync::TrySendError::WaitingForRecv
    );
}

#[test]
fn task_errors_have_texts() {
    assert_eq!(task::AsyncRecvError::DroppedTooEarly.to_string(), "packet arrived too early");
    assert_eq!(task::AsyncRecvError::DroppedDuplicate.to_string(), "packet was a duplicate");
    assert_eq!(task::AsyncRecvError::AsyncReply.to_string(), "packet was an async reply");
    assert_eq!(
        task::AsyncRecvError::SeqExClosed.to_string(),
        "the instance of SeqEx was dropped"
    );
    assert_eq!(task::AsyncError::EndOfExchange.to_string(), "peer replied with an ack");
    assert_eq!(
        task::AsyncError::SeqExClosed.to_string(),
        "the window was closed before a reply could be received"
    );
}
