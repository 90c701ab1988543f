//! What the threads of a session know of it and of each other.
use crate::error::TryError;
use crate::model::SeqState;
use vstd::prelude::*;

verus! {

/// Which threads to wake once the mutex is free again.
#[derive(Debug, Clone, Copy, PartialEq, Eq, Structural)]
pub enum Wake {
    /// None.
    Nobody,
    /// One of those that wait for a packet to be received.
    OneOnRecv,
    /// All of those that wait for a packet to be received.
    AllOnRecv,
    /// All of those that wait for a reply to be finished.
    AllOnReply,
}

/// What a thread waits for.
#[derive(Debug, Clone, Copy, PartialEq, Eq, Structural)]
pub enum WaitOn {
    /// A packet to be received.
    Recv,
    /// A reply to be finished.
    Reply,
}

/// What the threads of a session know of it and of each other.
#[verifier::ext_equal]
#[verifier::reject_recursive_types(S)]
#[verifier::reject_recursive_types(R)]
pub struct Shared<S, R> {
    /// The session.
    pub seq: SeqState<S, R>,
    /// How many threads wait for a packet to be received.
    pub recv_waiters: nat,
    /// Whether a thread that wants to send waits for a reply to be finished.
    pub reply_sender_waiters: bool,
    /// Whether a thread that wants to pump waits for a reply to be finished.
    pub reply_receiver_waiters: bool,
    /// Whether the session has been closed.
    pub closed: bool,
}

impl<S, R> Shared<S, R> {
    /// The same threads around a session in another state.
    pub open spec fn with_seq(self, seq: SeqState<S, R>) -> Self {
        Shared { seq, ..self }
    }

    /// Whom to wake when a packet has been received.
    pub open spec fn wake_recv(self) -> Wake {
        if self.recv_waiters > 0 {
            Wake::OneOnRecv
        } else {
            Wake::Nobody
        }
    }

    /// Whom to wake when a reply has been finished.
    pub open spec fn wake_reply(self) -> Wake {
        if self.reply_sender_waiters || self.reply_receiver_waiters {
            Wake::AllOnReply
        } else {
            Wake::Nobody
        }
    }

    /// The state after the threads that wait for a reply to be finished have been woken.
    pub open spec fn notified(self) -> Self {
        Shared { reply_sender_waiters: false, ..self }
    }

    /// The state while one more sender waits.
    pub open spec fn waiting(self, on: WaitOn) -> Self {
        match on {
            WaitOn::Recv => Shared { recv_waiters: self.recv_waiters + 1, ..self },
            WaitOn::Reply => Shared { reply_sender_waiters: true, ..self },
        }
    }

    /// The state after a sender has stopped waiting.
    pub open spec fn resumed(self, on: WaitOn) -> Self {
        match on {
            WaitOn::Recv => Shared { recv_waiters: (self.recv_waiters - 1) as nat, ..self },
            WaitOn::Reply => self,
        }
    }
}

/// What a sender that finds no room waits for.
pub open spec fn wait_on(e: TryError) -> WaitOn {
    match e {
        TryError::WaitingForRecv => WaitOn::Recv,
        TryError::WaitingForReply => WaitOn::Reply,
    }
}

/// The timestamp `post`, if it is earlier than `pre`.
pub open spec fn decreased(pre: i64, post: i64) -> Option<i64> {
    if pre > post {
        Some(post)
    } else {
        None
    }
}

} // verus!
