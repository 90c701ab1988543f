//! The API for a session that several threads share.
//!
//! `SeqEx` is what the threads keep behind one mutex. Each of its methods is what one thread does
//! while it holds that mutex, and says which of the other threads to wake, or which condition to
//! wait on before going on.
use crate::model::SeqState;
use crate::seq_queue;
use crate::seq_queue::min;
use crate::single_thread::{after_service, can_service, can_wait, to_resend};
use crate::transport_layer::{
    SeqNo, TransportLayer, DEFAULT_INITIAL_SEQ_NO, DEFAULT_RESEND_INTERVAL_MS,
};
use vstd::prelude::*;

pub mod behaviour;
pub mod error;
pub mod guard;
pub mod laws;
pub mod recv;
pub mod send;
pub mod shared;
pub mod talk;
pub mod timed;

pub use crate::error::TryError;
pub use error::{ClosedError, RecvError, TryRecvError, TrySendError};
pub use guard::{ReplyGuard, SeqCstGuard};
pub use recv::{received_by_pump, IterStep, PumpStep, ReceiveStep, RecvIter, RecvOk};
pub use send::SendStep;
pub use shared::{Shared, WaitOn, Wake};
pub use timed::TimedSendStep;

verus! {

/// The state that the threads of a session share.
///
/// `SendData` is some collection of data chosen by the user to define the contents, or payload, of
/// a packet. It can also be made to contain additional associated data that is not sent to the
/// peer, but instead is retained by SEQEX to locally track the current state of some exchange with
/// the remote peer.
///
/// `RecvData` is another collection of data chosen by the user to define a payload of data that was
/// just received from the remote peer.
#[derive(Debug)]
pub struct SeqEx<SendData, RecvData, const CAP: usize> {
    seq: seq_queue::SeqEx<SendData, RecvData, CAP>,
    recv_waiters: usize,
    reply_sender_waiters: bool,
    reply_receiver_waiters: bool,
    closed: bool,
}

impl<SendData, RecvData, const CAP: usize> View for SeqEx<SendData, RecvData, CAP> {
    type V = Shared<SendData, RecvData>;

    closed spec fn view(&self) -> Shared<SendData, RecvData> {
        Shared {
            seq: self.seq@,
            recv_waiters: self.recv_waiters as nat,
            reply_sender_waiters: self.reply_sender_waiters,
            reply_receiver_waiters: self.reply_receiver_waiters,
            closed: self.closed,
        }
    }
}

impl<SendData, RecvData, const CAP: usize> SeqEx<SendData, RecvData, CAP> {
    /// What every method keeps.
    pub open spec fn wf(&self) -> bool {
        self@.seq.cap() == CAP && self@.seq.wf()
    }

    /// Creates a new instance of `SeqEx`.
    ///
    /// `retry_interval` sets the interval at which SEQEX will resend unacknowledged packets.
    ///
    /// `initial_seq_no` sets the initial sequence number for this SEQEX session. This number
    /// **must** be synchronized with the remote peer.
    pub fn new(retry_interval: i64, initial_seq_no: SeqNo) -> (seq: Self)
        requires
            1 < CAP <= u32::MAX,
        ensures
            seq.wf(),
            seq@ == (Shared {
                seq: SeqState::<SendData, RecvData>::initial(
                    CAP as nat,
                    retry_interval,
                    initial_seq_no,
                ),
                recv_waiters: 0,
                reply_sender_waiters: false,
                reply_receiver_waiters: false,
                closed: false,
            }),
    {
        SeqEx {
            seq: seq_queue::SeqEx::new(retry_interval, initial_seq_no),
            recv_waiters: 0,
            reply_sender_waiters: false,
            reply_receiver_waiters: false,
            closed: false,
        }
    }

    fn notify_reply(&mut self) -> (wake: Wake)
        requires
            old(self).wf(),
        ensures
            final(self).wf(),
            final(self)@ == old(self)@.notified(),
            wake == old(self)@.wake_reply(),
    {
        if self.reply_sender_waiters || self.reply_receiver_waiters {
            self.reply_sender_waiters = false;
            Wake::AllOnReply
        } else {
            Wake::Nobody
        }
    }

    fn notify_recv(&self) -> (wake: Wake)
        ensures
            wake == self@.wake_recv(),
    {
        if self.recv_waiters > 0 {
            Wake::OneOnRecv
        } else {
            Wake::Nobody
        }
    }

    /// Resends unacknowledged packets, and returns the duration of time in milliseconds that
    /// should be waited until calling this function again.
    ///
    /// This function should be called repeatedly in a loop, with the loop
    /// sleeping the amount of time specified before calling again.
    ///
    /// Once the session has been closed there is nothing to resend.
    pub fn service<TL: TransportLayer<SendData>>(&mut self, tl: &mut TL) -> (wait: i64)
        requires
            old(self).wf(),
            !old(self)@.closed ==> forall|t: i64| #[trigger]
                old(tl).may_report(t) ==> can_service(old(self)@.seq, t) && can_wait(
                    old(self)@.seq,
                    t,
                ),
        ensures
            final(self).wf(),
            if old(self)@.closed {
                &&& final(self)@ == old(self)@
                &&& final(tl).sent() == old(tl).sent()
                &&& wait == old(self)@.seq.resend_interval
            } else {
                exists|t: i64|
                    {
                        &&& #[trigger] old(tl).may_report(t)
                        &&& final(self)@ == old(self)@.with_seq(after_service(old(self)@.seq, t))
                        &&& final(tl).sent() == old(tl).sent() + to_resend(old(self)@.seq, t)
                        &&& wait == min(
                            final(self)@.seq.resend_interval,
                            (final(self)@.seq.next_service_timestamp - t) as i64,
                        )
                    }
            },
    {
        if self.closed {
            return self.seq.resend_interval();
        }
        self.seq.service(tl)
    }

    /// A variant of `service` for advanced users.
    ///
    /// Instead of returning a duration of time, this function returns the timestamp at which
    /// this function should be called again, or `i64::MAX` if the send window is empty and nothing
    /// currently needs to be resent.
    ///
    /// This can be used in combination with the return values of `send` and `ReplyGuard::reply` to
    /// precisely schedule updates, allowing updates to occur much less often. It requires a means
    /// of dynamically scheduling calls, as well as discipline in correctly applying updates to that
    /// schedule whenever `send`, `reply` or any of their variants are called.
    pub fn service_scheduled<TL: TransportLayer<SendData>>(&mut self, tl: &mut TL) -> (timestamp:
        Result<i64, ClosedError>)
        requires
            old(self).wf(),
            !old(self)@.closed ==> forall|t: i64| #[trigger]
                old(tl).may_report(t) ==> can_service(old(self)@.seq, t),
        ensures
            final(self).wf(),
            timestamp is Err == old(self)@.closed,
            match timestamp {
                Err(_) => {
                    &&& final(self)@ == old(self)@
                    &&& final(tl).sent() == old(tl).sent()
                },
                Ok(timestamp) => exists|t: i64|
                    {
                        &&& #[trigger] old(tl).may_report(t)
                        &&& final(self)@ == old(self)@.with_seq(
                            settled(after_service(old(self)@.seq, t)),
                        )
                        &&& final(tl).sent() == old(tl).sent() + to_resend(old(self)@.seq, t)
                        &&& timestamp == final(self)@.seq.next_service_timestamp
                    },
            },
    {
        if self.closed {
            return Err(ClosedError);
        }
        let current_time: i64 = tl.time();
        assert(old(tl).may_report(current_time));
        self.seq.resend_due(tl, current_time);
        self.seq.settle();
        Ok(self.seq.service_timestamp())
    }

    /// When this function is called, sending and receiving packets is immediately disabled.
    /// Nothing else will be disabled, it will still be possible to empty any packets left in the
    /// receive window with `pump`.
    ///
    /// All threads that wait for the remote peer to send an ack are to be woken, and will return an
    /// error. Future calls to `send` or `send_with` will return an error instead of waiting.
    /// All future packets received from the remote peer will be dropped and an error will be
    /// returned.
    ///
    /// Calling this function can cause data loss due to packets being dropped from the send window,
    /// but it will maintain state synchronization with the remote peer up to the moment it was
    /// called.
    pub fn close(&mut self) -> (wake: Wake)
        requires
            old(self).wf(),
        ensures
            final(self).wf(),
            final(self)@ == (Shared { closed: true, ..old(self)@ }),
            wake == if old(self)@.recv_waiters > 0 {
                Wake::AllOnRecv
            } else {
                Wake::Nobody
            },
    {
        self.closed = true;
        if self.recv_waiters > 0 {
            Wake::AllOnRecv
        } else {
            Wake::Nobody
        }
    }

    /// Return whether or not `close` has previously been called.
    pub fn is_closed(&self) -> (closed: bool)
        ensures
            closed == self@.closed,
    {
        self.closed
    }
}

/// A session that is serviced only once something has been sent, if it has nothing to resend.
pub open spec fn settled<S, R>(state: SeqState<S, R>) -> SeqState<S, R> {
    if state.is_idle() {
        state.serviced(i64::MAX)
    } else {
        state
    }
}

impl<SendData, RecvData, const CAP: usize> Default for SeqEx<SendData, RecvData, CAP> {
    fn default() -> (seq: Self)
        ensures
            1 < CAP <= u32::MAX ==> seq.wf(),
            seq@ == (Shared {
                seq: SeqState::<SendData, RecvData>::initial(
                    CAP as nat,
                    DEFAULT_RESEND_INTERVAL_MS,
                    DEFAULT_INITIAL_SEQ_NO,
                ),
                recv_waiters: 0,
                reply_sender_waiters: false,
                reply_receiver_waiters: false,
                closed: false,
            }),
    {
        SeqEx {
            seq: seq_queue::SeqEx::empty(
                DEFAULT_RESEND_INTERVAL_MS,
                DEFAULT_INITIAL_SEQ_NO,
            ),
            recv_waiters: 0,
            reply_sender_waiters: false,
            reply_receiver_waiters: false,
            closed: false,
        }
    }
}

} // verus!
