//! The API for a session whose packets are awaited by asynchronous tasks.
//!
//! `SeqEx` is what the tasks keep behind one mutex. Each of its methods is what one task does while
//! it holds that mutex, and says which of the other tasks to wake, or what to await before going
//! on.
use crate::model::SeqState;
use crate::seq_queue;
use crate::transport_layer::{
    Packet, SeqNo, DEFAULT_INITIAL_SEQ_NO, DEFAULT_RESEND_INTERVAL_MS,
};
use vstd::prelude::*;

pub mod behaviour;
pub mod delivery;
pub mod error;
pub mod guard;
pub mod laws;
pub mod layer;
pub mod model;
pub mod recv;
pub mod send;
pub mod service;
pub mod talk;

pub use delivery::Deliveries;
pub use error::{AsyncError, AsyncRecvError};
pub use layer::TokioLayer;
pub use model::Tasks;
pub use recv::{held_arrived, ReceiveStep};
pub use send::answer_arrived;
pub use service::ServiceWait;

verus! {

/// The channel to a task that awaits the answer to a packet: a reply number, whether the reply holds
/// the SeqCst lock, and the data of the reply, or nothing if the answer is an ack.
pub type Awaiter<RecvData> = tokio::sync::oneshot::Sender<Option<(SeqNo, bool, RecvData)>>;

/// The channel to a task that received a packet which has to wait in the receive window.
pub type Holder<RecvData> = tokio::sync::oneshot::Sender<(SeqNo, bool, RecvData)>;

/// What the send window holds: data, and who awaits the answer to it.
pub type Awaited<SendData, RecvData> = (Awaiter<RecvData>, SendData);

/// What the receive window holds: data, and who received it.
pub type Held<RecvData> = (Holder<RecvData>, RecvData);

/// The state that the tasks of a session share.
#[verifier::reject_recursive_types(SendData)]
#[verifier::reject_recursive_types(RecvData)]
pub struct SeqEx<SendData, RecvData, const CAP: usize> {
    seq: seq_queue::SeqEx<Awaited<SendData, RecvData>, Held<RecvData>, CAP>,
    recv_waiters: usize,
    reply_waiters: bool,
    answers: Deliveries<Option<(SeqNo, bool, RecvData)>>,
    held: Deliveries<(SeqNo, bool, RecvData)>,
}

/// When the task that resends packets has to do so next.
#[derive(Debug)]
pub struct ServiceState {
    next_service_timestamp: i64,
}

/// The right to answer a received packet, once.
#[must_use]
#[derive(Debug)]
pub struct ReplyGuard {
    reply_no: SeqNo,
    is_holding_lock: bool,
    has_replied: bool,
}

impl<SendData, RecvData, const CAP: usize> View for SeqEx<SendData, RecvData, CAP> {
    type V = Tasks<SendData, RecvData>;

    /// What the tasks know of the session, apart from what was sent.
    closed spec fn view(&self) -> Tasks<SendData, RecvData> {
        Tasks {
            seq: self.seq@,
            recv_waiters: self.recv_waiters as nat,
            reply_waiters: self.reply_waiters,
            answers: self.answers@,
            held: self.held@,
            sent: Seq::empty(),
        }
    }
}

impl<SendData, RecvData, const CAP: usize> SeqEx<SendData, RecvData, CAP> {
    /// What the tasks know of the session, once `sent` has been handed to the transport layer.
    pub open spec fn tasks(self, sent: Seq<Packet<SendData>>) -> Tasks<SendData, RecvData> {
        Tasks { sent, ..self@ }
    }

    /// What every method keeps.
    pub open spec fn wf(&self) -> bool {
        self@.seq.cap() == CAP && self@.seq.wf()
    }

    /// Creates a new instance of `SeqEx`, and the state of the task that services it.
    pub fn new(retry_interval: i64, initial_seq_no: SeqNo) -> (new: (Self, ServiceState))
        requires
            1 < CAP <= u32::MAX,
        ensures
            new.0.wf(),
            new.1@ == i64::MAX,
            forall|sent: Seq<Packet<SendData>>| #[trigger]
                new.0.tasks(sent) == (Tasks {
                    seq: SeqState::<Awaited<SendData, RecvData>, Held<RecvData>>::initial(
                        CAP as nat,
                        retry_interval,
                        initial_seq_no,
                    ),
                    recv_waiters: 0,
                    reply_waiters: false,
                    answers: Seq::empty(),
                    held: Seq::empty(),
                    sent,
                }),
    {
        let seq = SeqEx {
            seq: seq_queue::SeqEx::new(retry_interval, initial_seq_no),
            recv_waiters: 0,
            reply_waiters: false,
            answers: Deliveries::new(),
            held: Deliveries::new(),
        };
        (seq, ServiceState { next_service_timestamp: i64::MAX })
    }

    /// Creates a new instance of `SeqEx` with the default resend interval and initial sequence
    /// number.
    pub fn new_default() -> (new: (Self, ServiceState))
        requires
            1 < CAP <= u32::MAX,
        ensures
            new.0.wf(),
            new.1@ == i64::MAX,
            forall|sent: Seq<Packet<SendData>>| #[trigger]
                new.0.tasks(sent) == (Tasks {
                    seq: SeqState::<Awaited<SendData, RecvData>, Held<RecvData>>::initial(
                        CAP as nat,
                        DEFAULT_RESEND_INTERVAL_MS,
                        DEFAULT_INITIAL_SEQ_NO,
                    ),
                    recv_waiters: 0,
                    reply_waiters: false,
                    answers: Seq::empty(),
                    held: Seq::empty(),
                    sent,
                }),
    {
        Self::new(DEFAULT_RESEND_INTERVAL_MS, DEFAULT_INITIAL_SEQ_NO)
    }

    /// Tells whether the tasks that wait for a reply to be finished have to be woken.
    fn notify_reply(&mut self) -> (wake: bool)
        requires
            old(self).wf(),
        ensures
            final(self).wf(),
            forall|sent: Seq<Packet<SendData>>| #[trigger]
                final(self).tasks(sent) == old(self).tasks(sent).notified(),
            forall|sent: Seq<Packet<SendData>>| wake == (#[trigger] old(self).tasks(
                sent,
            )).reply_waiters,
    {
        if self.reply_waiters {
            self.reply_waiters = false;
            true
        } else {
            false
        }
    }
}

impl View for ServiceState {
    type V = i64;

    closed spec fn view(&self) -> i64 {
        self.next_service_timestamp
    }
}

impl ReplyGuard {
    /// The reply number that was issued for the packet.
    pub closed spec fn reply_no(self) -> SeqNo {
        self.reply_no
    }

    /// Whether the guard holds the SeqCst lock.
    pub closed spec fn holds_lock(self) -> bool {
        self.is_holding_lock
    }

    /// Whether the packet has been answered.
    pub closed spec fn answered(self) -> bool {
        self.has_replied
    }

    /// Whether the guard stands for the packet with the given reply number, which has not been
    /// answered.
    pub open spec fn is_for(self, reply_no: SeqNo, is_holding_lock: bool) -> bool {
        &&& self.reply_no() == reply_no
        &&& self.holds_lock() == is_holding_lock
        &&& !self.answered()
    }

    fn new(reply_no: SeqNo, is_holding_lock: bool) -> (guard: Self)
        ensures
            guard.is_for(reply_no, is_holding_lock),
    {
        ReplyGuard { reply_no, is_holding_lock, has_replied: false }
    }
}

} // verus!
