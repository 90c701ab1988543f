//! The mathematical model of a session whose packets are awaited.
use super::layer::TokioLayer;
use super::{Awaited, Awaiter, Held, Holder};
use crate::error::TryError;
use crate::model::SeqState;
use crate::seq_queue::{pumped_packet, pumped_state, RecvOkRaw};
use crate::transport_layer::{Packet, SeqNo};
use vstd::prelude::*;

verus! {

/// What the tasks of a session know of it and of each other.
#[verifier::ext_equal]
#[verifier::reject_recursive_types(S)]
#[verifier::reject_recursive_types(R)]
pub struct Tasks<S, R> {
    /// The session.
    pub seq: SeqState<Awaited<S, R>, Held<R>>,
    /// How many tasks wait for a packet to be received.
    pub recv_waiters: nat,
    /// Whether a task waits for a reply to be finished.
    pub reply_waiters: bool,
    /// What has been handed to tasks that await an answer: the reply, or nothing for an ack, and
    /// whether the task was there to take it.
    pub answers: Seq<(Awaiter<R>, Option<(SeqNo, bool, R)>, bool)>,
    /// What has been handed to tasks that received a packet which had to wait.
    pub held: Seq<(Holder<R>, (SeqNo, bool, R), bool)>,
    /// What has been handed to the transport layer.
    pub sent: Seq<Packet<S>>,
}

impl<S, R> Tasks<S, R> {
    /// The same tasks around a session in another state.
    pub open spec fn with_seq(self, seq: SeqState<Awaited<S, R>, Held<R>>) -> Self {
        Tasks { seq, ..self }
    }

    /// The state after the packet with the reply number `reply_no` has been acknowledged, if it had
    /// not been answered.
    pub open spec fn acked(self, reply_no: SeqNo, unlock: bool) -> Self {
        if self.seq.replies.count(reply_no) > 0 {
            Tasks {
                seq: self.seq.returned(reply_no, unlock),
                sent: self.sent.push(Packet::Ack(reply_no)),
                ..self
            }
        } else {
            self
        }
    }

    /// The state after a packet has been handed to the task that awaits it. If that task is gone,
    /// the packet is acknowledged.
    pub open spec fn dispatched(
        self,
        raw: RecvOkRaw<Awaited<S, R>, Held<R>>,
        delivered: bool,
    ) -> Self {
        match raw {
            RecvOkRaw::Payload { reply_no, seq_cst, recv_data } => {
                let told = Tasks {
                    held: self.held.push(
                        (recv_data.0, (reply_no, seq_cst, recv_data.1), delivered),
                    ),
                    ..self
                };
                if delivered {
                    told
                } else {
                    told.acked(reply_no, seq_cst)
                }
            },
            RecvOkRaw::Reply { reply_no, seq_cst, recv_data, send_data } => {
                let told = Tasks {
                    answers: self.answers.push(
                        (send_data.0, Some((reply_no, seq_cst, recv_data.1)), delivered),
                    ),
                    ..self
                };
                if delivered {
                    told
                } else {
                    told.acked(reply_no, seq_cst)
                }
            },
            RecvOkRaw::Ack { send_data } => Tasks {
                answers: self.answers.push((send_data.0, None, delivered)),
                ..self
            },
        }
    }

    /// The state after the next packet has been pumped out of the receive window and handed to the
    /// task that awaits it.
    pub open spec fn pumped(self, delivered: bool) -> Self {
        self.with_seq(pumped_state(self.seq)).dispatched(pumped_packet(self.seq), delivered)
    }

    /// The state after `n` packets have been pumped out of the receive window. `delivered` tells of
    /// each whether the task that awaits it is there.
    pub open spec fn pumped_times(self, delivered: Seq<bool>, n: int) -> Self
        decreases n,
    {
        if n <= 0 {
            self
        } else {
            self.pumped_times(delivered, n - 1).pumped(delivered[n - 1])
        }
    }

    /// Whether as many packets can be pumped out of the receive window as `delivered` tells of.
    pub open spec fn can_pump_times(self, delivered: Seq<bool>) -> bool {
        forall|k: int|
            0 <= k < delivered.len() ==> (#[trigger] self.pumped_times(
                delivered,
                k,
            )).seq.pump_check() is Ok
    }

    /// Whether `post` is what is left when everything that can be pumped out of the receive window
    /// has been, which was `n` packets.
    pub open spec fn pumps_all(self, n: nat, post: Self) -> bool {
        exists|delivered: Seq<bool>|
            {
                &&& delivered.len() == n
                &&& #[trigger] self.can_pump_times(delivered)
                &&& post == self.pumped_times(delivered, n as int)
                &&& post.seq.pump_check() is Err
            }
    }

    /// The state while one more task waits to send.
    pub open spec fn waiting(self, e: TryError) -> Self {
        match e {
            TryError::WaitingForRecv => Tasks { recv_waiters: self.recv_waiters + 1, ..self },
            TryError::WaitingForReply => Tasks { reply_waiters: true, ..self },
        }
    }

    /// How many tasks to wake when `total` packets have been received.
    pub open spec fn to_wake(self, total: nat) -> nat {
        if self.recv_waiters < total {
            self.recv_waiters
        } else {
            total
        }
    }

    /// The state after `n` tasks have been woken.
    pub open spec fn woken(self, n: nat) -> Self {
        Tasks { recv_waiters: (self.recv_waiters - n) as nat, ..self }
    }

    /// The state after the tasks that wait for a reply to be finished have been woken.
    pub open spec fn notified(self) -> Self {
        Tasks { reply_waiters: false, ..self }
    }
}

/// Whether a packet can be scheduled at every time that the transport layer may report.
pub open spec fn can_schedule<S, R, TL: TokioLayer>(state: SeqState<S, R>, tl: TL) -> bool {
    forall|t: i64| #[trigger] tl.may_report(t) ==> state.can_schedule(t)
}

/// Whether `post` is `pre` after a packet has been sent at a time that the transport layer may
/// report.
pub open spec fn sends<S, R, TL: TokioLayer>(
    pre: Tasks<S, R>,
    tl: TL,
    reply_no: Option<SeqNo>,
    seq_cst: bool,
    data: Awaited<S, R>,
    post: Tasks<S, R>,
) -> bool {
    exists|t: i64| #[trigger]
        tl.may_report(t) && post == (Tasks {
            seq: pre.seq.sent(t, reply_no, seq_cst, data),
            sent: pre.sent.push(
                Packet::with_data(pre.seq.next_send, reply_no, seq_cst, data.1),
            ),
            ..pre
        })
}

/// The timestamp `post`, if it is another one than `pre`.
pub open spec fn changed(pre: i64, post: i64) -> Option<i64> {
    if pre != post {
        Some(post)
    } else {
        None
    }
}

} // verus!
