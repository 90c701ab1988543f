//! Receiving packets.
use super::error::AsyncRecvError;
use super::layer::{all_untagged, untagged, Outgoing, TokioLayer};
use super::model::Tasks;
use super::{Awaited, Awaiter, Held, ReplyGuard, SeqEx};
use crate::error::TryRawRecvError;
use crate::model::{
    held_count, lemma_held_count_bound, lemma_held_count_emptied, lemma_held_count_fast_forward,
    slot, SeqState, Verdict,
};
use crate::seq_queue::{pumped_state, receives, RecvEntry, RecvOkRaw};
use crate::transport_layer::{Packet, SeqNo, TransportLayer};
use vstd::prelude::*;

verus! {

/// Removing the tags commutes with sending an ack.
pub(crate) proof fn lemma_untagged_ack<Tag, S>(sent: Seq<Packet<(Tag, S)>>, reply_no: SeqNo)
    ensures
        all_untagged(sent.push(Packet::Ack(reply_no))) == all_untagged(sent).push(
            Packet::Ack(reply_no),
        ),
{
    assert(all_untagged(sent.push(Packet::Ack(reply_no))) =~= all_untagged(sent).push(
        untagged(Packet::<(Tag, S)>::Ack(reply_no)),
    ));
}

/// Pumping a packet out of the receive window leaves one packet fewer in it.
proof fn lemma_pumped_holds_less<S, R>(state: SeqState<S, R>)
    requires
        state.wf(),
        state.pump_check() is Ok,
    ensures
        held_count(pumped_state(state).recv_window) + 1 == held_count(state.recv_window),
{
    let i = slot(state.next_recv, state.cap());
    lemma_held_count_emptied(state.recv_window, i);
    lemma_held_count_fast_forward(
        state.recv_window.update(i, RecvEntry::Empty),
        state.next_recv.wrapping_add(1),
    );
}

/// What has been pumped before does not depend on what is pumped after it.
proof fn lemma_pumped_prefix<S, R>(start: Tasks<S, R>, delivered: Seq<bool>, last: bool, n: int)
    requires
        n <= delivered.len(),
    ensures
        start.pumped_times(delivered.push(last), n) == start.pumped_times(delivered, n),
    decreases n,
{
    if n > 0 {
        lemma_pumped_prefix(start, delivered, last, n - 1);
    }
}

impl<SendData, RecvData, const CAP: usize> SeqEx<SendData, RecvData, CAP> {
    /// Acknowledges a packet that no task is there to answer.
    fn ack_for<TL: TokioLayer<SendData = SendData>>(
        &mut self,
        out: &mut Outgoing<TL, Awaiter<RecvData>>,
        reply_no: SeqNo,
        unlock: bool,
    )
        requires
            old(self).wf(),
        ensures
            final(self).wf(),
            final(self).tasks(all_untagged(final(out).sent())) == old(self).tasks(
                all_untagged(old(out).sent()),
            ).acked(reply_no, unlock),
    {
        proof {
            lemma_untagged_ack(old(out).sent(), reply_no);
        }
        self.seq.ack_raw(out, reply_no, unlock);
    }

    /// Hands a packet to the task that awaits it.
    fn dispatch<TL: TokioLayer<SendData = SendData>>(
        &mut self,
        out: &mut Outgoing<TL, Awaiter<RecvData>>,
        raw: RecvOkRaw<Awaited<SendData, RecvData>, Held<RecvData>>,
    ) -> (delivered: bool)
        requires
            old(self).wf(),
        ensures
            final(self).wf(),
            final(self).tasks(all_untagged(final(out).sent())) == old(self).tasks(
                all_untagged(old(out).sent()),
            ).dispatched(raw, delivered),
    {
        match raw {
            RecvOkRaw::Payload { reply_no, seq_cst, recv_data } => {
                let delivered = self.held.deliver(recv_data.0, (reply_no, seq_cst, recv_data.1));
                if !delivered {
                    // Could occur if the future holding the receiver is dropped.
                    self.ack_for(out, reply_no, seq_cst);
                }
                delivered
            },
            RecvOkRaw::Reply { reply_no, seq_cst, recv_data, send_data } => {
                let delivered = self.answers.deliver(
                    send_data.0,
                    Some((reply_no, seq_cst, recv_data.1)),
                );
                if !delivered {
                    self.ack_for(out, reply_no, seq_cst);
                }
                delivered
            },
            RecvOkRaw::Ack { send_data } => self.answers.deliver(send_data.0, None),
        }
    }

    /// Hands out everything that can be pumped out of the receive window.
    fn pump_all<TL: TokioLayer<SendData = SendData>>(
        &mut self,
        out: &mut Outgoing<TL, Awaiter<RecvData>>,
    ) -> (total: usize)
        requires
            old(self).wf(),
        ensures
            final(self).wf(),
            old(self).tasks(all_untagged(old(out).sent())).pumps_all(
                total as nat,
                final(self).tasks(all_untagged(final(out).sent())),
            ),
    {
        let ghost start = self.tasks(all_untagged(out.sent()));
        let ghost mut delivered: Seq<bool> = Seq::empty();
        let mut total: usize = 0;
        proof {
            lemma_held_count_bound(start.seq.recv_window);
        }
        loop
            invariant
                self.wf(),
                start.seq.recv_window.len() == CAP,
                held_count(start.seq.recv_window) <= CAP,
                delivered.len() == total,
                start.can_pump_times(delivered),
                self.tasks(all_untagged(out.sent())) == start.pumped_times(
                    delivered,
                    total as int,
                ),
                total + held_count(self.tasks(all_untagged(out.sent())).seq.recv_window)
                    == held_count(start.seq.recv_window),
                start == old(self).tasks(all_untagged(old(out).sent())),
            decreases held_count(self.tasks(all_untagged(out.sent())).seq.recv_window),
        {
            let ghost before = self.tasks(all_untagged(out.sent()));
            match self.seq.try_pump_raw() {
                Ok((raw, do_pump)) => {
                    proof {
                        lemma_pumped_holds_less(before.seq);
                    }
                    let last = self.dispatch(out, raw);
                    proof {
                        assert(self.tasks(all_untagged(out.sent())) == before.pumped(last));
                        assert forall|k: int| 0 <= k <= total implies #[trigger] start.pumped_times(
                            delivered.push(last),
                            k,
                        ) == start.pumped_times(delivered, k) by {
                            lemma_pumped_prefix(start, delivered, last, k);
                        }
                        let longer = delivered.push(last);
                        assert(start.pumped_times(longer, total as int) == before);
                        assert(longer[total as int] == last);
                        assert(start.pumped_times(longer, total + 1) == before.pumped(last));
                        delivered = longer;
                    }
                    total += 1;
                    if !do_pump {
                        assert(start.can_pump_times(delivered));
                        return total;
                    }
                },
                Err(_) => {
                    return total;
                },
            }
        }
    }
}

/// How far a task has come with `SeqEx::receive`.
#[derive(Debug)]
pub enum ReceiveStep<RecvData> {
    /// This is the result.
    Done(Result<(ReplyGuard, RecvData), AsyncRecvError>),
    /// Await what comes through the channel that was handed over with the packet, and hand it to
    /// `held_arrived`.
    Await,
}

/// What `SeqEx::receive_inner` comes to where the packet cannot be handed out. Nothing stands for a
/// packet that cannot be handed out yet, whether it was saved or not.
pub open spec fn refusal(e: TryRawRecvError) -> Option<AsyncRecvError> {
    match e {
        TryRawRecvError::DroppedTooEarly => Some(AsyncRecvError::DroppedTooEarly),
        TryRawRecvError::DroppedDuplicate => Some(AsyncRecvError::DroppedDuplicate),
        TryRawRecvError::DroppedDuplicateResendAck(_) => Some(AsyncRecvError::DroppedDuplicate),
        TryRawRecvError::WaitingForRecv => None,
        TryRawRecvError::WaitingForReply => None,
    }
}

/// What is done with a packet that is handed out, once the receive window has been pumped: a payload
/// is given to the task that received it, and an answer to the task that awaits it.
pub open spec fn hands_out<S, R>(
    pumped: Tasks<S, R>,
    first: RecvOkRaw<Awaited<S, R>, Held<R>>,
    last: Tasks<S, R>,
    result: Result<(ReplyGuard, R), Option<AsyncRecvError>>,
) -> bool {
    match first {
        RecvOkRaw::Payload { reply_no, seq_cst, recv_data } => {
            &&& last == pumped
            &&& result is Ok
            &&& result->Ok_0.0.is_for(reply_no, seq_cst)
            &&& result->Ok_0.1 == recv_data.1
        },
        _ => {
            &&& last == pumped.dispatched(first, true) || last == pumped.dispatched(first, false)
            &&& result is Err
            &&& result->Err_0 == Some(AsyncRecvError::AsyncReply)
        },
    }
}

/// What happens after a packet has been accepted: the receive window is pumped if that may bring
/// anything, then the packet is handed out, and as many waiting tasks are woken as packets were
/// received.
pub open spec fn accepts<S, R>(
    accepted: Tasks<S, R>,
    first: RecvOkRaw<Awaited<S, R>, Held<R>>,
    do_pump: bool,
    post: Tasks<S, R>,
    result: Result<(ReplyGuard, R), Option<AsyncRecvError>>,
    woken: nat,
) -> bool {
    exists|pumped: Tasks<S, R>, n: nat, last: Tasks<S, R>|
        {
            &&& if do_pump {
                accepted.pumps_all(n, pumped)
            } else {
                n == 0 && pumped == accepted
            }
            &&& #[trigger] hands_out(pumped, first, last, result)
            &&& woken == #[trigger] last.to_wake(n + 1)
            &&& post == last.woken(woken)
        }
}

/// What `SeqEx::receive_inner` does with a packet.
pub open spec fn receives_async<S, R>(
    pre: Tasks<S, R>,
    packet: Packet<Held<R>>,
    post: Tasks<S, R>,
    result: Result<(ReplyGuard, R), Option<AsyncRecvError>>,
    woken: nat,
) -> bool {
    exists|
        mid: SeqState<Awaited<S, R>, Held<R>>,
        raw: Result<(RecvOkRaw<Awaited<S, R>, Held<R>>, bool), TryRawRecvError>,
    |
        {
            &&& #[trigger] receives(pre.seq, packet, mid, raw)
            &&& match raw {
                Ok((first, do_pump)) => accepts(
                    pre.with_seq(mid),
                    first,
                    do_pump,
                    post,
                    result,
                    woken,
                ),
                Err(e) => {
                    &&& post == (Tasks {
                        seq: mid,
                        sent: match e {
                            TryRawRecvError::DroppedDuplicateResendAck(s) => pre.sent.push(
                                Packet::Ack(s),
                            ),
                            _ => pre.sent,
                        },
                        ..pre
                    })
                    &&& result is Err
                    &&& result->Err_0 == refusal(e)
                    &&& woken == 0
                },
            }
        }
}

/// Whether a packet that arrives now is saved to the receive window.
pub open spec fn is_saved<S, R>(pre: Tasks<S, R>, packet: Packet<Held<R>>) -> bool {
    packet.seq_no() matches Some(s) && pre.seq.can_hold(s) && match pre.seq.verdict(
        s,
        packet.reply_no(),
        packet.seq_cst(),
    ) {
        Verdict::HoldForRecv | Verdict::HoldForReply => true,
        _ => false,
    }
}

/// How a task goes on with `SeqEx::receive`: a packet that is saved is awaited. One that has to wait
/// and is not saved was dropped, or the same packet waits already.
pub open spec fn receive_step<S, R>(
    pre: Tasks<S, R>,
    packet: Packet<Held<R>>,
    result: Result<(ReplyGuard, R), Option<AsyncRecvError>>,
) -> ReceiveStep<R> {
    match result {
        Ok(ok) => ReceiveStep::Done(Ok(ok)),
        Err(Some(e)) => ReceiveStep::Done(Err(e)),
        Err(None) => if is_saved(pre, packet) {
            ReceiveStep::Await
        } else {
            ReceiveStep::Done(Err(AsyncRecvError::DroppedDuplicate))
        },
    }
}

impl<SendData, RecvData, const CAP: usize> SeqEx<SendData, RecvData, CAP> {
    /// Counts out the tasks to wake when `pumped + 1` packets have been received.
    fn wake_senders(&mut self, pumped: usize) -> (to_wake: usize)
        requires
            old(self).wf(),
        ensures
            final(self).wf(),
            forall|sent: Seq<Packet<SendData>>|
                {
                    &&& to_wake == (#[trigger] old(self).tasks(sent)).to_wake((pumped + 1) as nat)
                    &&& final(self).tasks(sent) == old(self).tasks(sent).woken(to_wake as nat)
                },
    {
        let to_wake: usize = if pumped < self.recv_waiters {
            pumped + 1
        } else {
            self.recv_waiters
        };
        self.recv_waiters -= to_wake;
        to_wake
    }

    /// Processes a packet that was received from the remote peer, and everything in the receive
    /// window that can be processed after it. Also tells how many tasks that wait to send have to
    /// be woken.
    ///
    /// The error is `None` if the packet cannot be handed out yet.
    fn receive_inner<TL: TokioLayer<SendData = SendData>>(
        &mut self,
        tl: &mut TL,
        packet: Packet<Held<RecvData>>,
    ) -> (out: (Result<(ReplyGuard, RecvData), Option<AsyncRecvError>>, usize))
        requires
            old(self).wf(),
        ensures
            final(self).wf(),
            receives_async(
                old(self).tasks(old(tl).sent()),
                packet,
                final(self).tasks(final(tl).sent()),
                out.0,
                out.1 as nat,
            ),
    {
        let ghost pre = self.tasks(tl.sent());
        let mut out = Outgoing::new(*tl);
        let raw = self.seq.receive_raw_and_direct(packet);
        let ghost mid = self.seq@;
        assert(receives(pre.seq, packet, mid, raw));
        match raw {
            Ok((first, do_pump)) => {
                // Pump first, handle the return value second.
                let pumped: usize = if do_pump {
                    self.pump_all(&mut out)
                } else {
                    0
                };
                let ghost after_pump = self.tasks(all_untagged(out.sent()));
                let ghost handed = first;
                let result = match first {
                    RecvOkRaw::Payload { reply_no, seq_cst, recv_data } => Ok(
                        (ReplyGuard::new(reply_no, seq_cst), recv_data.1),
                    ),
                    answer => {
                        self.dispatch(&mut out, answer);
                        Err(Some(AsyncRecvError::AsyncReply))
                    },
                };
                let ghost last = self.tasks(all_untagged(out.sent()));
                assert(hands_out(after_pump, handed, last, result));
                let woken: usize = self.wake_senders(pumped);
                *tl = out.into_inner();
                proof {
                    assert(woken == last.to_wake((pumped + 1) as nat));
                    assert(accepts(
                        pre.with_seq(mid),
                        handed,
                        do_pump,
                        self.tasks(tl.sent()),
                        result,
                        woken as nat,
                    ));
                }
                (result, woken)
            },
            Err(e) => {
                let error = match e {
                    TryRawRecvError::DroppedTooEarly => Some(AsyncRecvError::DroppedTooEarly),
                    TryRawRecvError::DroppedDuplicate => Some(AsyncRecvError::DroppedDuplicate),
                    TryRawRecvError::DroppedDuplicateResendAck(reply_no) => {
                        proof {
                            lemma_untagged_ack(out.sent(), reply_no);
                        }
                        out.send(Packet::Ack(reply_no));
                        Some(AsyncRecvError::DroppedDuplicate)
                    },
                    TryRawRecvError::WaitingForRecv => None,
                    TryRawRecvError::WaitingForReply => None,
                };
                *tl = out.into_inner();
                (Err(error), 0)
            },
        }
    }

    /// Whether the slot for a packet in the receive window is free. An ack has none.
    fn is_free(&self, seq_no: Option<SeqNo>) -> (free: bool)
        requires
            self.wf(),
        ensures
            forall|sent: Seq<Packet<SendData>>|
                free == (seq_no matches Some(s) && (#[trigger] self.tasks(sent)).seq.can_hold(s)),
    {
        match seq_no {
            Some(s) => self.seq.can_hold(s),
            None => false,
        }
    }

    /// Processes a packet that was received from the remote peer, and everything in the receive
    /// window that can be processed after it. Also tells how many tasks that wait to send have to
    /// be woken.
    ///
    /// The packet comes with the sending half of a channel, whose receiving half the task keeps to
    /// await the packet if it has to wait.
    pub fn receive<TL: TokioLayer<SendData = SendData>>(
        &mut self,
        tl: &mut TL,
        packet: Packet<Held<RecvData>>,
    ) -> (out: (ReceiveStep<RecvData>, usize))
        requires
            old(self).wf(),
        ensures
            final(self).wf(),
            exists|result: Result<(ReplyGuard, RecvData), Option<AsyncRecvError>>|
                {
                    &&& #[trigger] receives_async(
                        old(self).tasks(old(tl).sent()),
                        packet,
                        final(self).tasks(final(tl).sent()),
                        result,
                        out.1 as nat,
                    )
                    &&& out.0 == receive_step(old(self).tasks(old(tl).sent()), packet, result)
                },
    {
        let seq_no: Option<SeqNo> = match &packet {
            Packet::Payload(s, _) => Some(*s),
            Packet::SeqCstPayload(s, _) => Some(*s),
            Packet::Reply(s, _, _) => Some(*s),
            Packet::SeqCstReply(s, _, _) => Some(*s),
            Packet::Ack(_) => None,
        };
        let was_free = self.is_free(seq_no);
        let (result, woken) = self.receive_inner(tl, packet);
        let is_saved = was_free && !self.is_free(seq_no);
        let ghost received = result;
        let step = match result {
            Ok(ok) => ReceiveStep::Done(Ok(ok)),
            Err(Some(e)) => ReceiveStep::Done(Err(e)),
            Err(None) => if is_saved {
                ReceiveStep::Await
            } else {
                ReceiveStep::Done(Err(AsyncRecvError::DroppedDuplicate))
            },
        };
        let out = (step, woken);
        assert(receives_async(
            old(self).tasks(old(tl).sent()),
            packet,
            self.tasks(tl.sent()),
            received,
            out.1 as nat,
        ));
        out
    }
}

/// What `SeqEx::receive` comes to when the packet had to wait. Nothing comes through the channel if
/// the session was dropped, or if another copy of the packet was received in the meantime and handed
/// to the task that received it.
pub fn held_arrived<RecvData>(message: Option<(SeqNo, bool, RecvData)>) -> (result: Result<
    (ReplyGuard, RecvData),
    AsyncRecvError,
>)
    ensures
        match message {
            Some((reply_no, is_holding_lock, data)) => {
                &&& result is Ok
                &&& result->Ok_0.0.is_for(reply_no, is_holding_lock)
                &&& result->Ok_0.1 == data
            },
            None => result is Err && result->Err_0 == AsyncRecvError::SeqExClosed,
        },
{
    match message {
        Some((reply_no, is_holding_lock, data)) => Ok(
            (ReplyGuard::new(reply_no, is_holding_lock), data),
        ),
        None => Err(AsyncRecvError::SeqExClosed),
    }
}

} // verus!
