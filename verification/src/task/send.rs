//! Sending packets.
use super::error::AsyncError;
use super::layer::{all_untagged, untagged, Outgoing, TokioLayer};
use super::model::{can_schedule, changed, sends, Tasks};
use super::{Awaited, ReplyGuard, SeqEx};
use crate::error::TryError;
use crate::transport_layer::{Packet, SeqNo, TransportLayer};
use vstd::prelude::*;

verus! {

/// Removing the tags commutes with sending a packet.
pub(crate) proof fn lemma_untagged_push<Tag, S>(
    sent: Seq<Packet<(Tag, S)>>,
    seq_no: SeqNo,
    reply_no: Option<SeqNo>,
    seq_cst: bool,
    data: (Tag, S),
)
    ensures
        all_untagged(sent.push(Packet::with_data(seq_no, reply_no, seq_cst, data)))
            == all_untagged(sent).push(Packet::with_data(seq_no, reply_no, seq_cst, data.1)),
{
    let packet = Packet::with_data(seq_no, reply_no, seq_cst, data);
    assert(untagged(packet) == Packet::with_data(seq_no, reply_no, seq_cst, data.1));
    assert(all_untagged(sent.push(packet)) =~= all_untagged(sent).push(untagged(packet)));
}

/// What an attempt to send what `f` produces does.
pub open spec fn tries_to_send<S, R, TL: TokioLayer<SendData = S>, F: FnOnce(SeqNo) -> Awaited<S, R>>(
    pre: Tasks<S, R>,
    tl: TL,
    seq_cst: bool,
    f: F,
    post: Tasks<S, R>,
    result: Result<Option<i64>, (TryError, F)>,
) -> bool {
    match pre.seq.room(None) {
        Ok(()) => {
            &&& result is Ok
            &&& result->Ok_0 == changed(
                pre.seq.next_service_timestamp,
                post.seq.next_service_timestamp,
            )
            &&& exists|data: Awaited<S, R>|
                {
                    &&& #[trigger] call_ensures(f, (pre.seq.next_send,), data)
                    &&& sends(pre, tl, None, seq_cst, data, post)
                }
        },
        Err(e) => {
            &&& result == Err::<Option<i64>, (TryError, F)>((e, f))
            &&& post == pre.waiting(e)
        },
    }
}

impl<SendData, RecvData, const CAP: usize> SeqEx<SendData, RecvData, CAP> {
    /// One attempt of a task to send a packet.
    ///
    /// A return value of `Ok` contains the timestamp of the next service, if that has changed. After
    /// an error the task has to wait, for a packet to be received or for a reply to be finished, and
    /// to try again.
    pub fn send_with_inner<
        TL: TokioLayer<SendData = SendData>,
        F: FnOnce(SeqNo) -> Awaited<SendData, RecvData>,
    >(&mut self, tl: &mut TL, seq_cst: bool, packet_data: F) -> (result: Result<
        Option<i64>,
        (TryError, F),
    >)
        requires
            old(self).wf(),
            ({
                let pre = old(self).tasks(old(tl).sent());
                match pre.seq.room(None) {
                    Ok(()) => {
                        &&& can_schedule(pre.seq, *old(tl))
                        &&& call_requires(packet_data, (pre.seq.next_send,))
                    },
                    Err(TryError::WaitingForRecv) => pre.recv_waiters < usize::MAX,
                    Err(TryError::WaitingForReply) => true,
                }
            }),
        ensures
            final(self).wf(),
            tries_to_send(
                old(self).tasks(old(tl).sent()),
                *old(tl),
                seq_cst,
                packet_data,
                final(self).tasks(final(tl).sent()),
                result,
            ),
    {
        let ghost pre = self.tasks(tl.sent());
        let pre_ts: i64 = self.seq.service_timestamp();
        let mut out = Outgoing::new(*tl);
        let ghost out_pre = out;
        match self.seq.try_send_with(&mut out, seq_cst, packet_data) {
            Ok(()) => {
                let ts: i64 = self.seq.service_timestamp();
                let ghost mid = self.seq@;
                *tl = out.into_inner();
                proof {
                    let data = choose|data: Awaited<SendData, RecvData>|
                        {
                            &&& #[trigger] call_ensures(packet_data, (pre.seq.next_send,), data)
                            &&& crate::single_thread::sends(
                                pre.seq,
                                out_pre,
                                seq_cst,
                                data,
                                mid,
                                out,
                            )
                        };
                    lemma_untagged_push(
                        out_pre.sent(),
                        pre.seq.next_send,
                        None,
                        seq_cst,
                        data,
                    );
                    let t = choose|t: i64| #[trigger]
                        out_pre.may_report(t) && mid == pre.seq.sent(t, None, seq_cst, data);
                    assert(old(tl).may_report(t));
                    assert(sends(pre, *old(tl), None, seq_cst, data, self.tasks(tl.sent())));
                }
                Ok(
                    if pre_ts != ts {
                        Some(ts)
                    } else {
                        None
                    },
                )
            },
            Err((e, f)) => {
                *tl = out.into_inner();
                match &e {
                    TryError::WaitingForRecv => {
                        self.recv_waiters += 1;
                    },
                    TryError::WaitingForReply => {
                        self.reply_waiters = true;
                    },
                }
                Err((e, f))
            },
        }
    }
}

/// What sending a packet or replying with one comes to once its answer has arrived. Nothing comes
/// through the channel if the session was dropped.
pub fn answer_arrived<RecvData>(message: Option<Option<(SeqNo, bool, RecvData)>>) -> (result: Result<
    (ReplyGuard, RecvData),
    AsyncError,
>)
    ensures
        match message {
            Some(Some((reply_no, is_holding_lock, data))) => {
                &&& result is Ok
                &&& result->Ok_0.0.is_for(reply_no, is_holding_lock)
                &&& result->Ok_0.1 == data
            },
            Some(None) => result is Err && result->Err_0 == AsyncError::EndOfExchange,
            None => result is Err && result->Err_0 == AsyncError::SeqExClosed,
        },
{
    match message {
        Some(Some((reply_no, is_holding_lock, data))) => Ok(
            (ReplyGuard::new(reply_no, is_holding_lock), data),
        ),
        Some(None) => Err(AsyncError::EndOfExchange),
        None => Err(AsyncError::SeqExClosed),
    }
}

} // verus!
