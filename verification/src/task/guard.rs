//! Answering packets.
use super::layer::{all_untagged, Outgoing, TokioLayer};
use super::model::{can_schedule, changed, sends, Tasks};
use super::recv::lemma_untagged_ack;
use super::send::lemma_untagged_push;
use super::{Awaited, ReplyGuard, SeqEx};
use crate::transport_layer::{SeqNo, TransportLayer};
use vstd::prelude::*;

verus! {

/// What replying with a guard does to the session, before anyone is woken. Without a reservation
/// nothing happens.
pub open spec fn replies<S, R, TL: TokioLayer<SendData = S>>(
    pre: Tasks<S, R>,
    tl: TL,
    guard: ReplyGuard,
    seq_cst: bool,
    data: Awaited<S, R>,
    post: Tasks<S, R>,
) -> bool {
    if pre.seq.replies.count(guard.reply_no()) > 0 {
        sends(
            pre.with_seq(pre.seq.returned(guard.reply_no(), guard.holds_lock())),
            tl,
            Some(guard.reply_no()),
            seq_cst,
            data,
            post,
        )
    } else {
        post == pre
    }
}

/// What replying with what `f` produces does.
pub open spec fn replied_with<
    S,
    R,
    TL: TokioLayer<SendData = S>,
    F: FnOnce(SeqNo, SeqNo) -> Awaited<S, R>,
>(
    pre: Tasks<S, R>,
    tl: TL,
    guard: ReplyGuard,
    seq_cst: bool,
    f: F,
    post: Tasks<S, R>,
    out: (Option<i64>, bool),
) -> bool {
    &&& out.0 == changed(pre.seq.next_service_timestamp, post.seq.next_service_timestamp)
    &&& out.1 == pre.reply_waiters
    &&& exists|data: Awaited<S, R>, mid: Tasks<S, R>|
        {
            &&& #[trigger] call_ensures(f, (pre.seq.next_send, guard.reply_no()), data)
            &&& #[trigger] replies(pre, tl, guard, seq_cst, data, mid)
            &&& post == mid.notified()
        }
}

/// Whether a reply with what `f` produces can be attempted.
pub open spec fn can_reply_with<
    S,
    R,
    TL: TokioLayer<SendData = S>,
    F: FnOnce(SeqNo, SeqNo) -> Awaited<S, R>,
>(pre: Tasks<S, R>, tl: TL, guard: ReplyGuard, f: F) -> bool {
    &&& pre.seq.replies.count(guard.reply_no()) > 0 ==> can_schedule(pre.seq, tl)
    &&& call_requires(f, (pre.seq.next_send, guard.reply_no()))
}

impl ReplyGuard {
    /// Returns whether the packet has been answered.
    pub fn has_replied(&self) -> (replied: bool)
        ensures
            replied == self.answered(),
    {
        self.has_replied
    }

    /// Returns whether this reply guard is currently holding the SeqCst lock.
    pub fn is_seq_cst(&self) -> (seq_cst: bool)
        ensures
            seq_cst == self.holds_lock(),
    {
        self.is_holding_lock
    }

    /// Sends a reply that was created by the provided function. It receives the packet sequence
    /// number and the packet reply number.
    ///
    /// Returns the timestamp of the next service, if that has changed, and whether the tasks that
    /// wait for a reply to be finished have to be woken.
    ///
    /// A packet that has been acknowledged cannot be replied to.
    ///
    /// If you need to reply more than once, say to fragment a large file, then include in your
    /// first reply some identifier, and then send all fragments with the same included identifier.
    /// The identifier will tell the remote peer which packets contain fragments of the file,
    /// and since each fragment will be received in order it will be trivial for them to reconstruct
    /// the original file.
    pub fn reply_with<
        TL: TokioLayer<SendData = SendData>,
        SendData,
        RecvData,
        const CAP: usize,
        F: FnOnce(SeqNo, SeqNo) -> Awaited<SendData, RecvData>,
    >(
        self,
        seq: &mut SeqEx<SendData, RecvData, CAP>,
        tl: &mut TL,
        seq_cst: bool,
        packet_data: F,
    ) -> (out: (Option<i64>, bool))
        requires
            !self.answered(),
            old(seq).wf(),
            can_reply_with(old(seq).tasks(old(tl).sent()), *old(tl), self, packet_data),
        ensures
            final(seq).wf(),
            replied_with(
                old(seq).tasks(old(tl).sent()),
                *old(tl),
                self,
                seq_cst,
                packet_data,
                final(seq).tasks(final(tl).sent()),
                out,
            ),
    {
        let ghost pre = seq.tasks(tl.sent());
        let seq_no: SeqNo = seq.seq.seq_no();
        let pre_ts: i64 = seq.seq.service_timestamp();
        let data = packet_data(seq_no, self.reply_no);
        let ghost made = data;
        let mut out = Outgoing::new(*tl);
        let ghost out_pre = out;
        seq.seq.reply_raw(&mut out, self.reply_no, self.is_holding_lock, seq_cst, data);
        let ts: i64 = seq.seq.service_timestamp();
        let ghost mid = seq.tasks(all_untagged(out.sent()));
        proof {
            lemma_untagged_push(
                out_pre.sent(),
                pre.seq.next_send,
                Some(self.reply_no),
                seq_cst,
                made,
            );
            if pre.seq.replies.count(self.reply_no) > 0 {
                let returned = pre.seq.returned(self.reply_no, self.is_holding_lock);
                let t = choose|t: i64| #[trigger]
                    out_pre.may_report(t) && seq.seq@ == returned.sent(
                        t,
                        Some(self.reply_no),
                        seq_cst,
                        made,
                    );
                assert(old(tl).may_report(t));
            }
            assert(replies(pre, *old(tl), self, seq_cst, made, mid));
        }
        let wake = seq.notify_reply();
        *tl = out.into_inner();
        let update = if pre_ts != ts {
            Some(ts)
        } else {
            None
        };
        (update, wake)
    }

    /// Like `reply_with`, except that a guard whose packet has been answered is given back, together
    /// with the function, which has not been called. Nothing is sent then.
    pub fn try_reply_with<
        TL: TokioLayer<SendData = SendData>,
        SendData,
        RecvData,
        const CAP: usize,
        F: FnOnce(SeqNo, SeqNo) -> Awaited<SendData, RecvData>,
    >(
        self,
        seq: &mut SeqEx<SendData, RecvData, CAP>,
        tl: &mut TL,
        seq_cst: bool,
        packet_data: F,
    ) -> (result: Result<(Option<i64>, bool), (ReplyGuard, F)>)
        requires
            old(seq).wf(),
            !self.answered() ==> can_reply_with(
                old(seq).tasks(old(tl).sent()),
                *old(tl),
                self,
                packet_data,
            ),
        ensures
            final(seq).wf(),
            ({
                let pre = old(seq).tasks(old(tl).sent());
                let post = final(seq).tasks(final(tl).sent());
                match result {
                    Ok(out) => {
                        &&& !self.answered()
                        &&& replied_with(pre, *old(tl), self, seq_cst, packet_data, post, out)
                    },
                    Err((guard, f)) => {
                        &&& self.answered()
                        &&& guard == self
                        &&& f == packet_data
                        &&& post == pre
                    },
                }
            }),
    {
        if self.has_replied {
            Err((self, packet_data))
        } else {
            Ok(self.reply_with(seq, tl, seq_cst, packet_data))
        }
    }

    /// Answers the packet with an ack, unless it has been answered.
    pub fn ack<TL: TokioLayer<SendData = SendData>, SendData, RecvData, const CAP: usize>(
        &mut self,
        seq: &mut SeqEx<SendData, RecvData, CAP>,
        tl: &mut TL,
    )
        requires
            old(seq).wf(),
        ensures
            final(seq).wf(),
            final(self).answered(),
            final(self).reply_no() == old(self).reply_no(),
            final(self).holds_lock() == old(self).holds_lock(),
            ({
                let pre = old(seq).tasks(old(tl).sent());
                final(seq).tasks(final(tl).sent()) == if old(self).answered() {
                    pre
                } else {
                    pre.acked(old(self).reply_no(), old(self).holds_lock())
                }
            }),
    {
        if !self.has_replied {
            self.has_replied = true;
            let mut out = Outgoing::new(*tl);
            proof {
                lemma_untagged_ack(out.sent(), self.reply_no);
            }
            seq.seq.ack_raw(&mut out, self.reply_no, self.is_holding_lock);
            *tl = out.into_inner();
        }
    }

    /// Answers the packet with an ack, unless it has been answered. This is how a guard ends that
    /// no reply was sent with. Tells whether the tasks that wait for a reply to be finished have to
    /// be woken.
    pub fn release<TL: TokioLayer<SendData = SendData>, SendData, RecvData, const CAP: usize>(
        self,
        seq: &mut SeqEx<SendData, RecvData, CAP>,
        tl: &mut TL,
    ) -> (wake: bool)
        requires
            old(seq).wf(),
        ensures
            final(seq).wf(),
            ({
                let pre = old(seq).tasks(old(tl).sent());
                &&& wake == pre.reply_waiters
                &&& final(seq).tasks(final(tl).sent()) == if self.answered() {
                    pre.notified()
                } else {
                    pre.acked(self.reply_no(), self.holds_lock()).notified()
                }
            }),
    {
        let mut guard = self;
        guard.ack(seq, tl);
        seq.notify_reply()
    }

    /// Break down a `ReplyGuard` into its primitive components, without causing it to send an ack
    /// or reply to the remote peer.
    ///
    /// The caller must see to it that `from_components` is eventually called on the returned
    /// values.
    pub fn to_components(self) -> (components: (SeqNo, bool))
        ensures
            components == (self.reply_no(), self.holds_lock()),
    {
        (self.reply_no, self.is_holding_lock)
    }

    /// Constructs a `ReplyGuard` object from the raw components returned by `to_components`.
    pub fn from_components(reply_no: SeqNo, is_holding_lock: bool) -> (guard: Self)
        ensures
            guard.is_for(reply_no, is_holding_lock),
    {
        Self::new(reply_no, is_holding_lock)
    }
}

} // verus!
