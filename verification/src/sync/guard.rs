//! Guards that stand for a received packet which has yet to be answered.
use super::shared::{decreased, Shared, Wake};
use super::SeqEx;
use crate::model::SeqState;
use crate::single_thread::{acks, can_schedule, replies};
use crate::transport_layer::{SeqNo, TransportLayer};
use vstd::prelude::*;

verus! {

/// The right to answer a received packet, once.
///
/// Every data-containing packet that is received has to be answered by either an ack or a reply,
/// but never both. `reply` and its variants consume the guard and send a reply; `ack` and `release`
/// consume it and send an ack. Once the session has been closed nothing is sent, but whatever the
/// guard holds is still given back.
///
/// If the packet was a SeqCst packet, then the guard also holds the SeqCst lock: no other SeqCst
/// packet is processed until the lock is given back.
#[must_use]
#[derive(Debug)]
pub struct ReplyGuard {
    reply_no: SeqNo,
    is_holding_lock: bool,
}

/// The critical section for processing SeqCst packets. SeqCst packets can only enter this critical
/// section in the order they were sent by the remote peer.
#[must_use]
#[derive(Debug)]
pub struct SeqCstGuard {
    held: (),
}

impl ReplyGuard {
    /// The reply number that was issued for the packet.
    pub closed spec fn reply_no(self) -> SeqNo {
        self.reply_no
    }

    /// Whether the guard holds the SeqCst lock.
    pub closed spec fn holds_lock(self) -> bool {
        self.is_holding_lock
    }

    /// Whether the guard stands for the packet with the given reply number.
    pub open spec fn is_for(self, reply_no: SeqNo, is_holding_lock: bool) -> bool {
        &&& self.reply_no() == reply_no
        &&& self.holds_lock() == is_holding_lock
    }

    pub(crate) fn new(reply_no: SeqNo, is_holding_lock: bool) -> (guard: Self)
        ensures
            guard.is_for(reply_no, is_holding_lock),
    {
        ReplyGuard { reply_no, is_holding_lock }
    }

    /// Returns whether or not this reply guard is currently holding the SeqCst lock,
    /// preventing other SeqCst packets from being processed.
    ///
    /// When this returns `true`, it means the current thread is within the critical section for
    /// processing SeqCst packets. SeqCst packets can only enter this critical section in the same
    /// order they were sent.
    pub fn is_seq_cst(&self) -> (seq_cst: bool)
        ensures
            seq_cst == self.holds_lock(),
    {
        self.is_holding_lock
    }

    /// Similar to `reply`, except the provided function is called to produce the data
    /// to write to the send window.
    ///
    /// This function receives as its first argument the packet sequence number, and as its second
    /// argument the packet reply number.
    ///
    /// Returns the timestamp of when `service_scheduled` should be called next, only if it has
    /// decreased. This can be safely ignored if `service_scheduled` is not being used.
    pub fn reply_with<
        TL: TransportLayer<SendData>,
        SendData,
        RecvData,
        const CAP: usize,
        F: FnOnce(SeqNo, SeqNo) -> SendData,
    >(self, seq: &mut SeqEx<SendData, RecvData, CAP>, tl: &mut TL, seq_cst: bool, f: F) -> (out: (
        Option<i64>,
        Wake,
    ))
        requires
            old(seq).wf(),
            can_reply(old(seq)@, *old(tl), self.reply_no()),
            !old(seq)@.closed ==> call_requires(f, (old(seq)@.seq.next_send, self.reply_no())),
        ensures
            final(seq).wf(),
            out.1 == old(seq)@.wake_reply(),
            if old(seq)@.closed {
                &&& given_up(old(seq)@, *old(tl), self, final(seq)@, *final(tl))
                &&& out.0 is None
            } else {
                exists|data: SendData|
                    {
                        &&& #[trigger] call_ensures(
                            f,
                            (old(seq)@.seq.next_send, self.reply_no()),
                            data,
                        )
                        &&& replied(
                            old(seq)@,
                            *old(tl),
                            self,
                            seq_cst,
                            data,
                            final(seq)@,
                            *final(tl),
                            out.0,
                        )
                    }
            },
    {
        if seq.closed {
            let _ = seq.seq.ack_raw_and_direct(self.reply_no, self.is_holding_lock);
            return (None, seq.notify_reply());
        }
        let seq_no: SeqNo = seq.seq.seq_no();
        let data = f(seq_no, self.reply_no);
        self.reply(seq, tl, seq_cst, data)
    }

    /// Consume this reply guard to add `packet_data` to the send window and immediately send it
    /// as a reply to the remote peer. Similar to `SeqEx::send`, except the remote peer will be
    /// explicitly informed that this packet is indeed a reply to a packet they sent.
    ///
    /// Returns the timestamp of when `service_scheduled` should be called next, only if it has
    /// decreased. This can be safely ignored if `service_scheduled` is not being used.
    ///
    /// If you need to reply more than once, say to fragment a large file, then include in your
    /// first reply some identifier, and then `send` all fragments with the same included
    /// identifier. The identifier will tell the remote peer which packets contain fragments of the
    /// file, and since each fragment will be received in order it will be trivial for them to
    /// reconstruct the original file.
    pub fn reply<TL: TransportLayer<SendData>, SendData, RecvData, const CAP: usize>(
        self,
        seq: &mut SeqEx<SendData, RecvData, CAP>,
        tl: &mut TL,
        seq_cst: bool,
        packet_data: SendData,
    ) -> (out: (Option<i64>, Wake))
        requires
            old(seq).wf(),
            can_reply(old(seq)@, *old(tl), self.reply_no()),
        ensures
            final(seq).wf(),
            out.1 == old(seq)@.wake_reply(),
            if old(seq)@.closed {
                &&& given_up(old(seq)@, *old(tl), self, final(seq)@, *final(tl))
                &&& out.0 is None
            } else {
                replied(
                    old(seq)@,
                    *old(tl),
                    self,
                    seq_cst,
                    packet_data,
                    final(seq)@,
                    *final(tl),
                    out.0,
                )
            },
    {
        if seq.closed {
            let _ = seq.seq.ack_raw_and_direct(self.reply_no, self.is_holding_lock);
            return (None, seq.notify_reply());
        }
        let pre_nst: i64 = seq.seq.service_timestamp();
        seq.seq.reply_raw(tl, self.reply_no, self.is_holding_lock, seq_cst, packet_data);
        let update = seq.update_since(pre_nst);
        (update, seq.notify_reply())
    }

    /// Turns the guard into what is left of it once its packet has been answered: the SeqCst lock,
    /// if the guard holds it. Otherwise the reply is finished.
    fn consume_lock<SendData, RecvData, const CAP: usize>(
        self,
        seq: &mut SeqEx<SendData, RecvData, CAP>,
    ) -> (out: (Option<SeqCstGuard>, Wake))
        requires
            old(seq).wf(),
        ensures
            final(seq).wf(),
            lock_consumed(old(seq)@, self, final(seq)@, out.0, out.1),
    {
        if self.is_holding_lock {
            (Some(SeqCstGuard { held: () }), Wake::Nobody)
        } else {
            (None, seq.notify_reply())
        }
    }

    /// Cause this reply guard to immediately send an ack to the remote peer,
    /// consuming it and returning a new guard. This `SeqCstGuard` prevents SeqCst packets from
    /// being processed until it is released.
    ///
    /// If this guard was not for a SeqCst packet (or the user called `unlock` previously),
    /// then it will return `None` instead of a `SeqCstGuard`.
    ///
    /// This allows advanced users to de-couple locking the critical section for SeqCst packets
    /// from sending acks to received packets.
    pub fn ack<TL: TransportLayer<SendData>, SendData, RecvData, const CAP: usize>(
        self,
        seq: &mut SeqEx<SendData, RecvData, CAP>,
        tl: &mut TL,
    ) -> (out: (Option<SeqCstGuard>, Wake))
        requires
            old(seq).wf(),
        ensures
            final(seq).wf(),
            acked(
                old(seq)@,
                *old(tl),
                self.reply_no(),
                false,
                final(seq)@.seq,
                *final(tl),
            ),
            lock_consumed(
                old(seq)@.with_seq(final(seq)@.seq),
                self,
                final(seq)@,
                out.0,
                out.1,
            ),
    {
        if seq.closed {
            let _ = seq.seq.ack_raw_and_direct(self.reply_no, false);
        } else {
            seq.seq.ack_raw(tl, self.reply_no, false);
        }
        self.consume_lock(seq)
    }

    /// If this guard is holding the SeqCst lock, and preventing other SeqCst packets from
    /// being processed, then this function will force it to drop this lock.
    /// If the next SeqCst packet is waiting in the receive window, then this will unblock a thread
    /// blocked on `SeqEx::receive` or `SeqEx::pump` to process it.
    ///
    /// Returns `true` if this guard was holding the SeqCst lock,
    /// similar to function `is_seq_cst`.
    ///
    /// In cases where a critical section is no longer needed, this function can allow more than one
    /// thread to process SeqCst packets in parallel, improving performance.
    pub fn unlock<SendData, RecvData, const CAP: usize>(
        &mut self,
        seq: &mut SeqEx<SendData, RecvData, CAP>,
    ) -> (out: (bool, Wake))
        requires
            old(seq).wf(),
        ensures
            final(seq).wf(),
            final(self).is_for(old(self).reply_no(), false),
            out.0 == old(self).holds_lock(),
            if out.0 {
                &&& final(seq)@ == old(seq)@.with_seq(
                    old(seq)@.seq.unlocked_session(),
                ).notified()
                &&& out.1 == old(seq)@.wake_reply()
            } else {
                &&& final(seq)@ == old(seq)@
                &&& out.1 == Wake::Nobody
            },
    {
        if self.is_holding_lock {
            self.is_holding_lock = false;
            seq.seq.unlock_raw();
            (true, seq.notify_reply())
        } else {
            (false, Wake::Nobody)
        }
    }

    /// Send a reply to the remote peer that was created by the provided function.
    /// Similar to `reply_with`, except this will not drop the SeqCst lock if
    /// this guard is holding it.
    pub fn reply_with_stay_locked<
        TL: TransportLayer<SendData>,
        SendData,
        RecvData,
        const CAP: usize,
        F: FnOnce(SeqNo, SeqNo) -> SendData,
    >(self, seq: &mut SeqEx<SendData, RecvData, CAP>, tl: &mut TL, seq_cst: bool, f: F) -> (out: (
        Option<SeqCstGuard>,
        Option<i64>,
        Wake,
    ))
        requires
            old(seq).wf(),
            can_reply(old(seq)@, *old(tl), self.reply_no()),
            !old(seq)@.closed ==> call_requires(f, (old(seq)@.seq.next_send, self.reply_no())),
        ensures
            final(seq).wf(),
            if old(seq)@.closed {
                &&& final(tl).sent() == old(tl).sent()
                &&& out.1 is None
                &&& lock_consumed(
                    old(seq)@.with_seq(given_back(old(seq)@.seq, self.reply_no(), false)),
                    self,
                    final(seq)@,
                    out.0,
                    out.2,
                )
            } else {
                exists|data: SendData|
                    {
                        &&& #[trigger] call_ensures(
                            f,
                            (old(seq)@.seq.next_send, self.reply_no()),
                            data,
                        )
                        &&& replied_stay_locked(
                            old(seq)@,
                            *old(tl),
                            self,
                            seq_cst,
                            data,
                            final(seq)@,
                            *final(tl),
                            out,
                        )
                    }
            },
    {
        if seq.closed {
            let _ = seq.seq.ack_raw_and_direct(self.reply_no, false);
            let (lock, wake) = self.consume_lock(seq);
            return (lock, None, wake);
        }
        let seq_no: SeqNo = seq.seq.seq_no();
        let data = f(seq_no, self.reply_no);
        self.reply_stay_locked(seq, tl, seq_cst, data)
    }

    /// Send a reply to the remote peer, similar to `reply`, except without dropping the
    /// SeqCst lock.
    ///
    /// If this guard was holding the SeqCst lock, then it will return a `SeqCstGuard`, which will
    /// continue to hold the lock until it is released. If this guard was not holding the lock, it
    /// will return `None` instead.
    ///
    /// The second return value is again the timestamp of when `service_scheduled` should be called
    /// next, only if it has decreased.
    pub fn reply_stay_locked<TL: TransportLayer<SendData>, SendData, RecvData, const CAP: usize>(
        self,
        seq: &mut SeqEx<SendData, RecvData, CAP>,
        tl: &mut TL,
        seq_cst: bool,
        packet_data: SendData,
    ) -> (out: (Option<SeqCstGuard>, Option<i64>, Wake))
        requires
            old(seq).wf(),
            can_reply(old(seq)@, *old(tl), self.reply_no()),
        ensures
            final(seq).wf(),
            if old(seq)@.closed {
                &&& final(tl).sent() == old(tl).sent()
                &&& out.1 is None
                &&& lock_consumed(
                    old(seq)@.with_seq(given_back(old(seq)@.seq, self.reply_no(), false)),
                    self,
                    final(seq)@,
                    out.0,
                    out.2,
                )
            } else {
                replied_stay_locked(
                    old(seq)@,
                    *old(tl),
                    self,
                    seq_cst,
                    packet_data,
                    final(seq)@,
                    *final(tl),
                    out,
                )
            },
    {
        if seq.closed {
            let _ = seq.seq.ack_raw_and_direct(self.reply_no, false);
            let (lock, wake) = self.consume_lock(seq);
            return (lock, None, wake);
        }
        let pre_nst: i64 = seq.seq.service_timestamp();
        seq.seq.reply_raw(tl, self.reply_no, false, seq_cst, packet_data);
        let update = seq.update_since(pre_nst);
        let (lock, wake) = self.consume_lock(seq);
        (lock, update, wake)
    }

    /// Answers the packet with an ack and gives the SeqCst lock back, if the guard holds it. This
    /// is how a guard ends that nothing else was done with.
    pub fn release<TL: TransportLayer<SendData>, SendData, RecvData, const CAP: usize>(
        self,
        seq: &mut SeqEx<SendData, RecvData, CAP>,
        tl: &mut TL,
    ) -> (wake: Wake)
        requires
            old(seq).wf(),
        ensures
            final(seq).wf(),
            acked(
                old(seq)@,
                *old(tl),
                self.reply_no(),
                self.holds_lock(),
                final(seq)@.seq,
                *final(tl),
            ),
            final(seq)@ == old(seq)@.with_seq(final(seq)@.seq).notified(),
            wake == old(seq)@.wake_reply(),
    {
        if seq.closed {
            let _ = seq.seq.ack_raw_and_direct(self.reply_no, self.is_holding_lock);
        } else {
            seq.seq.ack_raw(tl, self.reply_no, self.is_holding_lock);
        }
        seq.notify_reply()
    }

    /// Break down a `ReplyGuard` into its primitive components, without causing it to send an ack
    /// or reply to the remote peer.
    ///
    /// The first return value is the packet reply number, and the second is the return value of
    /// `is_seq_cst`.
    ///
    /// This can be used in combination with `from_components` to move a `ReplyGuard` to a different
    /// thread. The caller must see to it that `from_components` is eventually called on the
    /// returned values. Otherwise the packet is never answered, which is likely to cause threads to
    /// permanently block.
    pub fn to_components(self) -> (components: (SeqNo, bool))
        ensures
            components == (self.reply_no(), self.holds_lock()),
    {
        (self.reply_no, self.is_holding_lock)
    }

    /// Constructs a `ReplyGuard` object from the raw components returned by `to_components`.
    ///
    /// The caller must always pass values for `reply_no` and `is_holding_lock` that were
    /// originally returned by consuming a `ReplyGuard` of the same session with `to_components`.
    pub fn from_components(reply_no: SeqNo, is_holding_lock: bool) -> (guard: Self)
        ensures
            guard.is_for(reply_no, is_holding_lock),
    {
        Self::new(reply_no, is_holding_lock)
    }
}

impl SeqCstGuard {
    /// Ends the critical section.
    pub fn release<SendData, RecvData, const CAP: usize>(
        self,
        seq: &mut SeqEx<SendData, RecvData, CAP>,
    ) -> (wake: Wake)
        requires
            old(seq).wf(),
        ensures
            final(seq).wf(),
            final(seq)@ == old(seq)@.with_seq(old(seq)@.seq.unlocked_session()).notified(),
            wake == old(seq)@.wake_reply(),
    {
        seq.seq.unlock_raw();
        seq.notify_reply()
    }
}

/// A session after a reply number has been given back, if it was issued.
pub open spec fn given_back<S, R>(
    state: SeqState<S, R>,
    reply_no: SeqNo,
    unlock: bool,
) -> SeqState<S, R> {
    if state.replies.count(reply_no) > 0 {
        state.returned(reply_no, unlock)
    } else {
        state
    }
}

/// Whether a reply can be scheduled, if it is sent.
pub open spec fn can_reply<S, R, TL: TransportLayer<S>>(
    pre: Shared<S, R>,
    tl: TL,
    reply_no: SeqNo,
) -> bool {
    !pre.closed && pre.seq.replies.count(reply_no) > 0 ==> can_schedule(pre.seq, tl)
}

/// What a guard that is used up in a closed session does: what it holds is given back, and nothing
/// is sent.
pub open spec fn given_up<S, R, TL: TransportLayer<S>>(
    pre: Shared<S, R>,
    tl: TL,
    guard: ReplyGuard,
    post: Shared<S, R>,
    tl_post: TL,
) -> bool {
    &&& post == pre.with_seq(
        given_back(pre.seq, guard.reply_no(), guard.holds_lock()),
    ).notified()
    &&& tl_post.sent() == tl.sent()
}

/// What replying with a guard does.
pub open spec fn replied<S, R, TL: TransportLayer<S>>(
    pre: Shared<S, R>,
    tl: TL,
    guard: ReplyGuard,
    seq_cst: bool,
    data: S,
    post: Shared<S, R>,
    tl_post: TL,
    update: Option<i64>,
) -> bool {
    &&& replies(
        pre.seq,
        tl,
        guard.reply_no(),
        guard.holds_lock(),
        seq_cst,
        data,
        post.seq,
        tl_post,
    )
    &&& post == pre.with_seq(post.seq).notified()
    &&& update == decreased(pre.seq.next_service_timestamp, post.seq.next_service_timestamp)
}

/// What is left of a guard whose packet has been answered: the SeqCst lock, or else a finished
/// reply.
pub open spec fn lock_consumed<S, R>(
    pre: Shared<S, R>,
    guard: ReplyGuard,
    post: Shared<S, R>,
    lock: Option<SeqCstGuard>,
    wake: Wake,
) -> bool {
    &&& lock is Some == guard.holds_lock()
    &&& if guard.holds_lock() {
        &&& post == pre
        &&& wake == Wake::Nobody
    } else {
        &&& post == pre.notified()
        &&& wake == pre.wake_reply()
    }
}

/// What replying with a guard without giving the SeqCst lock back does.
pub open spec fn replied_stay_locked<S, R, TL: TransportLayer<S>>(
    pre: Shared<S, R>,
    tl: TL,
    guard: ReplyGuard,
    seq_cst: bool,
    data: S,
    post: Shared<S, R>,
    tl_post: TL,
    out: (Option<SeqCstGuard>, Option<i64>, Wake),
) -> bool {
    &&& replies(pre.seq, tl, guard.reply_no(), false, seq_cst, data, post.seq, tl_post)
    &&& lock_consumed(pre.with_seq(post.seq), guard, post, out.0, out.2)
    &&& out.1 == decreased(pre.seq.next_service_timestamp, post.seq.next_service_timestamp)
}

/// What giving a reply number back with an ack does to the session: once the session has been
/// closed no ack is sent.
pub open spec fn acked<S, R, TL: TransportLayer<S>>(
    pre: Shared<S, R>,
    tl: TL,
    reply_no: SeqNo,
    unlock: bool,
    post: SeqState<S, R>,
    tl_post: TL,
) -> bool {
    if pre.closed {
        &&& post == given_back(pre.seq, reply_no, unlock)
        &&& tl_post.sent() == tl.sent()
    } else {
        acks(pre.seq, tl, reply_no, unlock, post, tl_post)
    }
}

} // verus!
