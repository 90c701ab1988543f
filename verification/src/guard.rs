//! Guards that stand for a received packet which has yet to be answered.
use crate::error::{RecvError, TryError};
use crate::seq_queue::{pumps, RecvOkRaw, SeqEx};
use crate::single_thread::{acks, can_schedule, receives_and_resends, replies};
use crate::transport_layer::{Packet, SeqNo, TransportLayer};
use vstd::prelude::*;

verus! {

/// The right to answer a received packet, once.
///
/// Every data-containing packet that is received has to be answered by either an ack or a reply,
/// but never both. `reply` and its variants consume the guard and send a reply; `ack` and `release`
/// consume it and send an ack.
///
/// If the packet was a SeqCst packet, then the guard also holds the SeqCst lock: no other SeqCst
/// packet is processed until the lock is given back. This creates a critical section for SeqCst
/// packets that guarantees they are processed in the exact same order they were sent.
#[must_use]
pub struct ReplyGuard<'a, TL, SendData, RecvData, const CAP: usize> {
    seq: &'a mut SeqEx<SendData, RecvData, CAP>,
    tl: &'a mut TL,
    reply_no: SeqNo,
    is_holding_lock: bool,
}

/// The critical section for processing SeqCst packets, detached from the packet.
#[must_use]
pub struct SeqCstGuard<'a, SendData, RecvData, const CAP: usize> {
    seq: &'a mut SeqEx<SendData, RecvData, CAP>,
}

impl<'a, SendData, RecvData, const CAP: usize> SeqCstGuard<'a, SendData, RecvData, CAP> {
    /// The session that is locked.
    pub closed spec fn seq(self) -> &'a mut SeqEx<SendData, RecvData, CAP> {
        self.seq
    }

    /// Ends the critical section.
    pub fn release(self)
        requires
            self.seq().wf(),
        ensures
            final(self.seq()).wf(),
            final(self.seq())@ == self.seq()@.unlocked_session(),
    {
        self.seq.unlock_raw();
    }
}

impl<
    'a,
    TL: TransportLayer<SendData>,
    SendData,
    RecvData,
    const CAP: usize,
> ReplyGuard<'a, TL, SendData, RecvData, CAP> {
    /// The session that the packet was received in.
    pub closed spec fn seq(self) -> &'a mut SeqEx<SendData, RecvData, CAP> {
        self.seq
    }

    /// The transport layer that the answer is sent through.
    pub closed spec fn tl(self) -> &'a mut TL {
        self.tl
    }

    /// The reply number that was issued for the packet.
    pub closed spec fn reply_no(self) -> SeqNo {
        self.reply_no
    }

    /// Whether the guard holds the SeqCst lock.
    pub closed spec fn holds_lock(self) -> bool {
        self.is_holding_lock
    }

    /// Whether the session is in a state that the guard can work with.
    pub open spec fn wf(self) -> bool {
        self.seq().wf()
    }

    /// Whether the reply can be scheduled.
    pub open spec fn can_reply(self) -> bool {
        self.seq()@.replies.count(self.reply_no()) > 0 ==> can_schedule(self.seq()@, *self.tl())
    }

    /// Returns the session that the packet was received in.
    pub fn get_seqex(&mut self) -> (seq: &mut SeqEx<SendData, RecvData, CAP>)
        ensures
            *seq == *old(self).seq(),
            *final(self).seq() == *final(seq),
            *final(final(self).seq()) == *final(old(self).seq()),
            *final(self).tl() == *old(self).tl(),
            *final(final(self).tl()) == *final(old(self).tl()),
            final(self).reply_no() == old(self).reply_no(),
            final(self).holds_lock() == old(self).holds_lock(),
    {
        self.seq
    }

    /// Returns a reference to the `TransportLayer` instance this guard was created with.
    pub fn get_tl(&self) -> (tl: &TL)
        ensures
            *tl == *self.tl(),
    {
        self.tl
    }

    /// Returns a mutable reference to the `TransportLayer` instance this guard was created with.
    pub fn get_tl_mut(&mut self) -> (tl: &mut TL)
        ensures
            *tl == *old(self).tl(),
            *final(self).tl() == *final(tl),
            *final(final(self).tl()) == *final(old(self).tl()),
            *final(self).seq() == *old(self).seq(),
            *final(final(self).seq()) == *final(old(self).seq()),
            final(self).reply_no() == old(self).reply_no(),
            final(self).holds_lock() == old(self).holds_lock(),
    {
        self.tl
    }

    /// Returns whether or not this reply guard is currently holding the SeqCst lock,
    /// preventing other SeqCst packets from being processed.
    pub fn is_seq_cst(&self) -> (seq_cst: bool)
        ensures
            seq_cst == self.holds_lock(),
    {
        self.is_holding_lock
    }

    /// Consume this reply guard to add `packet_data` to the send window and immediately send it
    /// as a reply to the remote peer.
    ///
    /// If you need to reply more than once, say to fragment a large file, then include in your
    /// first reply some identifier, and then `send` all fragments with the same included
    /// identifier. The identifier will tell the remote peer which packets contain fragments of the
    /// file, and since each fragment will be received in order it will be trivial for them to
    /// reconstruct the original file.
    pub fn reply(self, seq_cst: bool, packet_data: SendData)
        requires
            self.wf(),
            self.can_reply(),
        ensures
            final(self.seq()).wf(),
            replies(
                self.seq()@,
                *self.tl(),
                self.reply_no(),
                self.holds_lock(),
                seq_cst,
                packet_data,
                final(self.seq())@,
                *final(self.tl()),
            ),
    {
        self.seq.reply_raw(self.tl, self.reply_no, self.is_holding_lock, seq_cst, packet_data);
    }

    /// Similar to `reply`, except the provided function is called to produce the data
    /// to write to the send window.
    ///
    /// This function receives as its first argument the packet sequence number, and as its second
    /// argument the packet reply number.
    pub fn reply_with<F: FnOnce(SeqNo, SeqNo) -> SendData>(self, seq_cst: bool, packet_data: F)
        requires
            self.wf(),
            self.can_reply(),
            call_requires(packet_data, (self.seq()@.next_send, self.reply_no())),
        ensures
            final(self.seq()).wf(),
            exists|data: SendData|
                {
                    &&& #[trigger] call_ensures(
                        packet_data,
                        (self.seq()@.next_send, self.reply_no()),
                        data,
                    )
                    &&& replies(
                        self.seq()@,
                        *self.tl(),
                        self.reply_no(),
                        self.holds_lock(),
                        seq_cst,
                        data,
                        final(self.seq())@,
                        *final(self.tl()),
                    )
                },
    {
        let seq_no: SeqNo = self.seq.seq_no();
        let data = packet_data(seq_no, self.reply_no);
        self.seq.reply_raw(self.tl, self.reply_no, self.is_holding_lock, seq_cst, data);
    }

    /// Turns the guard into what is left of it once its packet has been answered: the SeqCst lock,
    /// if the guard holds it.
    fn consume_lock(self) -> (lock: Option<SeqCstGuard<'a, SendData, RecvData, CAP>>)
        ensures
            lock is Some == self.holds_lock(),
            *final(self.tl()) == *self.tl(),
            match lock {
                Some(l) => *l.seq() == *self.seq() && *final(l.seq()) == *final(self.seq()),
                None => *final(self.seq()) == *self.seq(),
            },
    {
        if self.is_holding_lock {
            Some(SeqCstGuard { seq: self.seq })
        } else {
            None
        }
    }

    /// Cause this reply guard to immediately send an ack to the remote peer,
    /// consuming it and returning a new guard. This `SeqCstGuard` prevents SeqCst packets from
    /// being processed until it is released.
    ///
    /// If this guard was not for a SeqCst packet (or the user called `unlock` previously),
    /// then it will return `None` instead of a `SeqCstGuard`.
    ///
    /// This allows advanced users to de-couple locking the critical section for SeqCst packets
    /// from sending acks to received packets.
    pub fn ack(self) -> (lock: Option<SeqCstGuard<'a, SendData, RecvData, CAP>>)
        requires
            self.wf(),
        ensures
            lock is Some == self.holds_lock(),
            match lock {
                Some(l) => {
                    &&& l.seq().wf()
                    &&& acks(
                        self.seq()@,
                        *self.tl(),
                        self.reply_no(),
                        false,
                        l.seq()@,
                        *final(self.tl()),
                    )
                    &&& *final(l.seq()) == *final(self.seq())
                },
                None => {
                    &&& final(self.seq()).wf()
                    &&& acks(
                        self.seq()@,
                        *self.tl(),
                        self.reply_no(),
                        false,
                        final(self.seq())@,
                        *final(self.tl()),
                    )
                },
            },
    {
        let ReplyGuard { seq, tl, reply_no, is_holding_lock } = self;
        seq.ack_raw(tl, reply_no, false);
        ReplyGuard { seq, tl, reply_no, is_holding_lock }.consume_lock()
    }

    /// If this guard is holding the SeqCst lock, and preventing other SeqCst packets from
    /// being processed, then this function will force it to drop this lock.
    ///
    /// Returns `true` if this guard was holding the SeqCst lock,
    /// similar to function `is_seq_cst`.
    ///
    /// In cases where a critical section is no longer needed, this function can allow more than one
    /// SeqCst packet to be processed at a time.
    pub fn unlock(&mut self) -> (unlocked: bool)
        requires
            old(self).wf(),
        ensures
            final(self).wf(),
            unlocked == old(self).holds_lock(),
            !final(self).holds_lock(),
            final(self).reply_no() == old(self).reply_no(),
            final(self).seq()@ == if unlocked {
                old(self).seq()@.unlocked_session()
            } else {
                old(self).seq()@
            },
            *final(final(self).seq()) == *final(old(self).seq()),
            *final(self).tl() == *old(self).tl(),
            *final(final(self).tl()) == *final(old(self).tl()),
    {
        if self.is_holding_lock {
            self.is_holding_lock = false;
            self.seq.unlock_raw();
            true
        } else {
            false
        }
    }

    /// Send a reply to the remote peer, similar to `reply`, except without dropping the
    /// SeqCst lock.
    ///
    /// If this guard was holding the SeqCst lock, then it will return a `SeqCstGuard`, which will
    /// continue to hold the lock until it is released. If this guard was not holding the lock, it
    /// will return `None` instead.
    pub fn reply_stay_locked(self, seq_cst: bool, packet_data: SendData) -> (lock: Option<
        SeqCstGuard<'a, SendData, RecvData, CAP>,
    >)
        requires
            self.wf(),
            self.can_reply(),
        ensures
            lock is Some == self.holds_lock(),
            match lock {
                Some(l) => {
                    &&& l.seq().wf()
                    &&& replies(
                        self.seq()@,
                        *self.tl(),
                        self.reply_no(),
                        false,
                        seq_cst,
                        packet_data,
                        l.seq()@,
                        *final(self.tl()),
                    )
                    &&& *final(l.seq()) == *final(self.seq())
                },
                None => {
                    &&& final(self.seq()).wf()
                    &&& replies(
                        self.seq()@,
                        *self.tl(),
                        self.reply_no(),
                        false,
                        seq_cst,
                        packet_data,
                        final(self.seq())@,
                        *final(self.tl()),
                    )
                },
            },
    {
        let ReplyGuard { seq, tl, reply_no, is_holding_lock } = self;
        seq.reply_raw(tl, reply_no, false, seq_cst, packet_data);
        ReplyGuard { seq, tl, reply_no, is_holding_lock }.consume_lock()
    }

    /// Similar to `reply_stay_locked`, except the provided function is called to produce the data
    /// to write to the send window.
    pub fn reply_with_stay_locked<F: FnOnce(SeqNo, SeqNo) -> SendData>(
        self,
        seq_cst: bool,
        packet_data: F,
    ) -> (lock: Option<SeqCstGuard<'a, SendData, RecvData, CAP>>)
        requires
            self.wf(),
            self.can_reply(),
            call_requires(packet_data, (self.seq()@.next_send, self.reply_no())),
        ensures
            lock is Some == self.holds_lock(),
            exists|data: SendData|
                #[trigger] call_ensures(
                    packet_data,
                    (self.seq()@.next_send, self.reply_no()),
                    data,
                ) && match lock {
                    Some(l) => {
                        &&& l.seq().wf()
                        &&& replies(
                            self.seq()@,
                            *self.tl(),
                            self.reply_no(),
                            false,
                            seq_cst,
                            data,
                            l.seq()@,
                            *final(self.tl()),
                        )
                        &&& *final(l.seq()) == *final(self.seq())
                    },
                    None => {
                        &&& final(self.seq()).wf()
                        &&& replies(
                            self.seq()@,
                            *self.tl(),
                            self.reply_no(),
                            false,
                            seq_cst,
                            data,
                            final(self.seq())@,
                            *final(self.tl()),
                        )
                    },
                },
    {
        let seq_no: SeqNo = self.seq.seq_no();
        let data = packet_data(seq_no, self.reply_no);
        self.reply_stay_locked(seq_cst, data)
    }

    /// Answers the packet with an ack and gives the SeqCst lock back, if the guard holds it. This
    /// is how a guard ends that nothing else was done with.
    pub fn release(self)
        requires
            self.wf(),
        ensures
            final(self.seq()).wf(),
            acks(
                self.seq()@,
                *self.tl(),
                self.reply_no(),
                self.holds_lock(),
                final(self.seq())@,
                *final(self.tl()),
            ),
    {
        self.seq.ack_raw(self.tl, self.reply_no, self.is_holding_lock);
    }

    /// Break down a `ReplyGuard` into its primitive components, without causing it to send an ack
    /// or reply to the remote peer.
    ///
    /// The first return value is the packet reply number, and the second is the return value of
    /// `is_seq_cst`.
    ///
    /// The caller must see to it that `from_components` is eventually called on the returned
    /// values. Otherwise the packet is never answered.
    pub fn to_components(self) -> (components: (SeqNo, bool))
        ensures
            components == (self.reply_no(), self.holds_lock()),
            *final(self.seq()) == *self.seq(),
            *final(self.tl()) == *self.tl(),
    {
        (self.reply_no, self.is_holding_lock)
    }

    fn new(
        seq: &'a mut SeqEx<SendData, RecvData, CAP>,
        tl: &'a mut TL,
        reply_no: SeqNo,
        is_holding_lock: bool,
    ) -> (guard: Self)
        ensures
            guard.is_for(*old(seq), *old(tl), reply_no, is_holding_lock),
            *final(guard.seq()) == *final(seq),
            *final(guard.tl()) == *final(tl),
    {
        ReplyGuard { seq, tl, reply_no, is_holding_lock }
    }

    /// Whether the guard stands for the packet with the given reply number, in a session that is
    /// in the state `seq` now.
    pub open spec fn is_for(
        self,
        seq: SeqEx<SendData, RecvData, CAP>,
        tl: TL,
        reply_no: SeqNo,
        is_holding_lock: bool,
    ) -> bool {
        &&& *self.seq() == seq
        &&& *self.tl() == tl
        &&& self.reply_no() == reply_no
        &&& self.holds_lock() == is_holding_lock
    }

    /// Constructs a `ReplyGuard` object from the raw components returned by `to_components`.
    ///
    /// The caller must always pass values for `reply_no` and `is_holding_lock` that were
    /// originally returned by consuming a `ReplyGuard` of the same session with `to_components`.
    pub fn from_components(
        seq: &'a mut SeqEx<SendData, RecvData, CAP>,
        tl: &'a mut TL,
        reply_no: SeqNo,
        is_holding_lock: bool,
    ) -> (guard: Self)
        ensures
            guard.is_for(*old(seq), *old(tl), reply_no, is_holding_lock),
            *final(guard.seq()) == *final(seq),
            *final(guard.tl()) == *final(tl),
    {
        Self::new(seq, tl, reply_no, is_holding_lock)
    }
}

/// When a received packet is ready to be processed, it is returned as an instance of this enum.
///
/// This enum specifies what kind of packet was received, and any additional data associated with
/// the packet.
pub enum RecvOk<'a, TL, SendData, RecvData, const CAP: usize> {
    /// The received packet is a payload.
    Payload {
        /// This type of packet can be optionally replied to, otherwise we need to send an ack.
        reply_guard: ReplyGuard<'a, TL, SendData, RecvData, CAP>,
        /// The data associated with the packet we just received from the remote peer.
        recv_data: RecvData,
    },
    /// The received packet is a reply to some packet we sent previously.
    Reply {
        /// This type of packet can be optionally replied to, otherwise we need to send an ack.
        reply_guard: ReplyGuard<'a, TL, SendData, RecvData, CAP>,
        /// The data associated with the packet we just received from the remote peer.
        recv_data: RecvData,
        /// The data associated with the packet that the received packet is a reply to.
        send_data: SendData,
    },
    /// The received packet is an acknowledgment of some packet we sent previously.
    Ack {
        /// The data associated with the packet that was acknowledged.
        send_data: SendData,
    },
}

impl<
    'a,
    TL: TransportLayer<SendData>,
    SendData,
    RecvData,
    const CAP: usize,
> RecvOk<'a, TL, SendData, RecvData, CAP> {
    /// Whether this is `raw` with a guard in place of the reply number, for a session that is in
    /// the state `seq` now.
    pub open spec fn is_guarded(
        self,
        seq: SeqEx<SendData, RecvData, CAP>,
        tl: TL,
        raw: RecvOkRaw<SendData, RecvData>,
    ) -> bool {
        match raw {
            RecvOkRaw::Payload { reply_no, seq_cst, recv_data } => {
                &&& self matches RecvOk::Payload { reply_guard, recv_data: d }
                &&& d == recv_data
                &&& reply_guard.is_for(seq, tl, reply_no, seq_cst)
            },
            RecvOkRaw::Reply { reply_no, seq_cst, recv_data, send_data } => {
                &&& self matches RecvOk::Reply { reply_guard, recv_data: d, send_data: s }
                &&& d == recv_data
                &&& s == send_data
                &&& reply_guard.is_for(seq, tl, reply_no, seq_cst)
            },
            RecvOkRaw::Ack { send_data } => {
                &&& self matches RecvOk::Ack { send_data: s }
                &&& s == send_data
            },
        }
    }

    fn from_raw(
        seq: &'a mut SeqEx<SendData, RecvData, CAP>,
        tl: &'a mut TL,
        value: RecvOkRaw<SendData, RecvData>,
    ) -> (ok: Self)
        ensures
            ok.is_guarded(*old(seq), *old(tl), value),
            match ok.guard() {
                Some(g) => *final(g.seq()) == *final(seq) && *final(g.tl()) == *final(tl),
                None => *final(seq) == *old(seq) && *final(tl) == *old(tl),
            },
    {
        match value {
            RecvOkRaw::Payload { reply_no, seq_cst, recv_data } => RecvOk::Payload {
                reply_guard: ReplyGuard::new(seq, tl, reply_no, seq_cst),
                recv_data,
            },
            RecvOkRaw::Reply { reply_no, seq_cst, recv_data, send_data } => RecvOk::Reply {
                reply_guard: ReplyGuard::new(seq, tl, reply_no, seq_cst),
                recv_data,
                send_data,
            },
            RecvOkRaw::Ack { send_data } => RecvOk::Ack { send_data },
        }
    }

    /// The guard of a packet that has to be answered.
    pub open spec fn guard(self) -> Option<ReplyGuard<'a, TL, SendData, RecvData, CAP>> {
        match self {
            RecvOk::Payload { reply_guard, .. } => Some(reply_guard),
            RecvOk::Reply { reply_guard, .. } => Some(reply_guard),
            RecvOk::Ack { .. } => None,
        }
    }

    /// What the packet brought, and what it answers.
    pub open spec fn content(self) -> (
        Option<(ReplyGuard<'a, TL, SendData, RecvData, CAP>, RecvData)>,
        Option<SendData>,
    ) {
        match self {
            RecvOk::Payload { reply_guard, recv_data } => (Some((reply_guard, recv_data)), None),
            RecvOk::Reply { reply_guard, recv_data, send_data } => (
                Some((reply_guard, recv_data)),
                Some(send_data),
            ),
            RecvOk::Ack { send_data } => (None, Some(send_data)),
        }
    }

    /// Takes the packet apart into what it brought and what it answers.
    pub fn consume(self) -> (content: (
        Option<(ReplyGuard<'a, TL, SendData, RecvData, CAP>, RecvData)>,
        Option<SendData>,
    ))
        ensures
            content == self.content(),
    {
        match self {
            RecvOk::Payload { reply_guard, recv_data } => (Some((reply_guard, recv_data)), None),
            RecvOk::Reply { reply_guard, recv_data, send_data } => (
                Some((reply_guard, recv_data)),
                Some(send_data),
            ),
            RecvOk::Ack { send_data } => (None, Some(send_data)),
        }
    }

    /// The inverse of `consume`. It fails only if there is neither anything brought nor anything
    /// answered.
    pub fn new(
        recv_data: Option<(ReplyGuard<'a, TL, SendData, RecvData, CAP>, RecvData)>,
        send_data: Option<SendData>,
    ) -> (ok: Option<Self>)
        ensures
            ok is None == (recv_data is None && send_data is None),
            ok matches Some(o) ==> o.content() == (recv_data, send_data),
    {
        match (recv_data, send_data) {
            (Some((reply_guard, recv_data)), None) => Some(
                RecvOk::Payload { reply_guard, recv_data },
            ),
            (Some((reply_guard, recv_data)), Some(send_data)) => Some(
                RecvOk::Reply { reply_guard, recv_data, send_data },
            ),
            (None, Some(send_data)) => Some(RecvOk::Ack { send_data }),
            (None, None) => None,
        }
    }
}

impl<SendData, RecvData, const CAP: usize> SeqEx<SendData, RecvData, CAP> {
    /// Processes a packet that was received from the remote peer.
    ///
    /// If this returns `Ok`, the contained boolean is true if `try_pump` should also be called,
    /// because there are packets ready to be processed in the receive window.
    pub fn receive<'a, TL: TransportLayer<SendData>>(
        &'a mut self,
        tl: &'a mut TL,
        packet: Packet<RecvData>,
    ) -> (result: Result<(RecvOk<'a, TL, SendData, RecvData, CAP>, bool), RecvError>)
        requires
            old(self).wf(),
        ensures
            exists|
                mid: SeqEx<SendData, RecvData, CAP>,
                tl_mid: TL,
                raw: Result<(RecvOkRaw<SendData, RecvData>, bool), RecvError>,
            |
                {
                    &&& mid.wf()
                    &&& #[trigger] receives_and_resends(
                        old(self)@,
                        *old(tl),
                        packet,
                        mid@,
                        tl_mid,
                        raw,
                    )
                    &&& match raw {
                        Ok((r, do_pump)) => {
                            &&& result matches Ok((ok, p))
                            &&& p == do_pump
                            &&& ok.is_guarded(mid, tl_mid, r)
                            &&& match ok.guard() {
                                Some(g) => *final(g.seq()) == *final(self) && *final(g.tl())
                                    == *final(tl),
                                None => *final(self) == mid && *final(tl) == tl_mid,
                            }
                        },
                        Err(e) => {
                            &&& result matches Err(error)
                            &&& error == e
                            &&& *final(self) == mid
                            &&& *final(tl) == tl_mid
                        },
                    }
                },
    {
        let raw = self.receive_raw(tl, packet);
        assert(receives_and_resends(old(self)@, *old(tl), packet, self@, *tl, raw));
        match raw {
            Ok((r, do_pump)) => Ok((RecvOk::from_raw(self, tl, r), do_pump)),
            Err(e) => Err(e),
        }
    }

    /// Hands out the next packet, if it waits in the receive window and can be processed now.
    pub fn try_pump<'a, TL: TransportLayer<SendData>>(&'a mut self, tl: &'a mut TL) -> (result:
        Result<(RecvOk<'a, TL, SendData, RecvData, CAP>, bool), TryError>)
        requires
            old(self).wf(),
        ensures
            exists|
                mid: SeqEx<SendData, RecvData, CAP>,
                raw: Result<(RecvOkRaw<SendData, RecvData>, bool), TryError>,
            |
                {
                    &&& mid.wf()
                    &&& #[trigger] pumps(old(self)@, mid@, raw)
                    &&& match raw {
                        Ok((r, do_pump)) => {
                            &&& result matches Ok((ok, p))
                            &&& p == do_pump
                            &&& ok.is_guarded(mid, *old(tl), r)
                            &&& match ok.guard() {
                                Some(g) => *final(g.seq()) == *final(self) && *final(g.tl())
                                    == *final(tl),
                                None => *final(self) == mid && *final(tl) == *old(tl),
                            }
                        },
                        Err(e) => {
                            &&& result matches Err(error)
                            &&& error == e
                            &&& *final(self) == mid
                            &&& *final(tl) == *old(tl)
                        },
                    }
                },
    {
        let raw = self.try_pump_raw();
        assert(pumps(old(self)@, self@, raw));
        match raw {
            Ok((r, do_pump)) => Ok((RecvOk::from_raw(self, tl, r), do_pump)),
            Err(e) => Err(e),
        }
    }
}

} // verus!
