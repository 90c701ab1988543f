//! The low level API of SEQEX, the backbone of the other modules.
use crate::error::TryError;
use crate::error::TryRawRecvError;
pub use crate::iter::{Iter, IterMut};
use crate::iter::window_data;
use crate::model::{
    earliest, fast_forward, is_due, lemma_unlocked_update, packet_of, slot, unlocked_count,
    SeqState, Verdict,
};
use crate::transport_layer::{Packet, SeqNo, DEFAULT_INITIAL_SEQ_NO};
use vstd::prelude::*;

verus! {

/// The resend interval of a default `SeqEx`.
pub const DEFAULT_RESEND_INTERVAL_MS: i64 = 200;

/// The errors of `SeqEx::receive_raw_and_direct`.
pub type TryRecvError = TryRawRecvError;

/// What a slot of the receive window holds.
#[derive(Debug)]
pub enum RecvEntry<RecvData> {
    /// A packet that has to wait.
    Occupied { seq_no: SeqNo, reply_no: Option<SeqNo>, seq_cst: bool, data: RecvData },
    /// The number of a packet that was handed out before it was next.
    Unlocked { seq_no: SeqNo },
    /// Nothing.
    Empty,
}

/// A packet in the send window.
#[derive(Debug)]
pub struct SendEntry<SendData> {
    pub seq_no: SeqNo,
    pub reply_no: Option<SeqNo>,
    pub seq_cst: bool,
    pub next_resend_time: i64,
    pub data: SendData,
}

/// A packet that is ready to be processed, or data that was sent and has been acknowledged.
#[derive(Clone, Debug)]
pub enum RecvOkRaw<SendData, RecvData> {
    /// The received packet is a payload.
    Payload { reply_no: SeqNo, seq_cst: bool, recv_data: RecvData },
    /// The received packet is a reply to the packet with `send_data`.
    Reply { reply_no: SeqNo, seq_cst: bool, recv_data: RecvData, send_data: SendData },
    /// The received packet is an ack of the packet with `send_data`.
    Ack { send_data: SendData },
}

impl<SendData, RecvData> RecvOkRaw<SendData, RecvData> {
    /// A packet with the number `reply_no`, that answers the packet with `send_data` if there is
    /// one.
    pub open spec fn handed_out(
        reply_no: SeqNo,
        seq_cst: bool,
        recv_data: RecvData,
        send_data: Option<SendData>,
    ) -> Self {
        match send_data {
            Some(send_data) => RecvOkRaw::Reply { reply_no, seq_cst, recv_data, send_data },
            None => RecvOkRaw::Payload { reply_no, seq_cst, recv_data },
        }
    }
}

/// One end of a session with exactly one remote peer.
#[derive(Debug)]
pub struct SeqEx<SendData, RecvData, const CAP: usize> {
    /// The interval at which packets will be resent if they have not yet been acknowledged by the
    /// remote peer.
    /// It can be statically or dynamically set, it is up to the user to decide.
    pub resend_interval: i64,
    pub next_service_timestamp: i64,
    next_send_seq_no: SeqNo,
    next_recv_seq_no: SeqNo,
    send_window: Vec<Option<SendEntry<SendData>>>,
    recv_window: Vec<RecvEntry<RecvData>>,
    /// The reply numbers that have been issued and not been returned. When a packet is received,
    /// a reply number is issued for that packet. That reply number reserves resources for itself,
    /// so that replying or acknowledging with it is guaranteed not to fail.
    concurrent_replies: Vec<SeqNo>,
    is_locked: bool,
}

/// How far a pass over the send window has come.
#[derive(Clone, Debug)]
pub struct ServiceIter {
    idx: usize,
    next_time: i64,
}

impl View for ServiceIter {
    type V = (int, i64);

    closed spec fn view(&self) -> (int, i64) {
        (self.idx as int, self.next_time)
    }
}

impl<SendData, RecvData, const CAP: usize> View for SeqEx<SendData, RecvData, CAP> {
    type V = SeqState<SendData, RecvData>;

    closed spec fn view(&self) -> SeqState<SendData, RecvData> {
        SeqState {
            resend_interval: self.resend_interval,
            next_service_timestamp: self.next_service_timestamp,
            next_send: self.next_send_seq_no,
            next_recv: self.next_recv_seq_no,
            send_window: self.send_window@,
            recv_window: self.recv_window@,
            replies: self.concurrent_replies@.to_multiset(),
            locked: self.is_locked,
        }
    }
}

impl<SendData, RecvData, const CAP: usize> SeqEx<SendData, RecvData, CAP> {
    /// What every method keeps.
    pub open spec fn wf(&self) -> bool {
        &&& self@.cap() == CAP
        &&& self@.wf()
    }

    /// Windows with nothing in them.
    pub(crate) fn empty(resend_interval: i64, initial_seq_no: SeqNo) -> (seq: Self)
        ensures
            seq@ == SeqState::<SendData, RecvData>::initial(
                CAP as nat,
                resend_interval,
                initial_seq_no,
            ),
    {
        let mut send_window: Vec<Option<SendEntry<SendData>>> = Vec::new();
        let mut recv_window: Vec<RecvEntry<RecvData>> = Vec::new();
        let mut i: usize = 0;
        while i < CAP
            invariant
                i <= CAP,
                send_window@ == Seq::new(i as nat, |k: int| None::<SendEntry<SendData>>),
                recv_window@ == Seq::new(i as nat, |k: int| RecvEntry::<RecvData>::Empty),
            decreases CAP - i,
        {
            send_window.push(None);
            recv_window.push(RecvEntry::Empty);
            i += 1;
        }
        let seq = SeqEx {
            resend_interval,
            next_service_timestamp: i64::MAX,
            next_send_seq_no: initial_seq_no,
            next_recv_seq_no: initial_seq_no,
            send_window,
            recv_window,
            concurrent_replies: Vec::new(),
            is_locked: false,
        };
        proof {
            seq.concurrent_replies@.to_multiset_ensures();
            assert(seq@.replies =~= vstd::multiset::Multiset::empty());
        }
        seq
    }

    /// Creates a new instance of `SeqEx` for a new remote peer.
    /// An instance of `SeqEx` expects to communicate with only exactly one other remote instance
    /// of `SeqEx`.
    ///
    /// `retry_interval` is the initial value of the `resend_interval` field. It defines
    /// how long `SeqEx` will wait until resending unacknowledged packets. It can be changed later.
    ///
    /// `initial_seq_no` is the first sequence number that this instance of `SeqEx` will use. It
    /// must be exactly the same as the `initial_seq_no` of the remote instance of `SeqEx`.
    /// It can just be 1.
    pub fn new(retry_interval: i64, initial_seq_no: SeqNo) -> (seq: Self)
        requires
            1 < CAP <= u32::MAX,
        ensures
            seq.wf(),
            seq@ == SeqState::<SendData, RecvData>::initial(
                CAP as nat,
                retry_interval,
                initial_seq_no,
            ),
    {
        Self::empty(retry_interval, initial_seq_no)
    }

    /// Returns the next sequence number to be attached to the next sent packet.
    pub fn seq_no(&self) -> (seq_no: SeqNo)
        ensures
            seq_no == self@.next_send,
    {
        self.next_send_seq_no
    }

    fn take_send(&mut self, reply_no: SeqNo) -> (data: Option<SendData>)
        requires
            old(self).wf(),
        ensures
            final(self).wf(),
            data == old(self)@.unanswered(reply_no),
            final(self)@ == old(self)@.answered(reply_no),
    {
        let idx: usize = reply_no as usize % CAP;
        let found = match &self.send_window[idx] {
            Some(entry) => entry.seq_no == reply_no,
            None => false,
        };
        if found {
            match self.send_window[idx].take() {
                Some(entry) => Some(entry.data),
                None => None,
            }
        } else {
            None
        }
    }

    fn remove_reservation(&mut self, reply_no: SeqNo) -> (removed: bool)
        requires
            old(self).wf(),
        ensures
            final(self).wf(),
            removed == (old(self)@.replies.count(reply_no) > 0),
            removed ==> final(self)@ == (SeqState {
                replies: old(self)@.replies.remove(reply_no),
                ..old(self)@
            }),
            !removed ==> final(self)@ == old(self)@,
    {
        proof {
            self.concurrent_replies@.to_multiset_ensures();
        }
        let mut i: usize = 0;
        while i < self.concurrent_replies.len()
            invariant
                old(self).wf(),
                *self == *old(self),
                i <= self.concurrent_replies.len(),
                forall|k: int| 0 <= k < i ==> self.concurrent_replies@[k] != reply_no,
            decreases self.concurrent_replies.len() - i,
        {
            if self.concurrent_replies[i] == reply_no {
                proof {
                    lemma_swap_remove(self.concurrent_replies@, i as int);
                    self.concurrent_replies@.to_multiset_ensures();
                    assert(self.concurrent_replies@.contains(reply_no));
                }
                self.concurrent_replies.swap_remove(i);
                return true;
            }
            i += 1;
        }
        assert(!self.concurrent_replies@.contains(reply_no));
        false
    }

    fn is_full_inner(&self, reply_no: Option<SeqNo>) -> (room: Result<(), TryError>)
        requires
            self.wf(),
        ensures
            room == self@.room(reply_no),
    {
        proof {
            self.concurrent_replies@.to_multiset_ensures();
        }
        let total: u32 = self.concurrent_replies.len() as u32;
        if self.concurrent_replies.len() >= CAP - 2 {
            return Err(TryError::WaitingForReply);
        }
        let mut i: u32 = 0;
        while i < 1 + total
            invariant
                self.wf(),
                total == self@.replies.len(),
                total < CAP - 2,
                i <= 1 + total,
                forall|k: int| 0 <= k < i ==> !self@.blocked(k, reply_no),
            decreases 1 + total - i,
        {
            let idx: usize = self.next_send_seq_no.wrapping_add(i) as usize % CAP;
            let exempt = match reply_no {
                Some(r) => r as usize % CAP == idx,
                None => false,
            };
            if self.send_window[idx].is_some() && !exempt {
                assert(self@.blocked(i as int, reply_no));
                return if i == 0 {
                    Err(TryError::WaitingForRecv)
                } else {
                    Err(TryError::WaitingForReply)
                };
            }
            assert(!self@.blocked(i as int, reply_no));
            i += 1;
        }
        Ok(())
    }

    /// Adds a packet to the send window.
    fn insert_send(
        &mut self,
        current_time: i64,
        reply_no: Option<SeqNo>,
        seq_cst: bool,
        data: SendData,
    ) -> (packet: Packet<&SendData>)
        requires
            old(self).wf(),
            old(self)@.can_schedule(current_time),
        ensures
            final(self).wf(),
            final(self)@ == old(self)@.sent(current_time, reply_no, seq_cst, data),
            packet.unref() == Packet::with_data(old(self)@.next_send, reply_no, seq_cst, data),
    {
        let seq_no: SeqNo = self.next_send_seq_no;
        self.next_send_seq_no = self.next_send_seq_no.wrapping_add(1);

        let next_resend_time: i64 = current_time + self.resend_interval;
        if self.next_service_timestamp > next_resend_time {
            self.next_service_timestamp = next_resend_time;
        }
        let idx: usize = seq_no as usize % CAP;
        let entry = self.send_window[idx].insert(
            SendEntry { seq_no, reply_no, seq_cst, next_resend_time, data },
        );
        Packet::new_with_data(entry.seq_no, entry.reply_no, entry.seq_cst, &entry.data)
    }

    /// Sends the given packet to the remote peer and adds it to the send window.
    ///
    /// If `Ok` is returned then the contained packet should be sent to the remote peer.
    ///
    /// If the return value is `Err` the queue is full and the packet will not be sent.
    /// The caller must either cancel sending, abort the connection, or wait until a call to
    /// `receive_raw_and_direct` or `try_pump_raw` returns `Ok` and try again.
    ///
    /// `packet_data` should contain both the packet to be sent as well as any local metadata the
    /// caller wants to store with the packet. This metadata allows the exchange to be stateful.
    ///
    /// `current_time` should be a timestamp of the current time, using whatever units of time the
    /// user would like. However this choice of units must be consistent with the units of the
    /// `resend_interval`. `current_time` does not have to be monotonically increasing.
    ///
    /// Can mutate `next_service_timestamp`.
    pub fn try_send_direct(
        &mut self,
        current_time: i64,
        seq_cst: bool,
        packet_data: SendData,
    ) -> (result: Result<Packet<&SendData>, (TryError, SendData)>)
        requires
            old(self).wf(),
            old(self)@.room(None) is Ok ==> old(self)@.can_schedule(current_time),
        ensures
            final(self).wf(),
            match old(self)@.room(None) {
                Ok(()) => {
                    &&& result is Ok
                    &&& result->Ok_0.unref() == Packet::with_data(
                        old(self)@.next_send,
                        None,
                        seq_cst,
                        packet_data,
                    )
                    &&& final(self)@ == old(self)@.sent(current_time, None, seq_cst, packet_data)
                },
                Err(e) => result == Err::<Packet<&SendData>, (TryError, SendData)>(
                    (e, packet_data),
                ) && final(self)@ == old(self)@,
            },
    {
        match self.is_full_inner(None) {
            Err(e) => Err((e, packet_data)),
            Ok(()) => Ok(self.insert_send(current_time, None, seq_cst, packet_data)),
        }
    }

    /// Similar to `try_send_direct`, except that the provided function is called to produce the
    /// data, once there is room for it. It receives the sequence number of the packet.
    ///
    /// Can mutate `next_service_timestamp`.
    pub fn try_send_direct_with<F: FnOnce(SeqNo) -> SendData>(
        &mut self,
        current_time: i64,
        seq_cst: bool,
        packet_data: F,
    ) -> (result: Result<Packet<&SendData>, (TryError, F)>)
        requires
            old(self).wf(),
            old(self)@.room(None) is Ok ==> {
                &&& old(self)@.can_schedule(current_time)
                &&& call_requires(packet_data, (old(self)@.next_send,))
            },
        ensures
            final(self).wf(),
            match old(self)@.room(None) {
                Ok(()) => {
                    &&& result is Ok
                    &&& exists|data: SendData|
                        {
                            &&& #[trigger] call_ensures(
                                packet_data,
                                (old(self)@.next_send,),
                                data,
                            )
                            &&& result->Ok_0.unref() == Packet::with_data(
                                old(self)@.next_send,
                                None,
                                seq_cst,
                                data,
                            )
                            &&& final(self)@ == old(self)@.sent(current_time, None, seq_cst, data)
                        }
                },
                Err(e) => result == Err::<Packet<&SendData>, (TryError, F)>((e, packet_data))
                    && final(self)@ == old(self)@,
            },
    {
        match self.is_full_inner(None) {
            Err(e) => Err((e, packet_data)),
            Ok(()) => {
                let data = packet_data(self.next_send_seq_no);
                Ok(self.insert_send(current_time, None, seq_cst, data))
            },
        }
    }

    /// Passes over everything that was handed out ahead of its turn, and returns whether the
    /// packet that is next now waits in the receive window.
    fn fast_forward(&mut self) -> (do_pump: bool)
        requires
            old(self).wf(),
        ensures
            final(self).wf(),
            final(self)@ == ({
                let (recv_window, next_recv) = fast_forward(
                    old(self)@.recv_window,
                    old(self)@.next_recv,
                );
                SeqState { recv_window, next_recv, ..old(self)@ }
            }),
            do_pump == final(self)@.can_pump(),
    {
        loop
            invariant
                self.wf(),
                fast_forward(self@.recv_window, self@.next_recv) == fast_forward(
                    old(self)@.recv_window,
                    old(self)@.next_recv,
                ),
                self@ == (SeqState {
                    recv_window: self@.recv_window,
                    next_recv: self@.next_recv,
                    ..old(self)@
                }),
            decreases unlocked_count(self@.recv_window),
        {
            let next_seq_no: SeqNo = self.next_recv_seq_no;
            let i: usize = next_seq_no as usize % CAP;
            match &self.recv_window[i] {
                RecvEntry::Unlocked { .. } => {
                    proof {
                        lemma_unlocked_update(self@.recv_window, i as int, RecvEntry::Empty);
                    }
                    self.recv_window[i] = RecvEntry::Empty;
                    self.next_recv_seq_no = next_seq_no.wrapping_add(1);
                },
                RecvEntry::Occupied { .. } => {
                    return true;
                },
                RecvEntry::Empty => {
                    return false;
                },
            }
        }
    }

    /// Whether the slot for `seq_no` in the receive window is free.
    pub fn can_hold(&self, seq_no: SeqNo) -> (free: bool)
        requires
            self.wf(),
        ensures
            free == self@.can_hold(seq_no),
    {
        match &self.recv_window[seq_no as usize % CAP] {
            RecvEntry::Empty => true,
            _ => false,
        }
    }

    /// Whether a packet that has been handed out will be answered by something other than a
    /// resent ack.
    fn will_answer(&self, seq_no: SeqNo) -> (answer: bool)
        requires
            self.wf(),
        ensures
            answer == self@.will_answer(seq_no),
    {
        let mut i: usize = 0;
        while i < CAP
            invariant
                self.wf(),
                i <= CAP,
                forall|k: int|
                    0 <= k < i ==> !(#[trigger] self@.send_window[k] matches Some(entry)
                        && entry.reply_no == Some(seq_no)),
            decreases CAP - i,
        {
            if let Some(entry) = &self.send_window[i] {
                if let Some(r) = entry.reply_no {
                    if r == seq_no {
                        assert(self@.send_window[i as int] is Some);
                        return true;
                    }
                }
            }
            i += 1;
        }
        proof {
            self.concurrent_replies@.to_multiset_ensures();
        }
        let mut i: usize = 0;
        while i < self.concurrent_replies.len()
            invariant
                i <= self.concurrent_replies.len(),
                forall|k: int| 0 <= k < i ==> self.concurrent_replies@[k] != seq_no,
            decreases self.concurrent_replies.len() - i,
        {
            if self.concurrent_replies[i] == seq_no {
                proof {
                    self.concurrent_replies@.to_multiset_ensures();
                    assert(self.concurrent_replies@.contains(seq_no));
                }
                return true;
            }
            i += 1;
        }
        assert(!self.concurrent_replies@.contains(seq_no));
        false
    }

    /// Issues the reply number `seq_no` for a packet that is handed to the application.
    fn issue(&mut self, seq_no: SeqNo, reply_no: Option<SeqNo>, seq_cst: bool) -> (send_data:
        Option<SendData>)
        requires
            old(self).wf(),
            old(self)@.replies.len() < CAP - 2,
        ensures
            final(self).wf(),
            final(self)@ == old(self)@.issued(seq_no, reply_no, seq_cst),
            send_data == old(self)@.answered_data(reply_no),
    {
        proof {
            self.concurrent_replies@.to_multiset_ensures();
            vstd::seq_lib::to_multiset_build(self.concurrent_replies@, seq_no);
        }
        self.concurrent_replies.push(seq_no);
        if seq_cst {
            self.is_locked = true;
        }
        match reply_no {
            Some(r) => self.take_send(r),
            None => None,
        }
    }

    /// Processes a packet that was received from the remote peer.
    ///
    /// If this returns `Ok` then `try_send_direct` might succeed on next call, and the contained
    /// boolean is true if `try_pump_raw` should be called, because the next packet is ready to be
    /// processed in the receive window.
    ///
    /// A packet that was handed out before is never handed out again.
    pub fn receive_raw_and_direct<P: Into<RecvData>>(&mut self, packet: Packet<P>) -> (result:
        Result<(RecvOkRaw<SendData, P>, bool), TryRawRecvError>)
        requires
            old(self).wf(),
        ensures
            final(self).wf(),
            receives(old(self)@, packet, final(self)@, result),
    {
        let seq_cst = packet.is_seq_cst();
        let (seq_no, reply_no, recv_data): (SeqNo, Option<SeqNo>, P) = match packet {
            Packet::Payload(s, d) | Packet::SeqCstPayload(s, d) => (s, None, d),
            Packet::Reply(s, r, d) | Packet::SeqCstReply(s, r, d) => (s, Some(r), d),
            Packet::Ack(reply_no) => {
                return match self.take_send(reply_no) {
                    Some(send_data) => Ok((RecvOkRaw::Ack { send_data }, false)),
                    None => Err(TryRawRecvError::DroppedDuplicate),
                };
            },
        };
        // We only want to accept packets with sequence numbers in the range:
        // `next_recv_seq_no <= seq_no < next_recv_seq_no + CAP`.
        // To check that range we compute `seq_no - next_recv_seq_no` and check
        // if the number wrapped below 0, or if it is above `CAP`.
        let normalized_seq_no: u32 = seq_no.wrapping_sub(self.next_recv_seq_no);
        let is_below_range = normalized_seq_no > SeqNo::MAX / 2;
        let is_above_range = !is_below_range && normalized_seq_no >= CAP as u32;
        let is_next = normalized_seq_no == 0;
        let i: usize = seq_no as usize % CAP;
        let is_unlocked = match &self.recv_window[i] {
            RecvEntry::Unlocked { seq_no: pre_seq_no } => *pre_seq_no == seq_no,
            _ => false,
        };
        if is_below_range || (!is_above_range && is_unlocked) {
            // The packet has been received twice.
            // For every received packet we either send a normal reply or send an ack.
            // If the application sent a normal reply in response to this packet previously, and
            // that reply has not been acknowledged, then `seq_no` will be in the send window,
            // and if the application is still deciding what to reply with, it will be among the
            // concurrent replies.
            // If either are the case then we know we will eventually send a reply to the packet.
            // If neither are the case then we must send an ack so the remote peer can stop
            // resending the packet.
            return if self.will_answer(seq_no) {
                Err(TryRawRecvError::DroppedDuplicate)
            } else {
                Err(TryRawRecvError::DroppedDuplicateResendAck(seq_no))
            };
        } else if is_above_range {
            return Err(TryRawRecvError::DroppedTooEarly);
        }
        // If the send window is full we cannot safely process received packets,
        // because there would be no way to reply.
        // We can only process this packet if processing it would make space in the send window.
        let (wait_recv, wait_reply) = match self.is_full_inner(reply_no) {
            Ok(()) => (seq_cst && !is_next, seq_cst && self.is_locked),
            Err(TryError::WaitingForRecv) => (true, false),
            // As many packets are being processed as replies could be sent to: drop this one.
            Err(TryError::WaitingForReply) => {
                return Err(TryRawRecvError::WaitingForReply);
            },
        };
        if wait_recv || wait_reply {
            if self.can_hold(seq_no) {
                let data = recv_data.into();
                self.recv_window[i] = RecvEntry::Occupied { seq_no, reply_no, seq_cst, data };
                assert(self@ == old(self)@.held(seq_no, reply_no, seq_cst, data));
            }
            return if wait_recv {
                Err(TryRawRecvError::WaitingForRecv)
            } else {
                Err(TryRawRecvError::WaitingForReply)
            };
        }
        let do_pump = if is_next {
            self.recv_window[i] = RecvEntry::Empty;
            self.next_recv_seq_no = seq_no.wrapping_add(1);
            self.fast_forward()
        } else {
            self.recv_window[i] = RecvEntry::Unlocked { seq_no };
            false
        };
        match self.issue(seq_no, reply_no, seq_cst) {
            Some(send_data) => Ok(
                (RecvOkRaw::Reply { reply_no: seq_no, seq_cst, recv_data, send_data }, do_pump),
            ),
            None => Ok((RecvOkRaw::Payload { reply_no: seq_no, seq_cst, recv_data }, do_pump)),
        }
    }

    /// Hands out the next packet, if it waits in the receive window and can be processed now.
    ///
    /// If this returns `Ok` then `try_send_direct` might succeed on next call, and the contained
    /// boolean is true if this function should be called again.
    pub fn try_pump_raw(&mut self) -> (result: Result<
        (RecvOkRaw<SendData, RecvData>, bool),
        TryError,
    >)
        requires
            old(self).wf(),
        ensures
            final(self).wf(),
            pumps(old(self)@, final(self)@, result),
    {
        let next_seq_no: SeqNo = self.next_recv_seq_no;
        let i: usize = next_seq_no as usize % CAP;
        let (reply_no, seq_cst): (Option<SeqNo>, bool) = match &self.recv_window[i] {
            RecvEntry::Occupied { reply_no, seq_cst, .. } => (*reply_no, *seq_cst),
            _ => {
                return Err(TryError::WaitingForRecv);
            },
        };
        // We cannot safely reserve a reply no if the window is full.
        match self.is_full_inner(reply_no) {
            Err(e) => {
                return Err(e);
            },
            Ok(()) => {},
        }
        if seq_cst && self.is_locked {
            return Err(TryError::WaitingForReply);
        }
        let mut entry = RecvEntry::Empty;
        core::mem::swap(&mut entry, &mut self.recv_window[i]);
        match entry {
            RecvEntry::Occupied { seq_no, reply_no, seq_cst, data } => {
                self.next_recv_seq_no = next_seq_no.wrapping_add(1);
                let do_pump = self.fast_forward();
                let ret = match self.issue(seq_no, reply_no, seq_cst) {
                    Some(send_data) => RecvOkRaw::Reply {
                        reply_no: seq_no,
                        seq_cst,
                        recv_data: data,
                        send_data,
                    },
                    None => RecvOkRaw::Payload { reply_no: seq_no, seq_cst, recv_data: data },
                };
                Ok((ret, do_pump))
            },
            _ => Err(TryError::WaitingForRecv),
        }
    }

    /// Sends a reply to the packet that `reply_no` was issued for.
    ///
    /// This function must be passed a reply number given by `receive_raw_and_direct` or
    /// `try_pump_raw`, otherwise it will do nothing. This reply number can only be used to reply
    /// once.
    ///
    /// If you need to reply more than once, say to fragment a large file, then include in your
    /// first reply some identifier, and then send all fragments with the same included identifier.
    /// The identifier will tell the remote peer which packets contain fragments of the file,
    /// and since each fragment will be received in order it will be trivial for them to reconstruct
    /// the original file.
    ///
    /// Can mutate `next_service_timestamp`.
    /// If `unlock` is true and the return value is `Some` pump may return new values.
    #[must_use]
    pub fn reply_raw_and_direct(
        &mut self,
        current_time: i64,
        reply_no: SeqNo,
        unlock: bool,
        seq_cst: bool,
        packet_data: SendData,
    ) -> (packet: Option<Packet<&SendData>>)
        requires
            old(self).wf(),
            old(self)@.replies.count(reply_no) > 0 ==> old(self)@.can_schedule(current_time),
        ensures
            final(self).wf(),
            packet is Some == (old(self)@.replies.count(reply_no) > 0),
            match packet {
                Some(p) => {
                    &&& p.unref() == Packet::with_data(
                        old(self)@.next_send,
                        Some(reply_no),
                        seq_cst,
                        packet_data,
                    )
                    &&& final(self)@ == old(self)@.returned(reply_no, unlock).sent(
                        current_time,
                        Some(reply_no),
                        seq_cst,
                        packet_data,
                    )
                },
                None => final(self)@ == old(self)@,
            },
    {
        if self.remove_reservation(reply_no) {
            if unlock {
                self.is_locked = false;
            }
            assert(self@ == old(self)@.returned(reply_no, unlock));
            Some(self.insert_send(current_time, Some(reply_no), seq_cst, packet_data))
        } else {
            None
        }
    }

    /// Acknowledges the packet that `reply_no` was issued for.
    ///
    /// If `unlock` is true and the return value is `Some` pump may return new values.
    #[must_use]
    pub fn ack_raw_and_direct(&mut self, reply_no: SeqNo, unlock: bool) -> (packet: Option<
        Packet<&SendData>,
    >)
        requires
            old(self).wf(),
        ensures
            final(self).wf(),
            packet is Some == (old(self)@.replies.count(reply_no) > 0),
            match packet {
                Some(p) => {
                    &&& p.unref() == Packet::<SendData>::Ack(reply_no)
                    &&& final(self)@ == old(self)@.returned(reply_no, unlock)
                },
                None => final(self)@ == old(self)@,
            },
    {
        if self.remove_reservation(reply_no) {
            if unlock {
                self.is_locked = false;
            }
            Some(Packet::Ack(reply_no))
        } else {
            None
        }
    }

    /// Ends the critical section in which a SeqCst packet is processed, so that the next one can
    /// be received or pumped.
    pub fn unlock_raw(&mut self)
        requires
            old(self).wf(),
        ensures
            final(self).wf(),
            final(self)@ == old(self)@.unlocked_session(),
    {
        self.is_locked = false;
    }

    /// When something has to be resent next.
    pub fn service_timestamp(&self) -> (timestamp: i64)
        ensures
            timestamp == self@.next_service_timestamp,
    {
        self.next_service_timestamp
    }

    /// How long a packet stays unacknowledged before it is resent.
    pub fn resend_interval(&self) -> (interval: i64)
        ensures
            interval == self@.resend_interval,
    {
        self.resend_interval
    }

    /// Sets how long a packet stays unacknowledged before it is resent. Packets that were sent
    /// before keep the time at which they are resent next.
    pub fn set_resend_interval(&mut self, interval: i64)
        requires
            old(self).wf(),
        ensures
            final(self).wf(),
            final(self)@ == (SeqState { resend_interval: interval, ..old(self)@ }),
    {
        self.resend_interval = interval;
    }

    /// Whether every sent packet has been answered, so that there is nothing to resend.
    pub fn is_idle(&self) -> (idle: bool)
        requires
            self.wf(),
        ensures
            idle == self@.is_idle(),
    {
        let mut i: usize = 0;
        while i < CAP
            invariant
                self.wf(),
                i <= CAP,
                forall|k: int| 0 <= k < i ==> #[trigger] self@.send_window[k] is None,
            decreases CAP - i,
        {
            if self.send_window[i].is_some() {
                assert(self@.send_window[i as int] is Some);
                return false;
            }
            i += 1;
        }
        true
    }

    /// Puts the next service off until something is sent, if there is nothing to resend.
    pub fn settle(&mut self)
        requires
            old(self).wf(),
        ensures
            final(self).wf(),
            final(self)@ == if old(self)@.is_idle() {
                old(self)@.serviced(i64::MAX)
            } else {
                old(self)@
            },
    {
        if self.is_idle() {
            self.next_service_timestamp = i64::MAX;
        }
    }

    /// Returns a packet that has to be resent, or `None` where there is none left.
    ///
    /// To resend everything that is due at `current_time`, call this repeatedly with an `iter`
    /// that is `None` at first, until it returns `None`.
    ///
    /// Can mutate `next_service_timestamp`.
    pub fn service_direct(&mut self, current_time: i64, iter: &mut Option<ServiceIter>) -> (packet:
        Option<Packet<&SendData>>)
        requires
            old(self).wf(),
            old(self)@.next_service_timestamp <= current_time && next_due(
                old(self)@,
                current_time,
                cursor(*old(iter)).0,
            ) is Some ==> old(self)@.can_schedule(current_time),
        ensures
            final(self).wf(),
            ({
                let pre = old(self)@;
                let (idx, next_time) = cursor(*old(iter));
                if pre.next_service_timestamp > current_time {
                    &&& packet is None
                    &&& final(self)@ == pre
                    &&& *final(iter) == *old(iter)
                } else {
                    match next_due(pre, current_time, idx) {
                        Some(k) => {
                            &&& packet is Some
                            &&& packet->0.unref() == packet_of(pre.send_window[k]->0)
                            &&& final(self)@ == pre.resent(k, current_time)
                            &&& *final(iter) is Some
                            &&& cursor(*final(iter)) == (
                                k + 1,
                                min(
                                    min(next_time, earliest(pre.send_window, idx, k)),
                                    pre.resend_time(current_time),
                                ),
                            )
                        },
                        None => {
                            let last = min(next_time, earliest(pre.send_window, idx, CAP as int));
                            &&& packet is None
                            &&& final(self)@ == pre.serviced(last)
                            &&& *final(iter) is Some
                            &&& cursor(*final(iter)) == (
                                if idx < CAP {
                                    CAP as int
                                } else {
                                    idx
                                },
                                last,
                            )
                        },
                    }
                }
            }),
    {
        if self.next_service_timestamp > current_time {
            return None;
        }
        let (start, start_time): (usize, i64) = match iter {
            Some(i) => (i.idx, i.next_time),
            None => (0, i64::MAX),
        };
        let mut idx: usize = start;
        let mut next_time: i64 = start_time;
        while idx < CAP
            invariant
                self.wf(),
                *self == *old(self),
                start <= idx,
                start < CAP ==> idx <= CAP,
                start >= CAP ==> idx == start,
                forall|k: int| start <= k < idx ==> !is_due(self@.send_window, k, current_time),
                next_time == min(start_time, earliest(self@.send_window, start as int, idx as int)),
                cursor(*old(iter)) == (start as int, start_time),
                old(self)@.next_service_timestamp <= current_time,
                next_due(old(self)@, current_time, start as int) is Some ==> old(
                    self,
                )@.can_schedule(current_time),
            decreases CAP - idx,
        {
            let due = match &self.send_window[idx] {
                Some(entry) => entry.next_resend_time <= current_time,
                None => false,
            };
            if due {
                proof {
                    assert(is_due(self@.send_window, idx as int, current_time));
                    lemma_next_due(self@, current_time, start as int, idx as int);
                }
                let next_resend_time: i64 = current_time + self.resend_interval;
                let first: i64 = if next_resend_time < next_time {
                    next_resend_time
                } else {
                    next_time
                };
                *iter = Some(ServiceIter { idx: idx + 1, next_time: first });
                return match &mut self.send_window[idx] {
                    Some(entry) => {
                        entry.next_resend_time = next_resend_time;
                        Some(
                            Packet::new_with_data(
                                entry.seq_no,
                                entry.reply_no,
                                entry.seq_cst,
                                &entry.data,
                            ),
                        )
                    },
                    None => None,
                };
            }
            if let Some(entry) = &self.send_window[idx] {
                if entry.next_resend_time < next_time {
                    next_time = entry.next_resend_time;
                }
            }
            idx += 1;
        }
        *iter = Some(ServiceIter { idx, next_time });
        self.next_service_timestamp = next_time;
        None
    }

    /// Iterates over the data of all packets in the send window.
    pub fn iter(&self) -> (iter: Iter<'_, SendData>)
        requires
            self.wf(),
        ensures
            iter.wf(),
            iter.remaining() == window_data(self@.send_window, 0, CAP as int),
    {
        Iter::new(&self.send_window)
    }

    /// Iterates over the data of all packets in the send window, which can be changed.
    pub fn iter_mut(&mut self) -> (iter: IterMut<'_, SendData>)
        requires
            old(self).wf(),
        ensures
            iter.wf(),
            iter.front() == 0,
            iter.back() == CAP,
            iter.window()@ == old(self)@.send_window,
            final(self)@ == (SeqState {
                send_window: final(iter.window())@,
                ..old(self)@
            }),
    {
        IterMut::new(&mut self.send_window)
    }
}

/// `T::from` of a `T`: "Returns the argument unchanged."
pub assume_specification<Any>[ <Any as core::convert::From<Any>>::from ](t: Any) -> (same: Any)
    ensures
        same == t,
;

/// What `SeqEx::receive_raw_and_direct` does with a packet.
pub open spec fn receives<SendData, RecvData, P: Into<RecvData>>(
    pre: SeqState<SendData, RecvData>,
    packet: Packet<P>,
    post: SeqState<SendData, RecvData>,
    result: Result<(RecvOkRaw<SendData, P>, bool), TryRawRecvError>,
) -> bool {
    match packet.seq_no() {
        None => {
            let r = packet.reply_no()->0;
            let expected: Result<(RecvOkRaw<SendData, P>, bool), TryRawRecvError> =
                match pre.unanswered(r) {
                Some(send_data) => Ok((RecvOkRaw::Ack { send_data }, false)),
                None => Err(TryRawRecvError::DroppedDuplicate),
            };
            &&& post == pre.answered(r)
            &&& result == expected
        },
        Some(s) => {
            let r = packet.reply_no();
            let cst = packet.seq_cst();
            let data = packet.data()->0;
            let verdict = pre.verdict(s, r, cst);
            let expected: Result<(RecvOkRaw<SendData, P>, bool), TryRawRecvError> = match verdict {
                Verdict::Duplicate => Err(TryRawRecvError::DroppedDuplicate),
                Verdict::ResendAck => Err(TryRawRecvError::DroppedDuplicateResendAck(s)),
                Verdict::TooEarly => Err(TryRawRecvError::DroppedTooEarly),
                Verdict::NoRoom => Err(TryRawRecvError::WaitingForReply),
                Verdict::HoldForRecv => Err(TryRawRecvError::WaitingForRecv),
                Verdict::HoldForReply => Err(TryRawRecvError::WaitingForReply),
                Verdict::Deliver => Ok(
                    (
                        RecvOkRaw::handed_out(s, cst, data, pre.answered_data(r)),
                        s == pre.next_recv && post.can_pump(),
                    ),
                ),
            };
            &&& result == expected
            &&& match verdict {
                Verdict::HoldForRecv | Verdict::HoldForReply => holds(pre, s, r, cst, data, post),
                Verdict::Deliver => post == pre.delivered(s, r, cst),
                _ => post == pre,
            }
        },
    }
}

/// What `SeqEx::try_pump_raw` does.
pub open spec fn pumps<SendData, RecvData>(
    pre: SeqState<SendData, RecvData>,
    post: SeqState<SendData, RecvData>,
    result: Result<(RecvOkRaw<SendData, RecvData>, bool), TryError>,
) -> bool {
    match pre.pump_check() {
        Err(e) => {
            let expected: Result<(RecvOkRaw<SendData, RecvData>, bool), TryError> = Err(e);
            &&& post == pre
            &&& result == expected
        },
        Ok(()) => match pre.recv_window[slot(pre.next_recv, pre.cap())] {
            RecvEntry::Occupied { seq_no, reply_no, seq_cst, data } => {
                let expected: Result<(RecvOkRaw<SendData, RecvData>, bool), TryError> = Ok(
                    (
                        RecvOkRaw::handed_out(seq_no, seq_cst, data, pre.answered_data(reply_no)),
                        post.can_pump(),
                    ),
                );
                &&& post == pre.passed().issued(seq_no, reply_no, seq_cst)
                &&& result == expected
            },
            _ => false,
        },
    }
}

/// The packet that `SeqEx::try_pump_raw` hands out, where one can be handed out.
pub open spec fn pumped_packet<SendData, RecvData>(
    state: SeqState<SendData, RecvData>,
) -> RecvOkRaw<SendData, RecvData> {
    match state.recv_window[slot(state.next_recv, state.cap())] {
        RecvEntry::Occupied { seq_no, reply_no, seq_cst, data } => RecvOkRaw::handed_out(
            seq_no,
            seq_cst,
            data,
            state.answered_data(reply_no),
        ),
        _ => arbitrary(),
    }
}

/// The state after `SeqEx::try_pump_raw` has handed a packet out.
pub open spec fn pumped_state<SendData, RecvData>(
    state: SeqState<SendData, RecvData>,
) -> SeqState<SendData, RecvData> {
    match state.recv_window[slot(state.next_recv, state.cap())] {
        RecvEntry::Occupied { seq_no, reply_no, seq_cst, data } => state.passed().issued(
            seq_no,
            reply_no,
            seq_cst,
        ),
        _ => state,
    }
}

/// The smaller of two timestamps.
pub open spec fn min(a: i64, b: i64) -> i64 {
    if b < a {
        b
    } else {
        a
    }
}

/// The slot at which a pass over the send window goes on, and the earliest time at which a packet
/// that it has passed has to be resent.
pub open spec fn cursor(iter: Option<ServiceIter>) -> (int, i64) {
    match iter {
        Some(iter) => iter@,
        None => (0, i64::MAX),
    }
}

/// The first slot from `from` on whose packet has to be resent at time `now`.
pub open spec fn next_due<SendData, RecvData>(
    state: SeqState<SendData, RecvData>,
    now: i64,
    from: int,
) -> Option<int> {
    if exists|k: int| from <= k < state.cap() && is_due(state.send_window, k, now) {
        Some(
            choose|k: int|
                {
                    &&& from <= k < state.cap()
                    &&& is_due(state.send_window, k, now)
                    &&& forall|j: int| from <= j < k ==> !is_due(state.send_window, j, now)
                },
        )
    } else {
        None
    }
}

/// A due slot with no due slot between `from` and it is the first one.
pub proof fn lemma_next_due<SendData, RecvData>(
    state: SeqState<SendData, RecvData>,
    now: i64,
    from: int,
    k: int,
)
    requires
        from <= k < state.cap(),
        is_due(state.send_window, k, now),
        forall|j: int| from <= j < k ==> !is_due(state.send_window, j, now),
    ensures
        next_due(state, now, from) == Some(k),
{
    let first = next_due(state, now, from)->0;
    assert(from <= first < state.cap() && is_due(state.send_window, first, now) && forall|j: int|
        from <= j < first ==> !is_due(state.send_window, j, now));
}

/// Whether `post` is `pre` with the packet saved to the receive window, if its slot was free.
pub open spec fn holds<SendData, RecvData, P: Into<RecvData>>(
    pre: SeqState<SendData, RecvData>,
    seq_no: SeqNo,
    reply_no: Option<SeqNo>,
    seq_cst: bool,
    data: P,
    post: SeqState<SendData, RecvData>,
) -> bool {
    if pre.can_hold(seq_no) {
        exists|d: RecvData|
            #![trigger pre.held(seq_no, reply_no, seq_cst, d)]
            call_ensures(<P as Into<RecvData>>::into, (data,), d) && post == pre.held(
                seq_no,
                reply_no,
                seq_cst,
                d,
            )
    } else {
        post == pre
    }
}

impl<SendData, RecvData, const CAP: usize> Default for SeqEx<SendData, RecvData, CAP> {
    fn default() -> (seq: Self)
        ensures
            1 < CAP <= u32::MAX ==> seq.wf(),
            seq@ == SeqState::<SendData, RecvData>::initial(
                CAP as nat,
                DEFAULT_RESEND_INTERVAL_MS,
                DEFAULT_INITIAL_SEQ_NO,
            ),
    {
        Self::empty(DEFAULT_RESEND_INTERVAL_MS, DEFAULT_INITIAL_SEQ_NO)
    }
}

/// Putting the last item in the place of another removes that other one.
proof fn lemma_swap_remove(s: Seq<SeqNo>, i: int)
    requires
        0 <= i < s.len(),
    ensures
        s.update(i, s.last()).drop_last().to_multiset() == s.to_multiset().remove(s[i]),
{
    let swapped = s.update(i, s.last()).drop_last();
    if i == s.len() - 1 {
        assert(swapped =~= s.remove(i));
    } else {
        let front = s.drop_last();
        assert(swapped =~= front.update(i, s.last()));
        assert(front.update(i, s.last()) =~= front.remove(i).insert(i, s.last()));
        vstd::seq_lib::to_multiset_insert(front.remove(i), i, s.last());
        assert(front.remove(i).push(s.last()) =~= s.remove(i));
        vstd::seq_lib::to_multiset_build(front.remove(i), s.last());
    }
    vstd::seq_lib::to_multiset_remove(s, i);
}

} // verus!
