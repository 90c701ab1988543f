//! A higher level API on top of `seq_queue`, for a session that is used by one thread.
use crate::error::{RecvError, TryError, TryRawRecvError, TryRecvError};
use crate::model::{earliest, is_due, packet_of, SeqState};
use crate::seq_queue::{
    cursor, min, next_due, receives, RecvOkRaw, SendEntry, SeqEx, ServiceIter,
};
use crate::transport_layer::{Packet, SeqNo, TransportLayer};
use vstd::prelude::*;

verus! {

/// Whether a packet can be scheduled at every time that the transport layer may report.
pub open spec fn can_schedule<S, R, TL: TransportLayer<S>>(
    state: SeqState<S, R>,
    tl: TL,
) -> bool {
    forall|t: i64| #[trigger] tl.may_report(t) ==> state.can_schedule(t)
}

/// Whether `post` is `pre` after a packet has been sent at a time that the transport layer may
/// report.
pub open spec fn sent_at_some_time<S, R, TL: TransportLayer<S>>(
    pre: SeqState<S, R>,
    tl: TL,
    reply_no: Option<SeqNo>,
    seq_cst: bool,
    data: S,
    post: SeqState<S, R>,
) -> bool {
    exists|t: i64| #[trigger]
        tl.may_report(t) && post == pre.sent(t, reply_no, seq_cst, data)
}

/// What a successful send does: the packet is added to the send window and handed to the transport
/// layer.
pub open spec fn sends<S, R, TL: TransportLayer<S>>(
    pre: SeqState<S, R>,
    tl: TL,
    seq_cst: bool,
    data: S,
    post: SeqState<S, R>,
    tl_post: TL,
) -> bool {
    &&& sent_at_some_time(pre, tl, None, seq_cst, data, post)
    &&& tl_post.sent() == tl.sent().push(Packet::with_data(pre.next_send, None, seq_cst, data))
}

/// What replying with the reply number `reply_no` does: the number is returned, and the reply is
/// added to the send window and handed to the transport layer. Without such a reservation nothing
/// happens.
pub open spec fn replies<S, R, TL: TransportLayer<S>>(
    pre: SeqState<S, R>,
    tl: TL,
    reply_no: SeqNo,
    unlock: bool,
    seq_cst: bool,
    data: S,
    post: SeqState<S, R>,
    tl_post: TL,
) -> bool {
    if pre.replies.count(reply_no) > 0 {
        &&& sent_at_some_time(
            pre.returned(reply_no, unlock),
            tl,
            Some(reply_no),
            seq_cst,
            data,
            post,
        )
        &&& tl_post.sent() == tl.sent().push(
            Packet::with_data(pre.next_send, Some(reply_no), seq_cst, data),
        )
    } else {
        &&& post == pre
        &&& tl_post.sent() == tl.sent()
    }
}

/// What acknowledging with the reply number `reply_no` does: the number is returned, and an ack is
/// handed to the transport layer. Without such a reservation nothing happens.
pub open spec fn acks<S, R, TL: TransportLayer<S>>(
    pre: SeqState<S, R>,
    tl: TL,
    reply_no: SeqNo,
    unlock: bool,
    post: SeqState<S, R>,
    tl_post: TL,
) -> bool {
    if pre.replies.count(reply_no) > 0 {
        &&& post == pre.returned(reply_no, unlock)
        &&& tl_post.sent() == tl.sent().push(Packet::Ack(reply_no))
    } else {
        &&& post == pre
        &&& tl_post.sent() == tl.sent()
    }
}

/// The error that is left of a failed receive once the ack that it asks for has been resent.
pub open spec fn recv_error(e: TryRawRecvError) -> RecvError {
    match e {
        TryRawRecvError::DroppedTooEarly => RecvError::DroppedTooEarly,
        TryRawRecvError::DroppedDuplicate => RecvError::DroppedDuplicate,
        TryRawRecvError::DroppedDuplicateResendAck(_) => RecvError::DroppedDuplicate,
        TryRawRecvError::WaitingForRecv => RecvError::WaitingForRecv,
        TryRawRecvError::WaitingForReply => RecvError::WaitingForReply,
    }
}

/// What receiving does: an ack is resent where one is asked for, and the result is passed on.
pub open spec fn receives_and_resends<S, R, P: Into<R>, TL: TransportLayer<S>>(
    pre: SeqState<S, R>,
    tl: TL,
    packet: Packet<P>,
    post: SeqState<S, R>,
    tl_post: TL,
    result: Result<(RecvOkRaw<S, P>, bool), RecvError>,
) -> bool {
    exists|raw: Result<(RecvOkRaw<S, P>, bool), TryRawRecvError>|
        {
            &&& #[trigger] receives(pre, packet, post, raw)
            &&& tl_post.sent() == match raw {
                Err(TryRawRecvError::DroppedDuplicateResendAck(s)) => tl.sent().push(
                    Packet::Ack(s),
                ),
                _ => tl.sent(),
            }
            &&& match raw {
                Ok(ok) => result matches Ok(r) && r == ok,
                Err(e) => result matches Err(r) && r == recv_error(e),
            }
        }
}

/// A send window after everything that was due at time `now` has been resent.
pub open spec fn serviced_window<S, R>(state: SeqState<S, R>, now: i64) -> Seq<
    Option<SendEntry<S>>,
> {
    Seq::new(
        state.cap(),
        |i: int|
            if is_due(state.send_window, i, now) {
                Some(
                    SendEntry {
                        next_resend_time: state.resend_time(now),
                        ..state.send_window[i]->0
                    },
                )
            } else {
                state.send_window[i]
            },
    )
}

/// The packets among the first `n` slots of a send window that are due at time `now`, in the order
/// of the slots.
pub open spec fn due_packets<S>(
    window: Seq<Option<SendEntry<S>>>,
    now: i64,
    n: int,
) -> Seq<Packet<S>>
    decreases n,
{
    if n <= 0 {
        Seq::empty()
    } else {
        let rest = due_packets(window, now, n - 1);
        if is_due(window, n - 1, now) {
            rest.push(packet_of(window[n - 1]->0))
        } else {
            rest
        }
    }
}

/// The state after everything that is due at time `now` has been resent, if it is time to.
pub open spec fn after_service<S, R>(state: SeqState<S, R>, now: i64) -> SeqState<S, R> {
    if state.next_service_timestamp <= now {
        let send_window = serviced_window(state, now);
        SeqState {
            send_window,
            next_service_timestamp: earliest(send_window, 0, state.cap() as int),
            ..state
        }
    } else {
        state
    }
}

/// The packets that have to be resent at time `now`.
pub open spec fn to_resend<S, R>(state: SeqState<S, R>, now: i64) -> Seq<Packet<S>> {
    if state.next_service_timestamp <= now {
        due_packets(state.send_window, now, state.cap() as int)
    } else {
        Seq::empty()
    }
}

/// Whether everything that is due at time `now` can be scheduled anew.
pub open spec fn can_service<S, R>(state: SeqState<S, R>, now: i64) -> bool {
    state.next_service_timestamp <= now && next_due(state, now, 0) is Some
        ==> state.can_schedule(now)
}

/// Whether an `i64` can hold the time from `now` until the next service.
pub open spec fn can_wait<S, R>(state: SeqState<S, R>, now: i64) -> bool {
    i64::MIN <= after_service(state, now).next_service_timestamp - now <= i64::MAX
}

impl<SendData, RecvData, const CAP: usize> SeqEx<SendData, RecvData, CAP> {
    /// Sends the given packet to the remote peer and adds it to the send window.
    ///
    /// Can decrease `next_service_timestamp`.
    pub fn try_send<TL: TransportLayer<SendData>>(
        &mut self,
        tl: &mut TL,
        seq_cst: bool,
        packet_data: SendData,
    ) -> (result: Result<(), (TryError, SendData)>)
        requires
            old(self).wf(),
            old(self)@.room(None) is Ok ==> can_schedule(old(self)@, *old(tl)),
        ensures
            final(self).wf(),
            match old(self)@.room(None) {
                Ok(()) => {
                    &&& result is Ok
                    &&& sends(
                        old(self)@,
                        *old(tl),
                        seq_cst,
                        packet_data,
                        final(self)@,
                        *final(tl),
                    )
                },
                Err(e) => {
                    &&& result == Err::<(), (TryError, SendData)>((e, packet_data))
                    &&& final(self)@ == old(self)@
                    &&& final(tl).sent() == old(tl).sent()
                },
            },
    {
        let current_time: i64 = tl.time();
        match self.try_send_direct(current_time, seq_cst, packet_data) {
            Ok(p) => {
                tl.send(p);
                Ok(())
            },
            Err(e) => Err(e),
        }
    }

    /// Similar to `try_send`, except that the provided function is called to produce the data,
    /// once there is room for it. It receives the sequence number of the packet.
    ///
    /// Can decrease `next_service_timestamp`.
    pub fn try_send_with<TL: TransportLayer<SendData>, F: FnOnce(SeqNo) -> SendData>(
        &mut self,
        tl: &mut TL,
        seq_cst: bool,
        packet_data: F,
    ) -> (result: Result<(), (TryError, F)>)
        requires
            old(self).wf(),
            old(self)@.room(None) is Ok ==> {
                &&& can_schedule(old(self)@, *old(tl))
                &&& call_requires(packet_data, (old(self)@.next_send,))
            },
        ensures
            final(self).wf(),
            match old(self)@.room(None) {
                Ok(()) => {
                    &&& result is Ok
                    &&& exists|data: SendData|
                        {
                            &&& #[trigger] call_ensures(
                                packet_data,
                                (old(self)@.next_send,),
                                data,
                            )
                            &&& sends(
                                old(self)@,
                                *old(tl),
                                seq_cst,
                                data,
                                final(self)@,
                                *final(tl),
                            )
                        }
                },
                Err(e) => {
                    &&& result == Err::<(), (TryError, F)>((e, packet_data))
                    &&& final(self)@ == old(self)@
                    &&& final(tl).sent() == old(tl).sent()
                },
            },
    {
        let current_time: i64 = tl.time();
        match self.try_send_direct_with(current_time, seq_cst, packet_data) {
            Ok(p) => {
                tl.send(p);
                Ok(())
            },
            Err(e) => Err(e),
        }
    }

    /// Processes a packet that was received from the remote peer.
    ///
    /// If this returns `Ok` then `try_send` might succeed on next call.
    pub fn receive_raw<P: Into<RecvData>, TL: TransportLayer<SendData>>(
        &mut self,
        tl: &mut TL,
        packet: Packet<P>,
    ) -> (result: Result<(RecvOkRaw<SendData, P>, bool), RecvError>)
        requires
            old(self).wf(),
        ensures
            final(self).wf(),
            receives_and_resends(
                old(self)@,
                *old(tl),
                packet,
                final(self)@,
                *final(tl),
                result,
            ),
    {
        let raw = self.receive_raw_and_direct(packet);
        assert(receives(old(self)@, packet, self@, raw));
        match raw {
            Ok(a) => Ok(a),
            Err(e) => {
                if let TryRawRecvError::DroppedDuplicateResendAck(reply_no) = e {
                    tl.send(Packet::Ack(reply_no));
                }
                Err(RecvError::from(TryRecvError::from(e)))
            },
        }
    }

    /// Sends a reply to the packet that `reply_no` was issued for.
    ///
    /// Can decrease `next_service_timestamp`.
    /// If `unlock` is true and the return value is true pump may return new values.
    ///
    /// Only returns false if the reply number was incorrect or used twice.
    pub fn reply_raw<TL: TransportLayer<SendData>>(
        &mut self,
        tl: &mut TL,
        reply_no: SeqNo,
        unlock: bool,
        seq_cst: bool,
        packet_data: SendData,
    ) -> (replied: bool)
        requires
            old(self).wf(),
            old(self)@.replies.count(reply_no) > 0 ==> can_schedule(old(self)@, *old(tl)),
        ensures
            final(self).wf(),
            replied == (old(self)@.replies.count(reply_no) > 0),
            replies(
                old(self)@,
                *old(tl),
                reply_no,
                unlock,
                seq_cst,
                packet_data,
                final(self)@,
                *final(tl),
            ),
    {
        let current_time: i64 = tl.time();
        match self.reply_raw_and_direct(current_time, reply_no, unlock, seq_cst, packet_data) {
            Some(p) => {
                tl.send(p);
                true
            },
            None => false,
        }
    }

    /// Acknowledges the packet that `reply_no` was issued for.
    ///
    /// If `unlock` is true and the return value is true pump may return new values.
    pub fn ack_raw<TL: TransportLayer<SendData>>(
        &mut self,
        tl: &mut TL,
        reply_no: SeqNo,
        unlock: bool,
    ) -> (acked: bool)
        requires
            old(self).wf(),
        ensures
            final(self).wf(),
            acked == (old(self)@.replies.count(reply_no) > 0),
            acks(old(self)@, *old(tl), reply_no, unlock, final(self)@, *final(tl)),
    {
        match self.ack_raw_and_direct(reply_no, unlock) {
            Some(p) => {
                tl.send(p);
                true
            },
            None => false,
        }
    }

    /// Resends everything that is due at `current_time`.
    pub fn resend_due<TL: TransportLayer<SendData>>(&mut self, tl: &mut TL, current_time: i64)
        requires
            old(self).wf(),
            can_service(old(self)@, current_time),
        ensures
            final(self).wf(),
            final(self)@ == after_service(old(self)@, current_time),
            final(tl).sent() == old(tl).sent() + to_resend(old(self)@, current_time),
    {
        let mut iter: Option<ServiceIter> = None;
        let ghost pre = old(self)@;
        let ghost mut done: int = 0;
        assert(pre.send_window =~= partly_serviced(pre, current_time, 0));
        assert(old(tl).sent() + due_packets(pre.send_window, current_time, 0) =~= old(tl).sent());
        loop
            invariant
                self.wf(),
                pre == old(self)@,
                pre.wf(),
                pre.cap() == CAP,
                can_service(pre, current_time),
                0 <= done <= CAP,
                done > 0 ==> iter is Some,
                cursor(iter).0 == done,
                self@ == (SeqState {
                    send_window: partly_serviced(pre, current_time, done),
                    ..pre
                }),
                cursor(iter).1 == earliest(self@.send_window, 0, done),
                pre.next_service_timestamp > current_time ==> done == 0,
                tl.sent() == old(tl).sent() + due_packets(pre.send_window, current_time, done),
            decreases CAP - done,
        {
            proof {
                lemma_partly_serviced(pre, current_time, done);
            }
            match self.service_direct(current_time, &mut iter) {
                Some(p) => {
                    tl.send(p);
                    proof {
                        let k = next_due(pre, current_time, done)->0;
                        lemma_service_step(pre, current_time, done);
                        done = k + 1;
                    }
                },
                None => {
                    proof {
                        if pre.next_service_timestamp <= current_time {
                            lemma_service_end(pre, current_time, done);
                        }
                    }
                    return ;
                },
            }
        }
    }

    /// Resends everything that is due, and returns how long to wait until calling this again.
    ///
    /// Can increase `next_service_timestamp`.
    pub fn service<TL: TransportLayer<SendData>>(&mut self, tl: &mut TL) -> (wait: i64)
        requires
            old(self).wf(),
            forall|t: i64| #[trigger]
                old(tl).may_report(t) ==> can_service(old(self)@, t) && can_wait(old(self)@, t),
        ensures
            final(self).wf(),
            exists|t: i64| #[trigger]
                old(tl).may_report(t) && {
                    &&& final(self)@ == after_service(old(self)@, t)
                    &&& final(tl).sent() == old(tl).sent() + to_resend(old(self)@, t)
                    &&& wait == min(
                        final(self)@.resend_interval,
                        (final(self)@.next_service_timestamp - t) as i64,
                    )
                },
    {
        let current_time: i64 = tl.time();
        self.resend_due(tl, current_time);
        let rest: i64 = self.service_timestamp() - current_time;
        let interval: i64 = self.resend_interval();
        if rest < interval {
            rest
        } else {
            interval
        }
    }
}

/// A send window of which the first `n` slots have been gone over at time `now`.
pub open spec fn partly_serviced<S, R>(state: SeqState<S, R>, now: i64, n: int) -> Seq<
    Option<SendEntry<S>>,
> {
    Seq::new(
        state.cap(),
        |i: int|
            if i < n {
                serviced_window(state, now)[i]
            } else {
                state.send_window[i]
            },
    )
}

/// Going over the first slots of a send window does not change what is due in the others.
proof fn lemma_partly_serviced<S, R>(state: SeqState<S, R>, now: i64, n: int)
    requires
        0 <= n <= state.cap(),
    ensures
        next_due(state, now, n) == next_due(
            SeqState { send_window: partly_serviced(state, now, n), ..state },
            now,
            n,
        ),
        next_due(state, now, n) is Some ==> next_due(state, now, 0) is Some,
{
    let partly = SeqState { send_window: partly_serviced(state, now, n), ..state };
    assert forall|k: int| n <= k < state.cap() implies is_due(state.send_window, k, now)
        == is_due(partly.send_window, k, now) by {}
    if let Some(k) = next_due(state, now, n) {
        lemma_first_due(state, now, n);
        crate::seq_queue::lemma_next_due(partly, now, n, k);
        assert(is_due(state.send_window, k, now));
    }
}

/// What resending the first due packet from slot `n` on does.
proof fn lemma_service_step<S, R>(state: SeqState<S, R>, now: i64, n: int)
    requires
        0 <= n <= state.cap(),
        next_due(state, now, n) is Some,
    ensures
        ({
            let k = next_due(state, now, n)->0;
            let before = SeqState { send_window: partly_serviced(state, now, n), ..state };
            let after = partly_serviced(state, now, k + 1);
            &&& n <= k < state.cap()
            &&& before.send_window[k] == state.send_window[k]
            &&& before.resent(k, now).send_window == after
            &&& earliest(after, 0, k + 1) == min(
                min(
                    earliest(before.send_window, 0, n),
                    earliest(before.send_window, n, k),
                ),
                state.resend_time(now),
            )
            &&& due_packets(state.send_window, now, k + 1) == due_packets(
                state.send_window,
                now,
                n,
            ).push(packet_of(state.send_window[k]->0))
        }),
{
    let k = next_due(state, now, n)->0;
    lemma_first_due(state, now, n);
    lemma_due_gap(state, now, n, k);
    let before = SeqState { send_window: partly_serviced(state, now, n), ..state };
    let after = partly_serviced(state, now, k + 1);
    assert(before.resent(k, now).send_window =~= after);
    lemma_earliest_step(before.send_window, after, n, k);
}

/// What is left where nothing from slot `n` on is due.
proof fn lemma_service_end<S, R>(state: SeqState<S, R>, now: i64, n: int)
    requires
        0 <= n <= state.cap(),
        next_due(state, now, n) is None,
    ensures
        ({
            let partly = partly_serviced(state, now, n);
            let cap = state.cap() as int;
            &&& partly == serviced_window(state, now)
            &&& earliest(partly, 0, cap) == min(earliest(partly, 0, n), earliest(partly, n, cap))
            &&& due_packets(state.send_window, now, cap) == due_packets(state.send_window, now, n)
        }),
{
    lemma_due_gap(state, now, n, state.cap() as int);
    assert(partly_serviced(state, now, n) =~= serviced_window(state, now));
    lemma_earliest_split(partly_serviced(state, now, n), n, state.cap() as int);
}

/// Where a slot is due there is a first one.
pub(crate) proof fn lemma_first_due<S, R>(state: SeqState<S, R>, now: i64, from: int)
    requires
        next_due(state, now, from) is Some,
    ensures
        ({
            let k = next_due(state, now, from)->0;
            &&& from <= k < state.cap()
            &&& is_due(state.send_window, k, now)
            &&& forall|j: int| from <= j < k ==> !is_due(state.send_window, j, now)
        }),
{
    let k = choose|k: int| from <= k < state.cap() && is_due(state.send_window, k, now);
    lemma_least_due(state, now, from, k);
}

proof fn lemma_least_due<S, R>(state: SeqState<S, R>, now: i64, from: int, k: int)
    requires
        from <= k < state.cap(),
        is_due(state.send_window, k, now),
    ensures
        exists|i: int|
            {
                &&& from <= i < state.cap()
                &&& is_due(state.send_window, i, now)
                &&& forall|j: int| from <= j < i ==> !is_due(state.send_window, j, now)
            },
    decreases k - from,
{
    if exists|j: int| from <= j < k && is_due(state.send_window, j, now) {
        let j = choose|j: int| from <= j < k && is_due(state.send_window, j, now);
        lemma_least_due(state, now, from, j);
    }
}

/// Nothing is resent from a range of slots in which nothing is due.
proof fn lemma_due_gap<S, R>(state: SeqState<S, R>, now: i64, lo: int, hi: int)
    requires
        0 <= lo <= hi <= state.cap(),
        match next_due(state, now, lo) {
            Some(k) => k == hi,
            None => hi == state.cap(),
        },
    ensures
        forall|j: int| lo <= j < hi ==> !is_due(state.send_window, j, now),
        due_packets(state.send_window, now, hi) == due_packets(state.send_window, now, lo),
        hi < state.cap() ==> is_due(state.send_window, hi, now) && due_packets(
            state.send_window,
            now,
            hi + 1,
        ) == due_packets(state.send_window, now, lo).push(packet_of(state.send_window[hi]->0)),
{
    if next_due(state, now, lo) is Some {
        lemma_first_due(state, now, lo);
    }
    lemma_due_gap_packets(state.send_window, now, lo, hi);
}

proof fn lemma_due_gap_packets<S>(window: Seq<Option<SendEntry<S>>>, now: i64, lo: int, hi: int)
    requires
        0 <= lo <= hi,
        forall|j: int| lo <= j < hi ==> !is_due(window, j, now),
    ensures
        due_packets(window, now, hi) == due_packets(window, now, lo),
    decreases hi - lo,
{
    if lo < hi {
        lemma_due_gap_packets(window, now, lo, hi - 1);
    }
}

/// The earliest time in a window is the earlier one of its two parts.
pub proof fn lemma_earliest_split<S>(window: Seq<Option<SendEntry<S>>>, mid: int, hi: int)
    requires
        0 <= mid <= hi,
    ensures
        earliest(window, 0, hi) == min(earliest(window, 0, mid), earliest(window, mid, hi)),
    decreases hi - mid,
{
    if mid < hi {
        lemma_earliest_split(window, mid, hi - 1);
    }
}

/// The earliest time depends on nothing but the slots that it speaks of.
pub proof fn lemma_earliest_same<S>(
    a: Seq<Option<SendEntry<S>>>,
    b: Seq<Option<SendEntry<S>>>,
    lo: int,
    hi: int,
)
    requires
        forall|i: int| lo <= i < hi ==> a[i] == b[i],
    ensures
        earliest(a, lo, hi) == earliest(b, lo, hi),
    decreases hi - lo,
{
    if lo < hi {
        lemma_earliest_same(a, b, lo, hi - 1);
    }
}

/// The earliest time after a slot behind a gap has been resent.
proof fn lemma_earliest_step<S>(
    before: Seq<Option<SendEntry<S>>>,
    after: Seq<Option<SendEntry<S>>>,
    lo: int,
    k: int,
)
    requires
        0 <= lo <= k < before.len(),
        after.len() == before.len(),
        forall|i: int| 0 <= i < k ==> before[i] == after[i],
        after[k] is Some,
    ensures
        earliest(after, 0, k + 1) == min(
            min(earliest(before, 0, lo), earliest(before, lo, k)),
            after[k]->0.next_resend_time,
        ),
{
    lemma_earliest_split(before, lo, k);
    lemma_earliest_same(before, after, 0, k);
}

} // verus!
