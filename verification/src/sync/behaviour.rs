//! What a session that several threads share does, told by nothing but numbers, windows, packets
//! and who waits.
use super::guard::{ReplyGuard, SeqCstGuard};
use super::recv::{IterStep, PumpStep, ReceiveStep, RecvIter, RecvOk};
use super::send::{sends_now, sends_produced, SendStep};
use super::shared::{Shared, WaitOn, Wake};
use super::timed::TimedSendStep;
use super::{ClosedError, SeqEx, TrySendError};
use super::{RecvError as SharedRecvError, TryRecvError};
use crate::behaviour::layered::{gives_ack, gives_reply, is_sent_in_time, takes_in_and_tells};
use crate::behaviour::layered::{lemma_gives_reply, lemma_sent_in_time, lemma_takes_in_and_tells};
use crate::behaviour::resending::{is_resent, is_serviced, lemma_resent, lemma_serviced};
use crate::behaviour::{awaits, has_room, lemma_room, lemma_takes_next, made, takes_next};
use crate::error::{RecvError, TryError};
use crate::model::SeqState;
use crate::seq_queue::{pumps, RecvOkRaw};
use crate::single_thread::{after_service, receives_and_resends, replies, to_resend};
use crate::transport_layer::{Packet, SeqNo, TransportLayer};
use vstd::prelude::*;

verus! {

// ---- words ----

/// Whether the same threads wait, for the same things, and the session is as open as before.
pub open spec fn same_threads<S, R>(a: Shared<S, R>, b: Shared<S, R>) -> bool {
    &&& b.recv_waiters == a.recv_waiters
    &&& b.reply_sender_waiters == a.reply_sender_waiters
    &&& b.reply_receiver_waiters == a.reply_receiver_waiters
    &&& b.closed == a.closed
}

/// Whether one of the threads that wait for a packet to be received is woken, if there is any.
pub open spec fn wakes_one_on_recv<S, R>(a: Shared<S, R>, wake: Wake) -> bool {
    &&& a.recv_waiters > 0 ==> wake is OneOnRecv
    &&& a.recv_waiters == 0 ==> wake is Nobody
}

/// Whether all of the threads that wait for a reply to be finished are woken, if there are any,
/// and no sender waits for that any more.
pub open spec fn wakes_all_on_reply<S, R>(a: Shared<S, R>, b: Shared<S, R>, wake: Wake) -> bool {
    &&& wake is AllOnReply <==> a.reply_sender_waiters || a.reply_receiver_waiters
    &&& wake is Nobody <==> !a.reply_sender_waiters && !a.reply_receiver_waiters
    &&& !b.reply_sender_waiters
    &&& b.reply_receiver_waiters == a.reply_receiver_waiters
    &&& b.recv_waiters == a.recv_waiters
    &&& b.closed == a.closed
}

/// Whether the new service time is told if and only if it is earlier than the old one.
pub open spec fn tells_earlier_time(before: i64, after: i64, update: Option<i64>) -> bool {
    &&& update is Some <==> after < before
    &&& update matches Some(t) ==> t == after
}

/// Whether a packet has been sent.
pub open spec fn is_sent_now<S, R, TL: TransportLayer<S>>(
    a: Shared<S, R>,
    tl: TL,
    seq_cst: bool,
    data: S,
    b: Shared<S, R>,
    tl_after: TL,
    update: Option<i64>,
) -> bool {
    &&& is_sent_in_time(a.seq, tl, None, seq_cst, data, b.seq)
    &&& b.seq.replies == a.seq.replies
    &&& b.seq.locked == a.seq.locked
    &&& same_threads(a, b)
    &&& tl_after.sent() == tl.sent().push(made(a.seq.next_send, None, seq_cst, data))
    &&& tells_earlier_time(
        a.seq.next_service_timestamp,
        b.seq.next_service_timestamp,
        update,
    )
}

/// Whether data has been produced for the next number, and sent.
pub open spec fn is_produced_now<S, R, TL: TransportLayer<S>, F: FnOnce(SeqNo) -> S>(
    a: Shared<S, R>,
    tl: TL,
    seq_cst: bool,
    f: F,
    b: Shared<S, R>,
    tl_after: TL,
    update: Option<i64>,
) -> bool {
    exists|data: S|
        {
            &&& #[trigger] call_ensures(f, (a.seq.next_send,), data)
            &&& is_sent_now(a, tl, seq_cst, data, b, tl_after, update)
        }
}

/// Whether a thread has begun to wait, for what a packet without room has to wait for.
pub open spec fn begins_to_wait<S, R>(a: Shared<S, R>, on: WaitOn, b: Shared<S, R>) -> bool {
    &&& b.seq == a.seq
    &&& b.closed == a.closed
    &&& b.reply_receiver_waiters == a.reply_receiver_waiters
    &&& match awaits(a.seq, None) {
        TryError::WaitingForRecv => {
            &&& on is Recv
            &&& b.recv_waiters == a.recv_waiters + 1
            &&& b.reply_sender_waiters == a.reply_sender_waiters
        },
        TryError::WaitingForReply => {
            &&& on is Reply
            &&& b.recv_waiters == a.recv_waiters
            &&& b.reply_sender_waiters
        },
    }
}

/// The same session once a thread has stopped to wait.
pub open spec fn without_waiter<S, R>(a: Shared<S, R>, waited: WaitOn) -> Shared<S, R> {
    Shared {
        recv_waiters: if waited is Recv {
            (a.recv_waiters - 1) as nat
        } else {
            a.recv_waiters
        },
        ..a
    }
}

/// Whether what is handed out is what came out, with a guard for its number that holds the lock if
/// and only if the packet is SeqCst.
pub open spec fn is_guarding<S, R>(ok: RecvOk<S, R>, raw: RecvOkRaw<S, R>) -> bool {
    match (ok, raw) {
        (
            RecvOk::Payload { reply_guard, recv_data },
            RecvOkRaw::Payload { reply_no, seq_cst, recv_data: d },
        ) => {
            &&& recv_data == d
            &&& reply_guard.reply_no() == reply_no
            &&& reply_guard.holds_lock() == seq_cst
        },
        (
            RecvOk::Reply { reply_guard, recv_data, send_data },
            RecvOkRaw::Reply { reply_no, seq_cst, recv_data: d, send_data: s },
        ) => {
            &&& recv_data == d
            &&& send_data == s
            &&& reply_guard.reply_no() == reply_no
            &&& reply_guard.holds_lock() == seq_cst
        },
        (RecvOk::Ack { send_data }, RecvOkRaw::Ack { send_data: s }) => send_data == s,
        _ => false,
    }
}

/// What receiving a packet does, whom it wakes, and what it returns.
pub open spec fn takes_in_shared<S, R, TL: TransportLayer<S>>(
    a: Shared<S, R>,
    tl: TL,
    packet: Packet<R>,
    b: Shared<S, R>,
    tl_after: TL,
    result: Result<(RecvOk<S, R>, bool), TryRecvError>,
    wake: Wake,
) -> bool {
    &&& same_threads(a, b)
    &&& result is Ok ==> wakes_one_on_recv(a, wake)
    &&& result is Err ==> wake is Nobody
    &&& a.closed ==> {
        &&& result matches Err(e)
        &&& e is Closed
        &&& b.seq == a.seq
        &&& tl_after.sent() == tl.sent()
    }
    &&& !a.closed ==> exists|raw: Result<(RecvOkRaw<S, R>, bool), RecvError>|
        {
            &&& #[trigger] takes_in_and_tells(a.seq, tl, packet, b.seq, tl_after, raw)
            &&& match raw {
                Ok((r, more)) => {
                    &&& result matches Ok((ok, m))
                    &&& is_guarding(ok, r)
                    &&& m == more
                },
                Err(RecvError::WaitingForReply) => result matches Err(e) && e is WaitingForReply,
                Err(RecvError::Closed) => result matches Err(e) && e is Closed,
                Err(_) => result matches Err(e) && e is OutOfSequence,
            }
        }
}

/// What pumping does, whom it wakes, and what it returns.
pub open spec fn takes_next_shared<S, R>(
    a: Shared<S, R>,
    b: Shared<S, R>,
    result: Result<(RecvOk<S, R>, bool), TryError>,
    wake: Wake,
) -> bool {
    &&& same_threads(a, b)
    &&& result is Ok ==> wakes_one_on_recv(a, wake)
    &&& result is Err ==> wake is Nobody
    &&& exists|raw: Result<(RecvOkRaw<S, R>, bool), TryError>|
        {
            &&& #[trigger] takes_next(a.seq, b.seq, raw)
            &&& match raw {
                Ok((r, more)) => {
                    &&& result matches Ok((ok, m))
                    &&& is_guarding(ok, r)
                    &&& m == more
                },
                Err(e) => result matches Err(f) && f == e,
            }
        }
}

/// What an attempt to pump does that waits where a reply has to be finished first.
pub open spec fn pumps_or_waits<S, R>(
    a: Shared<S, R>,
    b: Shared<S, R>,
    step: PumpStep<S, R>,
    wake: Wake,
) -> bool {
    match step {
        PumpStep::Done(Some(ok)) => takes_next_shared(a, b, Ok(ok), wake),
        PumpStep::Done(None) => {
            &&& wake is Nobody
            &&& b == a
            &&& takes_next_shared(a, b, Err(TryError::WaitingForRecv), wake)
        },
        PumpStep::Wait => {
            &&& wake is Nobody
            &&& b == (Shared { reply_receiver_waiters: true, ..a })
            &&& takes_next_shared(a, a, Err(TryError::WaitingForReply), wake)
        },
    }
}

proof fn lemma_sent_now<S, R, TL: TransportLayer<S>>(
    a: Shared<S, R>,
    tl: TL,
    seq_cst: bool,
    data: S,
    b: Shared<S, R>,
    tl_after: TL,
    update: Option<i64>,
)
    requires
        a.seq.wf(),
        forall|t: i64| #[trigger]
            tl.may_report(t) ==> i64::MIN <= t + a.seq.resend_interval <= i64::MAX,
        sends_now(a, tl, seq_cst, data, b, tl_after, update),
    ensures
        is_sent_now(a, tl, seq_cst, data, b, tl_after, update),
{
    lemma_sent_in_time(a.seq, a.seq, tl, None, seq_cst, data, b.seq);
}

proof fn lemma_produced_now<S, R, TL: TransportLayer<S>, F: FnOnce(SeqNo) -> S>(
    a: Shared<S, R>,
    tl: TL,
    seq_cst: bool,
    f: F,
    b: Shared<S, R>,
    tl_after: TL,
    update: Option<i64>,
)
    requires
        a.seq.wf(),
        forall|t: i64| #[trigger]
            tl.may_report(t) ==> i64::MIN <= t + a.seq.resend_interval <= i64::MAX,
        sends_produced(a, tl, seq_cst, f, b, tl_after, update),
    ensures
        is_produced_now(a, tl, seq_cst, f, b, tl_after, update),
{
    let data = choose|data: S|
        {
            &&& #[trigger] call_ensures(f, (a.seq.next_send,), data)
            &&& sends_now(a, tl, seq_cst, data, b, tl_after, update)
        };
    lemma_sent_now(a, tl, seq_cst, data, b, tl_after, update);
    assert(call_ensures(f, (a.seq.next_send,), data));
}

proof fn lemma_takes_in_shared<S, R, TL: TransportLayer<S>>(
    a: Shared<S, R>,
    tl: TL,
    packet: Packet<R>,
    b: Shared<S, R>,
    tl_after: TL,
    result: Result<(RecvOk<S, R>, bool), TryRecvError>,
    wake: Wake,
)
    requires
        a.seq.wf(),
        super::recv::tries_to_receive(a, tl, packet, b, tl_after, result, wake),
    ensures
        takes_in_shared(a, tl, packet, b, tl_after, result, wake),
{
    if !a.closed {
        let raw = choose|raw: Result<(RecvOkRaw<S, R>, bool), RecvError>|
            {
                &&& #[trigger] receives_and_resends(a.seq, tl, packet, b.seq, tl_after, raw)
                &&& b == a.with_seq(b.seq)
                &&& match raw {
                    Ok((r, do_pump)) => {
                        &&& result is Ok
                        &&& result->Ok_0.0.is_guarded(r)
                        &&& result->Ok_0.1 == do_pump
                        &&& wake == a.wake_recv()
                    },
                    Err(e) => {
                        &&& result is Err && result->Err_0 == super::recv::try_recv_error(e)
                        &&& wake == Wake::Nobody
                    },
                }
            };
        lemma_takes_in_and_tells(a.seq, tl, packet, b.seq, tl_after, raw);
    }
}

proof fn lemma_takes_next_shared<S, R>(
    a: Shared<S, R>,
    b: Shared<S, R>,
    result: Result<(RecvOk<S, R>, bool), TryError>,
    wake: Wake,
)
    requires
        a.seq.wf(),
        super::recv::tries_to_pump(a, b, result, wake),
    ensures
        takes_next_shared(a, b, result, wake),
{
    let raw = choose|raw: Result<(RecvOkRaw<S, R>, bool), TryError>|
        {
            &&& #[trigger] pumps(a.seq, b.seq, raw)
            &&& b == a.with_seq(b.seq)
            &&& match raw {
                Ok((r, do_pump)) => {
                    &&& result is Ok
                    &&& result->Ok_0.0.is_guarded(r)
                    &&& result->Ok_0.1 == do_pump
                    &&& wake == a.wake_recv()
                },
                Err(e) => {
                    &&& result is Err && result->Err_0 == e
                    &&& wake == Wake::Nobody
                },
            }
        };
    lemma_takes_next(a.seq, b.seq, raw);
}

proof fn lemma_pumps_or_waits<S, R>(
    a: Shared<S, R>,
    b: Shared<S, R>,
    step: PumpStep<S, R>,
    wake: Wake,
)
    requires
        a.seq.wf(),
        super::recv::pump_attempt(a, b, step, wake),
    ensures
        pumps_or_waits(a, b, step, wake),
{
    match a.seq.pump_check() {
        Ok(()) => {
            let ok = (step->Done_0)->0;
            lemma_takes_next_shared(a, b, Ok(ok), wake);
        },
        Err(e) => {
            let raw: Result<(RecvOkRaw<S, R>, bool), TryError> = Err(e);
            assert(pumps(a.seq, a.seq, raw));
            lemma_takes_next(a.seq, a.seq, raw);
        },
    }
}

// ---- receiving and pumping ----

/// Whenever receiving a packet succeeds while at least one sender waits for a packet to be
/// received, however many wait, the call says to wake one of them. It wakes nobody where none
/// waits, or where receiving fails.
pub proof fn receiving_wakes_one<S, R, TL: TransportLayer<S>, const CAP: usize>(
    seq: &mut SeqEx<S, R, CAP>,
    tl: &mut TL,
    packet: Packet<R>,
    out: (Result<(RecvOk<S, R>, bool), TryRecvError>, Wake),
)
    requires
        old(seq).wf(),
        call_ensures(SeqEx::<S, R, CAP>::try_receive::<TL>, (seq, tl, packet), out),
    ensures
        out.0 is Ok && old(seq)@.recv_waiters > 0 ==> out.1 == Wake::OneOnRecv,
        out.0 is Ok && old(seq)@.recv_waiters == 0 ==> out.1 == Wake::Nobody,
        out.0 is Err ==> out.1 == Wake::Nobody,
{
}

/// The same holds of pumping.
pub proof fn pumping_wakes_one<S, R, const CAP: usize>(
    seq: &mut SeqEx<S, R, CAP>,
    out: (Result<(RecvOk<S, R>, bool), TryError>, Wake),
)
    requires
        old(seq).wf(),
        call_ensures(SeqEx::<S, R, CAP>::try_pump, (seq,), out),
    ensures
        out.0 is Ok && old(seq)@.recv_waiters > 0 ==> out.1 == Wake::OneOnRecv,
        out.0 is Ok && old(seq)@.recv_waiters == 0 ==> out.1 == Wake::Nobody,
        out.0 is Err ==> out.1 == Wake::Nobody,
{
}

/// The same holds of receiving where the thread may have to pump.
pub proof fn receiving_step_wakes_one<S, R, TL: TransportLayer<S>, const CAP: usize>(
    seq: &mut SeqEx<S, R, CAP>,
    tl: &mut TL,
    packet: Packet<R>,
    out: (ReceiveStep<S, R>, Wake),
)
    requires
        old(seq).wf(),
        call_ensures(SeqEx::<S, R, CAP>::receive::<TL>, (seq, tl, packet), out),
    ensures
        (out.0 matches ReceiveStep::Done(Ok(_))) && old(seq)@.recv_waiters > 0 ==> out.1
            == Wake::OneOnRecv,
        (out.0 matches ReceiveStep::Done(Ok(_))) && old(seq)@.recv_waiters == 0 ==> out.1
            == Wake::Nobody,
        !((out.0 matches ReceiveStep::Done(Ok(_)))) ==> out.1 == Wake::Nobody,
{
}

/// The same holds of pumping where the thread may have to wait.
pub proof fn pumping_step_wakes_one<S, R, const CAP: usize>(
    seq: &mut SeqEx<S, R, CAP>,
    out: (PumpStep<S, R>, Wake),
)
    requires
        old(seq).wf(),
        call_ensures(SeqEx::<S, R, CAP>::pump, (seq,), out),
    ensures
        (out.0 matches PumpStep::Done(Some(_))) && old(seq)@.recv_waiters > 0 ==> out.1
            == Wake::OneOnRecv,
        (out.0 matches PumpStep::Done(Some(_))) && old(seq)@.recv_waiters == 0 ==> out.1
            == Wake::Nobody,
        !((out.0 matches PumpStep::Done(Some(_)))) ==> out.1 == Wake::Nobody,
{
}

/// The same holds of pumping after the thread has waited.
pub proof fn pumping_again_wakes_one<S, R, const CAP: usize>(
    seq: &mut SeqEx<S, R, CAP>,
    out: (PumpStep<S, R>, Wake),
)
    requires
        old(seq).wf(),
        call_ensures(SeqEx::<S, R, CAP>::pump_again, (seq,), out),
    ensures
        (out.0 matches PumpStep::Done(Some(_))) && old(seq)@.recv_waiters > 0 ==> out.1
            == Wake::OneOnRecv,
        (out.0 matches PumpStep::Done(Some(_))) && old(seq)@.recv_waiters == 0 ==> out.1
            == Wake::Nobody,
        !((out.0 matches PumpStep::Done(Some(_)))) ==> out.1 == Wake::Nobody,
{
}

/// Trying to receive a packet does what is said of any packet that comes in, unless the session is
/// closed.
pub proof fn trying_to_receive_takes_in<S, R, TL: TransportLayer<S>, const CAP: usize>(
    seq: &mut SeqEx<S, R, CAP>,
    tl: &mut TL,
    packet: Packet<R>,
    out: (Result<(RecvOk<S, R>, bool), TryRecvError>, Wake),
)
    requires
        old(seq).wf(),
        call_ensures(SeqEx::<S, R, CAP>::try_receive::<TL>, (seq, tl, packet), out),
    ensures
        takes_in_shared(old(seq)@, *old(tl), packet, final(seq)@, *final(tl), out.0, out.1),
{
    lemma_takes_in_shared(
        old(seq)@,
        *old(tl),
        packet,
        final(seq)@,
        *final(tl),
        out.0,
        out.1,
    );
}

/// Receiving does the same. Where a packet has to wait for a reply, the thread should pump.
pub proof fn receiving_takes_in<S, R, TL: TransportLayer<S>, const CAP: usize>(
    seq: &mut SeqEx<S, R, CAP>,
    tl: &mut TL,
    packet: Packet<R>,
    out: (ReceiveStep<S, R>, Wake),
)
    requires
        old(seq).wf(),
        call_ensures(SeqEx::<S, R, CAP>::receive::<TL>, (seq, tl, packet), out),
    ensures
        exists|result: Result<(RecvOk<S, R>, bool), TryRecvError>|
            {
                &&& #[trigger] takes_in_shared(
                    old(seq)@,
                    *old(tl),
                    packet,
                    final(seq)@,
                    *final(tl),
                    result,
                    out.1,
                )
                &&& match (out.0, result) {
                    (ReceiveStep::Done(Ok(a)), Ok(b)) => a == b,
                    (ReceiveStep::Pump, Err(e)) => e is WaitingForReply,
                    (ReceiveStep::Done(Err(SharedRecvError::OutOfSequence)), Err(e)) => e
                        is OutOfSequence,
                    (ReceiveStep::Done(Err(SharedRecvError::Closed)), Err(e)) => e is Closed,
                    _ => false,
                }
            },
{
    assert forall|result: Result<(RecvOk<S, R>, bool), TryRecvError>| #[trigger]
        super::recv::tries_to_receive(
            old(seq)@,
            *old(tl),
            packet,
            final(seq)@,
            *final(tl),
            result,
            out.1,
        ) implies takes_in_shared(
        old(seq)@,
        *old(tl),
        packet,
        final(seq)@,
        *final(tl),
        result,
        out.1,
    ) by {
        lemma_takes_in_shared(
            old(seq)@,
            *old(tl),
            packet,
            final(seq)@,
            *final(tl),
            result,
            out.1,
        );
    }
}

/// Trying to pump does what is said of the next packet.
pub proof fn trying_to_pump_takes_next<S, R, const CAP: usize>(
    seq: &mut SeqEx<S, R, CAP>,
    out: (Result<(RecvOk<S, R>, bool), TryError>, Wake),
)
    requires
        old(seq).wf(),
        call_ensures(SeqEx::<S, R, CAP>::try_pump, (seq,), out),
    ensures
        takes_next_shared(old(seq)@, final(seq)@, out.0, out.1),
{
    lemma_takes_next_shared(old(seq)@, final(seq)@, out.0, out.1);
}

/// Pumping does the same, and waits where a reply has to be finished first. Where another thread
/// waits for that already, there is nothing to do.
pub proof fn one_thread_waits_to_pump<S, R, const CAP: usize>(
    seq: &mut SeqEx<S, R, CAP>,
    out: (PumpStep<S, R>, Wake),
)
    requires
        old(seq).wf(),
        call_ensures(SeqEx::<S, R, CAP>::pump, (seq,), out),
    ensures
        old(seq)@.reply_receiver_waiters ==> {
            &&& out.0 matches PumpStep::Done(None)
            &&& out.1 is Nobody
            &&& final(seq)@ == old(seq)@
        },
        !old(seq)@.reply_receiver_waiters ==> pumps_or_waits(
            old(seq)@,
            final(seq)@,
            out.0,
            out.1,
        ),
{
    if !old(seq)@.reply_receiver_waiters {
        lemma_pumps_or_waits(old(seq)@, final(seq)@, out.0, out.1);
    }
}

/// A thread that has waited to pump tries again, and no longer waits unless it has to once more.
pub proof fn waiting_thread_pumps_again<S, R, const CAP: usize>(
    seq: &mut SeqEx<S, R, CAP>,
    out: (PumpStep<S, R>, Wake),
)
    requires
        old(seq).wf(),
        call_ensures(SeqEx::<S, R, CAP>::pump_again, (seq,), out),
    ensures
        pumps_or_waits(
            (Shared { reply_receiver_waiters: false, ..old(seq)@ }),
            final(seq)@,
            out.0,
            out.1,
        ),
{
    lemma_pumps_or_waits(
        (Shared { reply_receiver_waiters: false, ..old(seq)@ }),
        final(seq)@,
        out.0,
        out.1,
    );
}

/// What a thread has pumped in place of a packet that had to wait is what it has received. Where
/// it has pumped nothing, the packet is out of sequence.
pub proof fn pumped_packet_is_received<S, R>(
    pumped: Option<(RecvOk<S, R>, bool)>,
    result: Result<(RecvOk<S, R>, bool), SharedRecvError>,
)
    requires
        call_ensures(super::recv::received_by_pump::<S, R>, (pumped,), result),
    ensures
        pumped is Some <==> result is Ok,
        pumped is Some ==> result->Ok_0 == pumped->0,
        pumped is None ==> result->Err_0 is OutOfSequence,
{
}

// ---- receiving all that can be processed ----

/// Trying to receive all starts with what is handed out, if anything is, and goes on to pump if
/// and only if another packet waits. It never waits.
pub proof fn trying_to_receive_all_starts_with_the_packet<
    S,
    R,
    TL: TransportLayer<S>,
    const CAP: usize,
>(
    seq: &mut SeqEx<S, R, CAP>,
    tl: &mut TL,
    packet: Packet<R>,
    out: (RecvIter<S, R>, Wake),
)
    requires
        old(seq).wf(),
        call_ensures(SeqEx::<S, R, CAP>::try_receive_all::<TL>, (seq, tl, packet), out),
    ensures
        !out.0.blocking(),
        exists|result: Result<(RecvOk<S, R>, bool), TryRecvError>|
            {
                &&& #[trigger] takes_in_shared(
                    old(seq)@,
                    *old(tl),
                    packet,
                    final(seq)@,
                    *final(tl),
                    result,
                    out.1,
                )
                &&& match result {
                    Ok((ok, more)) => out.0.first() == Some(ok) && out.0.pumping() == more,
                    Err(_) => out.0.first() is None && !out.0.pumping(),
                }
            },
{
    assert forall|result: Result<(RecvOk<S, R>, bool), TryRecvError>| #[trigger]
        super::recv::tries_to_receive(
            old(seq)@,
            *old(tl),
            packet,
            final(seq)@,
            *final(tl),
            result,
            out.1,
        ) implies takes_in_shared(
        old(seq)@,
        *old(tl),
        packet,
        final(seq)@,
        *final(tl),
        result,
        out.1,
    ) by {
        lemma_takes_in_shared(
            old(seq)@,
            *old(tl),
            packet,
            final(seq)@,
            *final(tl),
            result,
            out.1,
        );
    }
}

/// Receiving all does the same, and may wait. Where the packet has to wait for a reply, the thread
/// should pump first.
pub proof fn receiving_all_starts_with_the_packet<
    S,
    R,
    TL: TransportLayer<S>,
    const CAP: usize,
>(
    seq: &mut SeqEx<S, R, CAP>,
    tl: &mut TL,
    packet: Packet<R>,
    out: (Option<RecvIter<S, R>>, Wake),
)
    requires
        old(seq).wf(),
        call_ensures(SeqEx::<S, R, CAP>::receive_all::<TL>, (seq, tl, packet), out),
    ensures
        out.0 matches Some(iter) ==> iter.blocking(),
        exists|result: Result<(RecvOk<S, R>, bool), TryRecvError>|
            {
                &&& #[trigger] takes_in_shared(
                    old(seq)@,
                    *old(tl),
                    packet,
                    final(seq)@,
                    *final(tl),
                    result,
                    out.1,
                )
                &&& match result {
                    Ok((ok, more)) => {
                        &&& out.0 matches Some(iter)
                        &&& iter.first() == Some(ok)
                        &&& iter.pumping() == more
                    },
                    Err(TryRecvError::WaitingForReply) => out.0 is None,
                    Err(_) => {
                        &&& out.0 matches Some(iter)
                        &&& iter.first() is None
                        &&& !iter.pumping()
                    },
                }
            },
{
    assert forall|result: Result<(RecvOk<S, R>, bool), TryRecvError>| #[trigger]
        super::recv::tries_to_receive(
            old(seq)@,
            *old(tl),
            packet,
            final(seq)@,
            *final(tl),
            result,
            out.1,
        ) implies takes_in_shared(
        old(seq)@,
        *old(tl),
        packet,
        final(seq)@,
        *final(tl),
        result,
        out.1,
    ) by {
        lemma_takes_in_shared(
            old(seq)@,
            *old(tl),
            packet,
            final(seq)@,
            *final(tl),
            result,
            out.1,
        );
    }
}

/// A walk that starts with a packet hands that out first. It pumps afterwards if and only if
/// another packet was said to wait, waiting or not as it was made.
pub proof fn walk_starts_with_what_was_received<S, R>(
    received: Option<(RecvOk<S, R>, bool)>,
    blocking: bool,
    iter: RecvIter<S, R>,
)
    requires
        call_ensures(RecvIter::<S, R>::new, (received, blocking), iter),
    ensures
        iter.blocking() == blocking,
        iter.pumping() <==> (received matches Some((_, more)) && more),
        iter.first() is Some <==> received is Some,
        received is Some ==> iter.first()->0 == (received->0).0,
{
}

/// Each step of a walk hands out the first packet, if it has not done so. Then it pumps as long as
/// another packet is said to wait, and ends otherwise.
pub proof fn walk_pumps_while_packets_wait<S, R>(
    iter: &mut RecvIter<S, R>,
    step: IterStep<S, R>,
)
    requires
        call_ensures(RecvIter::<S, R>::next, (iter,), step),
    ensures
        old(iter).first() matches Some(item) ==> (step matches IterStep::Done(Some(i)) && i
            == item),
        old(iter).first() is None && !old(iter).pumping() ==> (step matches IterStep::Done(None)),
        old(iter).first() is None && old(iter).pumping() && old(iter).blocking() ==> step is Pump,
        old(iter).first() is None && old(iter).pumping() && !old(iter).blocking()
            ==> step is TryPump,
        final(iter).first() is None,
        final(iter).pumping() == old(iter).pumping(),
        final(iter).blocking() == old(iter).blocking(),
{
}

/// A walk hands out what was pumped, and pumps no more once no other packet is said to wait.
pub proof fn walk_hands_out_what_was_pumped<S, R>(
    iter: &mut RecvIter<S, R>,
    pumped: Option<(RecvOk<S, R>, bool)>,
    item: Option<RecvOk<S, R>>,
)
    requires
        call_ensures(RecvIter::<S, R>::pumped, (iter, pumped), item),
    ensures
        item is Some <==> pumped is Some,
        pumped is Some ==> item->0 == (pumped->0).0,
        final(iter).pumping() <==> old(iter).pumping() && !(pumped matches Some((_, more))
            && !more),
        final(iter).first() == old(iter).first(),
        final(iter).blocking() == old(iter).blocking(),
{
}

/// What is handed out can be taken apart and made again. An ack has nothing but what was sent, a
/// payload nothing but what was received, and a reply has both.
pub proof fn handed_out_is_what_it_is_made_of<S, R>(
    ok: RecvOk<S, R>,
    content: (Option<(ReplyGuard, R)>, Option<S>),
)
    requires
        call_ensures(RecvOk::<S, R>::consume, (ok,), content),
    ensures
        match ok {
            RecvOk::Payload { reply_guard, recv_data } => {
                &&& content.0 == Some((reply_guard, recv_data))
                &&& content.1 is None
            },
            RecvOk::Reply { reply_guard, recv_data, send_data } => {
                &&& content.0 == Some((reply_guard, recv_data))
                &&& content.1 == Some(send_data)
            },
            RecvOk::Ack { send_data } => {
                &&& content.0 is None
                &&& content.1 == Some(send_data)
            },
        },
{
}

/// Something is made of what was received and what was sent, unless there is neither.
pub proof fn handed_out_is_made_of_its_content<S, R>(
    received: Option<(ReplyGuard, R)>,
    sent: Option<S>,
    ok: Option<RecvOk<S, R>>,
)
    requires
        call_ensures(RecvOk::<S, R>::new, (received, sent), ok),
    ensures
        ok == match (received, sent) {
            (Some((reply_guard, recv_data)), Some(send_data)) => Some(
                RecvOk::Reply { reply_guard, recv_data, send_data },
            ),
            (Some((reply_guard, recv_data)), None) => Some(
                RecvOk::Payload { reply_guard, recv_data },
            ),
            (None, Some(send_data)) => Some(RecvOk::Ack { send_data }),
            (None, None) => None,
        },
{
}

// ---- sending ----

/// A packet is sent at once if and only if the session is open and there is room for it. Otherwise
/// it is given back, with the reason, and nothing changes.
pub proof fn trying_to_send_needs_room<S, R, TL: TransportLayer<S>, const CAP: usize>(
    seq: &mut SeqEx<S, R, CAP>,
    tl: &mut TL,
    seq_cst: bool,
    data: S,
    result: Result<Option<i64>, (TrySendError, S)>,
)
    requires
        old(seq).wf(),
        forall|t: i64| #[trigger]
            old(tl).may_report(t) ==> i64::MIN <= t + old(seq)@.seq.resend_interval <= i64::MAX,
        call_ensures(
            SeqEx::<S, R, CAP>::try_send::<TL>,
            (seq, tl, seq_cst, data),
            result,
        ),
    ensures
        result is Ok <==> !old(seq)@.closed && has_room(old(seq)@.seq, None),
        match result {
            Ok(update) => is_sent_now(
                old(seq)@,
                *old(tl),
                seq_cst,
                data,
                final(seq)@,
                *final(tl),
                update,
            ),
            Err((e, back)) => {
                &&& back == data
                &&& final(seq)@ == old(seq)@
                &&& final(tl).sent() == old(tl).sent()
                &&& e is Closed <==> old(seq)@.closed
                &&& !old(seq)@.closed ==> match awaits(old(seq)@.seq, None) {
                    TryError::WaitingForRecv => e is WaitingForRecv,
                    TryError::WaitingForReply => e is WaitingForReply,
                }
            },
        },
{
    lemma_room(old(seq)@.seq, None);
    if let Ok(update) = result {
        lemma_sent_now(old(seq)@, *old(tl), seq_cst, data, final(seq)@, *final(tl), update);
    }
}

/// The same holds where the data is produced once there is room for it.
pub proof fn trying_to_send_with_needs_room<
    S,
    R,
    TL: TransportLayer<S>,
    F: FnOnce(SeqNo) -> S,
    const CAP: usize,
>(
    seq: &mut SeqEx<S, R, CAP>,
    tl: &mut TL,
    seq_cst: bool,
    f: F,
    result: Result<Option<i64>, (TrySendError, F)>,
)
    requires
        old(seq).wf(),
        forall|t: i64| #[trigger]
            old(tl).may_report(t) ==> i64::MIN <= t + old(seq)@.seq.resend_interval <= i64::MAX,
        call_ensures(
            SeqEx::<S, R, CAP>::try_send_with::<TL, F>,
            (seq, tl, seq_cst, f),
            result,
        ),
    ensures
        result is Ok <==> !old(seq)@.closed && has_room(old(seq)@.seq, None),
        match result {
            Ok(update) => is_produced_now(
                old(seq)@,
                *old(tl),
                seq_cst,
                f,
                final(seq)@,
                *final(tl),
                update,
            ),
            Err((e, back)) => {
                &&& back == f
                &&& final(seq)@ == old(seq)@
                &&& final(tl).sent() == old(tl).sent()
                &&& e is Closed <==> old(seq)@.closed
                &&& !old(seq)@.closed ==> match awaits(old(seq)@.seq, None) {
                    TryError::WaitingForRecv => e is WaitingForRecv,
                    TryError::WaitingForReply => e is WaitingForReply,
                }
            },
        },
{
    lemma_room(old(seq)@.seq, None);
    if let Ok(update) = result {
        lemma_produced_now(old(seq)@, *old(tl), seq_cst, f, final(seq)@, *final(tl), update);
    }
}

/// What an attempt to send does: it sends where the session is open and there is room, waits where
/// there is none, and is refused where the session is closed.
pub open spec fn sends_or_waits<S, R, TL: TransportLayer<S>, D>(
    a: Shared<S, R>,
    tl: TL,
    data: D,
    b: Shared<S, R>,
    tl_after: TL,
    step: SendStep<D>,
) -> bool {
    match step {
        SendStep::Done(Ok(_)) => !a.closed && has_room(a.seq, None),
        SendStep::Done(Err(_)) => a.closed && b == a && tl_after.sent() == tl.sent(),
        SendStep::Wait(on, back) => {
            &&& !a.closed
            &&& !has_room(a.seq, None)
            &&& back == data
            &&& begins_to_wait(a, on, b)
            &&& tl_after.sent() == tl.sent()
        },
    }
}

/// A packet is sent if there is room for it, and otherwise the thread begins to wait.
pub proof fn sending_sends_or_waits<S, R, TL: TransportLayer<S>, const CAP: usize>(
    seq: &mut SeqEx<S, R, CAP>,
    tl: &mut TL,
    seq_cst: bool,
    data: S,
    step: SendStep<S>,
)
    requires
        old(seq).wf(),
        forall|t: i64| #[trigger]
            old(tl).may_report(t) ==> i64::MIN <= t + old(seq)@.seq.resend_interval <= i64::MAX,
        call_ensures(
            SeqEx::<S, R, CAP>::send::<TL>,
            (seq, tl, seq_cst, data),
            step,
        ),
    ensures
        sends_or_waits(
            old(seq)@,
            *old(tl),
            data,
            final(seq)@,
            *final(tl),
            step,
        ),
        step matches SendStep::Done(Ok(update)) ==> is_sent_now(
            old(seq)@,
            *old(tl),
            seq_cst,
            data,
            final(seq)@,
            *final(tl),
            update,
        ),
{
    let a = old(seq)@;
    lemma_room(a.seq, None);
    if let SendStep::Done(Ok(update)) = step {
        lemma_sent_now(a, *old(tl), seq_cst, data, final(seq)@, *final(tl), update);
    }
}

/// A thread that has waited does the same as if it had never waited.
pub proof fn sending_again_sends_or_waits<S, R, TL: TransportLayer<S>, const CAP: usize>(
    seq: &mut SeqEx<S, R, CAP>,
    waited: WaitOn,
    tl: &mut TL,
    seq_cst: bool,
    data: S,
    step: SendStep<S>,
)
    requires
        old(seq).wf(),
        waited is Recv ==> old(seq)@.recv_waiters > 0,
        forall|t: i64| #[trigger]
            old(tl).may_report(t) ==> i64::MIN <= t + old(seq)@.seq.resend_interval <= i64::MAX,
        call_ensures(
            SeqEx::<S, R, CAP>::send_again::<TL>,
            (seq, waited, tl, seq_cst, data),
            step,
        ),
    ensures
        sends_or_waits(
            without_waiter(old(seq)@, waited),
            *old(tl),
            data,
            final(seq)@,
            *final(tl),
            step,
        ),
        step matches SendStep::Done(Ok(update)) ==> is_sent_now(
            without_waiter(old(seq)@, waited),
            *old(tl),
            seq_cst,
            data,
            final(seq)@,
            *final(tl),
            update,
        ),
{
    let a = without_waiter(old(seq)@, waited);
    lemma_room(a.seq, None);
    if let SendStep::Done(Ok(update)) = step {
        lemma_sent_now(a, *old(tl), seq_cst, data, final(seq)@, *final(tl), update);
    }
}

/// The same holds where the data is produced once there is room for it.
pub proof fn producing_sends_or_waits<
    S,
    R,
    TL: TransportLayer<S>,
    F: FnOnce(SeqNo) -> S,
    const CAP: usize,
>(
    seq: &mut SeqEx<S, R, CAP>,
    tl: &mut TL,
    seq_cst: bool,
    f: F,
    step: SendStep<F>,
)
    requires
        old(seq).wf(),
        forall|t: i64| #[trigger]
            old(tl).may_report(t) ==> i64::MIN <= t + old(seq)@.seq.resend_interval <= i64::MAX,
        call_ensures(
            SeqEx::<S, R, CAP>::send_with::<TL, F>,
            (seq, tl, seq_cst, f),
            step,
        ),
    ensures
        sends_or_waits(
            old(seq)@,
            *old(tl),
            f,
            final(seq)@,
            *final(tl),
            step,
        ),
        step matches SendStep::Done(Ok(update)) ==> is_produced_now(
            old(seq)@,
            *old(tl),
            seq_cst,
            f,
            final(seq)@,
            *final(tl),
            update,
        ),
{
    let a = old(seq)@;
    lemma_room(a.seq, None);
    if let SendStep::Done(Ok(update)) = step {
        lemma_produced_now(a, *old(tl), seq_cst, f, final(seq)@, *final(tl), update);
    }
}

/// The same holds of a thread that has waited, where the data is produced.
pub proof fn producing_again_sends_or_waits<
    S,
    R,
    TL: TransportLayer<S>,
    F: FnOnce(SeqNo) -> S,
    const CAP: usize,
>(
    seq: &mut SeqEx<S, R, CAP>,
    waited: WaitOn,
    tl: &mut TL,
    seq_cst: bool,
    f: F,
    step: SendStep<F>,
)
    requires
        old(seq).wf(),
        waited is Recv ==> old(seq)@.recv_waiters > 0,
        forall|t: i64| #[trigger]
            old(tl).may_report(t) ==> i64::MIN <= t + old(seq)@.seq.resend_interval <= i64::MAX,
        call_ensures(
            SeqEx::<S, R, CAP>::send_with_again::<TL, F>,
            (seq, waited, tl, seq_cst, f),
            step,
        ),
    ensures
        sends_or_waits(
            without_waiter(old(seq)@, waited),
            *old(tl),
            f,
            final(seq)@,
            *final(tl),
            step,
        ),
        step matches SendStep::Done(Ok(update)) ==> is_produced_now(
            without_waiter(old(seq)@, waited),
            *old(tl),
            seq_cst,
            f,
            final(seq)@,
            *final(tl),
            update,
        ),
{
    let a = without_waiter(old(seq)@, waited);
    lemma_room(a.seq, None);
    if let SendStep::Done(Ok(update)) = step {
        lemma_produced_now(a, *old(tl), seq_cst, f, final(seq)@, *final(tl), update);
    }
}

/// What a timed attempt to send does: it sends where the session is open and there is room, is
/// refused where the session is closed, and otherwise waits for as long as is left until
/// `end_time`.
pub open spec fn sends_or_waits_until<S, R, TL: TransportLayer<S>, D>(
    a: Shared<S, R>,
    tl: TL,
    now: i64,
    end_time: int,
    data: D,
    b: Shared<S, R>,
    tl_after: TL,
    step: TimedSendStep<D>,
) -> bool {
    match step {
        TimedSendStep::Done(Ok(_)) => !a.closed && has_room(a.seq, None),
        TimedSendStep::Done(Err((e, back))) => {
            &&& a.closed
            &&& e is Closed
            &&& back == data
            &&& b == a
            &&& tl_after.sent() == tl.sent()
        },
        TimedSendStep::Wait { on, data: back, millis, end_time: end } => {
            &&& !a.closed
            &&& !has_room(a.seq, None)
            &&& back == data
            &&& end == end_time
            &&& end_time <= now ==> millis == 0
            &&& now < end_time ==> millis == end_time - now
            &&& begins_to_wait(a, on, b)
            &&& tl_after.sent() == tl.sent()
        },
    }
}

/// The time that is `timeout` after `now`, or the nearest to it that an `i64` can hold.
pub open spec fn nearest(now: i64, timeout: i64) -> int {
    if now + timeout < i64::MIN {
        i64::MIN as int
    } else if now + timeout > i64::MAX {
        i64::MAX as int
    } else {
        now + timeout
    }
}

/// A timed packet is sent if there is room for it, and otherwise the thread begins to wait until
/// the time-out is over.
pub proof fn timed_sending_sends_or_waits<S, R, TL: TransportLayer<S>, const CAP: usize>(
    seq: &mut SeqEx<S, R, CAP>,
    tl: &mut TL,
    seq_cst: bool,
    timeout: i64,
    data: S,
    step: TimedSendStep<S>,
)
    requires
        old(seq).wf(),
        forall|t: i64| #[trigger]
            old(tl).may_report(t) ==> i64::MIN <= t + old(seq)@.seq.resend_interval <= i64::MAX,
        call_ensures(
            SeqEx::<S, R, CAP>::send_timeout::<TL>,
            (seq, tl, seq_cst, timeout, data),
            step,
        ),
    ensures
        old(seq)@.closed ==> sends_or_waits_until(
            old(seq)@,
            *old(tl),
            0,
            0,
            data,
            final(seq)@,
            *final(tl),
            step,
        ),
        !old(seq)@.closed ==> exists|now: i64|
            {
                &&& #[trigger] old(tl).may_report(now)
                &&& sends_or_waits_until(
                    old(seq)@,
                    *old(tl),
                    now,
                    nearest(now, timeout),
                    data,
                    final(seq)@,
                    *final(tl),
                    step,
                )
            },
        step matches TimedSendStep::Done(Ok(update)) ==> is_sent_now(
            old(seq)@,
            *old(tl),
            seq_cst,
            data,
            final(seq)@,
            *final(tl),
            update,
        ),
{
    let a = old(seq)@;
    lemma_room(a.seq, None);
    if let TimedSendStep::Done(Ok(update)) = step {
        lemma_sent_now(a, *old(tl), seq_cst, data, final(seq)@, *final(tl), update);
    }
}

/// A thread that has waited gives up once the time-out is over, and gives the packet back with
/// what it waited for. Before, it does the same as if it had never waited.
pub proof fn timed_sending_again_may_time_out<S, R, TL: TransportLayer<S>, const CAP: usize>(
    seq: &mut SeqEx<S, R, CAP>,
    waited: WaitOn,
    tl: &mut TL,
    end_time: i64,
    seq_cst: bool,
    data: S,
    step: TimedSendStep<S>,
)
    requires
        old(seq).wf(),
        waited is Recv ==> old(seq)@.recv_waiters > 0,
        forall|t: i64| #[trigger]
            old(tl).may_report(t) ==> i64::MIN <= t + old(seq)@.seq.resend_interval <= i64::MAX,
        call_ensures(
            SeqEx::<S, R, CAP>::send_timeout_again::<TL>,
            (seq, waited, tl, end_time, seq_cst, data),
            step,
        ),
    ensures
        exists|now: i64|
            {
                &&& #[trigger] old(tl).may_report(now)
                &&& end_time <= now ==> {
                    &&& step matches TimedSendStep::Done(Err((e, back)))
                    &&& e is WaitingForRecv <==> waited is Recv
                    &&& e is WaitingForReply <==> waited is Reply
                    &&& back == data
                    &&& final(seq)@ == without_waiter(old(seq)@, waited)
                    &&& final(tl).sent() == old(tl).sent()
                }
                &&& now < end_time ==> {
                    &&& sends_or_waits_until(
                        without_waiter(old(seq)@, waited),
                        *old(tl),
                        now,
                        end_time as int,
                        data,
                        final(seq)@,
                        *final(tl),
                        step,
                    )
                    &&& step matches TimedSendStep::Done(Ok(update)) ==> is_sent_now(
                        without_waiter(old(seq)@, waited),
                        *old(tl),
                        seq_cst,
                        data,
                        final(seq)@,
                        *final(tl),
                        update,
                    )
                }
            },
{
    let a = without_waiter(old(seq)@, waited);
    assert(a == old(seq)@.resumed(waited));
    lemma_room(a.seq, None);
    if let TimedSendStep::Done(Ok(update)) = step {
        assert(sends_now(
            a,
            *old(tl),
            seq_cst,
            data,
            final(seq)@,
            *final(tl),
            update,
        ));
        lemma_sent_now(a, *old(tl), seq_cst, data, final(seq)@, *final(tl), update);
    }
}

/// The same holds where the data is produced once there is room for it.
pub proof fn timed_producing_sends_or_waits<
    S,
    R,
    TL: TransportLayer<S>,
    F: FnOnce(SeqNo) -> S,
    const CAP: usize,
>(
    seq: &mut SeqEx<S, R, CAP>,
    tl: &mut TL,
    seq_cst: bool,
    timeout: i64,
    f: F,
    step: TimedSendStep<F>,
)
    requires
        old(seq).wf(),
        forall|t: i64| #[trigger]
            old(tl).may_report(t) ==> i64::MIN <= t + old(seq)@.seq.resend_interval <= i64::MAX,
        call_ensures(
            SeqEx::<S, R, CAP>::send_with_timeout::<TL, F>,
            (seq, tl, seq_cst, timeout, f),
            step,
        ),
    ensures
        old(seq)@.closed ==> sends_or_waits_until(
            old(seq)@,
            *old(tl),
            0,
            0,
            f,
            final(seq)@,
            *final(tl),
            step,
        ),
        !old(seq)@.closed ==> exists|now: i64|
            {
                &&& #[trigger] old(tl).may_report(now)
                &&& sends_or_waits_until(
                    old(seq)@,
                    *old(tl),
                    now,
                    nearest(now, timeout),
                    f,
                    final(seq)@,
                    *final(tl),
                    step,
                )
            },
        step matches TimedSendStep::Done(Ok(update)) ==> is_produced_now(
            old(seq)@,
            *old(tl),
            seq_cst,
            f,
            final(seq)@,
            *final(tl),
            update,
        ),
{
    let a = old(seq)@;
    lemma_room(a.seq, None);
    if let TimedSendStep::Done(Ok(update)) = step {
        lemma_produced_now(a, *old(tl), seq_cst, f, final(seq)@, *final(tl), update);
    }
}

/// The same holds where the data is produced.
pub proof fn timed_producing_again_may_time_out<
    S,
    R,
    TL: TransportLayer<S>,
    F: FnOnce(SeqNo) -> S,
    const CAP: usize,
>(
    seq: &mut SeqEx<S, R, CAP>,
    waited: WaitOn,
    tl: &mut TL,
    end_time: i64,
    seq_cst: bool,
    f: F,
    step: TimedSendStep<F>,
)
    requires
        old(seq).wf(),
        waited is Recv ==> old(seq)@.recv_waiters > 0,
        forall|t: i64| #[trigger]
            old(tl).may_report(t) ==> i64::MIN <= t + old(seq)@.seq.resend_interval <= i64::MAX,
        call_ensures(
            SeqEx::<S, R, CAP>::send_with_timeout_again::<TL, F>,
            (seq, waited, tl, end_time, seq_cst, f),
            step,
        ),
    ensures
        exists|now: i64|
            {
                &&& #[trigger] old(tl).may_report(now)
                &&& end_time <= now ==> {
                    &&& step matches TimedSendStep::Done(Err((e, back)))
                    &&& e is WaitingForRecv <==> waited is Recv
                    &&& e is WaitingForReply <==> waited is Reply
                    &&& back == f
                    &&& final(seq)@ == without_waiter(old(seq)@, waited)
                    &&& final(tl).sent() == old(tl).sent()
                }
                &&& now < end_time ==> {
                    &&& sends_or_waits_until(
                        without_waiter(old(seq)@, waited),
                        *old(tl),
                        now,
                        end_time as int,
                        f,
                        final(seq)@,
                        *final(tl),
                        step,
                    )
                    &&& step matches TimedSendStep::Done(Ok(update)) ==> is_produced_now(
                        without_waiter(old(seq)@, waited),
                        *old(tl),
                        seq_cst,
                        f,
                        final(seq)@,
                        *final(tl),
                        update,
                    )
                }
            },
{
    let a = without_waiter(old(seq)@, waited);
    assert(a == old(seq)@.resumed(waited));
    lemma_room(a.seq, None);
    if let TimedSendStep::Done(Ok(update)) = step {
        assert(sends_produced(
            a,
            *old(tl),
            seq_cst,
            f,
            final(seq)@,
            *final(tl),
            update,
        ));
        lemma_produced_now(a, *old(tl), seq_cst, f, final(seq)@, *final(tl), update);
    }
}

// ---- guards ----

/// Whether the number has been returned without a word to the remote peer, where it is issued.
pub open spec fn is_returned_silently<S, R>(
    a: SeqState<S, R>,
    reply_no: SeqNo,
    unlock: bool,
    b: SeqState<S, R>,
) -> bool {
    if a.replies.count(reply_no) > 0 {
        b == (SeqState {
            replies: a.replies.remove(reply_no),
            locked: a.locked && !unlock,
            ..a
        })
    } else {
        b == a
    }
}

/// Whether a guard hands the lock on if and only if it holds it. Where it does not, the threads
/// that wait for a reply to be finished are woken.
pub open spec fn hands_lock_on<S, R>(
    a: Shared<S, R>,
    guard: ReplyGuard,
    b: Shared<S, R>,
    lock: Option<SeqCstGuard>,
    wake: Wake,
) -> bool {
    &&& lock is Some <==> guard.holds_lock()
    &&& guard.holds_lock() ==> same_threads(a, b) && wake is Nobody
    &&& !guard.holds_lock() ==> wakes_all_on_reply(a, b, wake)
}

/// Whether a guard has replied, where the session is open. Where it is closed, nothing is sent,
/// and the number is returned.
pub open spec fn gives_shared_reply<S, R, TL: TransportLayer<S>>(
    a: Shared<S, R>,
    tl: TL,
    reply_no: SeqNo,
    unlock: bool,
    seq_cst: bool,
    data: S,
    b: Shared<S, R>,
    tl_after: TL,
    update: Option<i64>,
) -> bool {
    if a.closed {
        &&& is_returned_silently(a.seq, reply_no, unlock, b.seq)
        &&& tl_after.sent() == tl.sent()
        &&& update is None
    } else {
        &&& gives_reply(a.seq, tl, reply_no, unlock, seq_cst, data, b.seq, tl_after)
        &&& tells_earlier_time(
            a.seq.next_service_timestamp,
            b.seq.next_service_timestamp,
            update,
        )
    }
}

/// A guard replies with its number, and unlocks the session if and only if it holds the lock. The
/// threads that wait for a reply to be finished are woken.
pub proof fn guard_replies_and_unlocks<TL: TransportLayer<S>, S, R, const CAP: usize>(
    guard: ReplyGuard,
    seq: &mut SeqEx<S, R, CAP>,
    tl: &mut TL,
    seq_cst: bool,
    data: S,
    out: (Option<i64>, Wake),
)
    requires
        old(seq).wf(),
        forall|t: i64| #[trigger]
            old(tl).may_report(t) ==> i64::MIN <= t + old(seq)@.seq.resend_interval <= i64::MAX,
        call_ensures(
            ReplyGuard::reply::<TL, S, R, CAP>,
            (guard, seq, tl, seq_cst, data),
            out,
        ),
    ensures
        wakes_all_on_reply(old(seq)@, final(seq)@, out.1),
        gives_shared_reply(
            old(seq)@,
            *old(tl),
            guard.reply_no(),
            guard.holds_lock(),
            seq_cst,
            data,
            final(seq)@,
            *final(tl),
            out.0,
        ),
{
    if !old(seq)@.closed {
        lemma_gives_reply(
            old(seq)@.seq,
            *old(tl),
            guard.reply_no(),
            guard.holds_lock(),
            seq_cst,
            data,
            final(seq)@.seq,
            *final(tl),
        );
    }
}

/// The same holds where the data is produced by a function. It gets the number of the reply and
/// the number of the packet that is replied to, and is not called where the session is closed.
pub proof fn guard_replies_with_and_unlocks<
    TL: TransportLayer<S>,
    S,
    R,
    const CAP: usize,
    F: FnOnce(SeqNo, SeqNo) -> S,
>(
    guard: ReplyGuard,
    seq: &mut SeqEx<S, R, CAP>,
    tl: &mut TL,
    seq_cst: bool,
    f: F,
    out: (Option<i64>, Wake),
)
    requires
        old(seq).wf(),
        forall|t: i64| #[trigger]
            old(tl).may_report(t) ==> i64::MIN <= t + old(seq)@.seq.resend_interval <= i64::MAX,
        call_ensures(
            ReplyGuard::reply_with::<TL, S, R, CAP, F>,
            (guard, seq, tl, seq_cst, f),
            out,
        ),
    ensures
        wakes_all_on_reply(old(seq)@, final(seq)@, out.1),
        old(seq)@.closed ==> {
            &&& is_returned_silently(
                old(seq)@.seq,
                guard.reply_no(),
                guard.holds_lock(),
                final(seq)@.seq,
            )
            &&& final(tl).sent() == old(tl).sent()
            &&& out.0 is None
        },
        !old(seq)@.closed ==> exists|data: S|
            {
                &&& #[trigger] call_ensures(
                    f,
                    (old(seq)@.seq.next_send, guard.reply_no()),
                    data,
                )
                &&& gives_shared_reply(
                    old(seq)@,
                    *old(tl),
                    guard.reply_no(),
                    guard.holds_lock(),
                    seq_cst,
                    data,
                    final(seq)@,
                    *final(tl),
                    out.0,
                )
            },
{
    assert forall|data: S| #[trigger]
        call_ensures(f, (old(seq)@.seq.next_send, guard.reply_no()), data) && replies(
            old(seq)@.seq,
            *old(tl),
            guard.reply_no(),
            guard.holds_lock(),
            seq_cst,
            data,
            final(seq)@.seq,
            *final(tl),
        ) implies gives_reply(
        old(seq)@.seq,
        *old(tl),
        guard.reply_no(),
        guard.holds_lock(),
        seq_cst,
        data,
        final(seq)@.seq,
        *final(tl),
    ) by {
        lemma_gives_reply(
            old(seq)@.seq,
            *old(tl),
            guard.reply_no(),
            guard.holds_lock(),
            seq_cst,
            data,
            final(seq)@.seq,
            *final(tl),
        );
    }
}

/// A guard that replies and stays locked leaves the lock as it is, and hands it on if it holds it.
pub proof fn guard_replies_and_stays_locked<TL: TransportLayer<S>, S, R, const CAP: usize>(
    guard: ReplyGuard,
    seq: &mut SeqEx<S, R, CAP>,
    tl: &mut TL,
    seq_cst: bool,
    data: S,
    out: (Option<SeqCstGuard>, Option<i64>, Wake),
)
    requires
        old(seq).wf(),
        forall|t: i64| #[trigger]
            old(tl).may_report(t) ==> i64::MIN <= t + old(seq)@.seq.resend_interval <= i64::MAX,
        call_ensures(
            ReplyGuard::reply_stay_locked::<TL, S, R, CAP>,
            (guard, seq, tl, seq_cst, data),
            out,
        ),
    ensures
        hands_lock_on(old(seq)@, guard, final(seq)@, out.0, out.2),
        gives_shared_reply(
            old(seq)@,
            *old(tl),
            guard.reply_no(),
            false,
            seq_cst,
            data,
            final(seq)@,
            *final(tl),
            out.1,
        ),
{
    if !old(seq)@.closed {
        lemma_gives_reply(
            old(seq)@.seq,
            *old(tl),
            guard.reply_no(),
            false,
            seq_cst,
            data,
            final(seq)@.seq,
            *final(tl),
        );
    }
}

/// The same holds where the data is produced by a function.
pub proof fn guard_replies_with_and_stays_locked<
    TL: TransportLayer<S>,
    S,
    R,
    const CAP: usize,
    F: FnOnce(SeqNo, SeqNo) -> S,
>(
    guard: ReplyGuard,
    seq: &mut SeqEx<S, R, CAP>,
    tl: &mut TL,
    seq_cst: bool,
    f: F,
    out: (Option<SeqCstGuard>, Option<i64>, Wake),
)
    requires
        old(seq).wf(),
        forall|t: i64| #[trigger]
            old(tl).may_report(t) ==> i64::MIN <= t + old(seq)@.seq.resend_interval <= i64::MAX,
        call_ensures(
            ReplyGuard::reply_with_stay_locked::<TL, S, R, CAP, F>,
            (guard, seq, tl, seq_cst, f),
            out,
        ),
    ensures
        hands_lock_on(old(seq)@, guard, final(seq)@, out.0, out.2),
        old(seq)@.closed ==> {
            &&& is_returned_silently(
                old(seq)@.seq,
                guard.reply_no(),
                false,
                final(seq)@.seq,
            )
            &&& final(tl).sent() == old(tl).sent()
            &&& out.1 is None
        },
        !old(seq)@.closed ==> exists|data: S|
            {
                &&& #[trigger] call_ensures(
                    f,
                    (old(seq)@.seq.next_send, guard.reply_no()),
                    data,
                )
                &&& gives_shared_reply(
                    old(seq)@,
                    *old(tl),
                    guard.reply_no(),
                    false,
                    seq_cst,
                    data,
                    final(seq)@,
                    *final(tl),
                    out.1,
                )
            },
{
    assert forall|data: S| #[trigger]
        call_ensures(f, (old(seq)@.seq.next_send, guard.reply_no()), data) && replies(
            old(seq)@.seq,
            *old(tl),
            guard.reply_no(),
            false,
            seq_cst,
            data,
            final(seq)@.seq,
            *final(tl),
        ) implies gives_reply(
        old(seq)@.seq,
        *old(tl),
        guard.reply_no(),
        false,
        seq_cst,
        data,
        final(seq)@.seq,
        *final(tl),
    ) by {
        lemma_gives_reply(
            old(seq)@.seq,
            *old(tl),
            guard.reply_no(),
            false,
            seq_cst,
            data,
            final(seq)@.seq,
            *final(tl),
        );
    }
}

/// A guard acknowledges with its number and leaves the lock as it is, and hands it on if it holds
/// it. Where the session is closed, nothing is sent, and the number is returned.
pub proof fn guard_acks_and_stays_locked<TL: TransportLayer<S>, S, R, const CAP: usize>(
    guard: ReplyGuard,
    seq: &mut SeqEx<S, R, CAP>,
    tl: &mut TL,
    out: (Option<SeqCstGuard>, Wake),
)
    requires
        old(seq).wf(),
        call_ensures(ReplyGuard::ack::<TL, S, R, CAP>, (guard, seq, tl), out),
    ensures
        hands_lock_on(old(seq)@, guard, final(seq)@, out.0, out.1),
        old(seq)@.closed ==> {
            &&& is_returned_silently(
                old(seq)@.seq,
                guard.reply_no(),
                false,
                final(seq)@.seq,
            )
            &&& final(tl).sent() == old(tl).sent()
        },
        !old(seq)@.closed ==> gives_ack(
            old(seq)@.seq,
            *old(tl),
            guard.reply_no(),
            false,
            final(seq)@.seq,
            *final(tl),
        ),
{
}

/// A guard that is released acknowledges, and unlocks the session if and only if it holds the
/// lock. The threads that wait for a reply to be finished are woken.
pub proof fn released_guard_acks_and_unlocks<TL: TransportLayer<S>, S, R, const CAP: usize>(
    guard: ReplyGuard,
    seq: &mut SeqEx<S, R, CAP>,
    tl: &mut TL,
    wake: Wake,
)
    requires
        old(seq).wf(),
        call_ensures(ReplyGuard::release::<TL, S, R, CAP>, (guard, seq, tl), wake),
    ensures
        wakes_all_on_reply(old(seq)@, final(seq)@, wake),
        old(seq)@.closed ==> {
            &&& is_returned_silently(
                old(seq)@.seq,
                guard.reply_no(),
                guard.holds_lock(),
                final(seq)@.seq,
            )
            &&& final(tl).sent() == old(tl).sent()
        },
        !old(seq)@.closed ==> gives_ack(
            old(seq)@.seq,
            *old(tl),
            guard.reply_no(),
            guard.holds_lock(),
            final(seq)@.seq,
            *final(tl),
        ),
{
}

/// A guard unlocks the session if and only if it holds the lock, and holds it no longer. Then the
/// threads that wait for a reply to be finished are woken.
pub proof fn guard_unlocks_once<S, R, const CAP: usize>(
    guard: &mut ReplyGuard,
    seq: &mut SeqEx<S, R, CAP>,
    out: (bool, Wake),
)
    requires
        old(seq).wf(),
        call_ensures(ReplyGuard::unlock::<S, R, CAP>, (guard, seq), out),
    ensures
        out.0 <==> old(guard).holds_lock(),
        !final(guard).holds_lock(),
        final(guard).reply_no() == old(guard).reply_no(),
        out.0 ==> {
            &&& final(seq)@.seq == (SeqState { locked: false, ..old(seq)@.seq })
            &&& wakes_all_on_reply(old(seq)@, final(seq)@, out.1)
        },
        !out.0 ==> final(seq)@ == old(seq)@ && out.1 is Nobody,
{
}

/// A lock that is released unlocks the session, and the threads that wait for a reply to be
/// finished are woken.
pub proof fn released_lock_unlocks<S, R, const CAP: usize>(
    lock: SeqCstGuard,
    seq: &mut SeqEx<S, R, CAP>,
    wake: Wake,
)
    requires
        old(seq).wf(),
        call_ensures(SeqCstGuard::release::<S, R, CAP>, (lock, seq), wake),
    ensures
        final(seq)@.seq == (SeqState { locked: false, ..old(seq)@.seq }),
        wakes_all_on_reply(old(seq)@, final(seq)@, wake),
{
}

/// A guard can be taken apart into its number and whether it holds the lock, and made again of
/// them.
pub proof fn guard_is_what_it_is_made_of(
    guard: ReplyGuard,
    seq_cst: bool,
    components: (SeqNo, bool),
    again: ReplyGuard,
)
    requires
        call_ensures(ReplyGuard::is_seq_cst, (&guard,), seq_cst),
        call_ensures(ReplyGuard::to_components, (guard,), components),
        call_ensures(ReplyGuard::from_components, (components.0, components.1), again),
    ensures
        seq_cst == guard.holds_lock(),
        components.0 == guard.reply_no(),
        components.1 == guard.holds_lock(),
        again.reply_no() == guard.reply_no(),
        again.holds_lock() == guard.holds_lock(),
{
}

/// A guard that is released wakes all threads that wait for a reply to be finished, senders or
/// not, and nobody where none waits.
pub proof fn finished_reply_wakes_all<TL: TransportLayer<S>, S, R, const CAP: usize>(
    guard: ReplyGuard,
    seq: &mut SeqEx<S, R, CAP>,
    tl: &mut TL,
    wake: Wake,
)
    requires
        old(seq).wf(),
        call_ensures(ReplyGuard::release::<TL, S, R, CAP>, (guard, seq, tl), wake),
    ensures
        old(seq)@.reply_sender_waiters || old(seq)@.reply_receiver_waiters ==> wake
            == Wake::AllOnReply,
        !old(seq)@.reply_sender_waiters && !old(seq)@.reply_receiver_waiters ==> wake
            == Wake::Nobody,
        !final(seq)@.reply_sender_waiters,
        final(seq)@.reply_receiver_waiters == old(seq)@.reply_receiver_waiters,
        final(seq)@.recv_waiters == old(seq)@.recv_waiters,
{
}

/// The same holds of a guard that replies.
pub proof fn given_reply_wakes_all<TL: TransportLayer<S>, S, R, const CAP: usize>(
    guard: ReplyGuard,
    seq: &mut SeqEx<S, R, CAP>,
    tl: &mut TL,
    seq_cst: bool,
    data: S,
    out: (Option<i64>, Wake),
)
    requires
        old(seq).wf(),
        call_ensures(
            ReplyGuard::reply::<TL, S, R, CAP>,
            (guard, seq, tl, seq_cst, data),
            out,
        ),
    ensures
        old(seq)@.reply_sender_waiters || old(seq)@.reply_receiver_waiters ==> out.1
            == Wake::AllOnReply,
        !old(seq)@.reply_sender_waiters && !old(seq)@.reply_receiver_waiters ==> out.1
            == Wake::Nobody,
        out.0 is Some <==> final(seq)@.seq.next_service_timestamp
            < old(seq)@.seq.next_service_timestamp,
        out.0 is Some ==> out.0->0 == final(seq)@.seq.next_service_timestamp,
{
    let a = old(seq)@.seq;
    if !old(seq)@.closed && a.replies.count(guard.reply_no()) > 0 {
        let before = a.returned(guard.reply_no(), guard.holds_lock());
        let t = choose|t: i64| #[trigger]
            old(tl).may_report(t) && final(seq)@.seq == before.sent(
                t,
                Some(guard.reply_no()),
                seq_cst,
                data,
            );
        assert(before.next_service_timestamp == a.next_service_timestamp);
    }
}

// ---- the session as a whole ----

/// A new session is open, and nobody waits.
pub proof fn new_session_is_open<S, R, const CAP: usize>(
    interval: i64,
    first: SeqNo,
    seq: SeqEx<S, R, CAP>,
)
    requires
        call_ensures(SeqEx::<S, R, CAP>::new, (interval, first), seq),
    ensures
        !seq@.closed,
        seq@.recv_waiters == 0,
        !seq@.reply_sender_waiters,
        !seq@.reply_receiver_waiters,
        seq@.seq.send_window.len() == CAP,
        seq@.seq.recv_window.len() == CAP,
        forall|i: int| 0 <= i < CAP ==> #[trigger] seq@.seq.send_window[i] is None,
        forall|i: int| 0 <= i < CAP ==> #[trigger] seq@.seq.recv_window[i] is Empty,
        seq@.seq.replies.len() == 0,
        seq@.seq.next_send == first,
        seq@.seq.next_recv == first,
        !seq@.seq.locked,
        seq@.seq.resend_interval == interval,
        seq@.seq.next_service_timestamp == i64::MAX,
{
}

/// A default session starts with the number 0 and resends after a quarter of a second.
pub proof fn default_session_is_open<S, R, const CAP: usize>(seq: SeqEx<S, R, CAP>)
    requires
        call_ensures(<SeqEx<S, R, CAP> as Default>::default, (), seq),
    ensures
        !seq@.closed,
        seq@.recv_waiters == 0,
        !seq@.reply_sender_waiters,
        !seq@.reply_receiver_waiters,
        seq@.seq.send_window.len() == CAP,
        seq@.seq.recv_window.len() == CAP,
        forall|i: int| 0 <= i < CAP ==> #[trigger] seq@.seq.send_window[i] is None,
        forall|i: int| 0 <= i < CAP ==> #[trigger] seq@.seq.recv_window[i] is Empty,
        seq@.seq.replies.len() == 0,
        seq@.seq.next_send == 0,
        seq@.seq.next_recv == 0,
        !seq@.seq.locked,
        seq@.seq.resend_interval == 250,
        seq@.seq.next_service_timestamp == i64::MAX,
{
}

/// Closing changes nothing but that the session is closed. All threads that wait for a packet to
/// be received are woken, if there are any.
pub proof fn closing_wakes_all<S, R, const CAP: usize>(seq: &mut SeqEx<S, R, CAP>, wake: Wake)
    requires
        old(seq).wf(),
        call_ensures(SeqEx::<S, R, CAP>::close, (seq,), wake),
    ensures
        final(seq)@ == (Shared { closed: true, ..old(seq)@ }),
        old(seq)@.recv_waiters > 0 ==> wake is AllOnRecv,
        old(seq)@.recv_waiters == 0 ==> wake is Nobody,
{
}

/// A session is said to be closed if and only if it is.
pub proof fn closed_is_closed<S, R, const CAP: usize>(seq: SeqEx<S, R, CAP>, closed: bool)
    requires
        call_ensures(SeqEx::<S, R, CAP>::is_closed, (&seq,), closed),
    ensures
        closed == seq@.closed,
{
}

/// An open session is serviced at a time that the transport layer may report. The caller should
/// wait until the next service is due, but not longer than the resend interval. A closed session
/// is left as it is, and the caller should wait for the resend interval.
pub proof fn open_session_is_serviced<S, R, TL: TransportLayer<S>, const CAP: usize>(
    seq: &mut SeqEx<S, R, CAP>,
    tl: &mut TL,
    wait: i64,
)
    requires
        old(seq).wf(),
        forall|t: i64| #[trigger]
            old(tl).may_report(t) ==> i64::MIN <= final(seq)@.seq.next_service_timestamp - t
                <= i64::MAX,
        call_ensures(SeqEx::<S, R, CAP>::service::<TL>, (seq, tl), wait),
    ensures
        old(seq)@.closed ==> {
            &&& final(seq)@ == old(seq)@
            &&& final(tl).sent() == old(tl).sent()
            &&& wait == old(seq)@.seq.resend_interval
        },
        !old(seq)@.closed ==> same_threads(old(seq)@, final(seq)@),
        !old(seq)@.closed ==> exists|now: i64|
            {
                &&& #[trigger] old(tl).may_report(now)
                &&& is_serviced(old(seq)@.seq, now, final(seq)@.seq)
                &&& is_resent(old(seq)@.seq, now, old(tl).sent(), final(tl).sent())
                &&& wait <= final(seq)@.seq.resend_interval
                &&& wait <= final(seq)@.seq.next_service_timestamp - now
                &&& {
                    ||| wait == final(seq)@.seq.resend_interval
                    ||| wait == final(seq)@.seq.next_service_timestamp - now
                }
            },
{
    let pre = old(seq)@.seq;
    assert forall|t: i64| #[trigger] old(tl).may_report(t) implies is_serviced(
        pre,
        t,
        after_service(pre, t),
    ) && is_resent(pre, t, old(tl).sent(), old(tl).sent() + to_resend(pre, t)) by {
        lemma_serviced(pre, t);
        lemma_resent(pre, t, old(tl).sent());
    }
}

/// A scheduled service does the same and tells when the next one is due. Where nothing is left to
/// resend, none is. A closed session refuses.
pub proof fn scheduled_service_tells_the_next<S, R, TL: TransportLayer<S>, const CAP: usize>(
    seq: &mut SeqEx<S, R, CAP>,
    tl: &mut TL,
    timestamp: Result<i64, ClosedError>,
)
    requires
        old(seq).wf(),
        call_ensures(SeqEx::<S, R, CAP>::service_scheduled::<TL>, (seq, tl), timestamp),
    ensures
        timestamp is Err <==> old(seq)@.closed,
        timestamp is Err ==> final(seq)@ == old(seq)@ && final(tl).sent() == old(tl).sent(),
        timestamp is Ok ==> {
            &&& same_threads(old(seq)@, final(seq)@)
            &&& timestamp->Ok_0 == final(seq)@.seq.next_service_timestamp
            &&& (forall|i: int| 0 <= i < CAP ==> #[trigger] final(seq)@.seq.send_window[i] is None)
                ==> timestamp->Ok_0 == i64::MAX
            &&& exists|now: i64, mid: SeqState<S, R>|
                {
                    &&& #[trigger] old(tl).may_report(now)
                    &&& #[trigger] is_serviced(old(seq)@.seq, now, mid)
                    &&& is_resent(old(seq)@.seq, now, old(tl).sent(), final(tl).sent())
                    &&& final(seq)@.seq == (SeqState {
                        next_service_timestamp: final(seq)@.seq.next_service_timestamp,
                        ..mid
                    })
                    &&& !(forall|i: int|
                        0 <= i < CAP ==> #[trigger] final(seq)@.seq.send_window[i] is None)
                        ==> final(seq)@.seq == mid
                }
        },
{
    let pre = old(seq)@.seq;
    assert forall|t: i64| #[trigger] old(tl).may_report(t) implies is_serviced(
        pre,
        t,
        after_service(pre, t),
    ) && is_resent(pre, t, old(tl).sent(), old(tl).sent() + to_resend(pre, t)) by {
        lemma_serviced(pre, t);
        lemma_resent(pre, t, old(tl).sent());
    }
}

// ---- what can be asked ----

/// Any packet can be received by any session, closed or not, and any session can be pumped and
/// closed.
pub proof fn any_packet_can_be_received<S, R, TL: TransportLayer<S>, const CAP: usize>(
    seq: &mut SeqEx<S, R, CAP>,
    tl: &mut TL,
    packet: Packet<R>,
    guard: ReplyGuard,
    lock: SeqCstGuard,
)
    requires
        old(seq).wf(),
    ensures
        call_requires(SeqEx::<S, R, CAP>::try_receive::<TL>, (seq, tl, packet)),
        call_requires(SeqEx::<S, R, CAP>::receive::<TL>, (seq, tl, packet)),
        call_requires(SeqEx::<S, R, CAP>::try_receive_all::<TL>, (seq, tl, packet)),
        call_requires(SeqEx::<S, R, CAP>::receive_all::<TL>, (seq, tl, packet)),
        call_requires(SeqEx::<S, R, CAP>::try_pump, (seq,)),
        call_requires(SeqEx::<S, R, CAP>::pump, (seq,)),
        call_requires(SeqEx::<S, R, CAP>::pump_again, (seq,)),
        call_requires(SeqEx::<S, R, CAP>::close, (seq,)),
        call_requires(ReplyGuard::ack::<TL, S, R, CAP>, (guard, seq, tl)),
        call_requires(ReplyGuard::release::<TL, S, R, CAP>, (guard, seq, tl)),
        call_requires(SeqCstGuard::release::<S, R, CAP>, (lock, seq)),
{
}

/// Any session can be asked to send and to reply, as long as its waiting threads can be counted.
pub proof fn anything_can_be_sent<S, R, TL: TransportLayer<S>, const CAP: usize>(
    seq: &mut SeqEx<S, R, CAP>,
    tl: &mut TL,
    seq_cst: bool,
    timeout: i64,
    data: S,
    guard: ReplyGuard,
)
    requires
        old(seq).wf(),
        old(seq)@.recv_waiters < usize::MAX,
        forall|t: i64| #[trigger]
            old(tl).may_report(t) ==> i64::MIN <= t + old(seq)@.seq.resend_interval <= i64::MAX,
    ensures
        call_requires(SeqEx::<S, R, CAP>::try_send::<TL>, (seq, tl, seq_cst, data)),
        call_requires(SeqEx::<S, R, CAP>::send::<TL>, (seq, tl, seq_cst, data)),
        call_requires(
            SeqEx::<S, R, CAP>::send_timeout::<TL>,
            (seq, tl, seq_cst, timeout, data),
        ),
        call_requires(SeqEx::<S, R, CAP>::service_scheduled::<TL>, (seq, tl)),
        call_requires(ReplyGuard::reply::<TL, S, R, CAP>, (guard, seq, tl, seq_cst, data)),
        call_requires(
            ReplyGuard::reply_stay_locked::<TL, S, R, CAP>,
            (guard, seq, tl, seq_cst, data),
        ),
{
}

} // verus!
