//! What a session whose packets are awaited does, told by nothing but numbers, windows, packets
//! and who waits.
use super::guard::replied_with;
use super::layer::{all_untagged, TokioLayer};
use super::model::{sends, Tasks};
use super::recv::{accepts, hands_out, receives_async, ReceiveStep};
use super::service::ServiceWait;
use super::{AsyncError, AsyncRecvError, Awaited, Held, ReplyGuard, SeqEx, ServiceState};
use crate::behaviour::resending::{is_serviced, lemma_lists_due, lemma_serviced, lists_due};
use crate::behaviour::{awaits, has_room, is_sent, lemma_room, lemma_sent, lemma_takes_in};
use crate::behaviour::{lemma_takes_next, made, takes_in, takes_next};
use crate::error::{TryError, TryRawRecvError};
use crate::model::{lemma_held_count_fast_forward, slot, SeqState};
use crate::seq_queue::{pumped_packet, pumped_state, pumps, receives, RecvEntry, RecvOkRaw};
use crate::single_thread::{after_service, due_packets, to_resend};
use crate::transport_layer::{Packet, SeqNo};
use vstd::prelude::*;

verus! {

// ---- words ----

/// Whether everything around the session is the same, but for what has been handed to the
/// transport layer.
pub open spec fn same_tasks<S, R>(a: Tasks<S, R>, b: Tasks<S, R>) -> bool {
    &&& b.recv_waiters == a.recv_waiters
    &&& b.reply_waiters == a.reply_waiters
    &&& b.answers == a.answers
    &&& b.held == a.held
}

/// Whether a packet has been sent at a time that the transport layer may report.
pub open spec fn is_sent_in_time<S, R, TL: TokioLayer>(
    a: Tasks<S, R>,
    tl: TL,
    reply_no: Option<SeqNo>,
    seq_cst: bool,
    data: Awaited<S, R>,
    b: Tasks<S, R>,
) -> bool {
    &&& exists|t: i64| #[trigger]
        tl.may_report(t) && is_sent(a.seq, t, reply_no, seq_cst, data, b.seq)
    &&& b.sent == a.sent.push(made(a.seq.next_send, reply_no, seq_cst, data.1))
}

/// Whether the new service time is told if and only if it is not the old one.
pub open spec fn tells_new_time(before: i64, after: i64, update: Option<i64>) -> bool {
    &&& update is Some <==> after != before
    &&& update matches Some(t) ==> t == after
}

/// Whether the number is returned with an ack, where it is issued.
pub open spec fn gives_ack<S, R>(
    a: Tasks<S, R>,
    reply_no: SeqNo,
    unlock: bool,
    b: Tasks<S, R>,
) -> bool {
    if a.seq.replies.count(reply_no) > 0 {
        b == (Tasks {
            seq: SeqState {
                replies: a.seq.replies.remove(reply_no),
                locked: a.seq.locked && !unlock,
                ..a.seq
            },
            sent: a.sent.push(Packet::Ack(reply_no)),
            ..a
        })
    } else {
        b == a
    }
}

/// Whether what came out has been given to the task that awaits it: an answer to the task that
/// sent the packet, and any other packet to the task that received it. Where that task is gone,
/// the packet is acknowledged in its place.
pub open spec fn is_passed_on<S, R>(
    a: Tasks<S, R>,
    raw: RecvOkRaw<Awaited<S, R>, Held<R>>,
    delivered: bool,
    b: Tasks<S, R>,
) -> bool {
    match raw {
        RecvOkRaw::Payload { reply_no, seq_cst, recv_data } => {
            let told = Tasks {
                held: a.held.push((recv_data.0, (reply_no, seq_cst, recv_data.1), delivered)),
                ..a
            };
            &&& delivered ==> b == told
            &&& !delivered ==> gives_ack(told, reply_no, seq_cst, b)
        },
        RecvOkRaw::Reply { reply_no, seq_cst, recv_data, send_data } => {
            let told = Tasks {
                answers: a.answers.push(
                    (send_data.0, Some((reply_no, seq_cst, recv_data.1)), delivered),
                ),
                ..a
            };
            &&& delivered ==> b == told
            &&& !delivered ==> gives_ack(told, reply_no, seq_cst, b)
        },
        RecvOkRaw::Ack { send_data } => b == (Tasks {
            answers: a.answers.push((send_data.0, None, delivered)),
            ..a
        }),
    }
}

/// Whether `b` is `a` after the next packet has been pumped and passed on.
pub open spec fn is_pumped<S, R>(a: Tasks<S, R>, b: Tasks<S, R>) -> bool {
    exists|
        mid: SeqState<Awaited<S, R>, Held<R>>,
        raw: RecvOkRaw<Awaited<S, R>, Held<R>>,
        more: bool,
        delivered: bool,
    |
        {
            &&& #[trigger] takes_next(a.seq, mid, Ok((raw, more)))
            &&& #[trigger] is_passed_on((Tasks { seq: mid, ..a }), raw, delivered, b)
        }
}

/// Whether the states of `trace` follow one another by pumping, until nothing can be pumped.
pub open spec fn pumps_all<S, R>(trace: Seq<Tasks<S, R>>) -> bool {
    &&& trace.len() > 0
    &&& forall|j: int, k: int|
        #![trigger trace[j], trace[k]]
        0 <= j < trace.len() && k == j + 1 && k < trace.len() ==> is_pumped(trace[j], trace[k])
    &&& exists|e: TryError| #[trigger]
        takes_next(
            trace.last().seq,
            trace.last().seq,
            Err::<(RecvOkRaw<Awaited<S, R>, Held<R>>, bool), TryError>(e),
        )
}

/// What a received packet that is handed out at once does: all packets that can be processed then
/// are pumped. A payload goes to the task that received it, and an answer to the task that awaits
/// it. As many senders are woken as packets have been handed out, if so many wait.
pub open spec fn takes_in_and_pumps<S, R>(
    a: Tasks<S, R>,
    first: RecvOkRaw<Awaited<S, R>, Held<R>>,
    more: bool,
    b: Tasks<S, R>,
    result: Result<(ReplyGuard, R), AsyncRecvError>,
    woken: nat,
) -> bool {
    exists|trace: Seq<Tasks<S, R>>, last: Tasks<S, R>|
        {
            &&& #[trigger] goes_to_its_task(trace.last(), first, last, result)
            &&& trace.len() > 0
            &&& trace[0] == a
            &&& more ==> pumps_all(trace)
            &&& !more ==> trace.len() == 1
            &&& woken <= trace.len()
            &&& woken <= last.recv_waiters
            &&& woken == trace.len() || woken == last.recv_waiters
            &&& b == (Tasks { recv_waiters: (last.recv_waiters - woken) as nat, ..last })
        }
}

/// Whether the first packet goes to its task: a payload to the task that received it, and an
/// answer to the task that awaits it.
pub open spec fn goes_to_its_task<S, R>(
    a: Tasks<S, R>,
    first: RecvOkRaw<Awaited<S, R>, Held<R>>,
    b: Tasks<S, R>,
    result: Result<(ReplyGuard, R), AsyncRecvError>,
) -> bool {
    match first {
        RecvOkRaw::Payload { reply_no, seq_cst, recv_data } => {
            &&& b == a
            &&& result matches Ok((guard, data))
            &&& guard.reply_no() == reply_no
            &&& guard.holds_lock() == seq_cst
            &&& !guard.answered()
            &&& data == recv_data.1
        },
        _ => {
            &&& is_passed_on(a, first, true, b) || is_passed_on(a, first, false, b)
            &&& result matches Err(e)
            &&& e is AsyncReply
        },
    }
}

/// What a packet that is refused does: the task is told why, or awaits the packet where it has
/// been saved. Nobody is woken.
pub open spec fn is_refused<S, R>(
    a: Tasks<S, R>,
    e: TryRawRecvError,
    mid: SeqState<Awaited<S, R>, Held<R>>,
    b: Tasks<S, R>,
    step: ReceiveStep<R>,
    woken: nat,
) -> bool {
    &&& woken == 0
    &&& same_tasks(a, b)
    &&& b.seq == mid
    &&& match e {
        TryRawRecvError::DroppedDuplicateResendAck(n) => b.sent == a.sent.push(Packet::Ack(n)),
        _ => b.sent == a.sent,
    }
    &&& match e {
        TryRawRecvError::DroppedTooEarly => step matches ReceiveStep::Done(Err(r)) && r
            is DroppedTooEarly,
        TryRawRecvError::DroppedDuplicate | TryRawRecvError::DroppedDuplicateResendAck(_) => step
            matches ReceiveStep::Done(Err(r)) && r is DroppedDuplicate,
        TryRawRecvError::WaitingForRecv | TryRawRecvError::WaitingForReply => {
            &&& step is Await <==> mid.recv_window != a.seq.recv_window
            &&& step !is Await ==> (step matches ReceiveStep::Done(Err(r)) && r
                is DroppedDuplicate)
        },
    }
}

/// What any packet that comes in does, and what comes out of it.
pub open spec fn takes_in_async<S, R>(
    a: Tasks<S, R>,
    packet: Packet<Held<R>>,
    b: Tasks<S, R>,
    step: ReceiveStep<R>,
    woken: nat,
) -> bool {
    exists|
        mid: SeqState<Awaited<S, R>, Held<R>>,
        raw: Result<(RecvOkRaw<Awaited<S, R>, Held<R>>, bool), TryRawRecvError>,
    |
        {
            &&& #[trigger] takes_in(a.seq, packet, mid, raw)
            &&& match raw {
                Ok((first, more)) => {
                    &&& step matches ReceiveStep::Done(result)
                    &&& takes_in_and_pumps(
                        (Tasks { seq: mid, ..a }),
                        first,
                        more,
                        b,
                        result,
                        woken,
                    )
                },
                Err(e) => is_refused(a, e, mid, b, step, woken),
            }
        }
}

// ---- sending ----

proof fn lemma_sent_in_time<S, R, TL: TokioLayer>(
    a: Tasks<S, R>,
    before: Tasks<S, R>,
    tl: TL,
    reply_no: Option<SeqNo>,
    seq_cst: bool,
    data: Awaited<S, R>,
    b: Tasks<S, R>,
)
    requires
        before.seq.wf(),
        before.seq == (SeqState {
            replies: before.seq.replies,
            locked: before.seq.locked,
            ..a.seq
        }),
        before.sent == a.sent,
        forall|t: i64| #[trigger]
            tl.may_report(t) ==> i64::MIN <= t + a.seq.resend_interval <= i64::MAX,
        sends(before, tl, reply_no, seq_cst, data, b),
    ensures
        is_sent_in_time(a, tl, reply_no, seq_cst, data, b),
        b.seq.replies == before.seq.replies,
        b.seq.locked == before.seq.locked,
        same_tasks(before, b),
{
    let t = choose|t: i64| #[trigger]
        tl.may_report(t) && b == (Tasks {
            seq: before.seq.sent(t, reply_no, seq_cst, data),
            sent: before.sent.push(
                Packet::with_data(before.seq.next_send, reply_no, seq_cst, data.1),
            ),
            ..before
        });
    lemma_sent(before.seq, t, reply_no, seq_cst, data);
}

/// A packet is sent if and only if there is room for it, with data that is produced for its
/// number. Otherwise the function is given back, and one more task waits, for what the packet has
/// to wait for.
pub proof fn sending_needs_room<
    S,
    R,
    TL: TokioLayer<SendData = S>,
    F: FnOnce(SeqNo) -> Awaited<S, R>,
    const CAP: usize,
>(
    seq: &mut SeqEx<S, R, CAP>,
    tl: &mut TL,
    seq_cst: bool,
    f: F,
    result: Result<Option<i64>, (TryError, F)>,
)
    requires
        old(seq).wf(),
        forall|t: i64| #[trigger]
            old(tl).may_report(t) ==> i64::MIN <= t + old(seq)@.seq.resend_interval <= i64::MAX,
        call_ensures(
            SeqEx::<S, R, CAP>::send_with_inner::<TL, F>,
            (seq, tl, seq_cst, f),
            result,
        ),
    ensures
        result is Ok <==> has_room(old(seq)@.seq, None),
        ({
            let a = old(seq).tasks(old(tl).sent());
            let b = final(seq).tasks(final(tl).sent());
            match result {
                Ok(update) => {
                    &&& same_tasks(a, b)
                    &&& b.seq.replies == a.seq.replies
                    &&& b.seq.locked == a.seq.locked
                    &&& tells_new_time(
                        a.seq.next_service_timestamp,
                        b.seq.next_service_timestamp,
                        update,
                    )
                    &&& exists|data: Awaited<S, R>|
                        {
                            &&& #[trigger] call_ensures(f, (a.seq.next_send,), data)
                            &&& is_sent_in_time(a, *old(tl), None, seq_cst, data, b)
                        }
                },
                Err((e, back)) => {
                    &&& e == awaits(a.seq, None)
                    &&& back == f
                    &&& e is WaitingForRecv ==> b == (Tasks {
                        recv_waiters: a.recv_waiters + 1,
                        ..a
                    })
                    &&& e is WaitingForReply ==> b == (Tasks { reply_waiters: true, ..a })
                },
            }
        }),
{
    let a = old(seq).tasks(old(tl).sent());
    let b = final(seq).tasks(final(tl).sent());
    lemma_room(a.seq, None);
    if result is Ok {
        let data = choose|data: Awaited<S, R>|
            {
                &&& #[trigger] call_ensures(f, (a.seq.next_send,), data)
                &&& sends(a, *old(tl), None, seq_cst, data, b)
            };
        lemma_sent_in_time(a, a, *old(tl), None, seq_cst, data, b);
        assert(call_ensures(f, (a.seq.next_send,), data));
    }
}

/// The task that sent a packet gets the reply with a guard for its number, or learns that the
/// packet was acknowledged, or that the session is gone.
pub proof fn sender_gets_its_answer<R>(
    message: Option<Option<(SeqNo, bool, R)>>,
    result: Result<(ReplyGuard, R), AsyncError>,
)
    requires
        call_ensures(super::send::answer_arrived::<R>, (message,), result),
    ensures
        match message {
            Some(Some((reply_no, seq_cst, data))) => {
                &&& result matches Ok((guard, d))
                &&& guard.reply_no() == reply_no
                &&& guard.holds_lock() == seq_cst
                &&& !guard.answered()
                &&& d == data
            },
            Some(None) => result matches Err(e) && e is EndOfExchange,
            None => result matches Err(e) && e is SeqExClosed,
        },
{
}

/// The task that received a packet that had to wait gets it with a guard for its number, or learns
/// that the session is gone.
pub proof fn receiver_gets_its_packet<R>(
    message: Option<(SeqNo, bool, R)>,
    result: Result<(ReplyGuard, R), AsyncRecvError>,
)
    requires
        call_ensures(super::recv::held_arrived::<R>, (message,), result),
    ensures
        match message {
            Some((reply_no, seq_cst, data)) => {
                &&& result matches Ok((guard, d))
                &&& guard.reply_no() == reply_no
                &&& guard.holds_lock() == seq_cst
                &&& !guard.answered()
                &&& d == data
            },
            None => result matches Err(e) && e is SeqExClosed,
        },
{
}

// ---- receiving ----

proof fn lemma_pumped<S, R>(a: Tasks<S, R>, delivered: bool)
    requires
        a.seq.wf(),
        a.seq.pump_check() is Ok,
    ensures
        is_pumped(a, a.pumped(delivered)),
        a.pumped(delivered).seq.wf(),
{
    let mid = pumped_state(a.seq);
    let raw = pumped_packet(a.seq);
    let more = mid.can_pump();
    assert(pumps(a.seq, mid, Ok((raw, more))));
    lemma_takes_next(a.seq, mid, Ok((raw, more)));
    lemma_held_count_fast_forward(
        a.seq.recv_window.update(slot(a.seq.next_recv, a.seq.cap()), RecvEntry::Empty),
        a.seq.next_recv.wrapping_add(1),
    );
    assert(takes_next(a.seq, mid, Ok((raw, more))));
    assert(is_passed_on((Tasks { seq: mid, ..a }), raw, delivered, a.pumped(delivered)));
    assert(mid.wf());
}

proof fn lemma_pumped_times<S, R>(a: Tasks<S, R>, delivered: Seq<bool>, n: int)
    requires
        a.seq.wf(),
        a.can_pump_times(delivered),
        0 <= n <= delivered.len(),
    ensures
        a.pumped_times(delivered, n).seq.wf(),
        forall|k: int|
            0 <= k < n ==> is_pumped(
                #[trigger] a.pumped_times(delivered, k),
                a.pumped_times(delivered, k + 1),
            ),
    decreases n,
{
    if n > 0 {
        lemma_pumped_times(a, delivered, n - 1);
        lemma_pumped(a.pumped_times(delivered, n - 1), delivered[n - 1]);
    }
}

proof fn lemma_pumps_all<S, R>(a: Tasks<S, R>, n: nat, b: Tasks<S, R>) -> (trace: Seq<Tasks<S, R>>)
    requires
        a.seq.wf(),
        a.pumps_all(n, b),
    ensures
        trace.len() == n + 1,
        trace[0] == a,
        trace.last() == b,
        pumps_all(trace),
{
    let delivered = choose|delivered: Seq<bool>|
        {
            &&& delivered.len() == n
            &&& #[trigger] a.can_pump_times(delivered)
            &&& b == a.pumped_times(delivered, n as int)
            &&& b.seq.pump_check() is Err
        };
    let trace = Seq::new((n + 1) as nat, |k: int| a.pumped_times(delivered, k));
    lemma_pumped_times(a, delivered, n as int);
    assert forall|j: int, k: int|
        #![trigger trace[j], trace[k]]
        0 <= j < trace.len() && k == j + 1 && k < trace.len() implies is_pumped(
        trace[j],
        trace[k],
    ) by {
        assert(trace[j] == a.pumped_times(delivered, j));
    }
    let e = b.seq.pump_check()->Err_0;
    let raw = Err::<(RecvOkRaw<Awaited<S, R>, Held<R>>, bool), TryError>(e);
    assert(pumps(b.seq, b.seq, raw));
    lemma_takes_next(b.seq, b.seq, raw);
    assert(trace.last() == b);
    trace
}

proof fn lemma_takes_in_and_pumps<S, R>(
    a: Tasks<S, R>,
    first: RecvOkRaw<Awaited<S, R>, Held<R>>,
    more: bool,
    b: Tasks<S, R>,
    result: Result<(ReplyGuard, R), Option<AsyncRecvError>>,
    woken: nat,
)
    requires
        a.seq.wf(),
        accepts(a, first, more, b, result, woken),
    ensures
        result is Err ==> result->Err_0 is Some,
        takes_in_and_pumps(
            a,
            first,
            more,
            b,
            match result {
                Ok(ok) => Ok(ok),
                Err(e) => Err(e->0),
            },
            woken,
        ),
{
    let (pumped, n, last) = choose|pumped: Tasks<S, R>, n: nat, last: Tasks<S, R>|
        {
            &&& if more {
                a.pumps_all(n, pumped)
            } else {
                n == 0 && pumped == a
            }
            &&& #[trigger] hands_out(pumped, first, last, result)
            &&& woken == #[trigger] last.to_wake(n + 1)
            &&& b == last.woken(woken)
        };
    let trace = if more {
        lemma_pumps_all(a, n, pumped)
    } else {
        seq![a]
    };
    let told: Result<(ReplyGuard, R), AsyncRecvError> = match result {
        Ok(ok) => Ok(ok),
        Err(e) => Err(e->0),
    };
    assert(trace.last() == pumped);
    assert(goes_to_its_task(trace.last(), first, last, told));
}

proof fn lemma_saved_differs<S, R>(
    a: Tasks<S, R>,
    packet: Packet<Held<R>>,
    mid: SeqState<Awaited<S, R>, Held<R>>,
    raw: Result<(RecvOkRaw<Awaited<S, R>, Held<R>>, bool), TryRawRecvError>,
)
    requires
        a.seq.wf(),
        receives(a.seq, packet, mid, raw),
        raw is Err,
        raw->Err_0 is WaitingForRecv || raw->Err_0 is WaitingForReply,
    ensures
        super::recv::is_saved(a, packet) <==> mid.recv_window != a.seq.recv_window,
{
    let s = packet.seq_no()->0;
    let k = slot(s, a.seq.cap());
    if super::recv::is_saved(a, packet) {
        assert(a.seq.recv_window[k] is Empty);
        assert(mid.recv_window[k] is Occupied);
    } else {
        assert(mid == a.seq);
    }
}

/// A received packet that is handed out goes to its task, and all that can be processed then are
/// pumped. A packet that is not handed out is refused, or awaited where it has been saved.
pub proof fn receiving_takes_in_and_pumps<
    S,
    R,
    TL: TokioLayer<SendData = S>,
    const CAP: usize,
>(
    seq: &mut SeqEx<S, R, CAP>,
    tl: &mut TL,
    packet: Packet<Held<R>>,
    out: (ReceiveStep<R>, usize),
)
    requires
        old(seq).wf(),
        call_ensures(SeqEx::<S, R, CAP>::receive::<TL>, (seq, tl, packet), out),
    ensures
        takes_in_async(
            old(seq).tasks(old(tl).sent()),
            packet,
            final(seq).tasks(final(tl).sent()),
            out.0,
            out.1 as nat,
        ),
{
    let a = old(seq).tasks(old(tl).sent());
    let b = final(seq).tasks(final(tl).sent());
    let result = choose|result: Result<(ReplyGuard, R), Option<AsyncRecvError>>|
        {
            &&& #[trigger] receives_async(a, packet, b, result, out.1 as nat)
            &&& out.0 == super::recv::receive_step(a, packet, result)
        };
    let (mid, raw) = choose|
        mid: SeqState<Awaited<S, R>, Held<R>>,
        raw: Result<(RecvOkRaw<Awaited<S, R>, Held<R>>, bool), TryRawRecvError>,
    |
        {
            &&& #[trigger] receives(a.seq, packet, mid, raw)
            &&& match raw {
                Ok((first, do_pump)) => accepts(
                    a.with_seq(mid),
                    first,
                    do_pump,
                    b,
                    result,
                    out.1 as nat,
                ),
                Err(e) => {
                    &&& b == (Tasks {
                        seq: mid,
                        sent: match e {
                            TryRawRecvError::DroppedDuplicateResendAck(s) => a.sent.push(
                                Packet::Ack(s),
                            ),
                            _ => a.sent,
                        },
                        ..a
                    })
                    &&& result is Err
                    &&& result->Err_0 == super::recv::refusal(e)
                    &&& out.1 == 0
                },
            }
        };
    lemma_takes_in(a.seq, packet, mid, raw);
    match raw {
        Ok((first, more)) => {
            lemma_received_wf(a.seq, packet, mid, raw);
            lemma_takes_in_and_pumps(
                a.with_seq(mid),
                first,
                more,
                b,
                result,
                out.1 as nat,
            );
        },
        Err(e) => {
            if e is WaitingForRecv || e is WaitingForReply {
                lemma_saved_differs(a, packet, mid, raw);
            }
        },
    }
}

proof fn lemma_received_wf<S, R, P: Into<R>>(
    a: SeqState<S, R>,
    packet: Packet<P>,
    b: SeqState<S, R>,
    raw: Result<(RecvOkRaw<S, P>, bool), TryRawRecvError>,
)
    requires
        a.wf(),
        receives(a, packet, b, raw),
        raw is Ok,
    ensures
        b.wf(),
{
    lemma_held_count_fast_forward(
        a.recv_window.update(slot(a.next_recv, a.cap()), RecvEntry::Empty),
        a.next_recv.wrapping_add(1),
    );
}

proof fn lemma_waiters<S, R>(a: Tasks<S, R>, delivered: Seq<bool>, n: int)
    ensures
        a.pumped_times(delivered, n).recv_waiters == a.recv_waiters,
        a.pumped_times(delivered, n).reply_waiters == a.reply_waiters,
    decreases n,
{
    if n > 0 {
        lemma_waiters(a, delivered, n - 1);
    }
}

/// Receiving wakes no more senders than wait, and at least one of them where a packet is handed
/// out or answers another. Those that are woken wait no longer, and nobody is woken where the
/// packet is dropped or awaited.
pub proof fn receiving_wakes_senders<S, R, TL: TokioLayer<SendData = S>, const CAP: usize>(
    seq: &mut SeqEx<S, R, CAP>,
    tl: &mut TL,
    packet: Packet<Held<R>>,
    out: (ReceiveStep<R>, usize),
)
    requires
        old(seq).wf(),
        call_ensures(SeqEx::<S, R, CAP>::receive::<TL>, (seq, tl, packet), out),
    ensures
        out.1 <= old(seq)@.recv_waiters,
        final(seq)@.recv_waiters == old(seq)@.recv_waiters - out.1,
        final(seq)@.reply_waiters == old(seq)@.reply_waiters,
        match out.0 {
            ReceiveStep::Done(Ok(_)) => old(seq)@.recv_waiters > 0 ==> out.1 > 0,
            ReceiveStep::Done(Err(AsyncRecvError::AsyncReply)) => old(seq)@.recv_waiters > 0
                ==> out.1 > 0,
            _ => out.1 == 0,
        },
{
    let a = old(seq).tasks(old(tl).sent());
    let b = final(seq).tasks(final(tl).sent());
    let result = choose|result: Result<(ReplyGuard, R), Option<AsyncRecvError>>|
        {
            &&& #[trigger] receives_async(a, packet, b, result, out.1 as nat)
            &&& out.0 == super::recv::receive_step(a, packet, result)
        };
    assert forall|mid: SeqState<Awaited<S, R>, Held<R>>, n: nat, pumped: Tasks<S, R>|
        #[trigger] a.with_seq(mid).pumps_all(n, pumped) implies {
        &&& pumped.recv_waiters == a.recv_waiters
        &&& pumped.reply_waiters == a.reply_waiters
    } by {
        let start = a.with_seq(mid);
        let delivered = choose|delivered: Seq<bool>|
            {
                &&& delivered.len() == n
                &&& #[trigger] start.can_pump_times(delivered)
                &&& pumped == start.pumped_times(delivered, n as int)
                &&& pumped.seq.pump_check() is Err
            };
        lemma_waiters(start, delivered, n as int);
    }
}

// ---- guards ----

/// Whether the number is returned with a reply, where it is issued, and the tasks that wait for a
/// reply to be finished are woken.
pub open spec fn gives_reply<S, R, TL: TokioLayer>(
    a: Tasks<S, R>,
    tl: TL,
    reply_no: SeqNo,
    unlock: bool,
    seq_cst: bool,
    data: Awaited<S, R>,
    b: Tasks<S, R>,
) -> bool {
    &&& b.recv_waiters == a.recv_waiters
    &&& b.answers == a.answers
    &&& b.held == a.held
    &&& !b.reply_waiters
    &&& if a.seq.replies.count(reply_no) > 0 {
        &&& is_sent_in_time(a, tl, Some(reply_no), seq_cst, data, b)
        &&& b.seq.replies == a.seq.replies.remove(reply_no)
        &&& b.seq.locked == (a.seq.locked && !unlock)
    } else {
        b.seq == a.seq && b.sent == a.sent
    }
}

/// What a guard does that replies with data that is produced for it.
pub open spec fn gives_produced_reply<
    S,
    R,
    TL: TokioLayer<SendData = S>,
    F: FnOnce(SeqNo, SeqNo) -> Awaited<S, R>,
>(
    a: Tasks<S, R>,
    tl: TL,
    guard: ReplyGuard,
    seq_cst: bool,
    f: F,
    b: Tasks<S, R>,
    out: (Option<i64>, bool),
) -> bool {
    &&& out.1 <==> a.reply_waiters
    &&& tells_new_time(a.seq.next_service_timestamp, b.seq.next_service_timestamp, out.0)
    &&& exists|data: Awaited<S, R>|
        {
            &&& #[trigger] call_ensures(f, (a.seq.next_send, guard.reply_no()), data)
            &&& gives_reply(
                a,
                tl,
                guard.reply_no(),
                guard.holds_lock(),
                seq_cst,
                data,
                b,
            )
        }
}

proof fn lemma_gives_produced_reply<
    S,
    R,
    TL: TokioLayer<SendData = S>,
    F: FnOnce(SeqNo, SeqNo) -> Awaited<S, R>,
>(
    a: Tasks<S, R>,
    tl: TL,
    guard: ReplyGuard,
    seq_cst: bool,
    f: F,
    b: Tasks<S, R>,
    out: (Option<i64>, bool),
)
    requires
        a.seq.wf(),
        forall|t: i64| #[trigger]
            tl.may_report(t) ==> i64::MIN <= t + a.seq.resend_interval <= i64::MAX,
        replied_with(a, tl, guard, seq_cst, f, b, out),
    ensures
        gives_produced_reply(a, tl, guard, seq_cst, f, b, out),
{
    let (data, mid) = choose|data: Awaited<S, R>, mid: Tasks<S, R>|
        {
            &&& #[trigger] call_ensures(f, (a.seq.next_send, guard.reply_no()), data)
            &&& #[trigger] super::guard::replies(a, tl, guard, seq_cst, data, mid)
            &&& b == mid.notified()
        };
    if a.seq.replies.count(guard.reply_no()) > 0 {
        let before = a.with_seq(a.seq.returned(guard.reply_no(), guard.holds_lock()));
        assert(before.seq.replies.len() + 1 == a.seq.replies.len());
        lemma_sent_in_time(a, before, tl, Some(guard.reply_no()), seq_cst, data, mid);
    }
    assert(call_ensures(f, (a.seq.next_send, guard.reply_no()), data));
}

/// A guard replies with its number, and unlocks the session if and only if it holds the lock. The
/// data is produced for the number of the reply and the number of the packet that is replied to.
pub proof fn guard_replies_and_unlocks<
    TL: TokioLayer<SendData = S>,
    S,
    R,
    const CAP: usize,
    F: FnOnce(SeqNo, SeqNo) -> Awaited<S, R>,
>(
    guard: ReplyGuard,
    seq: &mut SeqEx<S, R, CAP>,
    tl: &mut TL,
    seq_cst: bool,
    f: F,
    out: (Option<i64>, bool),
)
    requires
        old(seq).wf(),
        forall|t: i64| #[trigger]
            old(tl).may_report(t) ==> i64::MIN <= t + old(seq)@.seq.resend_interval <= i64::MAX,
        call_ensures(
            ReplyGuard::reply_with::<TL, S, R, CAP, F>,
            (guard, seq, tl, seq_cst, f),
            out,
        ),
    ensures
        gives_produced_reply(
            old(seq).tasks(old(tl).sent()),
            *old(tl),
            guard,
            seq_cst,
            f,
            final(seq).tasks(final(tl).sent()),
            out,
        ),
{
    lemma_gives_produced_reply(
        old(seq).tasks(old(tl).sent()),
        *old(tl),
        guard,
        seq_cst,
        f,
        final(seq).tasks(final(tl).sent()),
        out,
    );
}

/// A guard that has answered already does not reply. It is given back, and nothing changes.
pub proof fn guard_replies_once<
    TL: TokioLayer<SendData = S>,
    S,
    R,
    const CAP: usize,
    F: FnOnce(SeqNo, SeqNo) -> Awaited<S, R>,
>(
    guard: ReplyGuard,
    seq: &mut SeqEx<S, R, CAP>,
    tl: &mut TL,
    seq_cst: bool,
    f: F,
    result: Result<(Option<i64>, bool), (ReplyGuard, F)>,
)
    requires
        old(seq).wf(),
        forall|t: i64| #[trigger]
            old(tl).may_report(t) ==> i64::MIN <= t + old(seq)@.seq.resend_interval <= i64::MAX,
        call_ensures(
            ReplyGuard::try_reply_with::<TL, S, R, CAP, F>,
            (guard, seq, tl, seq_cst, f),
            result,
        ),
    ensures
        result is Ok <==> !guard.answered(),
        match result {
            Ok(out) => gives_produced_reply(
                old(seq).tasks(old(tl).sent()),
                *old(tl),
                guard,
                seq_cst,
                f,
                final(seq).tasks(final(tl).sent()),
                out,
            ),
            Err((same, g)) => {
                &&& same == guard
                &&& g == f
                &&& final(seq).tasks(final(tl).sent()) == old(seq).tasks(old(tl).sent())
            },
        },
{
    if let Ok(out) = result {
        lemma_gives_produced_reply(
            old(seq).tasks(old(tl).sent()),
            *old(tl),
            guard,
            seq_cst,
            f,
            final(seq).tasks(final(tl).sent()),
            out,
        );
    }
}

/// A guard acknowledges once, and unlocks the session if and only if it holds the lock. It keeps
/// its number.
pub proof fn guard_acks_once<TL: TokioLayer<SendData = S>, S, R, const CAP: usize>(
    guard: &mut ReplyGuard,
    seq: &mut SeqEx<S, R, CAP>,
    tl: &mut TL,
)
    requires
        old(seq).wf(),
        call_ensures(ReplyGuard::ack::<TL, S, R, CAP>, (guard, seq, tl), ()),
    ensures
        final(guard).answered(),
        final(guard).reply_no() == old(guard).reply_no(),
        final(guard).holds_lock() == old(guard).holds_lock(),
        old(guard).answered() ==> final(seq).tasks(final(tl).sent()) == old(seq).tasks(
            old(tl).sent(),
        ),
        !old(guard).answered() ==> gives_ack(
            old(seq).tasks(old(tl).sent()),
            old(guard).reply_no(),
            old(guard).holds_lock(),
            final(seq).tasks(final(tl).sent()),
        ),
{
}

/// A guard that is released acknowledges, unless it has answered. The tasks that wait for a reply
/// to be finished are woken if and only if there are any.
pub proof fn released_guard_acks<TL: TokioLayer<SendData = S>, S, R, const CAP: usize>(
    guard: ReplyGuard,
    seq: &mut SeqEx<S, R, CAP>,
    tl: &mut TL,
    wake: bool,
)
    requires
        old(seq).wf(),
        call_ensures(ReplyGuard::release::<TL, S, R, CAP>, (guard, seq, tl), wake),
    ensures
        ({
            let a = old(seq).tasks(old(tl).sent());
            let b = final(seq).tasks(final(tl).sent());
            &&& wake <==> a.reply_waiters
            &&& !b.reply_waiters
            &&& guard.answered() ==> b == (Tasks { reply_waiters: false, ..a })
            &&& !guard.answered() ==> gives_ack(
                (Tasks { reply_waiters: false, ..a }),
                guard.reply_no(),
                guard.holds_lock(),
                b,
            )
        }),
{
}

/// A guard can be taken apart into its number and whether it holds the lock, and made again of
/// them. It has not answered then.
pub proof fn guard_is_what_it_is_made_of(
    guard: ReplyGuard,
    seq_cst: bool,
    replied: bool,
    components: (SeqNo, bool),
    again: ReplyGuard,
)
    requires
        call_ensures(ReplyGuard::is_seq_cst, (&guard,), seq_cst),
        call_ensures(ReplyGuard::has_replied, (&guard,), replied),
        call_ensures(ReplyGuard::to_components, (guard,), components),
        call_ensures(ReplyGuard::from_components, (components.0, components.1), again),
    ensures
        seq_cst == guard.holds_lock(),
        replied == guard.answered(),
        components.0 == guard.reply_no(),
        components.1 == guard.holds_lock(),
        again.reply_no() == guard.reply_no(),
        again.holds_lock() == guard.holds_lock(),
        !again.answered(),
{
}

// ---- the session as a whole ----

/// A new session has sent and received nothing, and nobody waits.
pub proof fn new_session_is_empty<S, R, const CAP: usize>(
    interval: i64,
    first: SeqNo,
    new: (SeqEx<S, R, CAP>, ServiceState),
)
    requires
        call_ensures(SeqEx::<S, R, CAP>::new, (interval, first), new),
    ensures
        new.1@ == i64::MAX,
        new.0@.recv_waiters == 0,
        !new.0@.reply_waiters,
        new.0@.answers.len() == 0,
        new.0@.held.len() == 0,
        new.0@.seq.send_window.len() == CAP,
        new.0@.seq.recv_window.len() == CAP,
        forall|i: int| 0 <= i < CAP ==> #[trigger] new.0@.seq.send_window[i] is None,
        forall|i: int| 0 <= i < CAP ==> #[trigger] new.0@.seq.recv_window[i] is Empty,
        new.0@.seq.replies.len() == 0,
        new.0@.seq.next_send == first,
        new.0@.seq.next_recv == first,
        !new.0@.seq.locked,
        new.0@.seq.resend_interval == interval,
        new.0@.seq.next_service_timestamp == i64::MAX,
{
    assert(new.0.tasks(Seq::empty()).recv_waiters == 0);
}

/// A default session starts with the number 0 and resends after a quarter of a second.
pub proof fn default_session_is_empty<S, R, const CAP: usize>(
    new: (SeqEx<S, R, CAP>, ServiceState),
)
    requires
        call_ensures(SeqEx::<S, R, CAP>::new_default, (), new),
    ensures
        new.1@ == i64::MAX,
        new.0@.recv_waiters == 0,
        !new.0@.reply_waiters,
        new.0@.seq.send_window.len() == CAP,
        new.0@.seq.recv_window.len() == CAP,
        forall|i: int| 0 <= i < CAP ==> #[trigger] new.0@.seq.send_window[i] is None,
        forall|i: int| 0 <= i < CAP ==> #[trigger] new.0@.seq.recv_window[i] is Empty,
        new.0@.seq.replies.len() == 0,
        new.0@.seq.next_send == 0,
        new.0@.seq.next_recv == 0,
        !new.0@.seq.locked,
        new.0@.seq.resend_interval == 250,
        new.0@.seq.next_service_timestamp == i64::MAX,
{
    assert(new.0.tasks(Seq::empty()).recv_waiters == 0);
}

/// The service task waits until the next service is due, for ever where none is, and not at all
/// where it is due already. A new service time ends the wait in either case.
pub proof fn service_waits_for_its_time<TL: TokioLayer>(
    state: ServiceState,
    tl: &mut TL,
    wait: ServiceWait,
)
    requires
        call_ensures(ServiceState::wait::<TL>, (&state, tl), wait),
    ensures
        final(tl).sent() == old(tl).sent(),
        wait is UpdateForever <==> state@ == i64::MAX,
        state@ < i64::MAX ==> exists|now: i64|
            {
                &&& #[trigger] old(tl).may_report(now)
                &&& wait is Nothing <==> state@ <= now
                &&& wait is Update <==> now < state@
                &&& wait matches ServiceWait::Update(millis) ==> millis == state@ - now
            },
{
}

/// Whether `b` is `a` without what is kept with the data.
pub open spec fn is_bare<Tag, S>(a: Packet<(Tag, S)>, b: Packet<S>) -> bool {
    match (a, b) {
        (Packet::Payload(s, d), Packet::Payload(t, e)) => s == t && d.1 == e,
        (Packet::SeqCstPayload(s, d), Packet::SeqCstPayload(t, e)) => s == t && d.1 == e,
        (Packet::Reply(s, r, d), Packet::Reply(t, q, e)) => s == t && r == q && d.1 == e,
        (Packet::SeqCstReply(s, r, d), Packet::SeqCstReply(t, q, e)) => s == t && r == q && d.1
            == e,
        (Packet::Ack(r), Packet::Ack(q)) => r == q,
        _ => false,
    }
}

/// Whether a pass at time `now` has resent every packet whose resend time is not after `now`, once
/// each and in the order of the slots, and no other.
pub open spec fn is_resent<S, R>(a: Tasks<S, R>, now: i64, b: Tasks<S, R>) -> bool {
    if now < a.seq.next_service_timestamp {
        b.sent == a.sent
    } else {
        exists|picked: Seq<int>, packets: Seq<Packet<Awaited<S, R>>>|
            {
                &&& #[trigger] lists_due(
                    a.seq.send_window,
                    now,
                    a.seq.send_window.len() as int,
                    picked,
                    packets,
                )
                &&& b.sent.len() == a.sent.len() + packets.len()
                &&& b.sent.take(a.sent.len() as int) == a.sent
                &&& forall|j: int|
                    0 <= j < packets.len() ==> is_bare(
                        #[trigger] packets[j],
                        b.sent[a.sent.len() + j],
                    )
            }
    }
}

proof fn lemma_resent<S, R>(a: Tasks<S, R>, now: i64)
    ensures
        is_resent(
            a,
            now,
            (Tasks { sent: a.sent + all_untagged(to_resend(a.seq, now)), ..a }),
        ),
{
    let cap = a.seq.send_window.len() as int;
    let sent = a.sent + all_untagged(to_resend(a.seq, now));
    if now < a.seq.next_service_timestamp {
        assert(sent =~= a.sent);
    } else {
        let packets = due_packets(a.seq.send_window, now, cap);
        let picked = lemma_lists_due(a.seq.send_window, now, cap);
        assert(sent.take(a.sent.len() as int) =~= a.sent);
        assert(lists_due(a.seq.send_window, now, cap, picked, packets));
    }
}

/// A new service time is kept if it is earlier than the one that is known. Without one, the
/// session is serviced at a time that the transport layer may report, and the next service is due
/// when the first packet is.
pub proof fn service_task_keeps_the_time<
    S,
    R,
    TL: TokioLayer<SendData = S>,
    const CAP: usize,
>(
    seq: &mut SeqEx<S, R, CAP>,
    tl: &mut TL,
    state: &mut ServiceState,
    update: Option<i64>,
)
    requires
        old(seq).wf(),
        call_ensures(SeqEx::<S, R, CAP>::service_task::<TL>, (seq, tl, state, update), ()),
    ensures
        ({
            let a = old(seq).tasks(old(tl).sent());
            let b = final(seq).tasks(final(tl).sent());
            match update {
                Some(time) => {
                    &&& b == a
                    &&& time < old(state)@ ==> final(state)@ == time
                    &&& time >= old(state)@ ==> final(state)@ == old(state)@
                },
                None => {
                    &&& same_tasks(a, b)
                    &&& final(state)@ == b.seq.next_service_timestamp
                    &&& exists|now: i64|
                        {
                            &&& #[trigger] old(tl).may_report(now)
                            &&& is_serviced(a.seq, now, b.seq)
                            &&& is_resent(a, now, b)
                        }
                },
            }
        }),
{
    let a = old(seq).tasks(old(tl).sent());
    let b = final(seq).tasks(final(tl).sent());
    if update is None {
        let now = choose|t: i64|
            {
                &&& #[trigger] old(tl).may_report(t)
                &&& b == (Tasks {
                    seq: after_service(a.seq, t),
                    sent: a.sent + all_untagged(to_resend(a.seq, t)),
                    ..a
                })
                &&& final(state)@ == b.seq.next_service_timestamp
            };
        lemma_serviced(a.seq, now);
        lemma_resent(a, now);
        assert(is_resent(a, now, b));
    }
}

// ---- what can be asked ----

/// Any packet can be received by any session, and any guard can be used to acknowledge.
pub proof fn any_packet_can_be_received<
    S,
    R,
    TL: TokioLayer<SendData = S>,
    const CAP: usize,
>(
    seq: &mut SeqEx<S, R, CAP>,
    tl: &mut TL,
    packet: Packet<Held<R>>,
    guard: ReplyGuard,
    state: &mut ServiceState,
    update: Option<i64>,
)
    requires
        old(seq).wf(),
        forall|t: i64| #[trigger]
            old(tl).may_report(t) ==> i64::MIN <= t + old(seq)@.seq.resend_interval <= i64::MAX,
    ensures
        call_requires(SeqEx::<S, R, CAP>::receive::<TL>, (seq, tl, packet)),
        call_requires(SeqEx::<S, R, CAP>::service_task::<TL>, (seq, tl, state, update)),
        call_requires(ReplyGuard::release::<TL, S, R, CAP>, (guard, seq, tl)),
{
}

} // verus!
