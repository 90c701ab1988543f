//! What a session does with a transport layer, and what its guards do, told by nothing but
//! numbers, windows and packets.
use crate::behaviour::{awaits, has_room, is_sent, lemma_room, lemma_sent, lemma_takes_in};
use crate::behaviour::{lemma_takes_next, made, takes_in, takes_next};
use crate::error::{RecvError, TryError, TryRawRecvError};
use crate::guard::{RecvOk, ReplyGuard, SeqCstGuard};
use crate::model::SeqState;
use crate::seq_queue::{pumps, receives, RecvOkRaw, SeqEx};
use crate::single_thread::{receives_and_resends, replies, sent_at_some_time};
use crate::transport_layer::{Packet, SeqNo, TransportLayer};
use vstd::prelude::*;

verus! {

// ---- words ----

/// Whether `b` is `a` after a packet has been sent at a time that the transport layer may report.
pub open spec fn is_sent_in_time<S, R, TL: TransportLayer<S>>(
    a: SeqState<S, R>,
    tl: TL,
    reply_no: Option<SeqNo>,
    seq_cst: bool,
    data: S,
    b: SeqState<S, R>,
) -> bool {
    exists|t: i64| #[trigger] tl.may_report(t) && is_sent(a, t, reply_no, seq_cst, data, b)
}

/// Whether the number is returned with a reply, where it is issued. The reply is handed to the
/// transport layer, and the session is unlocked if that is asked for. Where the number is not
/// issued, nothing changes.
pub open spec fn gives_reply<S, R, TL: TransportLayer<S>>(
    a: SeqState<S, R>,
    tl: TL,
    reply_no: SeqNo,
    unlock: bool,
    seq_cst: bool,
    data: S,
    b: SeqState<S, R>,
    tl_after: TL,
) -> bool {
    if a.replies.count(reply_no) > 0 {
        &&& is_sent_in_time(a, tl, Some(reply_no), seq_cst, data, b)
        &&& b.replies == a.replies.remove(reply_no)
        &&& b.locked == (a.locked && !unlock)
        &&& tl_after.sent() == tl.sent().push(made(a.next_send, Some(reply_no), seq_cst, data))
    } else {
        b == a && tl_after.sent() == tl.sent()
    }
}

/// Whether the number is returned with an ack, where it is issued. The ack is handed to the
/// transport layer, and the session is unlocked if that is asked for. Where the number is not
/// issued, nothing changes.
pub open spec fn gives_ack<S, R, TL: TransportLayer<S>>(
    a: SeqState<S, R>,
    tl: TL,
    reply_no: SeqNo,
    unlock: bool,
    b: SeqState<S, R>,
    tl_after: TL,
) -> bool {
    if a.replies.count(reply_no) > 0 {
        &&& b == (SeqState {
            replies: a.replies.remove(reply_no),
            locked: a.locked && !unlock,
            ..a
        })
        &&& tl_after.sent() == tl.sent().push(Packet::Ack(reply_no))
    } else {
        b == a && tl_after.sent() == tl.sent()
    }
}

/// Whether `result` tells the outcome `raw` of a packet that came in, and an ack is handed to the
/// transport layer if and only if the packet was handed out before and nothing else will answer
/// it.
pub open spec fn tells<S, P, TL: TransportLayer<S>>(
    raw: Result<(RecvOkRaw<S, P>, bool), TryRawRecvError>,
    tl: TL,
    tl_after: TL,
    result: Result<(RecvOkRaw<S, P>, bool), RecvError>,
) -> bool {
    match raw {
        Ok(out) => result == Ok::<_, RecvError>(out) && tl_after.sent() == tl.sent(),
        Err(TryRawRecvError::DroppedTooEarly) => {
            &&& result matches Err(e)
            &&& e is DroppedTooEarly
            &&& tl_after.sent() == tl.sent()
        },
        Err(TryRawRecvError::DroppedDuplicate) => {
            &&& result matches Err(e)
            &&& e is DroppedDuplicate
            &&& tl_after.sent() == tl.sent()
        },
        Err(TryRawRecvError::DroppedDuplicateResendAck(n)) => {
            &&& result matches Err(e)
            &&& e is DroppedDuplicate
            &&& tl_after.sent() == tl.sent().push(Packet::Ack(n))
        },
        Err(TryRawRecvError::WaitingForRecv) => {
            &&& result matches Err(e)
            &&& e is WaitingForRecv
            &&& tl_after.sent() == tl.sent()
        },
        Err(TryRawRecvError::WaitingForReply) => {
            &&& result matches Err(e)
            &&& e is WaitingForReply
            &&& tl_after.sent() == tl.sent()
        },
    }
}

/// Whether a packet that comes in does what is said of it, and the outcome is told.
pub open spec fn takes_in_and_tells<S, R, P: Into<R>, TL: TransportLayer<S>>(
    a: SeqState<S, R>,
    tl: TL,
    packet: Packet<P>,
    b: SeqState<S, R>,
    tl_after: TL,
    result: Result<(RecvOkRaw<S, P>, bool), RecvError>,
) -> bool {
    exists|raw: Result<(RecvOkRaw<S, P>, bool), TryRawRecvError>|
        #[trigger] takes_in(a, packet, b, raw) && tells(raw, tl, tl_after, result)
}

pub(crate) proof fn lemma_sent_in_time<S, R, TL: TransportLayer<S>>(
    a: SeqState<S, R>,
    before: SeqState<S, R>,
    tl: TL,
    reply_no: Option<SeqNo>,
    seq_cst: bool,
    data: S,
    b: SeqState<S, R>,
)
    requires
        a.wf(),
        before.wf(),
        before == (SeqState { replies: before.replies, locked: before.locked, ..a }),
        forall|t: i64| #[trigger]
            tl.may_report(t) ==> i64::MIN <= t + a.resend_interval <= i64::MAX,
        sent_at_some_time(before, tl, reply_no, seq_cst, data, b),
    ensures
        is_sent_in_time(a, tl, reply_no, seq_cst, data, b),
        b.replies == before.replies,
        b.locked == before.locked,
{
    let t = choose|t: i64| #[trigger]
        tl.may_report(t) && b == before.sent(t, reply_no, seq_cst, data);
    lemma_sent(before, t, reply_no, seq_cst, data);
}

pub(crate) proof fn lemma_gives_reply<S, R, TL: TransportLayer<S>>(
    a: SeqState<S, R>,
    tl: TL,
    reply_no: SeqNo,
    unlock: bool,
    seq_cst: bool,
    data: S,
    b: SeqState<S, R>,
    tl_after: TL,
)
    requires
        a.wf(),
        forall|t: i64| #[trigger]
            tl.may_report(t) ==> i64::MIN <= t + a.resend_interval <= i64::MAX,
        replies(a, tl, reply_no, unlock, seq_cst, data, b, tl_after),
    ensures
        gives_reply(a, tl, reply_no, unlock, seq_cst, data, b, tl_after),
{
    if a.replies.count(reply_no) > 0 {
        let before = a.returned(reply_no, unlock);
        assert(before.replies.len() + 1 == a.replies.len());
        lemma_sent_in_time(a, before, tl, Some(reply_no), seq_cst, data, b);
    }
}

pub(crate) proof fn lemma_takes_in_and_tells<S, R, P: Into<R>, TL: TransportLayer<S>>(
    a: SeqState<S, R>,
    tl: TL,
    packet: Packet<P>,
    b: SeqState<S, R>,
    tl_after: TL,
    result: Result<(RecvOkRaw<S, P>, bool), RecvError>,
)
    requires
        a.wf(),
        receives_and_resends(a, tl, packet, b, tl_after, result),
    ensures
        takes_in_and_tells(a, tl, packet, b, tl_after, result),
{
    let raw = choose|raw: Result<(RecvOkRaw<S, P>, bool), TryRawRecvError>|
        {
            &&& #[trigger] receives(a, packet, b, raw)
            &&& tl_after.sent() == match raw {
                Err(TryRawRecvError::DroppedDuplicateResendAck(s)) => tl.sent().push(
                    Packet::Ack(s),
                ),
                _ => tl.sent(),
            }
            &&& match raw {
                Ok(ok) => result matches Ok(r) && r == ok,
                Err(e) => result matches Err(r) && r == crate::single_thread::recv_error(e),
            }
        };
    lemma_takes_in(a, packet, b, raw);
    assert(tells(raw, tl, tl_after, result));
}

// ---- sending and receiving ----

/// A packet is handed to the transport layer if and only if there is room for it. It has the next
/// number. A packet that is not sent is given back, and nothing changes.
pub proof fn sending_needs_room<S, R, TL: TransportLayer<S>, const CAP: usize>(
    seq: &mut SeqEx<S, R, CAP>,
    tl: &mut TL,
    seq_cst: bool,
    data: S,
    result: Result<(), (TryError, S)>,
)
    requires
        old(seq).wf(),
        forall|t: i64| #[trigger]
            old(tl).may_report(t) ==> i64::MIN <= t + old(seq)@.resend_interval <= i64::MAX,
        call_ensures(SeqEx::<S, R, CAP>::try_send::<TL>, (seq, tl, seq_cst, data), result),
    ensures
        result is Ok <==> has_room(old(seq)@, None),
        match result {
            Ok(()) => {
                &&& is_sent_in_time(old(seq)@, *old(tl), None, seq_cst, data, final(seq)@)
                &&& final(seq)@.replies == old(seq)@.replies
                &&& final(seq)@.locked == old(seq)@.locked
                &&& final(tl).sent() == old(tl).sent().push(
                    made(old(seq)@.next_send, None, seq_cst, data),
                )
            },
            Err((e, back)) => {
                &&& e == awaits(old(seq)@, None)
                &&& back == data
                &&& final(seq)@ == old(seq)@
                &&& final(tl).sent() == old(tl).sent()
            },
        },
{
    lemma_room(old(seq)@, None);
    if result is Ok {
        lemma_sent_in_time(
            old(seq)@,
            old(seq)@,
            *old(tl),
            None,
            seq_cst,
            data,
            final(seq)@,
        );
    }
}

/// The same holds where the data is produced once there is room for it. The function gets the
/// number of the packet, and is given back where nothing is sent.
pub proof fn sending_with_needs_room<
    S,
    R,
    TL: TransportLayer<S>,
    F: FnOnce(SeqNo) -> S,
    const CAP: usize,
>(seq: &mut SeqEx<S, R, CAP>, tl: &mut TL, seq_cst: bool, f: F, result: Result<(), (TryError, F)>)
    requires
        old(seq).wf(),
        forall|t: i64| #[trigger]
            old(tl).may_report(t) ==> i64::MIN <= t + old(seq)@.resend_interval <= i64::MAX,
        call_ensures(SeqEx::<S, R, CAP>::try_send_with::<TL, F>, (seq, tl, seq_cst, f), result),
    ensures
        result is Ok <==> has_room(old(seq)@, None),
        match result {
            Ok(()) => exists|data: S|
                {
                    &&& #[trigger] call_ensures(f, (old(seq)@.next_send,), data)
                    &&& is_sent_in_time(old(seq)@, *old(tl), None, seq_cst, data, final(seq)@)
                    &&& final(seq)@.replies == old(seq)@.replies
                    &&& final(seq)@.locked == old(seq)@.locked
                    &&& final(tl).sent() == old(tl).sent().push(
                        made(old(seq)@.next_send, None, seq_cst, data),
                    )
                },
            Err((e, back)) => {
                &&& e == awaits(old(seq)@, None)
                &&& back == f
                &&& final(seq)@ == old(seq)@
                &&& final(tl).sent() == old(tl).sent()
            },
        },
{
    lemma_room(old(seq)@, None);
    if result is Ok {
        let data = choose|data: S|
            {
                &&& #[trigger] call_ensures(f, (old(seq)@.next_send,), data)
                &&& crate::single_thread::sends(
                    old(seq)@,
                    *old(tl),
                    seq_cst,
                    data,
                    final(seq)@,
                    *final(tl),
                )
            };
        lemma_sent_in_time(
            old(seq)@,
            old(seq)@,
            *old(tl),
            None,
            seq_cst,
            data,
            final(seq)@,
        );
        assert(call_ensures(f, (old(seq)@.next_send,), data));
    }
}

/// Receiving a packet with a transport layer does what is said of any packet that comes in.
pub proof fn receiving_tells_the_outcome<
    S,
    R,
    P: Into<R>,
    TL: TransportLayer<S>,
    const CAP: usize,
>(
    seq: &mut SeqEx<S, R, CAP>,
    tl: &mut TL,
    packet: Packet<P>,
    result: Result<(RecvOkRaw<S, P>, bool), RecvError>,
)
    requires
        old(seq).wf(),
        call_ensures(SeqEx::<S, R, CAP>::receive_raw::<P, TL>, (seq, tl, packet), result),
    ensures
        takes_in_and_tells(old(seq)@, *old(tl), packet, final(seq)@, *final(tl), result),
{
    lemma_takes_in_and_tells(old(seq)@, *old(tl), packet, final(seq)@, *final(tl), result);
}

/// A reply is given if and only if its number is issued.
pub proof fn replying_returns_the_number<S, R, TL: TransportLayer<S>, const CAP: usize>(
    seq: &mut SeqEx<S, R, CAP>,
    tl: &mut TL,
    reply_no: SeqNo,
    unlock: bool,
    seq_cst: bool,
    data: S,
    replied: bool,
)
    requires
        old(seq).wf(),
        forall|t: i64| #[trigger]
            old(tl).may_report(t) ==> i64::MIN <= t + old(seq)@.resend_interval <= i64::MAX,
        call_ensures(
            SeqEx::<S, R, CAP>::reply_raw::<TL>,
            (seq, tl, reply_no, unlock, seq_cst, data),
            replied,
        ),
    ensures
        replied <==> old(seq)@.replies.count(reply_no) > 0,
        gives_reply(
            old(seq)@,
            *old(tl),
            reply_no,
            unlock,
            seq_cst,
            data,
            final(seq)@,
            *final(tl),
        ),
{
    lemma_gives_reply(
        old(seq)@,
        *old(tl),
        reply_no,
        unlock,
        seq_cst,
        data,
        final(seq)@,
        *final(tl),
    );
}

/// An ack is given if and only if its number is issued.
pub proof fn acking_returns_the_number<S, R, TL: TransportLayer<S>, const CAP: usize>(
    seq: &mut SeqEx<S, R, CAP>,
    tl: &mut TL,
    reply_no: SeqNo,
    unlock: bool,
    acked: bool,
)
    requires
        old(seq).wf(),
        call_ensures(
            SeqEx::<S, R, CAP>::ack_raw::<TL>,
            (seq, tl, reply_no, unlock),
            acked,
        ),
    ensures
        acked <==> old(seq)@.replies.count(reply_no) > 0,
        gives_ack(old(seq)@, *old(tl), reply_no, unlock, final(seq)@, *final(tl)),
{
}

// ---- guards ----

/// A guard replies with its number, and unlocks the session if and only if it holds the lock.
pub proof fn guard_replies_and_unlocks<'a, TL: TransportLayer<S>, S, R, const CAP: usize>(
    guard: ReplyGuard<'a, TL, S, R, CAP>,
    seq_cst: bool,
    data: S,
)
    requires
        guard.wf(),
        forall|t: i64| #[trigger]
            guard.tl().may_report(t) ==> i64::MIN <= t + guard.seq()@.resend_interval <= i64::MAX,
        call_ensures(ReplyGuard::<'a, TL, S, R, CAP>::reply, (guard, seq_cst, data), ()),
    ensures
        gives_reply(
            guard.seq()@,
            *guard.tl(),
            guard.reply_no(),
            guard.holds_lock(),
            seq_cst,
            data,
            final(guard.seq())@,
            *final(guard.tl()),
        ),
{
    lemma_gives_reply(
        guard.seq()@,
        *guard.tl(),
        guard.reply_no(),
        guard.holds_lock(),
        seq_cst,
        data,
        final(guard.seq())@,
        *final(guard.tl()),
    );
}

/// The same holds where the data is produced by a function. It gets the number of the reply and
/// the number of the packet that is replied to.
pub proof fn guard_replies_with_and_unlocks<
    'a,
    TL: TransportLayer<S>,
    S,
    R,
    F: FnOnce(SeqNo, SeqNo) -> S,
    const CAP: usize,
>(guard: ReplyGuard<'a, TL, S, R, CAP>, seq_cst: bool, f: F)
    requires
        guard.wf(),
        forall|t: i64| #[trigger]
            guard.tl().may_report(t) ==> i64::MIN <= t + guard.seq()@.resend_interval <= i64::MAX,
        call_ensures(ReplyGuard::<'a, TL, S, R, CAP>::reply_with::<F>, (guard, seq_cst, f), ()),
    ensures
        exists|data: S|
            {
                &&& #[trigger] call_ensures(f, (guard.seq()@.next_send, guard.reply_no()), data)
                &&& gives_reply(
                    guard.seq()@,
                    *guard.tl(),
                    guard.reply_no(),
                    guard.holds_lock(),
                    seq_cst,
                    data,
                    final(guard.seq())@,
                    *final(guard.tl()),
                )
            },
{
    assert forall|data: S| #[trigger]
        call_ensures(f, (guard.seq()@.next_send, guard.reply_no()), data) && replies(
            guard.seq()@,
            *guard.tl(),
            guard.reply_no(),
            guard.holds_lock(),
            seq_cst,
            data,
            final(guard.seq())@,
            *final(guard.tl()),
        ) implies gives_reply(
        guard.seq()@,
        *guard.tl(),
        guard.reply_no(),
        guard.holds_lock(),
        seq_cst,
        data,
        final(guard.seq())@,
        *final(guard.tl()),
    ) by {
        lemma_gives_reply(
            guard.seq()@,
            *guard.tl(),
            guard.reply_no(),
            guard.holds_lock(),
            seq_cst,
            data,
            final(guard.seq())@,
            *final(guard.tl()),
        );
    }
}

/// A guard that replies and stays locked leaves the lock as it is. It hands the lock on if and
/// only if it holds it.
pub proof fn guard_replies_and_stays_locked<'a, TL: TransportLayer<S>, S, R, const CAP: usize>(
    guard: ReplyGuard<'a, TL, S, R, CAP>,
    seq_cst: bool,
    data: S,
    lock: Option<SeqCstGuard<'a, S, R, CAP>>,
)
    requires
        guard.wf(),
        forall|t: i64| #[trigger]
            guard.tl().may_report(t) ==> i64::MIN <= t + guard.seq()@.resend_interval <= i64::MAX,
        call_ensures(
            ReplyGuard::<'a, TL, S, R, CAP>::reply_stay_locked,
            (guard, seq_cst, data),
            lock,
        ),
    ensures
        lock is Some <==> guard.holds_lock(),
        lock matches Some(l) ==> final(l.seq())@ == final(guard.seq())@,
        gives_reply(
            guard.seq()@,
            *guard.tl(),
            guard.reply_no(),
            false,
            seq_cst,
            data,
            match lock {
                Some(l) => l.seq()@,
                None => final(guard.seq())@,
            },
            *final(guard.tl()),
        ),
{
    match lock {
        Some(l) => {
            lemma_gives_reply(
                guard.seq()@,
                *guard.tl(),
                guard.reply_no(),
                false,
                seq_cst,
                data,
                l.seq()@,
                *final(guard.tl()),
            );
        },
        None => {
            lemma_gives_reply(
                guard.seq()@,
                *guard.tl(),
                guard.reply_no(),
                false,
                seq_cst,
                data,
                final(guard.seq())@,
                *final(guard.tl()),
            );
        },
    }
}

/// The same holds where the data is produced by a function.
pub proof fn guard_replies_with_and_stays_locked<
    'a,
    TL: TransportLayer<S>,
    S,
    R,
    F: FnOnce(SeqNo, SeqNo) -> S,
    const CAP: usize,
>(
    guard: ReplyGuard<'a, TL, S, R, CAP>,
    seq_cst: bool,
    f: F,
    lock: Option<SeqCstGuard<'a, S, R, CAP>>,
)
    requires
        guard.wf(),
        forall|t: i64| #[trigger]
            guard.tl().may_report(t) ==> i64::MIN <= t + guard.seq()@.resend_interval <= i64::MAX,
        call_ensures(
            ReplyGuard::<'a, TL, S, R, CAP>::reply_with_stay_locked::<F>,
            (guard, seq_cst, f),
            lock,
        ),
    ensures
        lock is Some <==> guard.holds_lock(),
        lock matches Some(l) ==> final(l.seq())@ == final(guard.seq())@,
        exists|data: S|
            {
                &&& #[trigger] call_ensures(f, (guard.seq()@.next_send, guard.reply_no()), data)
                &&& gives_reply(
                    guard.seq()@,
                    *guard.tl(),
                    guard.reply_no(),
                    false,
                    seq_cst,
                    data,
                    match lock {
                        Some(l) => l.seq()@,
                        None => final(guard.seq())@,
                    },
                    *final(guard.tl()),
                )
            },
{
    let after = match lock {
        Some(l) => l.seq()@,
        None => final(guard.seq())@,
    };
    assert forall|data: S| #[trigger]
        call_ensures(f, (guard.seq()@.next_send, guard.reply_no()), data) && replies(
            guard.seq()@,
            *guard.tl(),
            guard.reply_no(),
            false,
            seq_cst,
            data,
            after,
            *final(guard.tl()),
        ) implies gives_reply(
        guard.seq()@,
        *guard.tl(),
        guard.reply_no(),
        false,
        seq_cst,
        data,
        after,
        *final(guard.tl()),
    ) by {
        lemma_gives_reply(
            guard.seq()@,
            *guard.tl(),
            guard.reply_no(),
            false,
            seq_cst,
            data,
            after,
            *final(guard.tl()),
        );
    }
}

/// A guard acknowledges with its number and leaves the lock as it is. It hands the lock on if and
/// only if it holds it.
pub proof fn guard_acks_and_stays_locked<'a, TL: TransportLayer<S>, S, R, const CAP: usize>(
    guard: ReplyGuard<'a, TL, S, R, CAP>,
    lock: Option<SeqCstGuard<'a, S, R, CAP>>,
)
    requires
        guard.wf(),
        call_ensures(ReplyGuard::<'a, TL, S, R, CAP>::ack, (guard,), lock),
    ensures
        lock is Some <==> guard.holds_lock(),
        lock matches Some(l) ==> final(l.seq())@ == final(guard.seq())@,
        gives_ack(
            guard.seq()@,
            *guard.tl(),
            guard.reply_no(),
            false,
            match lock {
                Some(l) => l.seq()@,
                None => final(guard.seq())@,
            },
            *final(guard.tl()),
        ),
{
}

/// A guard that is released acknowledges, and unlocks the session if and only if it holds the
/// lock.
pub proof fn released_guard_acks_and_unlocks<'a, TL: TransportLayer<S>, S, R, const CAP: usize>(
    guard: ReplyGuard<'a, TL, S, R, CAP>,
)
    requires
        guard.wf(),
        call_ensures(ReplyGuard::<'a, TL, S, R, CAP>::release, (guard,), ()),
    ensures
        gives_ack(
            guard.seq()@,
            *guard.tl(),
            guard.reply_no(),
            guard.holds_lock(),
            final(guard.seq())@,
            *final(guard.tl()),
        ),
{
}

/// A lock that is released unlocks the session and changes nothing else.
pub proof fn released_lock_unlocks<'a, S, R, const CAP: usize>(lock: SeqCstGuard<'a, S, R, CAP>)
    requires
        lock.seq().wf(),
        call_ensures(SeqCstGuard::<'a, S, R, CAP>::release, (lock,), ()),
    ensures
        final(lock.seq())@ == (SeqState { locked: false, ..lock.seq()@ }),
{
}

/// A guard unlocks the session if and only if it holds the lock, and holds it no longer. It can
/// still reply, and nothing else changes.
pub proof fn guard_unlocks_once<'a, TL: TransportLayer<S>, S, R, const CAP: usize>(
    guard: &mut ReplyGuard<'a, TL, S, R, CAP>,
    unlocked: bool,
)
    requires
        old(guard).wf(),
        call_ensures(ReplyGuard::<'a, TL, S, R, CAP>::unlock, (guard,), unlocked),
    ensures
        unlocked <==> old(guard).holds_lock(),
        !final(guard).holds_lock(),
        final(guard).reply_no() == old(guard).reply_no(),
        final(guard).tl().sent() == old(guard).tl().sent(),
        old(guard).holds_lock() ==> final(guard).seq()@ == (SeqState {
            locked: false,
            ..old(guard).seq()@
        }),
        !old(guard).holds_lock() ==> final(guard).seq()@ == old(guard).seq()@,
{
}

/// What is read of a guard is what it is for.
pub proof fn guard_knows_its_packet<'a, TL: TransportLayer<S>, S, R, const CAP: usize>(
    guard: ReplyGuard<'a, TL, S, R, CAP>,
    seq_cst: bool,
    components: (SeqNo, bool),
    layer: &TL,
)
    requires
        call_ensures(ReplyGuard::<'a, TL, S, R, CAP>::is_seq_cst, (&guard,), seq_cst),
        call_ensures(ReplyGuard::<'a, TL, S, R, CAP>::get_tl, (&guard,), layer),
        call_ensures(ReplyGuard::<'a, TL, S, R, CAP>::to_components, (guard,), components),
    ensures
        seq_cst == guard.holds_lock(),
        *layer == *guard.tl(),
        components.0 == guard.reply_no(),
        components.1 == guard.holds_lock(),
        *final(guard.seq()) == *guard.seq(),
        *final(guard.tl()) == *guard.tl(),
{
}

/// A guard can be made again of what it was taken apart into.
pub proof fn guard_is_made_of_its_components<'a, TL: TransportLayer<S>, S, R, const CAP: usize>(
    seq: &'a mut SeqEx<S, R, CAP>,
    tl: &'a mut TL,
    reply_no: SeqNo,
    is_holding_lock: bool,
    guard: ReplyGuard<'a, TL, S, R, CAP>,
)
    requires
        call_ensures(
            ReplyGuard::<'a, TL, S, R, CAP>::from_components,
            (seq, tl, reply_no, is_holding_lock),
            guard,
        ),
    ensures
        guard.reply_no() == reply_no,
        guard.holds_lock() == is_holding_lock,
        *guard.seq() == *old(seq),
        *guard.tl() == *old(tl),
        *final(seq) == *final(guard.seq()),
        *final(tl) == *final(guard.tl()),
{
}

/// What is done to the session that a guard lends is done to the session of the guard, and the
/// guard stays the same otherwise.
pub proof fn guard_lends_its_session<'a, 'b, TL: TransportLayer<S>, S, R, const CAP: usize>(
    guard: &'b mut ReplyGuard<'a, TL, S, R, CAP>,
    seq: &'b mut SeqEx<S, R, CAP>,
)
    requires
        call_ensures(ReplyGuard::<'a, TL, S, R, CAP>::get_seqex, (guard,), seq),
    ensures
        *old(seq) == *old(guard).seq(),
        *final(guard).seq() == *final(seq),
        *final(guard).tl() == *old(guard).tl(),
        final(guard).reply_no() == old(guard).reply_no(),
        final(guard).holds_lock() == old(guard).holds_lock(),
{
}

/// The same holds of the transport layer.
pub proof fn guard_lends_its_layer<'a, 'b, TL: TransportLayer<S>, S, R, const CAP: usize>(
    guard: &'b mut ReplyGuard<'a, TL, S, R, CAP>,
    tl: &'b mut TL,
)
    requires
        call_ensures(ReplyGuard::<'a, TL, S, R, CAP>::get_tl_mut, (guard,), tl),
    ensures
        *old(tl) == *old(guard).tl(),
        *final(guard).tl() == *final(tl),
        *final(guard).seq() == *old(guard).seq(),
        final(guard).reply_no() == old(guard).reply_no(),
        final(guard).holds_lock() == old(guard).holds_lock(),
{
}

// ---- receiving and pumping with guards ----

/// Whether what is handed out is what came out, with a guard for its number that holds the lock if
/// and only if the packet is SeqCst.
pub open spec fn is_guarding<'a, TL: TransportLayer<S>, S, R, const CAP: usize>(
    ok: RecvOk<'a, TL, S, R, CAP>,
    raw: RecvOkRaw<S, R>,
    seq: SeqState<S, R>,
    sent: Seq<Packet<S>>,
) -> bool {
    match (ok, raw) {
        (
            RecvOk::Payload { reply_guard, recv_data },
            RecvOkRaw::Payload { reply_no, seq_cst, recv_data: d },
        ) => {
            &&& recv_data == d
            &&& reply_guard.reply_no() == reply_no
            &&& reply_guard.holds_lock() == seq_cst
            &&& reply_guard.seq()@ == seq
            &&& reply_guard.tl().sent() == sent
        },
        (
            RecvOk::Reply { reply_guard, recv_data, send_data },
            RecvOkRaw::Reply { reply_no, seq_cst, recv_data: d, send_data: s },
        ) => {
            &&& recv_data == d
            &&& send_data == s
            &&& reply_guard.reply_no() == reply_no
            &&& reply_guard.holds_lock() == seq_cst
            &&& reply_guard.seq()@ == seq
            &&& reply_guard.tl().sent() == sent
        },
        (RecvOk::Ack { send_data }, RecvOkRaw::Ack { send_data: s }) => send_data == s,
        _ => false,
    }
}

/// Receiving a packet does what is said of any packet that comes in, and guards what is handed
/// out. What is done through the guard is done to the session.
pub proof fn received_packet_is_guarded<'a, TL: TransportLayer<S>, S, R, const CAP: usize>(
    seq: &'a mut SeqEx<S, R, CAP>,
    tl: &'a mut TL,
    packet: Packet<R>,
    result: Result<(RecvOk<'a, TL, S, R, CAP>, bool), RecvError>,
)
    requires
        old(seq).wf(),
        call_ensures(SeqEx::<S, R, CAP>::receive::<TL>, (seq, tl, packet), result),
    ensures
        exists|
            mid: SeqState<S, R>,
            tl_mid: TL,
            raw: Result<(RecvOkRaw<S, R>, bool), RecvError>,
        |
            {
                &&& #[trigger] takes_in_and_tells(old(seq)@, *old(tl), packet, mid, tl_mid, raw)
                &&& match (result, raw) {
                    (Ok((ok, more)), Ok((r, m))) => {
                        &&& more == m
                        &&& is_guarding(ok, r, mid, tl_mid.sent())
                        &&& match ok {
                            RecvOk::Payload { reply_guard, .. } => *final(reply_guard.seq())
                                == *final(seq) && *final(reply_guard.tl()) == *final(tl),
                            RecvOk::Reply { reply_guard, .. } => *final(reply_guard.seq())
                                == *final(seq) && *final(reply_guard.tl()) == *final(tl),
                            RecvOk::Ack { .. } => final(seq)@ == mid && final(tl).sent()
                                == tl_mid.sent(),
                        }
                    },
                    (Err(e), Err(f)) => e == f && final(seq)@ == mid && final(tl).sent()
                        == tl_mid.sent(),
                    _ => false,
                }
            },
{
    assert forall|
        mid: SeqEx<S, R, CAP>,
        tl_mid: TL,
        raw: Result<(RecvOkRaw<S, R>, bool), RecvError>,
    | #[trigger]
        receives_and_resends(old(seq)@, *old(tl), packet, mid@, tl_mid, raw) implies
        takes_in_and_tells(old(seq)@, *old(tl), packet, mid@, tl_mid, raw) by {
        lemma_takes_in_and_tells(old(seq)@, *old(tl), packet, mid@, tl_mid, raw);
    }
}

/// Pumping does what is said of the next packet, and guards what is handed out. Nothing is handed
/// to the transport layer.
pub proof fn pumped_packet_is_guarded<'a, TL: TransportLayer<S>, S, R, const CAP: usize>(
    seq: &'a mut SeqEx<S, R, CAP>,
    tl: &'a mut TL,
    result: Result<(RecvOk<'a, TL, S, R, CAP>, bool), TryError>,
)
    requires
        old(seq).wf(),
        call_ensures(SeqEx::<S, R, CAP>::try_pump::<TL>, (seq, tl), result),
    ensures
        exists|mid: SeqState<S, R>, raw: Result<(RecvOkRaw<S, R>, bool), TryError>|
            {
                &&& #[trigger] takes_next(old(seq)@, mid, raw)
                &&& match (result, raw) {
                    (Ok((ok, more)), Ok((r, m))) => {
                        &&& more == m
                        &&& is_guarding(ok, r, mid, old(tl).sent())
                        &&& match ok {
                            RecvOk::Payload { reply_guard, .. } => *final(reply_guard.seq())
                                == *final(seq) && *final(reply_guard.tl()) == *final(tl),
                            RecvOk::Reply { reply_guard, .. } => *final(reply_guard.seq())
                                == *final(seq) && *final(reply_guard.tl()) == *final(tl),
                            RecvOk::Ack { .. } => false,
                        }
                    },
                    (Err(e), Err(f)) => {
                        &&& e == f
                        &&& final(seq)@ == mid
                        &&& final(tl).sent() == old(tl).sent()
                    },
                    _ => false,
                }
            },
{
    assert forall|
        mid: SeqEx<S, R, CAP>,
        raw: Result<(RecvOkRaw<S, R>, bool), TryError>,
    | #[trigger] pumps(old(seq)@, mid@, raw) implies takes_next(old(seq)@, mid@, raw) by {
        lemma_takes_next(old(seq)@, mid@, raw);
    }
}

/// What is handed out can be taken apart and made again. An ack has nothing but what was sent, a
/// payload nothing but what was received, and a reply has both.
pub proof fn handed_out_is_what_it_is_made_of<'a, TL: TransportLayer<S>, S, R, const CAP: usize>(
    ok: RecvOk<'a, TL, S, R, CAP>,
    content: (Option<(ReplyGuard<'a, TL, S, R, CAP>, R)>, Option<S>),
)
    requires
        call_ensures(RecvOk::<'a, TL, S, R, CAP>::consume, (ok,), content),
    ensures
        match ok {
            RecvOk::Payload { reply_guard, recv_data } => {
                &&& content.0 == Some((reply_guard, recv_data))
                &&& content.1 is None
            },
            RecvOk::Reply { reply_guard, recv_data, send_data } => {
                &&& content.0 == Some((reply_guard, recv_data))
                &&& content.1 == Some(send_data)
            },
            RecvOk::Ack { send_data } => {
                &&& content.0 is None
                &&& content.1 == Some(send_data)
            },
        },
{
}

/// Something is made of what was received and what was sent, unless there is neither.
pub proof fn handed_out_is_made_of_its_content<'a, TL: TransportLayer<S>, S, R, const CAP: usize>(
    received: Option<(ReplyGuard<'a, TL, S, R, CAP>, R)>,
    sent: Option<S>,
    ok: Option<RecvOk<'a, TL, S, R, CAP>>,
)
    requires
        call_ensures(RecvOk::<'a, TL, S, R, CAP>::new, (received, sent), ok),
    ensures
        ok == match (received, sent) {
            (Some((reply_guard, recv_data)), Some(send_data)) => Some(
                RecvOk::Reply { reply_guard, recv_data, send_data },
            ),
            (Some((reply_guard, recv_data)), None) => Some(
                RecvOk::Payload { reply_guard, recv_data },
            ),
            (None, Some(send_data)) => Some(RecvOk::Ack { send_data }),
            (None, None) => None,
        },
{
}

} // verus!
