//! What can be asked of a session: everything, at any time at which the times involved can be
//! told.
use crate::guard::ReplyGuard;
use crate::seq_queue::{SeqEx, ServiceIter};
use crate::transport_layer::{Packet, SeqNo, TransportLayer};
use vstd::prelude::*;

verus! {

/// A session can be made for any window of at least two slots that a number can count.
pub proof fn any_session_can_be_made<S, R, const CAP: usize>(interval: i64, first: SeqNo)
    requires
        2 <= CAP <= 0xffff_ffff,
    ensures
        call_requires(SeqEx::<S, R, CAP>::new, (interval, first)),
        call_requires(<SeqEx<S, R, CAP> as Default>::default, ()),
{
}

/// Any packet can be received by any session, and any session can be pumped, unlocked and read,
/// and be asked for an ack of any number.
pub proof fn any_packet_can_be_received<S, R, P: Into<R>, const CAP: usize>(
    seq: &mut SeqEx<S, R, CAP>,
    packet: Packet<P>,
    reply_no: SeqNo,
    unlock: bool,
    interval: i64,
)
    requires
        old(seq).wf(),
    ensures
        call_requires(SeqEx::<S, R, CAP>::receive_raw_and_direct::<P>, (seq, packet)),
        call_requires(SeqEx::<S, R, CAP>::try_pump_raw, (seq,)),
        call_requires(SeqEx::<S, R, CAP>::ack_raw_and_direct, (seq, reply_no, unlock)),
        call_requires(SeqEx::<S, R, CAP>::unlock_raw, (seq,)),
        call_requires(SeqEx::<S, R, CAP>::settle, (seq,)),
        call_requires(SeqEx::<S, R, CAP>::set_resend_interval, (seq, interval)),
        call_requires(SeqEx::<S, R, CAP>::seq_no, (&*old(seq),)),
        call_requires(SeqEx::<S, R, CAP>::is_idle, (&*old(seq),)),
        call_requires(SeqEx::<S, R, CAP>::can_hold, (&*old(seq), reply_no)),
        call_requires(SeqEx::<S, R, CAP>::service_timestamp, (&*old(seq),)),
        call_requires(SeqEx::<S, R, CAP>::resend_interval, (&*old(seq),)),
        call_requires(SeqEx::<S, R, CAP>::iter, (&*old(seq),)),
        call_requires(SeqEx::<S, R, CAP>::iter_mut, (seq,)),
{
}

/// Any session can be asked to send, to reply to any number and to resend, at any time after which
/// the resend interval can still be told.
pub proof fn anything_can_be_sent<S, R, const CAP: usize>(
    seq: &mut SeqEx<S, R, CAP>,
    now: i64,
    seq_cst: bool,
    data: S,
    reply_no: SeqNo,
    unlock: bool,
    iter: &mut Option<ServiceIter>,
)
    requires
        old(seq).wf(),
        i64::MIN <= now + old(seq)@.resend_interval <= i64::MAX,
    ensures
        call_requires(SeqEx::<S, R, CAP>::try_send_direct, (seq, now, seq_cst, data)),
        call_requires(
            SeqEx::<S, R, CAP>::reply_raw_and_direct,
            (seq, now, reply_no, unlock, seq_cst, data),
        ),
        call_requires(SeqEx::<S, R, CAP>::service_direct, (seq, now, iter)),
{
}

/// The same holds with a transport layer.
pub proof fn anything_can_be_sent_over_a_layer<
    S,
    R,
    P: Into<R>,
    TL: TransportLayer<S>,
    const CAP: usize,
>(
    seq: &mut SeqEx<S, R, CAP>,
    tl: &mut TL,
    now: i64,
    seq_cst: bool,
    data: S,
    packet: Packet<P>,
    received: Packet<R>,
    reply_no: SeqNo,
    unlock: bool,
)
    requires
        old(seq).wf(),
        forall|t: i64| #[trigger]
            old(tl).may_report(t) ==> i64::MIN <= t + old(seq)@.resend_interval <= i64::MAX,
        i64::MIN <= now + old(seq)@.resend_interval <= i64::MAX,
    ensures
        call_requires(SeqEx::<S, R, CAP>::try_send::<TL>, (seq, tl, seq_cst, data)),
        call_requires(SeqEx::<S, R, CAP>::receive_raw::<P, TL>, (seq, tl, packet)),
        call_requires(SeqEx::<S, R, CAP>::receive::<TL>, (seq, tl, received)),
        call_requires(SeqEx::<S, R, CAP>::try_pump::<TL>, (seq, tl)),
        call_requires(
            SeqEx::<S, R, CAP>::reply_raw::<TL>,
            (seq, tl, reply_no, unlock, seq_cst, data),
        ),
        call_requires(SeqEx::<S, R, CAP>::ack_raw::<TL>, (seq, tl, reply_no, unlock)),
        call_requires(SeqEx::<S, R, CAP>::resend_due::<TL>, (seq, tl, now)),
{
}

/// Any guard can be used to reply, to acknowledge and to unlock.
pub proof fn any_guard_can_answer<'a, TL: TransportLayer<S>, S, R, const CAP: usize>(
    guard: ReplyGuard<'a, TL, S, R, CAP>,
    seq_cst: bool,
    data: S,
)
    requires
        guard.wf(),
        forall|t: i64| #[trigger]
            guard.tl().may_report(t) ==> i64::MIN <= t + guard.seq()@.resend_interval <= i64::MAX,
    ensures
        call_requires(ReplyGuard::<'a, TL, S, R, CAP>::reply, (guard, seq_cst, data)),
        call_requires(ReplyGuard::<'a, TL, S, R, CAP>::reply_stay_locked, (guard, seq_cst, data)),
        call_requires(ReplyGuard::<'a, TL, S, R, CAP>::ack, (guard,)),
        call_requires(ReplyGuard::<'a, TL, S, R, CAP>::release, (guard,)),
        call_requires(ReplyGuard::<'a, TL, S, R, CAP>::to_components, (guard,)),
{
}

} // verus!
