//! What holds of a shared session whatever its threads do.
use super::error::TryRecvError;
use super::guard::{
    acked, given_back, given_up, lock_consumed, replied, replied_stay_locked, ReplyGuard,
    SeqCstGuard,
};
use super::recv::{pump_attempt, tries_to_pump, tries_to_receive, PumpStep, RecvOk};
use super::send::{send_attempt, SendStep};
use super::settled;
use super::shared::{decreased, Shared, WaitOn, Wake};
use super::timed::{deadline, timed_attempt, times_out, TimedSendStep};
use crate::error::{RecvError as RawRecvError, TryError, TryRawRecvError};
use crate::laws::{
    arrives_as_sent, as_sent, event_keeps_reachable, is_scheduled, pumped_as_sent, reachable,
    reachable_inv, resending_retimes, service_resends_all,
};
use crate::model::{packet_of, slot, SeqState};
use crate::seq_queue::{min, pumps, receives, RecvOkRaw};
use crate::session::{
    can_arrive, handed_out, happens, in_step, inv, marked, retimed, same_packet, waits, Event, Peer,
    Sent, Terms, Wires, NUMBERS,
};
use crate::session_proof::lemma_unanswered;
use crate::single_thread::{after_service, receives_and_resends, sent_at_some_time, to_resend};
use crate::transport_layer::{Packet, TransportLayer};
use vstd::prelude::*;

verus! {

/// Something that a thread does while it holds the mutex.
#[verifier::reject_recursive_types(S)]
#[verifier::reject_recursive_types(R)]
pub enum Call<S, R> {
    /// `SeqEx::try_receive`, or the beginning of `SeqEx::receive`.
    Receive { packet: Packet<R> },
    /// `SeqEx::try_pump`.
    TryPump,
    /// `SeqEx::pump`.
    Pump,
    /// `SeqEx::pump_again`.
    PumpAgain,
    /// `SeqEx::send`, with data that was given or produced.
    Send { seq_cst: bool, data: S },
    /// `SeqEx::send_again`, with data that was given or produced.
    SendAgain { waited: WaitOn, seq_cst: bool, data: S },
    /// `SeqEx::send_timeout`, with data that was given or produced.
    SendTimeout { now: i64, timeout: i64, seq_cst: bool, data: S },
    /// `SeqEx::send_timeout_again`, with data that was given or produced.
    SendTimeoutAgain { waited: WaitOn, now: i64, end_time: i64, seq_cst: bool, data: S },
    /// `ReplyGuard::reply`, with data that was given or produced.
    Reply { guard: ReplyGuard, seq_cst: bool, data: S },
    /// `ReplyGuard::reply_stay_locked`, with data that was given or produced.
    ReplyStayLocked { guard: ReplyGuard, seq_cst: bool, data: S },
    /// `ReplyGuard::ack`.
    Ack { guard: ReplyGuard },
    /// `ReplyGuard::release`.
    Release { guard: ReplyGuard },
    /// `SeqCstGuard::release`, or `ReplyGuard::unlock` on a guard that holds the lock.
    Unlock,
    /// `SeqEx::service`.
    Service { now: i64 },
    /// `SeqEx::service_scheduled`.
    ServiceScheduled { now: i64 },
    /// `SeqEx::close`.
    Close,
}

impl<S, R> Call<S, R> {
    /// Whether the call may give the thread a packet to process.
    pub open spec fn can_give(self) -> bool {
        self is Receive || self is TryPump || self is Pump || self is PumpAgain
    }

    /// What the thread wants to send by the call, and whether it is SeqCst.
    pub open spec fn offers(self) -> Option<(bool, S)> {
        match self {
            Call::Send { seq_cst, data } => Some((seq_cst, data)),
            Call::SendAgain { seq_cst, data, .. } => Some((seq_cst, data)),
            Call::SendTimeout { seq_cst, data, .. } => Some((seq_cst, data)),
            Call::SendTimeoutAgain { seq_cst, data, .. } => Some((seq_cst, data)),
            Call::Reply { seq_cst, data, .. } => Some((seq_cst, data)),
            Call::ReplyStayLocked { seq_cst, data, .. } => Some((seq_cst, data)),
            _ => None,
        }
    }
}

/// The packet that a thread is given by `SeqEx::try_receive` or `SeqEx::try_pump`.
pub open spec fn given_by<S, R, E>(result: Result<(RecvOk<S, R>, bool), E>) -> Option<
    RecvOk<S, R>,
> {
    match result {
        Ok((ok, _)) => Some(ok),
        Err(_) => None,
    }
}

/// The packet that a thread is given by `SeqEx::pump`.
pub open spec fn given_by_pump<S, R>(step: PumpStep<S, R>) -> Option<RecvOk<S, R>> {
    match step {
        PumpStep::Done(Some((ok, _))) => Some(ok),
        _ => None,
    }
}

/// The data that a packet brings.
pub open spec fn brought<S, R>(item: Option<RecvOk<S, R>>) -> Option<R> {
    match item {
        Some(RecvOk::Payload { recv_data, .. }) => Some(recv_data),
        Some(RecvOk::Reply { recv_data, .. }) => Some(recv_data),
        _ => None,
    }
}

/// Whether a call takes a shared session from `pre` to `post`, says to wake `wake`, and gives the
/// thread `item` to process.
///
/// The packets that `RecvIter` goes through are the ones that these calls give: the first one is
/// given by `SeqEx::try_receive` or `SeqEx::pump`, and each of the others by the `SeqEx::pump` or
/// `SeqEx::try_pump` that it asks for.
pub open spec fn performs<S, R, TL: TransportLayer<S>>(
    call: Call<S, R>,
    pre: Shared<S, R>,
    tl: TL,
    post: Shared<S, R>,
    tl_post: TL,
    wake: Wake,
    item: Option<RecvOk<S, R>>,
) -> bool {
    &&& call.can_give() || item is None
    &&& match call {
        Call::Receive { packet } => exists|result: Result<(RecvOk<S, R>, bool), TryRecvError>|
            {
                &&& #[trigger] tries_to_receive(pre, tl, packet, post, tl_post, result, wake)
                &&& item == given_by(result)
            },
        Call::TryPump => {
            &&& tl_post.sent() == tl.sent()
            &&& exists|result: Result<(RecvOk<S, R>, bool), TryError>|
                {
                    &&& #[trigger] tries_to_pump(pre, post, result, wake)
                    &&& item == given_by(result)
                }
        },
        Call::Pump => {
            &&& tl_post.sent() == tl.sent()
            &&& if pre.reply_receiver_waiters {
                post == pre && wake == Wake::Nobody && item is None
            } else {
                exists|step: PumpStep<S, R>|
                    {
                        &&& #[trigger] pump_attempt(pre, post, step, wake)
                        &&& item == given_by_pump(step)
                    }
            }
        },
        Call::PumpAgain => {
            let resumed = Shared { reply_receiver_waiters: false, ..pre };
            &&& tl_post.sent() == tl.sent()
            &&& exists|step: PumpStep<S, R>|
                {
                    &&& #[trigger] pump_attempt(resumed, post, step, wake)
                    &&& item == given_by_pump(step)
                }
        },
        Call::Send { seq_cst, data } => {
            &&& wake == Wake::Nobody
            &&& exists|step: SendStep<S>| #[trigger]
                send_attempt(pre, tl, seq_cst, data, post, tl_post, step)
        },
        Call::SendAgain { waited, seq_cst, data } => {
            &&& wake == Wake::Nobody
            &&& exists|step: SendStep<S>| #[trigger]
                send_attempt(pre.resumed(waited), tl, seq_cst, data, post, tl_post, step)
        },
        Call::SendTimeout { now, timeout, seq_cst, data } => {
            let end_time = deadline(now, timeout);
            &&& wake == Wake::Nobody
            &&& exists|step: TimedSendStep<S>| #[trigger]
                timed_attempt(pre, tl, now, end_time, seq_cst, data, post, tl_post, step)
        },
        Call::SendTimeoutAgain { waited, now, end_time, seq_cst, data } => {
            let resumed = pre.resumed(waited);
            &&& wake == Wake::Nobody
            &&& if end_time <= now {
                exists|step: TimedSendStep<S>| #[trigger]
                    times_out(waited, resumed, tl, data, post, tl_post, step)
            } else {
                exists|step: TimedSendStep<S>| #[trigger]
                    timed_attempt(resumed, tl, now, end_time, seq_cst, data, post, tl_post, step)
            }
        },
        Call::Reply { guard, seq_cst, data } => {
            &&& wake == pre.wake_reply()
            &&& if pre.closed {
                given_up(pre, tl, guard, post, tl_post)
            } else {
                exists|update: Option<i64>| #[trigger]
                    replied(pre, tl, guard, seq_cst, data, post, tl_post, update)
            }
        },
        Call::ReplyStayLocked { guard, seq_cst, data } => if pre.closed {
            let returned = pre.with_seq(given_back(pre.seq, guard.reply_no(), false));
            &&& tl_post.sent() == tl.sent()
            &&& exists|lock: Option<SeqCstGuard>| #[trigger]
                lock_consumed(returned, guard, post, lock, wake)
        } else {
            exists|out: (Option<SeqCstGuard>, Option<i64>, Wake)|
                {
                    &&& out.2 == wake
                    &&& #[trigger] replied_stay_locked(
                        pre,
                        tl,
                        guard,
                        seq_cst,
                        data,
                        post,
                        tl_post,
                        out,
                    )
                }
        },
        Call::Ack { guard } => {
            &&& acked(pre, tl, guard.reply_no(), false, post.seq, tl_post)
            &&& exists|lock: Option<SeqCstGuard>| #[trigger]
                lock_consumed(pre.with_seq(post.seq), guard, post, lock, wake)
        },
        Call::Release { guard } => {
            &&& acked(pre, tl, guard.reply_no(), guard.holds_lock(), post.seq, tl_post)
            &&& post == pre.with_seq(post.seq).notified()
            &&& wake == pre.wake_reply()
        },
        Call::Unlock => {
            &&& tl_post.sent() == tl.sent()
            &&& post == pre.with_seq(pre.seq.unlocked_session()).notified()
            &&& wake == pre.wake_reply()
        },
        Call::Service { now } => {
            &&& wake == Wake::Nobody
            &&& if pre.closed {
                post == pre && tl_post.sent() == tl.sent()
            } else {
                &&& post == pre.with_seq(after_service(pre.seq, now))
                &&& tl_post.sent() == tl.sent() + to_resend(pre.seq, now)
            }
        },
        Call::ServiceScheduled { now } => {
            &&& wake == Wake::Nobody
            &&& if pre.closed {
                post == pre && tl_post.sent() == tl.sent()
            } else {
                &&& post == pre.with_seq(settled(after_service(pre.seq, now)))
                &&& tl_post.sent() == tl.sent() + to_resend(pre.seq, now)
            }
        },
        Call::Close => {
            &&& tl_post.sent() == tl.sent()
            &&& post == (Shared { closed: true, ..pre })
            &&& wake == if pre.recv_waiters > 0 {
                Wake::AllOnRecv
            } else {
                Wake::Nobody
            }
        },
    }
}

/// Once a session has been closed nothing is sent any more, and it stays closed.
pub proof fn closed_is_silent<S, R, TL: TransportLayer<S>>(
    call: Call<S, R>,
    pre: Shared<S, R>,
    tl: TL,
    post: Shared<S, R>,
    tl_post: TL,
    wake: Wake,
    item: Option<RecvOk<S, R>>,
)
    requires
        performs(call, pre, tl, post, tl_post, wake, item),
        pre.closed,
    ensures
        tl_post.sent() == tl.sent(),
        post.closed,
{
}

/// A session will never close by itself, only the caller can close it.
pub proof fn never_closes_by_itself<S, R, TL: TransportLayer<S>>(
    call: Call<S, R>,
    pre: Shared<S, R>,
    tl: TL,
    post: Shared<S, R>,
    tl_post: TL,
    wake: Wake,
    item: Option<RecvOk<S, R>>,
)
    requires
        performs(call, pre, tl, post, tl_post, wake, item),
        !pre.closed,
        call !is Close,
    ensures
        !post.closed,
{
}

/// Closing a session disables nothing but sending and receiving: the session itself is left as it
/// is, and a packet in its receive window can be pumped out of it just as before.
pub proof fn closed_can_be_pumped<S, R>(
    pre: Shared<S, R>,
    post: Shared<S, R>,
    step: PumpStep<S, R>,
    wake: Wake,
)
    requires
        pump_attempt(pre, post, step, wake),
    ensures
        pump_attempt(
            (Shared { closed: true, ..pre }),
            (Shared { closed: true, ..post }),
            step,
            wake,
        ),
{
    let closed_pre = Shared { closed: true, ..pre };
    let closed_post = Shared { closed: true, ..post };
    if pre.seq.pump_check() is Ok {
        let ok = step->Done_0->Some_0;
        assert(tries_to_pump(pre, post, Ok(ok), wake));
        let raw = choose|raw: Result<(RecvOkRaw<S, R>, bool), TryError>|
            {
                &&& #[trigger] pumps(pre.seq, post.seq, raw)
                &&& post == pre.with_seq(post.seq)
                &&& raw matches Ok((r, do_pump))
                &&& ok.0.is_guarded(r)
                &&& ok.1 == do_pump
                &&& wake == pre.wake_recv()
            };
        assert(pumps(closed_pre.seq, closed_post.seq, raw));
        assert(closed_post == closed_pre.with_seq(closed_post.seq));
        assert(tries_to_pump(closed_pre, closed_post, Ok(ok), wake));
    }
}

/// What a guard holds is given back when it is used up, whether the session is closed or not: its
/// reply number can not be used again, and the SeqCst lock is free unless it was kept.
pub proof fn guard_is_given_back<S, R, TL: TransportLayer<S>>(
    call: Call<S, R>,
    pre: Shared<S, R>,
    tl: TL,
    post: Shared<S, R>,
    tl_post: TL,
    wake: Wake,
    item: Option<RecvOk<S, R>>,
)
    requires
        performs(call, pre, tl, post, tl_post, wake, item),
    ensures
        match call {
            Call::Reply { guard, .. } | Call::Release { guard } => {
                &&& post.seq.replies == pre.seq.replies.remove(guard.reply_no())
                &&& pre.seq.replies.count(guard.reply_no()) > 0 && guard.holds_lock()
                    ==> !post.seq.locked
            },
            Call::ReplyStayLocked { guard, .. } | Call::Ack { guard } => {
                &&& post.seq.replies == pre.seq.replies.remove(guard.reply_no())
                &&& post.seq.locked == pre.seq.locked
            },
            _ => true,
        },
{
    let reply_no = match call {
        Call::Reply { guard, .. } => guard.reply_no(),
        Call::Release { guard } => guard.reply_no(),
        Call::ReplyStayLocked { guard, .. } => guard.reply_no(),
        Call::Ack { guard } => guard.reply_no(),
        _ => 0,
    };
    if pre.seq.replies.count(reply_no) == 0 {
        assert(pre.seq.replies.remove(reply_no) =~= pre.seq.replies);
    }
}

/// No thread is forgotten: a sender that waits for a reply to be finished stays marked until all
/// who wait for that are woken, and whenever a reply is finished they are. Only one thread waits to
/// pump, and only its own return ends that.
pub proof fn no_one_is_forgotten<S, R, TL: TransportLayer<S>>(
    call: Call<S, R>,
    pre: Shared<S, R>,
    tl: TL,
    post: Shared<S, R>,
    tl_post: TL,
    wake: Wake,
    item: Option<RecvOk<S, R>>,
)
    requires
        performs(call, pre, tl, post, tl_post, wake, item),
    ensures
        pre.reply_sender_waiters ==> post.reply_sender_waiters || wake == Wake::AllOnReply,
        pre.reply_receiver_waiters && call !is PumpAgain ==> post.reply_receiver_waiters,
        (pre.reply_sender_waiters || pre.reply_receiver_waiters) && (call is Reply
            || call is Release || call is Unlock) ==> wake == Wake::AllOnReply,
{
}

/// The threads that wait for a packet to be received are counted right: only a sender that begins
/// to wait is counted in, and only one that goes on is counted out.
pub proof fn waiters_are_counted<S, R, TL: TransportLayer<S>>(
    call: Call<S, R>,
    pre: Shared<S, R>,
    tl: TL,
    post: Shared<S, R>,
    tl_post: TL,
    wake: Wake,
    item: Option<RecvOk<S, R>>,
)
    requires
        performs(call, pre, tl, post, tl_post, wake, item),
    ensures
        match call {
            Call::Send { .. } | Call::SendTimeout { .. } => post.recv_waiters == pre.recv_waiters
                || post.recv_waiters == pre.recv_waiters + 1,
            Call::SendAgain { waited, .. } | Call::SendTimeoutAgain { waited, .. } => {
                let rest = pre.resumed(waited).recv_waiters;
                post.recv_waiters == rest || post.recv_waiters == rest + 1
            },
            _ => post.recv_waiters == pre.recv_waiters,
        },
{
}

/// A send that gives up does so at least `timeout` milliseconds after it began, unless the clock
/// ends before that.
pub proof fn no_early_timeout(start: i64, timeout: i64, now: i64)
    requires
        deadline(start, timeout) <= now,
        start + timeout <= i64::MAX,
    ensures
        now - start >= timeout,
{
}

/// Who calls `service_scheduled` in time, and brings the time forward whenever `send` or `reply`
/// says so, goes on calling it in time.
pub proof fn schedule_is_kept<S, R>(pre: SeqState<S, R>, post: SeqState<S, R>, scheduled: i64)
    requires
        scheduled <= pre.next_service_timestamp,
    ensures
        match decreased(pre.next_service_timestamp, post.next_service_timestamp) {
            Some(update) => min(scheduled, update) <= post.next_service_timestamp,
            None => scheduled <= post.next_service_timestamp,
        },
{
}

/// `service_scheduled` returns `i64::MAX` if nothing needs to be resent, and otherwise a time before
/// which nothing has to be.
pub proof fn service_schedules<S, R>(state: SeqState<S, R>, now: i64)
    requires
        state.wf(),
        is_scheduled(state),
    ensures
        is_scheduled(settled(after_service(state, now))),
        settled(after_service(state, now)).is_idle() ==> settled(
            after_service(state, now),
        ).next_service_timestamp == i64::MAX,
{
    let after = after_service(state, now);
    service_resends_all(state, now, 0);
    if after.is_idle() {
        assert(settled(after).send_window == after.send_window);
    }
}

/// A reply is sent once, in answer to the packet that the guard was handed out with, and is put into
/// the send window as it was sent. The time at which `service_scheduled` should be called is
/// returned if and only if it has decreased.
pub proof fn reply_is_sent_once<S, R, TL: TransportLayer<S>>(
    pre: Shared<S, R>,
    tl: TL,
    guard: ReplyGuard,
    seq_cst: bool,
    data: S,
    post: Shared<S, R>,
    tl_post: TL,
    update: Option<i64>,
)
    requires
        pre.seq.wf(),
        pre.seq.replies.count(guard.reply_no()) > 0,
        replied(pre, tl, guard, seq_cst, data, post, tl_post, update),
    ensures
        ({
            let packet = Packet::with_data(
                pre.seq.next_send,
                Some(guard.reply_no()),
                seq_cst,
                data,
            );
            let entry = post.seq.send_window[slot(pre.seq.next_send, pre.seq.cap())];
            &&& tl_post.sent() == tl.sent().push(packet)
            &&& entry is Some
            &&& packet_of(entry->0) == packet
        }),
        update is Some == (post.seq.next_service_timestamp < pre.seq.next_service_timestamp),
        update matches Some(time) ==> time == post.seq.next_service_timestamp,
{
    let returned = pre.seq.returned(guard.reply_no(), guard.holds_lock());
    let now = choose|t: i64| #[trigger]
        tl.may_report(t) && post.seq == returned.sent(t, Some(guard.reply_no()), seq_cst, data);
    assert(0 <= slot(pre.seq.next_send, pre.seq.cap()) < pre.seq.cap());
}

/// Whether what `post` holds in slot `i` of the send window is the packet that `pre` holds there, or
/// has been sent since.
pub open spec fn same_or_new<S, R>(pre: SeqState<S, R>, post: SeqState<S, R>, i: int) -> bool {
    post.send_window[i] matches Some(new) ==> {
        ||| pre.send_window[i] matches Some(old) && packet_of(new) == packet_of(old)
        ||| post.next_send != pre.next_send && i == slot(pre.next_send, pre.cap())
    }
}

/// A packet in the send window stays the same until it is answered, so that it has the exact same
/// sequence number and reply number however often it is sent.
pub proof fn numbers_stay_the_same<S, R, TL: TransportLayer<S>>(
    call: Call<S, R>,
    pre: Shared<S, R>,
    tl: TL,
    post: Shared<S, R>,
    tl_post: TL,
    wake: Wake,
    item: Option<RecvOk<S, R>>,
    i: int,
)
    requires
        pre.seq.wf(),
        performs(call, pre, tl, post, tl_post, wake, item),
        0 <= i < pre.seq.cap(),
    ensures
        same_or_new(pre.seq, post.seq, i),
{
    match call {
        Call::Receive { packet } => {
            if !pre.closed {
                let result = choose|result: Result<(RecvOk<S, R>, bool), TryRecvError>|
                    {
                        &&& #[trigger] tries_to_receive(pre, tl, packet, post, tl_post, result, wake)
                        &&& item == given_by(result)
                    };
                let checked = choose|checked: Result<(RecvOkRaw<S, R>, bool), RawRecvError>|
                    #[trigger]
                    receives_and_resends(pre.seq, tl, packet, post.seq, tl_post, checked);
                let raw = choose|raw: Result<(RecvOkRaw<S, R>, bool), TryRawRecvError>| #[trigger]
                    receives(pre.seq, packet, post.seq, raw);
                assert(receives(pre.seq, packet, post.seq, raw));
            }
        },
        Call::Service { now } | Call::ServiceScheduled { now } => {
            resending_retimes(pre.seq, now, 0, 0);
            assert(same_packet(
                pre.seq.send_window[i],
                after_service(pre.seq, now).send_window[i],
            ));
        },
        _ => {},
    }
}

/// Whether a call is one that a peer `x`, whose other peer is `y`, can come to: what is received was
/// sent by the other peer, and guards are those that were handed out.
pub open spec fn is_honest<S, R, S2, R2>(
    c: Terms,
    w: Wires<S, R, S2, R2>,
    x: Peer<S, R>,
    y: Peer<S2, R2>,
    call: Call<S, R>,
) -> bool {
    match call {
        Call::Receive { packet } => can_arrive(c, w, x, y, packet),
        Call::Reply { guard, .. } => is_open(c, x, guard),
        Call::ReplyStayLocked { guard, .. } => is_open(c, x, guard),
        Call::Ack { guard } => is_open(c, x, guard),
        Call::Release { guard } => is_open(c, x, guard),
        _ => true,
    }
}

/// Whether a guard stands for a packet that the peer `x` has yet to answer.
pub open spec fn is_open<S, R>(c: Terms, x: Peer<S, R>, guard: ReplyGuard) -> bool {
    exists|v: int| #[trigger] x.open.contains(v) && guard.reply_no() == c.number(v)
}

/// Whether the books of the peer `x` are kept after a call: `x2` has been given what the call gave to
/// the thread, in addition to what `x` had been given, and has sent what the thread wanted to send,
/// if that was sent.
pub open spec fn books_kept<S, R, S2, R2>(
    c: Terms,
    w: Wires<S, R, S2, R2>,
    x: Peer<S, R>,
    y: Peer<S2, R2>,
    call: Call<S, R>,
    item: Option<RecvOk<S, R>>,
    x2: Peer<S, R>,
) -> bool {
    &&& was_given(c, w, x, y, item, x2)
    &&& has_sent(x, call.offers(), x2)
}

/// Whether `x2` has been given `item` in addition to what `x` had been given: the next packet of `y`,
/// as it was carried, with what it answers, or the data of a packet that `y` has acknowledged.
pub open spec fn was_given<S, R, S2, R2>(
    c: Terms,
    w: Wires<S, R, S2, R2>,
    x: Peer<S, R>,
    y: Peer<S2, R2>,
    item: Option<RecvOk<S, R>>,
    x2: Peer<S, R>,
) -> bool {
    match brought(item) {
        Some(data) => {
            let v = x2.received.last();
            &&& x2.received.len() == x.received.len() + 1
            &&& x2.received.drop_last() == x.received
            &&& 0 <= v < y.sent.len()
            &&& (w.to_first)(y.sent[v].data, data)
            &&& item->0.is_guarded(as_sent(c, x, y, v, data))
        },
        None => {
            &&& x2.received == x.received
            &&& item matches Some(RecvOk::Ack { send_data }) ==> exists|v: int|
                #[trigger] waits(c, x, v) && y.acked.contains(v) && x.sent[v].data == send_data
        },
    }
}

/// Whether `x2` has sent what was offered in addition to what `x` had sent, or has sent nothing more
/// and counts on from the same number.
pub open spec fn has_sent<S, R>(x: Peer<S, R>, offered: Option<(bool, S)>, x2: Peer<S, R>) -> bool {
    if x2.st.next_send == x.st.next_send {
        x2.sent == x.sent
    } else {
        &&& offered matches Some((seq_cst, data))
        &&& x2.sent.len() == x.sent.len() + 1
        &&& x2.sent.drop_last() == x.sent
        &&& x2.sent.last().seq_cst == seq_cst
        &&& x2.sent.last().data == data
    }
}

/// Whether nothing but a packet to send is taken from a thread.
spec fn takes_offer<S, R>(x: Peer<S, R>, offered: Option<(bool, S)>, x2: Peer<S, R>) -> bool {
    &&& x2.received == x.received
    &&& has_sent(x, offered, x2)
}

/// Threads that share a session do nothing to it that could not happen in a session of one thread:
/// each call is an event, or leaves the session as it is, and the session stays one that can be come
/// to. What is guaranteed of sessions is guaranteed of shared ones. In particular what the threads
/// of a peer are given, by `SeqEx::receive_all` or otherwise, is what is handed to the application.
///
/// In a closed session the ack of a packet is one that gets lost.
pub proof fn shared_is_a_session<S, R, S2, R2, TL: TransportLayer<S>>(
    c: Terms,
    w: Wires<S, R, S2, R2>,
    x: Peer<S, R>,
    y: Peer<S2, R2>,
    call: Call<S, R>,
    pre: Shared<S, R>,
    tl: TL,
    post: Shared<S, R>,
    tl_post: TL,
    wake: Wake,
    item: Option<RecvOk<S, R>>,
) -> (x2: Peer<S, R>)
    requires
        reachable(c, w, x, y),
        is_honest(c, w, x, y, call),
        pre.seq == x.st,
        performs(call, pre, tl, post, tl_post, wake, item),
    ensures
        x2.st == post.seq,
        x2 == x || exists|event: Event<S, R>| happens(c, w.to_first, x, y, event, x2),
        in_step(c, x2, y) ==> reachable(c, w, x2, y),
        books_kept(c, w, x, y, call, item, x2),
{
    reachable_inv(c, w, x, y);
    let x2 = if call.can_give() {
        giving_event(c, w, x, y, call, pre, tl, post, tl_post, wake, item)
    } else {
        taking_event(c, w, x, y, call, pre, tl, post, tl_post, wake, item)
    };
    if x2 != x && in_step(c, x2, y) {
        let event = choose|event: Event<S, R>| happens(c, w.to_first, x, y, event, x2);
        event_keeps_reachable(c, w, x, y, event, x2);
    }
    x2
}

proof fn giving_event<S, R, S2, R2, TL: TransportLayer<S>>(
    c: Terms,
    w: Wires<S, R, S2, R2>,
    x: Peer<S, R>,
    y: Peer<S2, R2>,
    call: Call<S, R>,
    pre: Shared<S, R>,
    tl: TL,
    post: Shared<S, R>,
    tl_post: TL,
    wake: Wake,
    item: Option<RecvOk<S, R>>,
) -> (x2: Peer<S, R>)
    requires
        reachable(c, w, x, y),
        inv(c, x, y),
        is_honest(c, w, x, y, call),
        pre.seq == x.st,
        performs(call, pre, tl, post, tl_post, wake, item),
        call.can_give(),
    ensures
        x2.st == post.seq,
        x2 == x || exists|event: Event<S, R>| happens(c, w.to_first, x, y, event, x2),
        books_kept(c, w, x, y, call, item, x2),
{
    match call {
        Call::Receive { packet } => {
            if pre.closed {
                x
            } else {
                receive_is_an_event(c, w, x, y, packet, pre, tl, post, tl_post, wake, item)
            }
        },
        Call::TryPump => {
            let result = choose|result: Result<(RecvOk<S, R>, bool), TryError>|
                {
                    &&& #[trigger] tries_to_pump(pre, post, result, wake)
                    &&& item == given_by(result)
                };
            pump_is_an_event(c, w, x, y, pre, post, result, wake)
        },
        _ => if item is None {
            x
        } else {
            let resumed = if call is Pump {
                pre
            } else {
                Shared { reply_receiver_waiters: false, ..pre }
            };
            let step = choose|step: PumpStep<S, R>|
                {
                    &&& #[trigger] pump_attempt(resumed, post, step, wake)
                    &&& item == given_by_pump(step)
                };
            let ok = step->Done_0->Some_0;
            pump_is_an_event(c, w, x, y, resumed, post, Ok(ok), wake)
        },
    }
}

proof fn taking_event<S, R, S2, R2, TL: TransportLayer<S>>(
    c: Terms,
    w: Wires<S, R, S2, R2>,
    x: Peer<S, R>,
    y: Peer<S2, R2>,
    call: Call<S, R>,
    pre: Shared<S, R>,
    tl: TL,
    post: Shared<S, R>,
    tl_post: TL,
    wake: Wake,
    item: Option<RecvOk<S, R>>,
) -> (x2: Peer<S, R>)
    requires
        reachable(c, w, x, y),
        inv(c, x, y),
        is_honest(c, w, x, y, call),
        pre.seq == x.st,
        performs(call, pre, tl, post, tl_post, wake, item),
        !call.can_give(),
    ensures
        x2.st == post.seq,
        x2 == x || exists|event: Event<S, R>| happens(c, w.to_first, x, y, event, x2),
        takes_offer(x, call.offers(), x2),
{
    match call {
        Call::Send { seq_cst, data } => send_is_an_event(
            c,
            w,
            x,
            y,
            pre,
            tl,
            seq_cst,
            data,
            post,
        ),
        Call::SendAgain { waited, seq_cst, data } => send_is_an_event(
            c,
            w,
            x,
            y,
            pre,
            tl,
            seq_cst,
            data,
            post,
        ),
        Call::SendTimeout { now, timeout, seq_cst, data } => send_is_an_event(
            c,
            w,
            x,
            y,
            pre,
            tl,
            seq_cst,
            data,
            post,
        ),
        Call::SendTimeoutAgain { waited, now, end_time, seq_cst, data } => send_is_an_event(
            c,
            w,
            x,
            y,
            pre,
            tl,
            seq_cst,
            data,
            post,
        ),
        Call::Reply { guard, seq_cst, data } => if pre.closed {
            ack_is_an_event(c, w, x, y, guard, guard.holds_lock())
        } else {
            reply_is_an_event(c, w, x, y, tl, guard, guard.holds_lock(), seq_cst, data, post.seq)
        },
        Call::ReplyStayLocked { guard, seq_cst, data } => if pre.closed {
            ack_is_an_event(c, w, x, y, guard, false)
        } else {
            reply_is_an_event(c, w, x, y, tl, guard, false, seq_cst, data, post.seq)
        },
        Call::Ack { guard } => ack_is_an_event(c, w, x, y, guard, false),
        Call::Release { guard } => ack_is_an_event(c, w, x, y, guard, guard.holds_lock()),
        Call::Unlock => {
            let x2 = Peer { st: x.st.unlocked_session(), ..x };
            assert(happens(c, w.to_first, x, y, Event::Unlock, x2));
            x2
        },
        Call::Service { now } => retime_is_an_event(c, w, x, y, now, post.seq),
        Call::ServiceScheduled { now } => retime_is_an_event(c, w, x, y, now, post.seq),
        _ => x,
    }
}

/// What is handed out is what the books are kept of.
proof fn lemma_given<S, R, S2, R2>(
    c: Terms,
    w: Wires<S, R, S2, R2>,
    x: Peer<S, R>,
    y: Peer<S2, R2>,
    v: int,
    data: R,
    ok: RecvOk<S, R>,
    x2: Peer<S, R>,
)
    requires
        0 <= v < y.sent.len(),
        (w.to_first)(y.sent[v].data, data),
        ok.is_guarded(as_sent(c, x, y, v, data)),
        x2.received == x.received.push(v),
    ensures
        brought(Some(ok)) == Some(data),
        was_given(c, w, x, y, Some(ok), x2),
{
    assert(x2.received.drop_last() =~= x.received);
}

proof fn receive_is_an_event<S, R, S2, R2, TL: TransportLayer<S>>(
    c: Terms,
    w: Wires<S, R, S2, R2>,
    x: Peer<S, R>,
    y: Peer<S2, R2>,
    packet: Packet<R>,
    pre: Shared<S, R>,
    tl: TL,
    post: Shared<S, R>,
    tl_post: TL,
    wake: Wake,
    item: Option<RecvOk<S, R>>,
) -> (x2: Peer<S, R>)
    requires
        reachable(c, w, x, y),
        is_honest(c, w, x, y, Call::Receive { packet }),
        pre.seq == x.st,
        !pre.closed,
        performs(Call::Receive { packet }, pre, tl, post, tl_post, wake, item),
    ensures
        x2.st == post.seq,
        exists|event: Event<S, R>| happens(c, w.to_first, x, y, event, x2),
        books_kept(c, w, x, y, Call::Receive { packet }, item, x2),
{
    let result = choose|result: Result<(RecvOk<S, R>, bool), TryRecvError>|
        {
            &&& #[trigger] tries_to_receive(pre, tl, packet, post, tl_post, result, wake)
            &&& item == given_by(result)
        };
    let checked = choose|checked: Result<(RecvOkRaw<S, R>, bool), RawRecvError>|
        {
            &&& #[trigger] receives_and_resends(pre.seq, tl, packet, post.seq, tl_post, checked)
            &&& match checked {
                Ok((r, _)) => result is Ok && result->Ok_0.0.is_guarded(r),
                Err(_) => result is Err,
            }
        };
    let raw = choose|raw: Result<(RecvOkRaw<S, R>, bool), TryRawRecvError>| #[trigger]
        receives(pre.seq, packet, post.seq, raw);
    if exists|v: int, data: R|
        {
            &&& 0 <= v < y.sent.len()
            &&& x.next - v <= NUMBERS / 2
            &&& (w.to_first)(y.sent[v].data, data)
            &&& packet == #[trigger] y.carrying(c, v, data)
        } {
        let (v, data) = choose|v: int, data: R|
            {
                &&& 0 <= v < y.sent.len()
                &&& x.next - v <= NUMBERS / 2
                &&& (w.to_first)(y.sent[v].data, data)
                &&& packet == #[trigger] y.carrying(c, v, data)
            };
        let x2 = match raw {
            Ok(_) => handed_out(x, post.seq, v),
            Err(TryRawRecvError::DroppedDuplicateResendAck(_)) => Peer {
                acked: x.acked.insert(v),
                st: post.seq,
                ..x
            },
            Err(_) => Peer { st: post.seq, ..x },
        };
        assert(receives(x.st, y.carrying(c, v, data), x2.st, raw));
        assert(happens(c, w.to_first, x, y, Event::Receive { v, data }, x2));
        arrives_as_sent(c, w, x, y, v, data, x2, raw);
        if raw is Ok {
            lemma_given(c, w, x, y, v, data, item->0, x2);
        }
        x2
    } else {
        let v = choose|v: int|
            {
                &&& #[trigger] y.acked.contains(v)
                &&& x.sent.len() - v <= NUMBERS / 2
                &&& packet == Packet::<R>::Ack(c.number(v))
            };
        let x2 = Peer { st: post.seq, ..x };
        assert(receives(x.st, Packet::<R>::Ack(c.number(v)), x2.st, raw));
        assert(happens(c, w.to_first, x, y, Event::ReceiveAck { v }, x2));
        reachable_inv(c, w, x, y);
        assert(y.received.contains(v));
        assert(marked(c, x, y, v));
        lemma_unanswered(c, x, y, v);
        assert(waits(c, x, v) == (raw is Ok));
        x2
    }
}

proof fn pump_is_an_event<S, R, S2, R2>(
    c: Terms,
    w: Wires<S, R, S2, R2>,
    x: Peer<S, R>,
    y: Peer<S2, R2>,
    pre: Shared<S, R>,
    post: Shared<S, R>,
    result: Result<(RecvOk<S, R>, bool), TryError>,
    wake: Wake,
) -> (x2: Peer<S, R>)
    requires
        reachable(c, w, x, y),
        pre.seq == x.st,
        tries_to_pump(pre, post, result, wake),
    ensures
        x2.st == post.seq,
        exists|event: Event<S, R>| happens(c, w.to_first, x, y, event, x2),
        books_kept(c, w, x, y, Call::TryPump, given_by(result), x2),
{
    let raw = choose|raw: Result<(RecvOkRaw<S, R>, bool), TryError>|
        {
            &&& #[trigger] pumps(pre.seq, post.seq, raw)
            &&& match raw {
                Ok((r, _)) => result is Ok && result->Ok_0.0.is_guarded(r),
                Err(_) => result is Err,
            }
        };
    let x2 = match raw {
        Ok(_) => handed_out(x, post.seq, x.next),
        Err(_) => x,
    };
    assert(pumps(x.st, x2.st, raw));
    assert(happens(c, w.to_first, x, y, Event::Pump, x2));
    if let Ok((ok, do_pump)) = raw {
        let data = pumped_as_sent(c, w, x, y, x2, ok, do_pump);
        lemma_given(c, w, x, y, x.next, data, result->Ok_0.0, x2);
    }
    x2
}

proof fn send_is_an_event<S, R, S2, R2, TL: TransportLayer<S>>(
    c: Terms,
    w: Wires<S, R, S2, R2>,
    x: Peer<S, R>,
    y: Peer<S2, R2>,
    pre: Shared<S, R>,
    tl: TL,
    seq_cst: bool,
    data: S,
    post: Shared<S, R>,
) -> (x2: Peer<S, R>)
    requires
        pre.seq == x.st,
        post.seq == pre.seq || pre.seq.room(None) is Ok && sent_at_some_time(
            pre.seq,
            tl,
            None,
            seq_cst,
            data,
            post.seq,
        ),
    ensures
        x2.st == post.seq,
        x2 == x || exists|event: Event<S, R>| happens(c, w.to_first, x, y, event, x2),
        takes_offer(x, Some((seq_cst, data)), x2),
{
    if post.seq == pre.seq {
        x
    } else {
        let now = choose|t: i64| #[trigger]
            tl.may_report(t) && post.seq == pre.seq.sent(t, None, seq_cst, data);
        let x2 = Peer {
            st: post.seq,
            sent: x.sent.push(Sent { reply: None, seq_cst, data }),
            ..x
        };
        assert(happens(c, w.to_first, x, y, Event::Send { now, seq_cst, data }, x2));
        assert(x2.sent.drop_last() =~= x.sent);
        x2
    }
}

proof fn reply_is_an_event<S, R, S2, R2, TL: TransportLayer<S>>(
    c: Terms,
    w: Wires<S, R, S2, R2>,
    x: Peer<S, R>,
    y: Peer<S2, R2>,
    tl: TL,
    guard: ReplyGuard,
    unlock: bool,
    seq_cst: bool,
    data: S,
    post: SeqState<S, R>,
) -> (x2: Peer<S, R>)
    requires
        inv(c, x, y),
        is_open(c, x, guard),
        x.st.replies.count(guard.reply_no()) > 0 ==> sent_at_some_time(
            x.st.returned(guard.reply_no(), unlock),
            tl,
            Some(guard.reply_no()),
            seq_cst,
            data,
            post,
        ),
    ensures
        x2.st == post,
        exists|event: Event<S, R>| happens(c, w.to_first, x, y, event, x2),
        takes_offer(x, Some((seq_cst, data)), x2),
{
    let v = choose|v: int| #[trigger] x.open.contains(v) && guard.reply_no() == c.number(v);
    let now = choose|t: i64| #[trigger]
        tl.may_report(t) && post == x.st.returned(guard.reply_no(), unlock).sent(
            t,
            Some(guard.reply_no()),
            seq_cst,
            data,
        );
    let x2 = Peer {
        st: post,
        sent: x.sent.push(Sent { reply: Some(v), seq_cst, data }),
        open: x.open.remove(v),
        ..x
    };
    assert(happens(c, w.to_first, x, y, Event::Reply { v, now, unlock, seq_cst, data }, x2));
    assert(x2.sent.drop_last() =~= x.sent);
    x2
}

proof fn ack_is_an_event<S, R, S2, R2>(
    c: Terms,
    w: Wires<S, R, S2, R2>,
    x: Peer<S, R>,
    y: Peer<S2, R2>,
    guard: ReplyGuard,
    unlock: bool,
) -> (x2: Peer<S, R>)
    requires
        inv(c, x, y),
        is_open(c, x, guard),
    ensures
        x2.st == x.st.returned(guard.reply_no(), unlock),
        x.st.replies.count(guard.reply_no()) > 0,
        exists|event: Event<S, R>| happens(c, w.to_first, x, y, event, x2),
        x2.received == x.received,
        x2.sent == x.sent,
{
    let v = choose|v: int| #[trigger] x.open.contains(v) && guard.reply_no() == c.number(v);
    let x2 = Peer {
        st: x.st.returned(c.number(v), unlock),
        acked: x.acked.insert(v),
        open: x.open.remove(v),
        ..x
    };
    assert(happens(c, w.to_first, x, y, Event::Ack { v, unlock }, x2));
    x2
}

proof fn retime_is_an_event<S, R, S2, R2>(
    c: Terms,
    w: Wires<S, R, S2, R2>,
    x: Peer<S, R>,
    y: Peer<S2, R2>,
    now: i64,
    post: SeqState<S, R>,
) -> (x2: Peer<S, R>)
    requires
        x.st.wf(),
        post == x.st || post == after_service(x.st, now) || post == settled(
            after_service(x.st, now),
        ),
    ensures
        x2.st == post,
        exists|event: Event<S, R>| happens(c, w.to_first, x, y, event, x2),
        x2.received == x.received,
        x2.sent == x.sent,
        x2.st.next_send == x.st.next_send,
{
    let after = after_service(x.st, now);
    resending_retimes(x.st, now, 0, 0);
    resending_retimes(x.st, now, 0, x.st.next_service_timestamp);
    assert(x.st =~= x.st.serviced(x.st.next_service_timestamp));
    assert(retimed(x.st, after.serviced(i64::MAX)));
    let x2 = Peer { st: post, ..x };
    assert(happens(c, w.to_first, x, y, Event::Retime, x2));
    x2
}

} // verus!
