//! What comes of a conversation between the tasks of an application and a remote peer, from the first
//! call to the last.
//!
//! A conversation is told by the calls that the tasks make and by the events at the remote peer, one
//! after the other. The remote peer may be of any kind, as long as it keeps to the protocol.
use super::error::AsyncRecvError;
use super::guard::replies;
use super::laws::{has_received, tasks_are_a_session, News, Tasked};
use super::layer::TokioLayer;
use super::model::{sends, Tasks};
use super::recv::receives_async;
use super::{Awaited, Held, ReplyGuard};
use crate::error::TryError;
use crate::laws::{
    all_is_a_stream, data_of, event_keeps_reachable, exactly_once, handed_over,
    initial_is_reachable, reachable, reachable_flipped, reachable_inv, resending_retimes,
};
use crate::session::{can_arrive, happens, in_step, waits, Event, Peer, Sent, Terms, Wires};
use crate::session_proof::lemma_place;
use crate::single_thread::after_service;
use crate::transport_layer::Packet;
use vstd::prelude::*;

verus! {

/// Something that a task does with the session.
#[verifier::reject_recursive_types(S)]
#[verifier::reject_recursive_types(R)]
pub enum Call<S, R> {
    /// `SeqEx::receive`, which comes to `result` before anything is awaited.
    Receive {
        packet: Packet<Held<R>>,
        result: Result<(ReplyGuard, R), Option<AsyncRecvError>>,
        woken: nat,
    },
    /// `SeqEx::send_with_inner`, with what its function produces.
    Send { seq_cst: bool, data: Awaited<S, R> },
    /// `SeqEx::send_with_inner`, where the task has to wait.
    Wait { e: TryError },
    /// `ReplyGuard::reply_with`, with what its function produces.
    Reply { guard: ReplyGuard, seq_cst: bool, data: Awaited<S, R> },
    /// `ReplyGuard::ack`, or `ReplyGuard::release`, with a guard that has not been used to answer.
    Ack { guard: ReplyGuard },
    /// `ReplyGuard::release` with a guard that has been used to answer.
    Release,
    /// `SeqEx::service_task`, when packets are resent.
    Service { now: i64 },
}

/// Whether a call takes the tasks of a session from `pre` to `post`, apart from whom it wakes and what
/// is resent.
pub open spec fn performs<S, R, TL: TokioLayer<SendData = S>>(
    call: Call<S, R>,
    pre: Tasks<S, R>,
    tl: TL,
    post: Tasks<S, R>,
) -> bool {
    match call {
        Call::Receive { packet, result, woken } => receives_async(
            pre,
            packet,
            post,
            result,
            woken,
        ),
        Call::Send { seq_cst, data } => {
            &&& pre.seq.room(None) is Ok
            &&& sends(pre, tl, None, seq_cst, data, post)
        },
        Call::Wait { e } => post == pre.waiting(e),
        Call::Reply { guard, seq_cst, data } => exists|mid: Tasks<S, R>| #[trigger]
            replies(pre, tl, guard, seq_cst, data, mid) && post == mid.notified(),
        Call::Ack { guard } => {
            let acked = pre.acked(guard.reply_no(), guard.holds_lock());
            post == acked || post == acked.notified()
        },
        Call::Release => post == pre.notified(),
        Call::Service { now } => {
            &&& post.seq == after_service(pre.seq, now)
            &&& post.held == pre.held
            &&& post.answers == pre.answers
        },
    }
}

/// Whether a guard stands for packet `v` of the other peer, which the peer `x` has yet to answer.
pub open spec fn is_open<S, R>(c: Terms, x: Tasked<S, R>, guard: ReplyGuard, v: int) -> bool {
    x.open.contains(v) && guard.reply_no() == c.number(v)
}

/// Whether a call is one that a peer `x`, whose other peer is `y`, can come to: what is received was
/// sent by the other peer, and guards are those that were handed out.
pub open spec fn is_honest<S, R, S2, R2>(
    c: Terms,
    w: Wires<Awaited<S, R>, Held<R>, S2, R2>,
    x: Tasked<S, R>,
    y: Peer<S2, R2>,
    call: Call<S, R>,
) -> bool {
    match call {
        Call::Receive { packet, .. } => can_arrive(c, w, x, y, packet),
        Call::Reply { guard, .. } => exists|v: int| #[trigger] is_open(c, x, guard, v),
        Call::Ack { guard } => exists|v: int| #[trigger] is_open(c, x, guard, v),
        _ => true,
    }
}

/// The data that packets bring, and who received them.
pub open spec fn brought<R>(first: Option<News<R>>, rest: Seq<News<R>>) -> Seq<Held<R>> {
    let others = rest.map_values(|n: News<R>| n.data);
    match first {
        Some(n) => seq![n.data] + others,
        None => others,
    }
}

/// Whether `x2` is what the peer `x`, whose other peer is `y`, has become by a call, and `given` what
/// the call has handed to tasks.
pub open spec fn leads_to<S, R, S2, R2>(
    c: Terms,
    w: Wires<Awaited<S, R>, Held<R>, S2, R2>,
    x: Tasked<S, R>,
    y: Peer<S2, R2>,
    call: Call<S, R>,
    pre: Tasks<S, R>,
    post: Tasks<S, R>,
    x2: Tasked<S, R>,
    given: Seq<Held<R>>,
) -> bool {
    &&& x2.st == post.seq
    &&& in_step(c, x2, y) ==> reachable(c, w, x2, y)
    &&& match call {
        Call::Receive { result, .. } => exists|first: Option<News<R>>, rest: Seq<News<R>>|
            {
                &&& #[trigger] has_received(c, w, x, y, pre, post, result, first, rest, x2)
                &&& given == brought(first, rest)
            },
        _ => {
            &&& x2.received == x.received
            &&& given.len() == 0
            &&& post.held == pre.held
            &&& post.answers == pre.answers
            &&& has_sent(c, x, call, x2)
        },
    }
}

/// Whether `x2` has sent, in addition to what `x` had sent, what a call sends.
pub open spec fn has_sent<S, R>(
    c: Terms,
    x: Tasked<S, R>,
    call: Call<S, R>,
    x2: Tasked<S, R>,
) -> bool {
    match call {
        Call::Send { seq_cst, data } => x2.sent == x.sent.push(
            Sent { reply: None, seq_cst, data },
        ),
        Call::Reply { guard, seq_cst, data } => exists|v: int|
            {
                &&& #[trigger] is_open(c, x, guard, v)
                &&& x2.sent == x.sent.push(Sent { reply: Some(v), seq_cst, data })
            },
        _ => x2.sent == x.sent,
    }
}

/// Whatever tasks do with a session could happen in a session of one thread, and leads to a point
/// that a session can come to. What is guaranteed of sessions is guaranteed of it.
pub proof fn calls_are_a_session<S, R, S2, R2, TL: TokioLayer<SendData = S>>(
    c: Terms,
    w: Wires<Awaited<S, R>, Held<R>, S2, R2>,
    x: Tasked<S, R>,
    y: Peer<S2, R2>,
    call: Call<S, R>,
    pre: Tasks<S, R>,
    tl: TL,
    post: Tasks<S, R>,
) -> (out: (Tasked<S, R>, Seq<Held<R>>))
    requires
        reachable(c, w, x, y),
        is_honest(c, w, x, y, call),
        pre.seq == x.st,
        performs(call, pre, tl, post),
    ensures
        leads_to(c, w, x, y, call, pre, post, out.0, out.1),
{
    reachable_inv(c, w, x, y);
    let nothing = Seq::<Held<R>>::empty();
    let x2 = match call {
        Call::Receive { .. } => x,
        Call::Send { seq_cst, data } => {
            let now = choose|t: i64| #[trigger]
                tl.may_report(t) && post.seq == pre.seq.sent(t, None, seq_cst, data);
            let x2 = Peer {
                st: post.seq,
                sent: x.sent.push(Sent { reply: None, seq_cst, data }),
                ..x
            };
            lemma_event(c, w, x, y, Event::Send { now, seq_cst, data }, x2);
            x2
        },
        Call::Reply { guard, seq_cst, data } => {
            let mid = choose|mid: Tasks<S, R>| #[trigger]
                replies(pre, tl, guard, seq_cst, data, mid) && post == mid.notified();
            let v = choose|v: int| #[trigger] is_open(c, x, guard, v);
            assert(x.st.replies.count(c.number(v)) == 1);
            let unlock = guard.holds_lock();
            let now = choose|t: i64| #[trigger]
                tl.may_report(t) && post.seq == pre.seq.returned(c.number(v), unlock).sent(
                    t,
                    Some(c.number(v)),
                    seq_cst,
                    data,
                );
            let x2 = Peer {
                st: post.seq,
                sent: x.sent.push(Sent { reply: Some(v), seq_cst, data }),
                open: x.open.remove(v),
                ..x
            };
            lemma_event(c, w, x, y, Event::Reply { v, now, unlock, seq_cst, data }, x2);
            x2
        },
        Call::Ack { guard } => {
            let v = choose|v: int| #[trigger] is_open(c, x, guard, v);
            assert(x.st.replies.count(c.number(v)) == 1);
            let unlock = guard.holds_lock();
            let x2 = Peer {
                st: x.st.returned(c.number(v), unlock),
                acked: x.acked.insert(v),
                open: x.open.remove(v),
                ..x
            };
            lemma_event(c, w, x, y, Event::Ack { v, unlock }, x2);
            x2
        },
        Call::Service { now } => {
            resending_retimes(x.st, now, 0, 0);
            let x2 = Peer { st: post.seq, ..x };
            lemma_event(c, w, x, y, Event::Retime, x2);
            x2
        },
        _ => x,
    };
    if let Call::Receive { packet, result, woken } = call {
        let (x2, first, rest) = tasks_are_a_session(
            c,
            w,
            x,
            y,
            pre,
            packet,
            post,
            result,
            woken,
        );
        assert(has_received(c, w, x, y, pre, post, result, first, rest, x2));
        (x2, brought(first, rest))
    } else {
        (x2, nothing)
    }
}

/// An event leads to a point that a session can come to.
proof fn lemma_event<S, R, S2, R2>(
    c: Terms,
    w: Wires<Awaited<S, R>, Held<R>, S2, R2>,
    x: Tasked<S, R>,
    y: Peer<S2, R2>,
    event: Event<Awaited<S, R>, Held<R>>,
    x2: Tasked<S, R>,
)
    requires
        reachable(c, w, x, y),
        happens(c, w.to_first, x, y, event, x2),
    ensures
        in_step(c, x2, y) ==> reachable(c, w, x2, y),
{
    if in_step(c, x2, y) {
        event_keeps_reachable(c, w, x, y, event, x2);
    }
}

/// One step of a conversation.
#[verifier::reject_recursive_types(S)]
#[verifier::reject_recursive_types(R)]
#[verifier::reject_recursive_types(TL)]
#[verifier::reject_recursive_types(S2)]
#[verifier::reject_recursive_types(R2)]
pub enum Turn<S, R, TL, S2, R2> {
    /// A task makes a call.
    Task { call: Call<S, R>, pre: Tasks<S, R>, tl: TL, post: Tasks<S, R> },
    /// Something happens at the remote peer, which becomes `y2`.
    Remote { event: Event<S2, R2>, y2: Peer<S2, R2> },
}

/// The two peers after some turns, and everything that has been handed to tasks.
pub open spec fn after<S, R, TL, S2, R2>(
    c: Terms,
    w: Wires<Awaited<S, R>, Held<R>, S2, R2>,
    resend: (i64, i64),
    turns: Seq<Turn<S, R, TL, S2, R2>>,
) -> (Tasked<S, R>, Peer<S2, R2>, Seq<Held<R>>)
    decreases turns.len(),
{
    if turns.len() == 0 {
        (Peer::initial(c, resend.0), Peer::initial(c, resend.1), Seq::empty())
    } else {
        let (x, y, given) = after(c, w, resend, turns.drop_last());
        match turns.last() {
            Turn::Task { call, pre, tl, post } => {
                let (x2, more) = choose|x2: Tasked<S, R>, more: Seq<Held<R>>|
                    leads_to(c, w, x, y, call, pre, post, x2, more);
                (x2, y, given + more)
            },
            Turn::Remote { event, y2 } => (x, y2, given),
        }
    }
}

/// Whether a conversation, between sessions that were created with the resend intervals `resend`,
/// can go through these turns.
pub open spec fn is_talk<S, R, TL: TokioLayer<SendData = S>, S2, R2>(
    c: Terms,
    w: Wires<Awaited<S, R>, Held<R>, S2, R2>,
    resend: (i64, i64),
    turns: Seq<Turn<S, R, TL, S2, R2>>,
) -> bool
    decreases turns.len(),
{
    let (x2, y2, _) = after(c, w, resend, turns);
    &&& in_step(c, x2, y2)
    &&& if turns.len() == 0 {
        c.wf()
    } else {
        let (x, y, _) = after(c, w, resend, turns.drop_last());
        &&& is_talk(c, w, resend, turns.drop_last())
        &&& match turns.last() {
            Turn::Task { call, pre, tl, post } => {
                &&& is_honest(c, w, x, y, call)
                &&& pre.seq == x.st
                &&& performs(call, pre, tl, post)
            },
            Turn::Remote { event, y2 } => happens(c, w.to_second, y, x, event, y2),
        }
    }
}

/// Whether each thing in `given` was carried there from the data of the packet of `y` in the same
/// place of what `x` has received.
pub open spec fn all_carried<S, R, S2, R2>(
    w: Wires<Awaited<S, R>, Held<R>, S2, R2>,
    x: Tasked<S, R>,
    y: Peer<S2, R2>,
    given: Seq<Held<R>>,
) -> bool {
    &&& given.len() == x.received.len()
    &&& forall|i: int|
        0 <= i < given.len() ==> (w.to_first)(
            y.sent[x.received[i]].data,
            #[trigger] given[i],
        )
}

/// Throughout a conversation the session of the tasks and the remote peer are at a point that a
/// session can come to, so that what is guaranteed of sessions holds of them, and what has been handed
/// to tasks is what has been received, each packet once and with what was carried of it.
pub proof fn talk_is_a_session<S, R, TL: TokioLayer<SendData = S>, S2, R2>(
    c: Terms,
    w: Wires<Awaited<S, R>, Held<R>, S2, R2>,
    resend: (i64, i64),
    turns: Seq<Turn<S, R, TL, S2, R2>>,
)
    requires
        is_talk(c, w, resend, turns),
    ensures
        ({
            let (x, y, given) = after(c, w, resend, turns);
            &&& reachable(c, w, x, y)
            &&& all_carried(w, x, y, given)
            &&& x.received.no_duplicates()
        }),
    decreases turns.len(),
{
    let (x2, y2, given2) = after(c, w, resend, turns);
    if turns.len() == 0 {
        initial_is_reachable(c, w, resend.0, resend.1);
    } else {
        let (x, y, given) = after(c, w, resend, turns.drop_last());
        talk_is_a_session(c, w, resend, turns.drop_last());
        match turns.last() {
            Turn::Task { call, pre, tl, post } => {
                let (next, some) = calls_are_a_session(c, w, x, y, call, pre, tl, post);
                assert(leads_to(c, w, x, y, call, pre, post, next, some));
                let (x1, more) = choose|x1: Tasked<S, R>, more: Seq<Held<R>>|
                    leads_to(c, w, x, y, call, pre, post, x1, more);
                assert(leads_to(c, w, x, y, call, pre, post, x1, more));
                assert(x2 == x1 && given2 == given + more && y2 == y);
                lemma_more_given(c, w, x, y, call, pre, post, x2, given, more);
            },
            Turn::Remote { event, y2: next } => {
                reachable_flipped(c, w, x, y);
                event_keeps_reachable(c, w.flipped(), y, x, event, y2);
                reachable_flipped(c, w.flipped(), y2, x);
                assert(w.flipped().flipped() == w);
                assert forall|i: int| 0 <= i < given.len() implies (w.to_first)(
                    y2.sent[x.received[i]].data,
                    #[trigger] given[i],
                ) by {
                    assert(x.received.contains(x.received[i]));
                    exactly_once(c, w.flipped(), y, x, x.received[i]);
                }
            },
        }
    }
    reachable_inv(c, w, x2, y2);
}

/// What has been given stays carried from what was received when more is.
proof fn lemma_more_given<S, R, S2, R2>(
    c: Terms,
    w: Wires<Awaited<S, R>, Held<R>, S2, R2>,
    x: Tasked<S, R>,
    y: Peer<S2, R2>,
    call: Call<S, R>,
    pre: Tasks<S, R>,
    post: Tasks<S, R>,
    x2: Tasked<S, R>,
    given: Seq<Held<R>>,
    more: Seq<Held<R>>,
)
    requires
        all_carried(w, x, y, given),
        leads_to(c, w, x, y, call, pre, post, x2, more),
    ensures
        all_carried(w, x2, y, given + more),
{
    if let Call::Receive { packet, result, woken } = call {
        let (first, rest) = choose|first: Option<News<R>>, rest: Seq<News<R>>|
            {
                &&& #[trigger] has_received(c, w, x, y, pre, post, result, first, rest, x2)
                &&& more == brought(first, rest)
            };
        let news = match first {
            Some(n) => seq![n] + rest,
            None => rest,
        };
        let all = given + more;
        assert(more =~= news.map_values(|n: News<R>| n.data));
        assert(x2.received =~= x.received + news.map_values(|n: News<R>| n.v));
        assert forall|i: int| 0 <= i < all.len() implies (w.to_first)(
            y.sent[x2.received[i]].data,
            #[trigger] all[i],
        ) by {
            if i < given.len() {
                assert(all[i] == given[i]);
                assert(x2.received[i] == x.received[i]);
            } else {
                let k = i - given.len();
                assert(all[i] == news[k].data);
                assert(x2.received[i] == news[k].v);
                if first is Some && k > 0 {
                    assert(news[k] == rest[k - 1]);
                }
            }
        }
    } else {
        assert(given + more =~= given);
    }
}

/// Where everything that the remote peer sends is SeqCst, what has been handed to tasks was carried
/// from the beginning of what the remote peer has sent, in order, without gaps and each thing once.
/// Once everything that the remote peer has sent has been answered, it is all of it.
pub proof fn received_as_sent<S, R, TL: TokioLayer<SendData = S>, S2, R2>(
    c: Terms,
    w: Wires<Awaited<S, R>, Held<R>, S2, R2>,
    resend: (i64, i64),
    turns: Seq<Turn<S, R, TL, S2, R2>>,
)
    requires
        is_talk(c, w, resend, turns),
        forall|v: int|
            0 <= v < after(c, w, resend, turns).1.sent.len() ==> (#[trigger] after(
                c,
                w,
                resend,
                turns,
            ).1.sent[v]).seq_cst,
    ensures
        ({
            let (x, y, given) = after(c, w, resend, turns);
            &&& given.len() <= y.sent.len()
            &&& forall|i: int|
                0 <= i < given.len() ==> (w.to_first)(y.sent[i].data, #[trigger] given[i])
            &&& y.st.is_idle() ==> given.len() == y.sent.len()
        }),
{
    let (x, y, given) = after(c, w, resend, turns);
    talk_is_a_session(c, w, resend, turns);
    reachable_flipped(c, w, x, y);
    all_is_a_stream(c, w.flipped(), y, x);
    let over = data_of(handed_over(y, x));
    assert forall|i: int| 0 <= i < given.len() implies (w.to_first)(
        y.sent[i].data,
        #[trigger] given[i],
    ) by {
        assert(over[i] == data_of(y.sent).subrange(0, over.len() as int)[i]);
        assert(over[i] == y.sent[x.received[i]].data);
    }
    if y.st.is_idle() {
        reachable_inv(c, w.flipped(), y, x);
        assert forall|v: int| 0 <= v < y.sent.len() implies !(#[trigger] waits(c, y, v)) by {
            lemma_place(c, v);
        }
    }
}

} // verus!
