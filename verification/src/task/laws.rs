//! What holds of a session whose packets are awaited.
use super::error::AsyncRecvError;
use super::model::Tasks;
use super::recv::{accepts, hands_out, receives_async};
use super::{Awaited, Awaiter, Held, Holder, ReplyGuard};
use crate::error::TryRawRecvError;
use crate::laws::{
    arrives_as_sent, as_sent, event_keeps_reachable, pumped_as_sent, reachable, reachable_inv,
};
use crate::model::{slot, SeqState};
use crate::seq_queue::{pumped_packet, pumped_state, pumps, receives, RecvEntry, RecvOkRaw};
use crate::session::{
    can_arrive, handed_out, happens, marked, waits, Event, Peer, Terms, Wires, NUMBERS,
};
use crate::session_proof::lemma_unanswered;
use crate::transport_layer::{Packet, SeqNo};
use vstd::prelude::*;

verus! {

/// Each answer is multiplexed to the correct awaiter: when an answer to a packet in the send window
/// is accepted, it is handed to the task that awaits the answer to that very packet.
pub proof fn answer_reaches_its_awaiter<S, R>(
    pre: Tasks<S, R>,
    packet: Packet<Held<R>>,
    mid: SeqState<Awaited<S, R>, Held<R>>,
    first: RecvOkRaw<Awaited<S, R>, Held<R>>,
    do_pump: bool,
    delivered: bool,
    r: SeqNo,
)
    requires
        receives(pre.seq, packet, mid, Ok::<_, TryRawRecvError>((first, do_pump))),
        packet.reply_no() == Some(r),
        pre.seq.unanswered(r) is Some,
    ensures
        ({
            let awaiter = (pre.seq.unanswered(r)->0).0;
            let message = match packet.seq_no() {
                Some(s) => Some((s, packet.seq_cst(), (packet.data()->0).1)),
                None => None,
            };
            pre.with_seq(mid).dispatched(first, delivered).answers == pre.answers.push(
                (awaiter, message, delivered),
            )
        }),
{
}

/// The same holds of an answer that had to wait in the receive window, and a payload that had to
/// wait is handed to the task that received it.
pub proof fn pumped_reaches_its_task<S, R>(pre: Tasks<S, R>, delivered: bool)
    requires
        pre.seq.pump_check() is Ok,
    ensures
        match pre.seq.recv_window[slot(pre.seq.next_recv, pre.seq.cap())] {
            RecvEntry::Occupied { seq_no, reply_no, seq_cst, data } => {
                let message = (seq_no, seq_cst, data.1);
                match pre.seq.answered_data(reply_no) {
                    Some(awaited) => pre.pumped(delivered).answers == pre.answers.push(
                        (awaited.0, Some(message), delivered),
                    ),
                    None => pre.pumped(delivered).held == pre.held.push(
                        (data.0, message, delivered),
                    ),
                }
            },
            _ => false,
        },
{
}

/// A packet whose task is gone does not leave the remote peer without an answer: it is acknowledged,
/// and its reply number and lock are given back.
pub proof fn unclaimed_is_acknowledged<S, R>(
    pre: Tasks<S, R>,
    raw: RecvOkRaw<Awaited<S, R>, Held<R>>,
)
    ensures
        match raw {
            RecvOkRaw::Payload { reply_no, seq_cst, .. } | RecvOkRaw::Reply {
                reply_no,
                seq_cst,
                ..
            } => pre.seq.replies.count(reply_no) > 0 ==> {
                let post = pre.dispatched(raw, false);
                &&& post.sent == pre.sent.push(Packet::Ack(reply_no))
                &&& post.seq == pre.seq.returned(reply_no, seq_cst)
            },
            RecvOkRaw::Ack { .. } => true,
        },
{
}

/// No more tasks are woken than wait, and none is left waiting that a received packet could wake.
pub proof fn woken_as_received<S, R>(state: Tasks<S, R>, total: nat)
    ensures
        state.to_wake(total) <= state.recv_waiters,
        state.woken(state.to_wake(total)).recv_waiters + state.to_wake(total)
            == state.recv_waiters,
        state.woken(state.to_wake(total)).recv_waiters > 0 ==> state.to_wake(total) == total,
{
}

// ---- tasks and sessions ----

/// A packet that has been handed to a task: packet `v` of the other peer, the data that it brings and
/// who received it, and whether the task was there to take it.
#[verifier::reject_recursive_types(R)]
pub struct News<R> {
    pub v: int,
    pub data: Held<R>,
    pub delivered: bool,
}

/// The peer that a session whose packets are awaited is.
pub type Tasked<S, R> = Peer<Awaited<S, R>, Held<R>>;

/// What has been handed to tasks that received a packet which had to wait, and to tasks that await
/// an answer.
pub type Logs<R> = (
    Seq<(Holder<R>, (SeqNo, bool, R), bool)>,
    Seq<(Awaiter<R>, Option<(SeqNo, bool, R)>, bool)>,
);

/// What tasks get to see of packet `v` of `y`, which brings `data`.
pub open spec fn message<S2, R2, R>(c: Terms, y: Peer<S2, R2>, v: int, data: R) -> (SeqNo, bool, R) {
    (c.number(v), y.sent[v].seq_cst, data)
}

/// What has been handed to tasks after a packet: a reply to the task that awaits the answer to the
/// very packet that the other peer replied to, and any other packet to the task that received it.
pub open spec fn told<S, R, S2, R2>(
    c: Terms,
    x: Tasked<S, R>,
    y: Peer<S2, R2>,
    logs: Logs<R>,
    news: News<R>,
) -> Logs<R> {
    let message = message(c, y, news.v, news.data.1);
    match y.sent[news.v].reply {
        Some(r) => (logs.0, logs.1.push((x.sent[r].data.0, Some(message), news.delivered))),
        None => (logs.0.push((news.data.0, message, news.delivered)), logs.1),
    }
}

/// What has been handed to tasks after several packets.
pub open spec fn all_told<S, R, S2, R2>(
    c: Terms,
    x: Tasked<S, R>,
    y: Peer<S2, R2>,
    logs: Logs<R>,
    news: Seq<News<R>>,
) -> Logs<R>
    decreases news.len(),
{
    if news.len() == 0 {
        logs
    } else {
        told(c, x, y, all_told(c, x, y, logs, news.drop_last()), news.last())
    }
}

/// Whether a packet that was handed to a task was carried from what `y` has sent.
pub open spec fn was_carried<S, R, S2, R2>(
    w: Wires<Awaited<S, R>, Held<R>, S2, R2>,
    y: Peer<S2, R2>,
    news: News<R>,
) -> bool {
    &&& 0 <= news.v < y.sent.len()
    &&& (w.to_first)(y.sent[news.v].data, news.data)
}

/// The packets that have been handed to tasks.
pub open spec fn packets_of<R>(news: Seq<News<R>>) -> Seq<int> {
    news.map_values(|n: News<R>| n.v)
}

/// An event that sends nothing keeps the peers where a session can come to.
proof fn lemma_silent_event<S, R, S2, R2>(
    c: Terms,
    w: Wires<Awaited<S, R>, Held<R>, S2, R2>,
    x: Tasked<S, R>,
    y: Peer<S2, R2>,
    event: Event<Awaited<S, R>, Held<R>>,
    x2: Tasked<S, R>,
)
    requires
        reachable(c, w, x, y),
        happens(c, w.to_first, x, y, event, x2),
        x2.sent == x.sent,
    ensures
        reachable(c, w, x2, y),
{
    reachable_inv(c, w, x, y);
    event_keeps_reachable(c, w, x, y, event, x2);
}

/// Handing an open packet to a task, which takes it or leaves it to be acknowledged.
proof fn lemma_dispatched<S, R, S2, R2>(
    c: Terms,
    w: Wires<Awaited<S, R>, Held<R>, S2, R2>,
    x: Tasked<S, R>,
    y: Peer<S2, R2>,
    pre: Tasks<S, R>,
    news: News<R>,
) -> (x2: Tasked<S, R>)
    requires
        reachable(c, w, x, y),
        pre.seq == x.st,
        x.open.contains(news.v),
    ensures
        ({
            let post = pre.dispatched(as_sent(c, x, y, news.v, news.data), news.delivered);
            &&& x2.st == post.seq
            &&& (post.held, post.answers) == told(c, x, y, (pre.held, pre.answers), news)
        }),
        reachable(c, w, x2, y),
        x2.received == x.received,
        x2.sent == x.sent,
        forall|u: int| x.open.contains(u) && u != news.v ==> #[trigger] x2.open.contains(u),
{
    reachable_inv(c, w, x, y);
    let s = c.number(news.v);
    let seq_cst = y.sent[news.v].seq_cst;
    assert(x.st.replies.count(s) == 1);
    if news.delivered {
        x
    } else {
        let x2 = Peer {
            st: x.st.returned(s, seq_cst),
            acked: x.acked.insert(news.v),
            open: x.open.remove(news.v),
            ..x
        };
        let event = Event::Ack { v: news.v, unlock: seq_cst };
        assert(happens(c, w.to_first, x, y, event, x2));
        lemma_silent_event(c, w, x, y, event, x2);
        x2
    }
}

/// Pumping a packet out of the receive window and handing it to the task that awaits it.
proof fn lemma_pumped<S, R, S2, R2>(
    c: Terms,
    w: Wires<Awaited<S, R>, Held<R>, S2, R2>,
    x: Tasked<S, R>,
    y: Peer<S2, R2>,
    pre: Tasks<S, R>,
    delivered: bool,
) -> (out: (Tasked<S, R>, News<R>))
    requires
        reachable(c, w, x, y),
        pre.seq == x.st,
        pre.seq.pump_check() is Ok,
    ensures
        ({
            let post = pre.pumped(delivered);
            let (x2, news) = out;
            &&& x2.st == post.seq
            &&& (post.held, post.answers) == told(c, x, y, (pre.held, pre.answers), news)
            &&& reachable(c, w, x2, y)
            &&& x2.received == x.received.push(news.v)
            &&& x2.sent == x.sent
            &&& was_carried(w, y, news)
            &&& forall|u: int| x.open.contains(u) ==> #[trigger] x2.open.contains(u)
        }),
{
    reachable_inv(c, w, x, y);
    let v = x.next;
    let st = pumped_state(pre.seq);
    let raw = pumped_packet(pre.seq);
    let x1 = handed_out(x, st, v);
    assert(pumps(x.st, x1.st, Ok((raw, st.can_pump()))));
    assert(happens(c, w.to_first, x, y, Event::Pump, x1));
    let data = pumped_as_sent(c, w, x, y, x1, raw, st.can_pump());
    assert(st.next_send == x.st.next_send);
    lemma_silent_event(c, w, x, y, Event::Pump, x1);
    let news = News { v, data, delivered };
    assert(as_sent(c, x1, y, v, data) == raw);
    let x2 = lemma_dispatched(c, w, x1, y, pre.with_seq(st), news);
    assert(!x.open.contains(v));
    (x2, news)
}

/// Pumping several packets out of the receive window.
proof fn lemma_pumped_times<S, R, S2, R2>(
    c: Terms,
    w: Wires<Awaited<S, R>, Held<R>, S2, R2>,
    x: Tasked<S, R>,
    y: Peer<S2, R2>,
    pre: Tasks<S, R>,
    delivered: Seq<bool>,
    n: int,
) -> (out: (Tasked<S, R>, Seq<News<R>>))
    requires
        reachable(c, w, x, y),
        pre.seq == x.st,
        0 <= n <= delivered.len(),
        pre.can_pump_times(delivered),
    ensures
        ({
            let post = pre.pumped_times(delivered, n);
            let (x2, news) = out;
            &&& x2.st == post.seq
            &&& (post.held, post.answers) == all_told(c, x, y, (pre.held, pre.answers), news)
            &&& reachable(c, w, x2, y)
            &&& x2.received == x.received + packets_of(news)
            &&& x2.sent == x.sent
            &&& forall|i: int| 0 <= i < news.len() ==> was_carried(w, y, #[trigger] news[i])
            &&& forall|u: int| x.open.contains(u) ==> #[trigger] x2.open.contains(u)
        }),
    decreases n,
{
    if n <= 0 {
        let news = Seq::<News<R>>::empty();
        assert(x.received + packets_of(news) =~= x.received);
        (x, news)
    } else {
        let (x1, before) = lemma_pumped_times(c, w, x, y, pre, delivered, n - 1);
        let mid = pre.pumped_times(delivered, n - 1);
        assert(mid.seq.pump_check() is Ok);
        let (x2, last) = lemma_pumped(c, w, x1, y, mid, delivered[n - 1]);
        let news = before.push(last);
        assert(news.drop_last() =~= before);
        assert(x.received + packets_of(news) =~= x1.received.push(last.v));
        assert(told(c, x1, y, (mid.held, mid.answers), last) == told(
            c,
            x,
            y,
            (mid.held, mid.answers),
            last,
        ));
        (x2, news)
    }
}

/// Whether `x2` is what the peer `x`, whose other peer is `y`, has become by receiving a packet.
/// `first` is the packet itself, if it was handed out, and `rest` what was handed out after it: what
/// has been received is what was before, and these. Each of them was carried from what `y` has sent.
/// The task is given the first one as its result, unless it is a reply, and all others are handed to
/// the tasks that await them. An ack is handed to the task that awaits the answer to a packet that `y`
/// has acknowledged.
pub open spec fn has_received<S, R, S2, R2>(
    c: Terms,
    w: Wires<Awaited<S, R>, Held<R>, S2, R2>,
    x: Tasked<S, R>,
    y: Peer<S2, R2>,
    pre: Tasks<S, R>,
    post: Tasks<S, R>,
    result: Result<(ReplyGuard, R), Option<AsyncRecvError>>,
    first: Option<News<R>>,
    rest: Seq<News<R>>,
    x2: Tasked<S, R>,
) -> bool {
    let logs = all_told(c, x, y, (pre.held, pre.answers), rest);
    &&& x2.sent == x.sent
    &&& x2.received == x.received + match first {
        Some(n) => seq![n.v],
        None => Seq::empty(),
    } + packets_of(rest)
    &&& first matches Some(n) ==> was_carried(w, y, n)
    &&& forall|i: int| 0 <= i < rest.len() ==> was_carried(w, y, #[trigger] rest[i])
    &&& match (result, first) {
        (Ok((guard, data)), Some(n)) => {
            &&& y.sent[n.v].reply is None
            &&& guard.is_for(c.number(n.v), y.sent[n.v].seq_cst)
            &&& data == n.data.1
            &&& (post.held, post.answers) == logs
        },
        (Ok(_), None) => false,
        (Err(e), Some(n)) => {
            &&& e == Some(AsyncRecvError::AsyncReply)
            &&& y.sent[n.v].reply is Some
            &&& (post.held, post.answers) == told(c, x, y, logs, n)
        },
        (Err(e), None) => {
            &&& rest.len() == 0
            &&& post.held == pre.held
            &&& if e == Some(AsyncRecvError::AsyncReply) {
                exists|v: int, delivered: bool|
                    {
                        &&& waits(c, x, v)
                        &&& y.acked.contains(v)
                        &&& post.answers == #[trigger] pre.answers.push(
                            (x.sent[v].data.0, None, delivered),
                        )
                    }
            } else {
                post.answers == pre.answers
            }
        },
    }
}

/// Tasks that share a session do nothing to it that could not happen in a session of one thread:
/// what `SeqEx::receive` does with a packet of the other peer is what happens in a session when the
/// packet arrives, when packets are pumped out of the receive window, and when those that no task is
/// there to take are acknowledged. What is guaranteed of sessions is guaranteed of it, and what is
/// handed to the application there is handed to tasks here.
pub proof fn tasks_are_a_session<S, R, S2, R2>(
    c: Terms,
    w: Wires<Awaited<S, R>, Held<R>, S2, R2>,
    x: Tasked<S, R>,
    y: Peer<S2, R2>,
    pre: Tasks<S, R>,
    packet: Packet<Held<R>>,
    post: Tasks<S, R>,
    result: Result<(ReplyGuard, R), Option<AsyncRecvError>>,
    woken: nat,
) -> (out: (Tasked<S, R>, Option<News<R>>, Seq<News<R>>))
    requires
        reachable(c, w, x, y),
        can_arrive(c, w, x, y, packet),
        pre.seq == x.st,
        receives_async(pre, packet, post, result, woken),
    ensures
        out.0.st == post.seq,
        reachable(c, w, out.0, y),
        has_received(c, w, x, y, pre, post, result, out.1, out.2, out.0),
{
    reachable_inv(c, w, x, y);
    let (mid, raw) = choose|
        mid: SeqState<Awaited<S, R>, Held<R>>,
        raw: Result<(RecvOkRaw<Awaited<S, R>, Held<R>>, bool), TryRawRecvError>,
    |
        {
            &&& #[trigger] receives(pre.seq, packet, mid, raw)
            &&& match raw {
                Ok((first, do_pump)) => accepts(
                    pre.with_seq(mid),
                    first,
                    do_pump,
                    post,
                    result,
                    woken,
                ),
                Err(e) => {
                    &&& post == (Tasks {
                        seq: mid,
                        sent: match e {
                            TryRawRecvError::DroppedDuplicateResendAck(s) => pre.sent.push(
                                Packet::Ack(s),
                            ),
                            _ => pre.sent,
                        },
                        ..pre
                    })
                    &&& result is Err
                    &&& result->Err_0 == super::recv::refusal(e)
                    &&& woken == 0
                },
            }
        };
    if exists|v: int, data: Held<R>|
        {
            &&& 0 <= v < y.sent.len()
            &&& x.next - v <= NUMBERS / 2
            &&& (w.to_first)(y.sent[v].data, data)
            &&& packet == #[trigger] y.carrying(c, v, data)
        } {
        let (v, data) = choose|v: int, data: Held<R>|
            {
                &&& 0 <= v < y.sent.len()
                &&& x.next - v <= NUMBERS / 2
                &&& (w.to_first)(y.sent[v].data, data)
                &&& packet == #[trigger] y.carrying(c, v, data)
            };
        packet_arrived(c, w, x, y, v, data, pre, mid, raw, post, result, woken)
    } else {
        let v = choose|v: int|
            {
                &&& #[trigger] y.acked.contains(v)
                &&& x.sent.len() - v <= NUMBERS / 2
                &&& packet == Packet::<Held<R>>::Ack(c.number(v))
            };
        let x2 = Peer { st: mid, ..x };
        assert(receives(x.st, Packet::<Held<R>>::Ack(c.number(v)), x2.st, raw));
        assert(happens(c, w.to_first, x, y, Event::ReceiveAck { v }, x2));
        lemma_silent_event(c, w, x, y, Event::ReceiveAck { v }, x2);
        assert(y.received.contains(v));
        assert(marked(c, x, y, v));
        lemma_unanswered(c, x, y, v);
        let rest = Seq::<News<R>>::empty();
        assert(x2.received =~= x.received + Seq::empty() + packets_of(rest));
        if let Ok((first, do_pump)) = raw {
            assert(waits(c, x, v));
            assert(!do_pump);
            let delivered = post.answers.last().2;
            assert(post.answers == pre.answers.push((x.sent[v].data.0, None, delivered)));
        }
        (x2, None, rest)
    }
}

/// The same for a packet that is not an ack, after the session has looked at it.
proof fn packet_arrived<S, R, S2, R2>(
    c: Terms,
    w: Wires<Awaited<S, R>, Held<R>, S2, R2>,
    x: Tasked<S, R>,
    y: Peer<S2, R2>,
    v: int,
    data: Held<R>,
    pre: Tasks<S, R>,
    mid: SeqState<Awaited<S, R>, Held<R>>,
    raw: Result<(RecvOkRaw<Awaited<S, R>, Held<R>>, bool), TryRawRecvError>,
    post: Tasks<S, R>,
    result: Result<(ReplyGuard, R), Option<AsyncRecvError>>,
    woken: nat,
) -> (out: (Tasked<S, R>, Option<News<R>>, Seq<News<R>>))
    requires
        reachable(c, w, x, y),
        0 <= v < y.sent.len(),
        x.next - v <= NUMBERS / 2,
        (w.to_first)(y.sent[v].data, data),
        pre.seq == x.st,
        receives(pre.seq, y.carrying(c, v, data), mid, raw),
        match raw {
            Ok((first, do_pump)) => accepts(
                pre.with_seq(mid),
                first,
                do_pump,
                post,
                result,
                woken,
            ),
            Err(e) => {
                &&& post.seq == mid
                &&& post.held == pre.held
                &&& post.answers == pre.answers
                &&& result is Err
                &&& result->Err_0 == super::recv::refusal(e)
            },
        },
    ensures
        out.0.st == post.seq,
        reachable(c, w, out.0, y),
        has_received(c, w, x, y, pre, post, result, out.1, out.2, out.0),
{
    let x1 = match raw {
        Ok(_) => handed_out(x, mid, v),
        Err(TryRawRecvError::DroppedDuplicateResendAck(_)) => Peer {
            acked: x.acked.insert(v),
            st: mid,
            ..x
        },
        Err(_) => Peer { st: mid, ..x },
    };
    let event = Event::Receive { v, data };
    assert(receives(x.st, y.carrying(c, v, data), x1.st, raw));
    assert(happens(c, w.to_first, x, y, event, x1));
    lemma_silent_event(c, w, x, y, event, x1);
    arrives_as_sent(c, w, x, y, v, data, x1, raw);
    let none = Seq::<News<R>>::empty();
    match raw {
        Err(_) => {
            assert(x1.received =~= x.received + Seq::empty() + packets_of(none));
            (x1, None, none)
        },
        Ok((first, do_pump)) => {
            let accepted = pre.with_seq(mid);
            let (pumped, n, last) = choose|pumped: Tasks<S, R>, n: nat, last: Tasks<S, R>|
                {
                    &&& if do_pump {
                        accepted.pumps_all(n, pumped)
                    } else {
                        n == 0 && pumped == accepted
                    }
                    &&& #[trigger] hands_out(pumped, first, last, result)
                    &&& woken == #[trigger] last.to_wake(n + 1)
                    &&& post == last.woken(woken)
                };
            let delivered = if do_pump {
                choose|delivered: Seq<bool>|
                    {
                        &&& delivered.len() == n
                        &&& #[trigger] accepted.can_pump_times(delivered)
                        &&& pumped == accepted.pumped_times(delivered, n as int)
                        &&& pumped.seq.pump_check() is Err
                    }
            } else {
                Seq::empty()
            };
            let (x2, rest) = lemma_pumped_times(c, w, x1, y, accepted, delivered, n as int);
            assert(x1.open.contains(v));
            assert(x2.received =~= x.received + seq![v] + packets_of(rest));
            lemma_all_told(c, x1, x, y, (pre.held, pre.answers), rest);
            let logs = all_told(c, x, y, (pre.held, pre.answers), rest);
            assert((pumped.held, pumped.answers) == logs);
            assert(first == as_sent(c, x, y, v, data));
            if y.sent[v].reply is None {
                (x2, Some(News { v, data, delivered: true }), rest)
            } else {
                let news = News { v, data, delivered: last == pumped.dispatched(first, true) };
                let x3 = lemma_dispatched(c, w, x2, y, pumped, news);
                assert(as_sent(c, x2, y, v, data) == first);
                (x3, Some(news), rest)
            }
        },
    }
}

/// What tasks are told does not depend on what has been received.
proof fn lemma_all_told<S, R, S2, R2>(
    c: Terms,
    x: Tasked<S, R>,
    x2: Tasked<S, R>,
    y: Peer<S2, R2>,
    logs: Logs<R>,
    news: Seq<News<R>>,
)
    requires
        x2.sent == x.sent,
    ensures
        all_told(c, x2, y, logs, news) == all_told(c, x, y, logs, news),
    decreases news.len(),
{
    if news.len() > 0 {
        lemma_all_told(c, x, x2, y, logs, news.drop_last());
    }
}

} // verus!
