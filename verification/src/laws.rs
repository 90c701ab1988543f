//! What SEQEX guarantees.
//!
//! The first part speaks of two peers, for every run of a session in which packets may be lost,
//! duplicated and reordered in any way. What is sent and what is received may be of any types. The
//! second part speaks of one peer.
use crate::error::{TryError, TryRawRecvError};
use crate::model::{earliest, is_due, packet_of, slot, SeqState};
use crate::seq_queue::{pumps, receives, RecvEntry, RecvOkRaw, SendEntry};
use crate::session::{
    handed_out, happens, holds_what_was_carried, in_step, inv, marked, retimed, waits, Event, Peer,
    Sent, Terms, Wires, NUMBERS,
};
use crate::session_proof::{
    event_keeps_carried, event_keeps_inv, event_leaves_carried, initial_holds_nothing, initial_inv,
    lemma_handed_out, lemma_is_received, lemma_place, lemma_slot_owner, lemma_unanswered,
    lemma_waiting_differ,
};
use crate::single_thread::{after_service, due_packets, to_resend};
use crate::transport_layer::{Packet, SeqNo};
use vstd::prelude::*;

verus! {

// ---- two peers ----

/// Whether something happens at one of the two peers that takes them from `s` to `t`.
pub open spec fn step<S, R, S2, R2>(
    c: Terms,
    w: Wires<S, R, S2, R2>,
    s: (Peer<S, R>, Peer<S2, R2>),
    t: (Peer<S, R>, Peer<S2, R2>),
) -> bool {
    ||| exists|event: Event<S, R>| #[trigger]
        happens(c, w.to_first, s.0, s.1, event, t.0) && t.1 == s.1
    ||| exists|event: Event<S2, R2>| #[trigger]
        happens(c, w.to_second, s.1, s.0, event, t.1) && t.0 == s.0
}

/// Whether `trace` is what two peers went through since the beginning of a session.
pub open spec fn is_run<S, R, S2, R2>(
    c: Terms,
    w: Wires<S, R, S2, R2>,
    trace: Seq<(Peer<S, R>, Peer<S2, R2>)>,
) -> bool {
    &&& c.wf()
    &&& trace.len() > 0
    &&& exists|resend_a: i64, resend_b: i64|
        trace[0] == (
            #[trigger] Peer::<S, R>::initial(c, resend_a),
            #[trigger] Peer::<S2, R2>::initial(c, resend_b),
        )
    &&& forall|j: int, k: int|
        #![trigger trace[j], trace[k]]
        0 <= j && k == j + 1 && k < trace.len() ==> step(c, w, trace[j], trace[k])
    &&& forall|k: int| 0 <= k < trace.len() ==> in_step(c, (#[trigger] trace[k]).0, trace[k].1)
}

/// What holds of two peers at any time, and of what their receive windows hold.
pub open spec fn holds_throughout<S, R, S2, R2>(
    c: Terms,
    w: Wires<S, R, S2, R2>,
    x: Peer<S, R>,
    y: Peer<S2, R2>,
) -> bool {
    &&& inv(c, x, y)
    &&& holds_what_was_carried(c, w.to_second, x, y)
    &&& holds_what_was_carried(c, w.to_first, y, x)
}

/// The invariant of a session holds throughout every run.
pub proof fn run_keeps_inv<S, R, S2, R2>(
    c: Terms,
    w: Wires<S, R, S2, R2>,
    trace: Seq<(Peer<S, R>, Peer<S2, R2>)>,
    k: int,
)
    requires
        is_run(c, w, trace),
        0 <= k < trace.len(),
    ensures
        holds_throughout(c, w, trace[k].0, trace[k].1),
    decreases k,
{
    if k == 0 {
        let (resend_a, resend_b) = choose|resend_a: i64, resend_b: i64|
            trace[0] == (
                #[trigger] Peer::<S, R>::initial(c, resend_a),
                #[trigger] Peer::<S2, R2>::initial(c, resend_b),
            );
        initial_inv::<S, R, S2, R2>(c, resend_a, resend_b);
        initial_holds_nothing::<S, R>(c, resend_a);
        initial_holds_nothing::<S2, R2>(c, resend_b);
    } else {
        run_keeps_inv(c, w, trace, k - 1);
        let s = trace[k - 1];
        let t = trace[k];
        assert(step(c, w, s, t));
        assert(in_step(c, t.0, t.1));
        if exists|event: Event<S, R>| #[trigger]
            happens(c, w.to_first, s.0, s.1, event, t.0) && t.1 == s.1 {
            let event = choose|event: Event<S, R>| #[trigger]
                happens(c, w.to_first, s.0, s.1, event, t.0) && t.1 == s.1;
            event_keeps_inv(c, w.to_first, s.0, s.1, event, t.0);
            event_keeps_carried(c, w.to_first, s.0, s.1, event, t.0);
            event_leaves_carried(c, w.to_first, w.to_second, s.0, s.1, event, t.0);
        } else {
            let event = choose|event: Event<S2, R2>| #[trigger]
                happens(c, w.to_second, s.1, s.0, event, t.1) && t.0 == s.0;
            event_keeps_inv(c, w.to_second, s.1, s.0, event, t.1);
            event_keeps_carried(c, w.to_second, s.1, s.0, event, t.1);
            event_leaves_carried(c, w.to_second, w.to_first, s.1, s.0, event, t.1);
        }
    }
}

/// Whether a session can come to a point where its peers are `x` and `y`.
pub open spec fn reachable<S, R, S2, R2>(
    c: Terms,
    w: Wires<S, R, S2, R2>,
    x: Peer<S, R>,
    y: Peer<S2, R2>,
) -> bool {
    exists|trace: Seq<(Peer<S, R>, Peer<S2, R2>)>, k: int|
        #![trigger is_run(c, w, trace), trace[k]]
        is_run(c, w, trace) && 0 <= k < trace.len() && trace[k] == (x, y)
}

proof fn step_flipped<S, R, S2, R2>(
    c: Terms,
    w: Wires<S, R, S2, R2>,
    s: (Peer<S, R>, Peer<S2, R2>),
    t: (Peer<S, R>, Peer<S2, R2>),
)
    requires
        step(c, w, s, t),
    ensures
        step(c, w.flipped(), (s.1, s.0), (t.1, t.0)),
{
    let v = w.flipped();
    let (s2, t2) = ((s.1, s.0), (t.1, t.0));
    if exists|event: Event<S, R>| #[trigger]
        happens(c, w.to_first, s.0, s.1, event, t.0) && t.1 == s.1 {
        let event = choose|event: Event<S, R>| #[trigger]
            happens(c, w.to_first, s.0, s.1, event, t.0) && t.1 == s.1;
        assert(happens(c, v.to_second, s2.1, s2.0, event, t2.1) && t2.0 == s2.0);
    } else {
        let event = choose|event: Event<S2, R2>| #[trigger]
            happens(c, w.to_second, s.1, s.0, event, t.1) && t.0 == s.0;
        assert(happens(c, v.to_first, s2.0, s2.1, event, t2.0) && t2.1 == s2.1);
    }
}

/// It makes no difference which of the two peers is called the first.
pub proof fn reachable_flipped<S, R, S2, R2>(
    c: Terms,
    w: Wires<S, R, S2, R2>,
    x: Peer<S, R>,
    y: Peer<S2, R2>,
)
    requires
        reachable(c, w, x, y),
    ensures
        reachable(c, w.flipped(), y, x),
{
    let (trace, k) = choose|trace: Seq<(Peer<S, R>, Peer<S2, R2>)>, k: int|
        #![trigger is_run(c, w, trace), trace[k]]
        is_run(c, w, trace) && 0 <= k < trace.len() && trace[k] == (x, y);
    let flipped = trace.map_values(|s: (Peer<S, R>, Peer<S2, R2>)| (s.1, s.0));
    let (resend_a, resend_b) = choose|resend_a: i64, resend_b: i64|
        trace[0] == (
            #[trigger] Peer::<S, R>::initial(c, resend_a),
            #[trigger] Peer::<S2, R2>::initial(c, resend_b),
        );
    assert(flipped[0] == (
        Peer::<S2, R2>::initial(c, resend_b),
        Peer::<S, R>::initial(c, resend_a),
    ));
    assert forall|j: int, i: int|
        #![trigger flipped[j], flipped[i]]
        0 <= j && i == j + 1 && i < flipped.len() implies step(
        c,
        w.flipped(),
        flipped[j],
        flipped[i],
    ) by {
        assert(step(c, w, trace[j], trace[i]));
        step_flipped(c, w, trace[j], trace[i]);
    }
    assert forall|i: int| 0 <= i < flipped.len() implies in_step(
        c,
        (#[trigger] flipped[i]).0,
        flipped[i].1,
    ) by {
        assert(in_step(c, trace[i].0, trace[i].1));
    }
    assert(is_run(c, w.flipped(), flipped));
    assert(flipped[k] == (y, x));
}

/// The invariant of a session holds wherever a session can come to.
pub proof fn reachable_inv<S, R, S2, R2>(
    c: Terms,
    w: Wires<S, R, S2, R2>,
    x: Peer<S, R>,
    y: Peer<S2, R2>,
)
    requires
        reachable(c, w, x, y),
    ensures
        holds_throughout(c, w, x, y),
        in_step(c, x, y),
{
    let (trace, k) = choose|trace: Seq<(Peer<S, R>, Peer<S2, R2>)>, k: int|
        #![trigger is_run(c, w, trace), trace[k]]
        is_run(c, w, trace) && 0 <= k < trace.len() && trace[k] == (x, y);
    run_keeps_inv(c, w, trace, k);
}

/// A session begins at a point that it can come to.
pub proof fn initial_is_reachable<S, R, S2, R2>(
    c: Terms,
    w: Wires<S, R, S2, R2>,
    resend_a: i64,
    resend_b: i64,
)
    requires
        c.wf(),
        c.in_step(c.cap as int),
    ensures
        reachable(c, w, Peer::<S, R>::initial(c, resend_a), Peer::<S2, R2>::initial(c, resend_b)),
{
    let trace = seq![(Peer::<S, R>::initial(c, resend_a), Peer::<S2, R2>::initial(c, resend_b))];
    assert(trace[0] == (
        Peer::<S, R>::initial(c, resend_a),
        Peer::<S2, R2>::initial(c, resend_b),
    ));
    assert(is_run(c, w, trace));
}

/// Whatever happens at a peer, a session goes on to a point that it can come to.
pub proof fn event_keeps_reachable<S, R, S2, R2>(
    c: Terms,
    w: Wires<S, R, S2, R2>,
    x: Peer<S, R>,
    y: Peer<S2, R2>,
    event: Event<S, R>,
    x2: Peer<S, R>,
)
    requires
        reachable(c, w, x, y),
        happens(c, w.to_first, x, y, event, x2),
        in_step(c, x2, y),
    ensures
        reachable(c, w, x2, y),
{
    let (trace, k) = choose|trace: Seq<(Peer<S, R>, Peer<S2, R2>)>, k: int|
        #![trigger is_run(c, w, trace), trace[k]]
        is_run(c, w, trace) && 0 <= k < trace.len() && trace[k] == (x, y);
    let longer = trace.subrange(0, k + 1).push((x2, y));
    let (resend_a, resend_b) = choose|resend_a: i64, resend_b: i64|
        trace[0] == (
            #[trigger] Peer::<S, R>::initial(c, resend_a),
            #[trigger] Peer::<S2, R2>::initial(c, resend_b),
        );
    assert(longer[0] == (
        Peer::<S, R>::initial(c, resend_a),
        Peer::<S2, R2>::initial(c, resend_b),
    ));
    assert forall|j: int, i: int|
        #![trigger longer[j], longer[i]]
        0 <= j && i == j + 1 && i < longer.len() implies step(c, w, longer[j], longer[i]) by {
        if i <= k {
            assert(longer[j] == trace[j] && longer[i] == trace[i]);
        } else {
            assert(longer[j] == (x, y) && longer[i] == (x2, y));
            assert(happens(c, w.to_first, longer[j].0, longer[j].1, event, longer[i].0));
        }
    }
    assert forall|i: int| 0 <= i < longer.len() implies in_step(
        c,
        (#[trigger] longer[i]).0,
        longer[i].1,
    ) by {
        if i <= k {
            assert(longer[i] == trace[i]);
        }
    }
    assert(is_run(c, w, longer));
    assert(longer[k + 1] == (x2, y));
}

/// Exactly once: no packet of `x` is handed to the application at `y` twice, nothing is handed to
/// it that `x` did not send, and a packet that has not been handed to it yet is still in the send
/// window of `x`, which goes on resending it.
pub proof fn exactly_once<S, R, S2, R2>(
    c: Terms,
    w: Wires<S, R, S2, R2>,
    x: Peer<S, R>,
    y: Peer<S2, R2>,
    v: int,
)
    requires
        reachable(c, w, x, y),
    ensures
        y.received.no_duplicates(),
        y.received.contains(v) ==> 0 <= v < x.sent.len(),
        0 <= v < x.sent.len() && !y.received.contains(v) ==> waits(c, x, v) && x.st.unanswered(
            c.number(v),
        ) == Some(x.sent[v].data),
{
    reachable_inv(c, w, x, y);
    assert(y.received.contains(v) <==> marked(c, x, y, v));
    if 0 <= v < x.sent.len() && !y.received.contains(v) {
        assert(x.send_at(c, v) is Some);
        assert(waits(c, x, v));
        lemma_unanswered(c, x, y, v);
    }
}

/// What is handed to the application stays handed to it, and nothing is put before it.
pub proof fn received_grows<S, R, S2, R2>(
    c: Terms,
    carried: spec_fn(S2, R) -> bool,
    x: Peer<S, R>,
    y: Peer<S2, R2>,
    event: Event<S, R>,
    x2: Peer<S, R>,
)
    requires
        happens(c, carried, x, y, event, x2),
    ensures
        x.received.is_prefix_of(x2.received),
        x2.received.len() <= x.received.len() + 1,
{
    assert(x.received =~= x2.received.subrange(0, x.received.len() as int));
}

/// In order: when a SeqCst packet is handed to the application, every packet that was sent before
/// it, SeqCst or not, has been handed to it before.
pub proof fn in_order<S, R, S2, R2>(
    c: Terms,
    w: Wires<S, R, S2, R2>,
    x: Peer<S, R>,
    y: Peer<S2, R2>,
    p: int,
    u: int,
)
    requires
        reachable(c, w, x, y),
        0 <= p < y.received.len(),
        x.sent[y.received[p]].seq_cst,
        0 <= u < y.received[p],
    ensures
        exists|q: int| 0 <= q < p && y.received[q] == u,
{
    reachable_inv(c, w, x, y);
    assert(y.received.subrange(0, p).contains(u));
    let q = choose|q: int| 0 <= q < p && y.received.subrange(0, p)[q] == u;
    assert(y.received[q] == u);
}

/// SeqCst packets are handed to the application in the order in which they were sent.
pub proof fn seq_cst_in_order<S, R, S2, R2>(
    c: Terms,
    w: Wires<S, R, S2, R2>,
    x: Peer<S, R>,
    y: Peer<S2, R2>,
    p: int,
    q: int,
)
    requires
        reachable(c, w, x, y),
        0 <= p < q < y.received.len(),
        x.sent[y.received[p]].seq_cst,
        x.sent[y.received[q]].seq_cst,
    ensures
        y.received[p] < y.received[q],
{
    reachable_inv(c, w, x, y);
    if y.received[q] <= y.received[p] {
        assert(y.received[q] != y.received[p]);
        assert(y.received.contains(y.received[q]));
        assert(marked(c, x, y, y.received[q]));
        in_order(c, w, x, y, p, y.received[q]);
        let r = choose|r: int| 0 <= r < p && y.received[r] == y.received[q];
        assert(y.received[r] != y.received[q]);
    }
}

/// The packets of `x` that have been handed to the application at `y`, in that order.
pub open spec fn handed_over<S, R, S2, R2>(x: Peer<S, R>, y: Peer<S2, R2>) -> Seq<Sent<S>> {
    y.received.map_values(|v: int| x.sent[v])
}

/// The data of packets.
pub open spec fn data_of<D>(packets: Seq<Sent<D>>) -> Seq<D> {
    packets.map_values(|p: Sent<D>| p.data)
}

/// The SeqCst ones among packets.
pub open spec fn seq_cst_of<D>(packets: Seq<Sent<D>>) -> Seq<Sent<D>> {
    packets.filter(|p: Sent<D>| p.seq_cst)
}

/// SeqCst packets come through as a stream: those that have been handed to the application at `y`
/// are the first ones that `x` sent, in the order in which it sent them, whatever was sent in
/// between. Once none of the packets of `x` waits for an answer any more, they are all of them.
pub proof fn seq_cst_is_a_stream<S, R, S2, R2>(
    c: Terms,
    w: Wires<S, R, S2, R2>,
    x: Peer<S, R>,
    y: Peer<S2, R2>,
)
    requires
        reachable(c, w, x, y),
    ensures
        seq_cst_of(handed_over(x, y)).is_prefix_of(seq_cst_of(x.sent)),
        (forall|v: int| 0 <= v < x.sent.len() ==> !(#[trigger] waits(c, x, v))) ==> seq_cst_of(
            handed_over(x, y),
        ) == seq_cst_of(x.sent),
{
    let handed = handed_over(x, y);
    let k = y.received.len() as int;
    let n = x.sent.len() as int;
    let m = lemma_first_handed_over(c, w, x, y, k);
    assert(handed.take(k) =~= handed);
    assert(x.sent.take(n) =~= x.sent);
    lemma_seq_cst_of_prefix(x.sent, m, n);
    if forall|v: int| 0 <= v < x.sent.len() ==> !(#[trigger] waits(c, x, v)) {
        assert forall|u: int| m <= u < n implies !(#[trigger] x.sent[u]).seq_cst by {
            assert(!waits(c, x, u));
            exchanges_agree(c, w, x, y, u);
            let p = choose|p: int| 0 <= p < k && y.received[p] == u;
            assert(x.sent[y.received[p]].seq_cst ==> y.received[p] < m);
        }
        lemma_no_more_seq_cst(x.sent, m, n);
    }
}

/// Where everything that `x` sends is SeqCst, what the application at `y` is given is the data that
/// `x` sent, from the first packet on, in order and without gaps. Once none of the packets of `x`
/// waits for an answer any more, it has been given all of it.
pub proof fn all_is_a_stream<S, R, S2, R2>(
    c: Terms,
    w: Wires<S, R, S2, R2>,
    x: Peer<S, R>,
    y: Peer<S2, R2>,
)
    requires
        reachable(c, w, x, y),
        forall|v: int| 0 <= v < x.sent.len() ==> (#[trigger] x.sent[v]).seq_cst,
    ensures
        data_of(handed_over(x, y)).is_prefix_of(data_of(x.sent)),
        (forall|v: int| 0 <= v < x.sent.len() ==> !(#[trigger] waits(c, x, v))) ==> data_of(
            handed_over(x, y),
        ) == data_of(x.sent),
{
    let handed = handed_over(x, y);
    seq_cst_is_a_stream(c, w, x, y);
    assert forall|i: int| 0 <= i < handed.len() implies (#[trigger] handed[i]).seq_cst by {
        assert(y.received.contains(y.received[i]));
        exactly_once(c, w, x, y, y.received[i]);
        assert(x.sent[y.received[i]].seq_cst);
    }
    lemma_all_seq_cst(handed);
    lemma_all_seq_cst(x.sent);
    assert(data_of(handed) =~= data_of(x.sent).subrange(0, data_of(handed).len() as int));
}

/// Of the first `k` packets handed over, the SeqCst ones are those among the first `m` packets sent.
proof fn lemma_first_handed_over<S, R, S2, R2>(
    c: Terms,
    w: Wires<S, R, S2, R2>,
    x: Peer<S, R>,
    y: Peer<S2, R2>,
    k: int,
) -> (m: int)
    requires
        reachable(c, w, x, y),
        0 <= k <= y.received.len(),
    ensures
        0 <= m <= x.sent.len(),
        seq_cst_of(handed_over(x, y).take(k)) == seq_cst_of(x.sent.take(m)),
        forall|p: int|
            0 <= p < k ==> x.sent[#[trigger] y.received[p]].seq_cst ==> y.received[p] < m,
        m > 0 ==> exists|p: int|
            0 <= p < k && #[trigger] y.received[p] == m - 1 && x.sent[m - 1].seq_cst,
    decreases k,
{
    let handed = handed_over(x, y);
    if k == 0 {
        assert(handed.take(0) =~= x.sent.take(0));
        0
    } else {
        let m = lemma_first_handed_over(c, w, x, y, k - 1);
        let v = y.received[k - 1];
        assert(y.received.contains(v));
        exactly_once(c, w, x, y, v);
        reveal(Seq::filter);
        assert(handed.take(k).drop_last() =~= handed.take(k - 1));
        assert(handed.take(k).last() == x.sent[v]);
        if x.sent[v].seq_cst {
            if m > 0 {
                let p = choose|p: int|
                    0 <= p < k - 1 && #[trigger] y.received[p] == m - 1 && x.sent[m - 1].seq_cst;
                seq_cst_in_order(c, w, x, y, p, k - 1);
            }
            assert forall|u: int| m <= u < v implies !(#[trigger] x.sent[u]).seq_cst by {
                in_order(c, w, x, y, k - 1, u);
                let q = choose|q: int| 0 <= q < k - 1 && y.received[q] == u;
                assert(x.sent[y.received[q]].seq_cst ==> y.received[q] < m);
            }
            lemma_no_more_seq_cst(x.sent, m, v);
            assert(x.sent.take(v + 1).drop_last() =~= x.sent.take(v));
            assert(x.sent.take(v + 1).last() == x.sent[v]);
            assert(y.received[k - 1] == v + 1 - 1);
            v + 1
        } else {
            m
        }
    }
}

/// Packets that are not SeqCst add nothing to the SeqCst ones.
proof fn lemma_no_more_seq_cst<D>(packets: Seq<Sent<D>>, m: int, n: int)
    requires
        0 <= m <= n <= packets.len(),
        forall|u: int| m <= u < n ==> !(#[trigger] packets[u]).seq_cst,
    ensures
        seq_cst_of(packets.take(n)) == seq_cst_of(packets.take(m)),
    decreases n - m,
{
    if m < n {
        reveal(Seq::filter);
        lemma_no_more_seq_cst(packets, m, n - 1);
        assert(packets.take(n).drop_last() =~= packets.take(n - 1));
        assert(packets.take(n).last() == packets[n - 1]);
    }
}

/// The SeqCst ones among the first packets are the first ones of those among more.
proof fn lemma_seq_cst_of_prefix<D>(packets: Seq<Sent<D>>, m: int, n: int)
    requires
        0 <= m <= n <= packets.len(),
    ensures
        seq_cst_of(packets.take(m)).is_prefix_of(seq_cst_of(packets.take(n))),
    decreases n - m,
{
    let some = seq_cst_of(packets.take(m));
    if m < n {
        reveal(Seq::filter);
        lemma_seq_cst_of_prefix(packets, m, n - 1);
        assert(packets.take(n).drop_last() =~= packets.take(n - 1));
        let more = seq_cst_of(packets.take(n));
        assert(some =~= more.subrange(0, some.len() as int));
    } else {
        assert(some =~= some.subrange(0, some.len() as int));
    }
}

/// Where all packets are SeqCst, the SeqCst ones are all of them.
proof fn lemma_all_seq_cst<D>(packets: Seq<Sent<D>>)
    requires
        forall|i: int| 0 <= i < packets.len() ==> (#[trigger] packets[i]).seq_cst,
    ensures
        seq_cst_of(packets) == packets,
    decreases packets.len(),
{
    reveal(Seq::filter);
    if packets.len() > 0 {
        lemma_all_seq_cst(packets.drop_last());
        assert(packets.drop_last().push(packets.last()) =~= packets);
    }
}

/// What the application at `x` gets to see of packet `v` of `y`, which brings `data`: this data, and
/// if it is a reply, the data of the very packet that it was a reply to.
pub open spec fn as_sent<S, R, S2, R2>(
    c: Terms,
    x: Peer<S, R>,
    y: Peer<S2, R2>,
    v: int,
    data: R,
) -> RecvOkRaw<S, R> {
    RecvOkRaw::handed_out(
        c.number(v),
        y.sent[v].seq_cst,
        data,
        match y.sent[v].reply {
            Some(r) => Some(x.sent[r].data),
            None => None,
        },
    )
}

/// Replies are unambiguous: when packet `v` arrives and is handed to the application, it comes
/// with what was carried of the data that was sent, and if it is a reply, with the data of the very
/// packet that the other peer replied to. It is handed out only if it has not been before; if it has
/// been, it is dropped as a duplicate, and it never arrives too early.
pub proof fn arrives_as_sent<S, R, S2, R2>(
    c: Terms,
    w: Wires<S, R, S2, R2>,
    x: Peer<S, R>,
    y: Peer<S2, R2>,
    v: int,
    data: R,
    x2: Peer<S, R>,
    result: Result<(RecvOkRaw<S, R>, bool), TryRawRecvError>,
)
    requires
        reachable(c, w, x, y),
        happens(c, w.to_first, x, y, Event::Receive { v, data }, x2),
        receives(x.st, y.carrying(c, v, data), x2.st, result),
    ensures
        (w.to_first)(y.sent[v].data, data),
        match result {
            Ok((ok, _)) => {
                &&& !x.received.contains(v)
                &&& ok == as_sent(c, x, y, v, data)
                &&& y.sent[v].reply matches Some(r) ==> y.received.contains(r)
            },
            Err(TryRawRecvError::DroppedDuplicateResendAck(s)) => {
                &&& x.received.contains(v)
                &&& s == c.number(v)
            },
            Err(TryRawRecvError::DroppedDuplicate) => x.received.contains(v),
            Err(TryRawRecvError::DroppedTooEarly) => false,
            Err(_) => !x.received.contains(v),
        },
{
    reachable_inv(c, w, x, y);
    lemma_is_received(c, x, y, v);
    let packet = y.carrying(c, v, data);
    assert(packet.parts() == (
        Some(c.number(v)),
        c.reply_number(y.sent[v].reply),
        y.sent[v].seq_cst,
        Some(data),
    ));
    if result is Ok {
        let other = choose|other: Result<(RecvOkRaw<S, R>, bool), TryRawRecvError>|
            #![trigger receives(x.st, y.carrying(c, v, data), x2.st, other)]
            receives(x.st, y.carrying(c, v, data), x2.st, other) && x2 == match other {
                Ok(_) => handed_out(x, x2.st, v),
                Err(TryRawRecvError::DroppedDuplicateResendAck(_)) => Peer {
                    acked: x.acked.insert(v),
                    st: x2.st,
                    ..x
                },
                Err(_) => Peer { st: x2.st, ..x },
            };
        assert(other == result);
        lemma_handed_out(c, x, y, v, x2);
    }
}

/// The same holds of a packet that had to wait in the receive window.
pub proof fn pumped_as_sent<S, R, S2, R2>(
    c: Terms,
    w: Wires<S, R, S2, R2>,
    x: Peer<S, R>,
    y: Peer<S2, R2>,
    x2: Peer<S, R>,
    ok: RecvOkRaw<S, R>,
    do_pump: bool,
) -> (data: R)
    requires
        reachable(c, w, x, y),
        happens(c, w.to_first, x, y, Event::Pump, x2),
        pumps(x.st, x2.st, Ok((ok, do_pump))),
    ensures
        !x.received.contains(x.next),
        0 <= x.next < y.sent.len(),
        (w.to_first)(y.sent[x.next].data, data),
        ok == as_sent(c, x, y, x.next, data),
{
    reachable_inv(c, w, x, y);
    let v = x.next;
    lemma_place(c, v);
    let e = x.recv_at(c, v);
    assert(e is Occupied);
    assert(!marked(c, y, x, v));
    assert(x2 == handed_out(x, x2.st, v));
    lemma_handed_out(c, x, y, v, x2);
    e->data
}

/// Both peers agree about how an exchange goes on: a packet of `x` that no longer waits for an
/// answer was handed to the application at `y`, which has acknowledged it or replied to it, and the
/// reply was handed to the application at `x`. No packet has two replies.
pub proof fn exchanges_agree<S, R, S2, R2>(
    c: Terms,
    w: Wires<S, R, S2, R2>,
    x: Peer<S, R>,
    y: Peer<S2, R2>,
    v: int,
)
    requires
        reachable(c, w, x, y),
        0 <= v < x.sent.len(),
        !waits(c, x, v),
    ensures
        y.received.contains(v),
        !y.open.contains(v),
        y.acked.contains(v) || exists|j: int|
            {
                &&& 0 <= j < y.sent.len()
                &&& #[trigger] y.sent[j].reply == Some(v)
                &&& x.received.contains(j)
            },
        forall|i: int, j: int|
            0 <= i < y.sent.len() && 0 <= j < y.sent.len() && (#[trigger] y.sent[i]).reply == Some(
                v,
            ) && (#[trigger] y.sent[j]).reply == Some(v) ==> i == j,
{
    reachable_inv(c, w, x, y);
    if !y.acked.contains(v) {
        let j = choose|j: int|
            0 <= j < y.sent.len() && #[trigger] y.sent[j].reply == Some(v) && x.received.contains(j);
        assert(y.sent[j].reply == Some(v));
    }
    assert forall|i: int, j: int|
        0 <= i < y.sent.len() && 0 <= j < y.sent.len() && (#[trigger] y.sent[i]).reply == Some(v)
            && (#[trigger] y.sent[j]).reply == Some(v) implies i == j by {
        if i < j {
            assert(y.sent[i].reply != y.sent[j].reply);
        } else if j < i {
            assert(y.sent[j].reply != y.sent[i].reply);
        }
    }
}

/// A packet that the application has yet to answer can be answered, by a reply or an ack: its reply
/// number is reserved, and the reply overwrites nothing in the send window. Once it has been
/// answered, the reply number is of no use any more.
pub proof fn answer_works_once<S, R, S2, R2>(
    c: Terms,
    w: Wires<S, R, S2, R2>,
    x: Peer<S, R>,
    y: Peer<S2, R2>,
    v: int,
)
    requires
        reachable(c, w, x, y),
        x.open.contains(v),
    ensures
        ({
            let st = x.st;
            let s = c.number(v);
            &&& st.replies.count(s) == 1
            &&& st.send_window[slot(st.next_send, st.cap())] is None
            &&& forall|unlock: bool| #[trigger] st.returned(s, unlock).replies.count(s) == 0
            &&& forall|unlock: bool, now: i64, seq_cst: bool, data: S| #[trigger]
                st.returned(s, unlock).sent(now, Some(s), seq_cst, data).replies.count(s) == 0
        }),
{
    reachable_inv(c, w, x, y);
    let n = x.sent.len() as int;
    assert(x.open.contains(v));
    assert(x.st.replies.count(c.number(v)) == 1);
    assert(x.st.replies.len() >= 1);
    assert(x.send_at(c, n + 0) is None);
    lemma_place(c, n);
}

/// A received packet is answered by either an ack or a reply, but never both: as long as it is open
/// neither has been sent, and where both have been, the reply was handed to the application of the
/// other peer before the ack was sent.
pub proof fn ack_or_reply<S, R, S2, R2>(
    c: Terms,
    w: Wires<S, R, S2, R2>,
    x: Peer<S, R>,
    y: Peer<S2, R2>,
    v: int,
    j: int,
)
    requires
        reachable(c, w, x, y),
        x.open.contains(v) || 0 <= j < x.sent.len() && x.sent[j].reply == Some(v),
    ensures
        x.received.contains(v),
        x.open.contains(v) ==> !x.acked.contains(v) && (0 <= j < x.sent.len() ==> x.sent[j].reply
            != Some(v)),
        x.acked.contains(v) ==> y.received.contains(j),
{
    reachable_inv(c, w, x, y);
    if 0 <= j < x.sent.len() {
        assert(x.sent[j].reply matches Some(u) ==> !x.open.contains(u));
    }
}

/// No peer waits for an answer in vain: a packet that waits for an answer has not been handed to
/// the application of the other peer, or the application has yet to answer it, or a reply to it is
/// being resent, or an ack is resent when it arrives again.
pub proof fn answer_is_coming<S, R, S2, R2>(
    c: Terms,
    w: Wires<S, R, S2, R2>,
    x: Peer<S, R>,
    y: Peer<S2, R2>,
    v: int,
)
    requires
        reachable(c, w, x, y),
        waits(c, x, v),
        y.received.contains(v),
    ensures
        y.next - v <= NUMBERS / 2,
        ({
            let p = x.sent[v];
            let verdict = y.st.verdict(c.number(v), c.reply_number(p.reply), p.seq_cst);
            ||| verdict is ResendAck
            ||| verdict is Duplicate && (y.open.contains(v) || y.st.has_reply_to(c.number(v)))
        }),
{
    reachable_inv(c, w, x, y);
    lemma_is_received(c, y, x, v);
    let s = c.number(v);
    if y.st.replies.count(s) > 0 {
        let u = choose|u: int| #[trigger] y.open.contains(u) && c.number(u) == s;
        lemma_waiting_differ(c, x, u, v);
    }
}

/// The next expected packet is handed to the application when it arrives, provided that there is
/// room to answer it, and that it is not a SeqCst packet while another one is being processed.
pub proof fn next_is_handed_out<S, R, S2, R2>(
    c: Terms,
    w: Wires<S, R, S2, R2>,
    x: Peer<S, R>,
    y: Peer<S2, R2>,
)
    requires
        reachable(c, w, x, y),
        x.next < y.sent.len(),
        x.st.room(c.reply_number(y.sent[x.next].reply)) is Ok,
        !(y.sent[x.next].seq_cst && x.st.locked),
    ensures
        x.st.verdict(
            c.number(x.next),
            c.reply_number(y.sent[x.next].reply),
            y.sent[x.next].seq_cst,
        ) is Deliver,
{
    reachable_inv(c, w, x, y);
    lemma_is_received(c, x, y, x.next);
    assert(!marked(c, y, x, x.next));
}

/// What is resent is what was sent, and still waits for an answer.
pub proof fn resends_what_was_sent<S, R, S2, R2>(
    c: Terms,
    w: Wires<S, R, S2, R2>,
    x: Peer<S, R>,
    y: Peer<S2, R2>,
    now: i64,
    i: int,
)
    requires
        reachable(c, w, x, y),
        0 <= i < to_resend(x.st, now).len(),
    ensures
        exists|v: int| #[trigger] waits(c, x, v) && to_resend(x.st, now)[i] == x.wire(c, v),
{
    reachable_inv(c, w, x, y);
    lemma_due_is_in_window(x.st.send_window, now, x.st.cap() as int, i);
    let k = choose|k: int|
        0 <= k < x.st.cap() && is_due(x.st.send_window, k, now) && to_resend(x.st, now)[i]
            == packet_of(#[trigger] x.st.send_window[k]->0);
    let v = lemma_slot_owner(c, x, k);
    assert(x.send_at(c, v) == x.st.send_window[k]);
    assert(waits(c, x, v));
}

/// What is resent is a packet in the send window, with the numbers and the data that it has there.
pub proof fn resends_from_window<S, R>(state: SeqState<S, R>, now: i64, i: int)
    requires
        state.wf(),
        0 <= i < to_resend(state, now).len(),
    ensures
        exists|k: int|
            {
                &&& 0 <= k < state.cap()
                &&& is_due(state.send_window, k, now)
                &&& to_resend(state, now)[i] == packet_of(#[trigger] state.send_window[k]->0)
            },
{
    lemma_due_is_in_window(state.send_window, now, state.cap() as int, i);
}

proof fn lemma_due_is_in_window<S>(window: Seq<Option<SendEntry<S>>>, now: i64, n: int, i: int)
    requires
        0 <= n <= window.len(),
        0 <= i < due_packets(window, now, n).len(),
    ensures
        exists|k: int|
            0 <= k < n && is_due(window, k, now) && due_packets(window, now, n)[i] == packet_of(
                #[trigger] window[k]->0,
            ),
    decreases n,
{
    let rest = due_packets(window, now, n - 1);
    if i < rest.len() {
        lemma_due_is_in_window(window, now, n - 1, i);
        let k = choose|k: int|
            0 <= k < n - 1 && is_due(window, k, now) && rest[i] == packet_of(
                #[trigger] window[k]->0,
            );
        assert(due_packets(window, now, n)[i] == packet_of(window[k]->0));
    } else {
        assert(due_packets(window, now, n)[i] == packet_of(window[n - 1]->0));
    }
}

// ---- one peer ----

/// Resending, all at once or packet by packet, and setting the resend interval change nothing but
/// when packets are resent.
pub proof fn resending_retimes<S, R>(state: SeqState<S, R>, now: i64, i: int, timestamp: i64)
    requires
        state.wf(),
    ensures
        retimed(state, after_service(state, now)),
        0 <= i < state.cap() && state.send_window[i] is Some ==> retimed(
            state,
            state.resent(i, now),
        ),
        retimed(state, state.serviced(timestamp)),
        retimed(state, SeqState { resend_interval: timestamp, ..state }),
{
}

/// Nothing in the send window has to be resent before the next service.
pub open spec fn is_scheduled<S, R>(state: SeqState<S, R>) -> bool {
    forall|i: int|
        0 <= i < state.cap() ==> (#[trigger] state.send_window[i] matches Some(entry)
            ==> state.next_service_timestamp <= entry.next_resend_time)
}

/// A new session has nothing to resend.
pub proof fn initial_is_scheduled<S, R>(cap: nat, resend_interval: i64, initial_seq_no: SeqNo)
    ensures
        is_scheduled(SeqState::<S, R>::initial(cap, resend_interval, initial_seq_no)),
{
}

/// Sending keeps the schedule.
pub proof fn sent_is_scheduled<S, R>(
    state: SeqState<S, R>,
    now: i64,
    reply_no: Option<SeqNo>,
    seq_cst: bool,
    data: S,
)
    requires
        state.wf(),
        is_scheduled(state),
    ensures
        is_scheduled(state.sent(now, reply_no, seq_cst, data)),
{
    let post = state.sent(now, reply_no, seq_cst, data);
    assert forall|i: int| 0 <= i < post.cap() implies (
    #[trigger] post.send_window[i] matches Some(entry) ==> post.next_service_timestamp
        <= entry.next_resend_time) by {
        if i != slot(state.next_send, state.cap()) {
            assert(post.send_window[i] == state.send_window[i]);
        }
    }
}

/// Receiving keeps the schedule.
pub proof fn received_is_scheduled<S, R, P: Into<R>>(
    pre: SeqState<S, R>,
    packet: Packet<P>,
    post: SeqState<S, R>,
    result: Result<(RecvOkRaw<S, P>, bool), TryRawRecvError>,
)
    requires
        pre.wf(),
        is_scheduled(pre),
        receives(pre, packet, post, result),
    ensures
        is_scheduled(post),
{
    assert(post.send_window.len() == pre.send_window.len());
    assert forall|i: int| 0 <= i < post.cap() implies #[trigger] post.send_window[i]
        == pre.send_window[i] || post.send_window[i] is None by {}
}

/// Pumping keeps the schedule.
pub proof fn pumped_is_scheduled<S, R>(
    pre: SeqState<S, R>,
    post: SeqState<S, R>,
    result: Result<(RecvOkRaw<S, R>, bool), TryError>,
)
    requires
        pre.wf(),
        is_scheduled(pre),
        pumps(pre, post, result),
    ensures
        is_scheduled(post),
{
    assert(post.send_window.len() == pre.send_window.len());
    assert forall|i: int| 0 <= i < post.cap() implies #[trigger] post.send_window[i]
        == pre.send_window[i] || post.send_window[i] is None by {}
}

/// Acknowledging and unlocking keep the schedule.
pub proof fn returned_is_scheduled<S, R>(state: SeqState<S, R>, reply_no: SeqNo, unlock: bool)
    requires
        is_scheduled(state),
    ensures
        is_scheduled(state.returned(reply_no, unlock)),
        is_scheduled(state.unlocked_session()),
{
    assert(state.returned(reply_no, unlock).send_window == state.send_window);
    assert(state.unlocked_session().send_window == state.send_window);
}

/// A service keeps the schedule. It resends every packet whose time has come, once, in the order of
/// the slots, and then the next service is due exactly when the first packet has to be resent, or
/// never where the send window is empty.
pub proof fn service_resends_all<S, R>(state: SeqState<S, R>, now: i64, i: int)
    requires
        state.wf(),
        is_scheduled(state),
        0 <= i < state.cap(),
    ensures
        is_scheduled(after_service(state, now)),
        is_due(state.send_window, i, now) ==> to_resend(state, now).contains(
            packet_of(state.send_window[i]->0),
        ) && after_service(state, now).send_window[i]->0.next_resend_time == state.resend_time(now),
        !is_due(state.send_window, i, now) ==> after_service(state, now).send_window[i]
            == state.send_window[i],
        state.next_service_timestamp <= now && (forall|j: int|
            0 <= j < state.cap() ==> state.send_window[j] is None) ==> after_service(
            state,
            now,
        ).next_service_timestamp == i64::MAX,
{
    let post = after_service(state, now);
    if state.next_service_timestamp <= now {
        assert forall|j: int| 0 <= j < post.cap() implies (
        #[trigger] post.send_window[j] matches Some(entry) ==> post.next_service_timestamp
            <= entry.next_resend_time) by {
            if post.send_window[j] is Some {
                lemma_earliest_is_least(post.send_window, 0, post.cap() as int, j);
            }
        }
        if is_due(state.send_window, i, now) {
            lemma_due_is_resent(state.send_window, now, state.cap() as int, i);
        }
        if forall|j: int| 0 <= j < state.cap() ==> state.send_window[j] is None {
            lemma_earliest_empty(post.send_window, 0, post.cap() as int);
        }
    } else {
        assert(state.send_window[i] matches Some(entry) ==> state.next_service_timestamp
            <= entry.next_resend_time);
    }
}

proof fn lemma_earliest_is_least<S>(window: Seq<Option<SendEntry<S>>>, lo: int, hi: int, i: int)
    requires
        lo <= i < hi,
        window[i] is Some,
    ensures
        earliest(window, lo, hi) <= window[i]->0.next_resend_time,
    decreases hi - lo,
{
    if i < hi - 1 {
        lemma_earliest_is_least(window, lo, hi - 1, i);
    }
}

proof fn lemma_earliest_empty<S>(window: Seq<Option<SendEntry<S>>>, lo: int, hi: int)
    requires
        forall|i: int| lo <= i < hi ==> window[i] is None,
    ensures
        earliest(window, lo, hi) == i64::MAX,
    decreases hi - lo,
{
    if lo < hi {
        lemma_earliest_empty(window, lo, hi - 1);
    }
}

proof fn lemma_due_is_resent<S>(window: Seq<Option<SendEntry<S>>>, now: i64, n: int, i: int)
    requires
        0 <= i < n,
        is_due(window, i, now),
    ensures
        due_packets(window, now, n).contains(packet_of(window[i]->0)),
    decreases n,
{
    let all = due_packets(window, now, n);
    let rest = due_packets(window, now, n - 1);
    let p = packet_of(window[i]->0);
    if i == n - 1 {
        assert(all[rest.len() as int] == p);
    } else {
        lemma_due_is_resent(window, now, n - 1, i);
        let k = choose|k: int| 0 <= k < rest.len() && rest[k] == p;
        assert(all[k] == p);
    }
}

/// Only one SeqCst packet is processed at a time: while one is, no other one is handed out, and
/// handing one out locks the session.
pub proof fn one_seq_cst_at_a_time<S, R>(
    state: SeqState<S, R>,
    seq_no: SeqNo,
    reply_no: Option<SeqNo>,
)
    ensures
        state.locked ==> !(state.verdict(seq_no, reply_no, true) is Deliver),
        state.locked && state.pump_check() is Ok ==> (state.recv_window[slot(
            state.next_recv,
            state.cap(),
        )] matches RecvEntry::Occupied { seq_cst, .. } && !seq_cst),
        state.delivered(seq_no, reply_no, true).locked,
        state.passed().issued(seq_no, reply_no, true).locked,
        state.locked ==> state.delivered(seq_no, reply_no, false).locked,
{
}

/// Where there is no room for a reply until a reply number is returned, a packet that was not handed
/// out yet is dropped, and changes nothing.
pub proof fn full_window_drops<S, R, P: Into<R>>(
    pre: SeqState<S, R>,
    packet: Packet<P>,
    post: SeqState<S, R>,
    result: Result<(RecvOkRaw<S, P>, bool), TryRawRecvError>,
)
    requires
        packet.seq_no() is Some,
        !pre.is_received(packet.seq_no()->0),
        !pre.is_ahead(packet.seq_no()->0),
        pre.room(packet.reply_no()) == Err::<(), TryError>(TryError::WaitingForReply),
        receives(pre, packet, post, result),
    ensures
        result == Err::<(RecvOkRaw<S, P>, bool), TryRawRecvError>(TryRawRecvError::WaitingForReply),
        post == pre,
{
}

/// A packet that finds its slot in the receive window taken, and cannot be processed, is dropped.
pub proof fn taken_slot_drops<S, R, P: Into<R>>(
    pre: SeqState<S, R>,
    packet: Packet<P>,
    post: SeqState<S, R>,
    result: Result<(RecvOkRaw<S, P>, bool), TryRawRecvError>,
)
    requires
        packet.seq_no() is Some,
        !pre.can_hold(packet.seq_no()->0),
        receives(pre, packet, post, result),
        result is Err,
    ensures
        post == pre,
{
}

/// Data that is waiting for an answer is never overwritten: where there is room to send, the slot of
/// the packet is free, also after a received reply has freed the slot of the packet that it answers.
pub proof fn send_overwrites_nothing<S, R>(state: SeqState<S, R>, reply_no: SeqNo)
    requires
        state.wf(),
    ensures
        state.room(None) is Ok ==> state.send_window[slot(state.next_send, state.cap())] is None,
        state.room(Some(reply_no)) is Ok && state.unanswered(reply_no) is Some ==> state.answered(
            reply_no,
        ).send_window[slot(state.next_send, state.cap())] is None,
{
    assert(state.next_send.wrapping_add(0) == state.next_send);
    assert(state.room(None) is Ok ==> !state.blocked(0, None));
    assert(state.room(Some(reply_no)) is Ok ==> !state.blocked(0, Some(reply_no)));
}

/// An ack or a reply gives back the data of the packet that it answers, and takes no other data out
/// of the send window.
pub proof fn answered_is_given_back<S, R>(state: SeqState<S, R>, reply_no: SeqNo, i: int)
    requires
        state.wf(),
        0 <= i < state.cap(),
    ensures
        state.answered(reply_no).send_window[i] == state.send_window[i] || ({
            &&& state.send_window[i] is Some
            &&& state.send_window[i]->0.seq_no == reply_no
            &&& state.unanswered(reply_no) == Some(state.send_window[i]->0.data)
            &&& state.answered(reply_no).send_window[i] is None
        }),
{
}

} // verus!
