//! The proof that nothing that can happen in a session breaks its invariant.
use crate::model::{fast_forward, lemma_unlocked_update, slot, unlocked_count, Verdict};
use crate::seq_queue::{RecvEntry, SendEntry};
use crate::session::{
    answers_agree, counters_agree, handed_out, happens, holds_what_was_carried,
    holds_what_was_sent, in_step, inv,
    keeps_what_was_sent, link, marked, nothing_lost, open_are_reserved, received_in_order,
    received_once, replies_have_room, same_packet, settled_by_answer, waits, Event, Peer, Terms,
    NUMBERS,
};
use crate::transport_layer::{Packet, SeqNo};
use vstd::prelude::*;

verus! {

// ---- arithmetic ----

/// A packet's slot can be found by its wire number.
pub(crate) proof fn lemma_place(c: Terms, v: int)
    requires
        2 <= c.cap,
        0 <= v,
        c.in_step(v + 1),
    ensures
        slot(c.number(v), c.cap) == c.place(v),
{
    let x = c.base + v;
    let cap = c.cap as int;
    if c.base + v + 1 <= NUMBERS {
        assert(x % (NUMBERS as int) == x);
    } else {
        vstd::arithmetic::div_mod::lemma_fundamental_div_mod(NUMBERS as int, cap);
        vstd::arithmetic::div_mod::lemma_fundamental_div_mod(x, NUMBERS as int);
        let k = NUMBERS as int / cap;
        let q = x / (NUMBERS as int);
        let r = x % (NUMBERS as int);
        assert(x == cap * (k * q) + r) by (nonlinear_arith)
            requires
                x == NUMBERS * q + r,
                NUMBERS == cap * k,
        ;
        vstd::arithmetic::div_mod::lemma_mod_multiples_vanish(k * q, r, cap);
    }
}

/// A slot is used again after a whole window, and not before.
pub(crate) proof fn lemma_places_differ(c: Terms, u: int, v: int)
    requires
        2 <= c.cap,
        u < v <= u + c.cap,
    ensures
        0 <= c.place(u) < c.cap,
        0 <= c.place(v) < c.cap,
        c.place(u) == c.place(v) <==> v == u + c.cap,
{
    let cap = c.cap as int;
    let a = c.base + u;
    let b = c.base + v;
    vstd::arithmetic::div_mod::lemma_fundamental_div_mod(a, cap);
    vstd::arithmetic::div_mod::lemma_fundamental_div_mod(b, cap);
    if v == u + c.cap {
        vstd::arithmetic::div_mod::lemma_mod_add_multiples_vanish(a, cap);
    } else if a % cap == b % cap {
        let d = b / cap - a / cap;
        assert(b - a == cap * d) by (nonlinear_arith)
            requires
                a == cap * (a / cap) + a % cap,
                b == cap * (b / cap) + b % cap,
                a % cap == b % cap,
                d == b / cap - a / cap,
        ;
        assert(false) by (nonlinear_arith)
            requires
                b - a == cap * d,
                0 < b - a < cap,
        ;
    }
}

/// Wire numbers count on by one.
pub(crate) proof fn lemma_number_add(c: Terms, v: int, i: u32)
    requires
        0 <= v,
    ensures
        c.number(v).wrapping_add(i) == c.number(v + i),
{
}

/// The distance between two wire numbers is the distance between the packets.
pub(crate) proof fn lemma_number_sub(c: Terms, v: int, w: int)
    requires
        0 <= v,
        0 <= w,
    ensures
        v >= w && v - w < NUMBERS ==> c.number(v).wrapping_sub(c.number(w)) == v - w,
        v < w && w - v <= NUMBERS ==> c.number(v).wrapping_sub(c.number(w)) == (NUMBERS + v - w)
            % (NUMBERS as int),
        c.number(v) == c.number(w) && -NUMBERS < v - w < NUMBERS ==> v == w,
{
}

/// Writing to the slot of packet `u` in the send window changes that slot alone.
proof fn lemma_update_send<S, R>(
    c: Terms,
    x: Peer<S, R>,
    x2: Peer<S, R>,
    u: int,
    e: Option<SendEntry<S>>,
)
    requires
        c.wf(),
        x.st.send_window.len() == c.cap,
        x2.st.send_window == x.st.send_window.update(c.place(u), e),
    ensures
        0 <= c.place(u) < c.cap,
        x2.send_at(c, u) == e,
        forall|v: int|
            u - c.cap < v < u + c.cap && v != u ==> #[trigger] x2.send_at(c, v) == x.send_at(c, v),
{
    lemma_places_differ(c, u, u + 1);
    assert forall|v: int| u - c.cap < v < u + c.cap && v != u implies #[trigger] x2.send_at(c, v)
        == x.send_at(c, v) by {
        if v < u {
            lemma_places_differ(c, v, u);
        } else {
            lemma_places_differ(c, u, v);
        }
    }
}

/// What is in the slot of packet `v` is in the slot of the packet a window later.
proof fn lemma_send_again<S, R>(c: Terms, x: Peer<S, R>, v: int)
    requires
        c.wf(),
    ensures
        x.send_at(c, v) == x.send_at(c, v + c.cap),
{
    lemma_places_differ(c, v, v + c.cap);
}

// ---- sending keeps the invariant ----

/// What adding packet `n` to the send window does, where its slot is free.
proof fn lemma_sent<S, R, S2, R2>(c: Terms, x: Peer<S, R>, y: Peer<S2, R2>, x2: Peer<S, R>)
    requires
        c.wf(),
        link(c, x, y),
        x2.st.wf(),
        x2.st.cap() == c.cap,
        x.send_at(c, x.sent.len() as int) is None,
        x2.sent == x.sent.push(x2.sent.last()),
        x2.sent.len() == x.sent.len() + 1,
        x2.st.next_send == x.st.next_send.wrapping_add(1),
        x2.received == x.received,
        ({
            let n = x.sent.len() as int;
            let p = x2.sent[n];
            let e = x2.send_at(c, n);
            &&& e is Some
            &&& x2.st.send_window == x.st.send_window.update(c.place(n), e)
            &&& e->0.seq_no == c.number(n)
            &&& e->0.reply_no == c.reply_number(p.reply)
            &&& e->0.seq_cst == p.seq_cst
            &&& e->0.data == p.data
        }),
    ensures
        counters_agree(c, x2, y),
        holds_what_was_sent(c, x2, y),
        keeps_what_was_sent(c, x2),
        received_once(c, x2, y),
        received_in_order(x2, y),
        nothing_lost(c, x2, y),
        open_are_reserved(c, x2, y),
        answers_agree(c, x2, y),
        settled_by_answer(c, x2, y),
{
    let n = x.sent.len() as int;
    lemma_update_send(c, x, x2, n, x2.send_at(c, n));
    lemma_number_add(c, n, 1);
    lemma_send_again(c, x, n - c.cap);
    // The sender is not a whole window ahead, or the slot would be taken.
    if n == y.next + c.cap {
        assert(!marked(c, x, y, y.next));
        assert(x.send_at(c, y.next) is Some);
        assert(false);
    }
    assert(counters_agree(c, x2, y));
    assert(keeps_what_was_sent(c, x2));
    assert forall|v: int| #[trigger] y.received.contains(v) <==> marked(c, x2, y, v) by {
        assert(y.received.contains(v) <==> marked(c, x, y, v));
        if v == n {
            let _ = y.recv_at(c, n);
        }
    }
    assert forall|v: int| waits(c, x, v) implies #[trigger] waits(c, x2, v) by {
        assert(v != n - c.cap);
        assert(x2.send_at(c, v) == x.send_at(c, v));
    }
    assert forall|p: int, u: int|
        0 <= p < y.received.len() && x2.sent[y.received[p]].seq_cst && 0 <= u
            < y.received[p] implies #[trigger] y.received.subrange(0, p).contains(u) by {
        assert(y.received.contains(y.received[p]));
    }
}

/// Whether there is room for a packet can be seen in the slots of the packets to come.
proof fn lemma_blocked<S, R, S2, R2>(
    c: Terms,
    x: Peer<S, R>,
    y: Peer<S2, R2>,
    i: int,
    reply: Option<int>,
)
    requires
        inv(c, x, y),
        c.in_step((x.sent.len() + c.cap) as int),
        0 <= i < c.cap,
        reply matches Some(r) ==> 0 <= r < x.sent.len(),
    ensures
        x.st.blocked(i, c.reply_number(reply)) == (x.send_at(c, x.sent.len() + i) is Some && !(
        reply matches Some(r) && c.place(r) == c.place(x.sent.len() + i))),
{
    let n = x.sent.len() as int;
    lemma_number_add(c, n, i as u32);
    lemma_place(c, n + i);
    if let Some(r) = reply {
        lemma_place(c, r);
    }
}

/// The windows that sending leaves alone say the same as before.
proof fn lemma_sent_back<S, R, S2, R2>(c: Terms, x: Peer<S, R>, y: Peer<S2, R2>, x2: Peer<S, R>)
    requires
        link(c, y, x),
        x2.st.next_recv == x.st.next_recv,
        x2.st.recv_window == x.st.recv_window,
        x2.next == x.next,
        x2.received == x.received,
        x2.acked == x.acked,
        x2.sent.len() == x.sent.len() + 1,
        forall|j: int| 0 <= j < x.sent.len() ==> #[trigger] x2.sent[j] == x.sent[j],
    ensures
        counters_agree(c, y, x2),
        holds_what_was_sent(c, y, x2),
        keeps_what_was_sent(c, y),
        received_once(c, y, x2),
        received_in_order(y, x2),
        nothing_lost(c, y, x2),
        settled_by_answer(c, y, x2),
        replies_have_room(c, y),
{
    assert forall|v: int| y.next <= v implies x2.recv_at(c, v) == x.recv_at(c, v) by {}
    assert forall|v: int| x2.next <= v < x2.next + c.cap implies match #[trigger] x2.recv_at(c, v) {
        RecvEntry::Empty => true,
        RecvEntry::Unlocked { seq_no } => {
            &&& v != x2.next
            &&& v < y.sent.len()
            &&& seq_no == c.number(v)
        },
        RecvEntry::Occupied { seq_no, reply_no, seq_cst, .. } => {
            &&& v < y.sent.len()
            &&& seq_no == c.number(v)
            &&& reply_no == c.reply_number(y.sent[v].reply)
            &&& seq_cst == y.sent[v].seq_cst
        },
    } by {
        assert(x2.recv_at(c, v) == x.recv_at(c, v));
    }
    assert forall|v: int| #[trigger] x2.received.contains(v) <==> marked(c, y, x2, v) by {
        assert(x.received.contains(v) <==> marked(c, y, x, v));
        assert(x2.recv_at(c, v) == x.recv_at(c, v));
    }
    assert forall|v: int| 0 <= v < y.sent.len() && !(#[trigger] waits(c, y, v)) implies {
        ||| x2.acked.contains(v)
        ||| exists|j: int|
            0 <= j < x2.sent.len() && #[trigger] x2.sent[j].reply == Some(v) && y.received.contains(
                j,
            )
    } by {
        if !x.acked.contains(v) {
            let j = choose|j: int|
                0 <= j < x.sent.len() && #[trigger] x.sent[j].reply == Some(v)
                    && y.received.contains(j);
            assert(x2.sent[j].reply == Some(v));
        }
    }
}

/// Sending a packet keeps the invariant.
proof fn lemma_send<S, R, S2, R2>(
    c: Terms,
    carried: spec_fn(S2, R) -> bool,
    x: Peer<S, R>,
    y: Peer<S2, R2>,
    now: i64,
    seq_cst: bool,
    data: S,
    x2: Peer<S, R>,
)
    requires
        inv(c, x, y),
        in_step(c, x2, y),
        happens(c, carried, x, y, Event::Send { now, seq_cst, data }, x2),
    ensures
        inv(c, x2, y),
{
    let n = x.sent.len() as int;
    let len = x.st.replies.len() as int;
    lemma_place(c, n);
    lemma_update_send(c, x, x2, n, x2.send_at(c, n));
    assert forall|i: int| 0 <= i <= len implies #[trigger] x.send_at(c, n + i) is None by {
        lemma_blocked(c, x, y, i, None);
        assert(!x.st.blocked(i, None));
    }
    assert(x.send_at(c, n + 0) is None);
    lemma_sent(c, x, y, x2);
    assert forall|i: int| 0 <= i < x2.st.replies.len() implies #[trigger] x2.send_at(
        c,
        x2.sent.len() + i,
    ) is None by {
        assert(x.send_at(c, n + (i + 1)) is None);
    }
    lemma_sent_back(c, x, y, x2);
    assert(open_are_reserved(c, y, x2)) by {
        assert(x2.open == x.open && x2.st.replies == x.st.replies);
    }
    assert(answers_agree(c, y, x2)) by {
        assert forall|j: int| 0 <= j < x2.sent.len() implies ((#[trigger] x2.sent[j]).reply matches Some(
            v,
        ) ==> {
            &&& x2.received.contains(v)
            &&& !x2.open.contains(v)
            &&& x2.acked.contains(v) ==> y.received.contains(j)
            &&& !y.received.contains(j) ==> waits(c, y, v)
        }) by {
            if j < n {
                assert(x2.sent[j] == x.sent[j]);
            }
        }
        assert forall|j: int, k: int|
            0 <= j < k < x2.sent.len() && x2.sent[j].reply is Some implies #[trigger] x2.sent[j].reply
            != #[trigger] x2.sent[k].reply by {
            assert(x2.sent[j] == x.sent[j]);
            if k < n {
                assert(x2.sent[k] == x.sent[k]);
            }
        }
    }
}

/// Replying to an open packet keeps the invariant.
proof fn lemma_reply<S, R, S2, R2>(
    c: Terms,
    carried: spec_fn(S2, R) -> bool,
    x: Peer<S, R>,
    y: Peer<S2, R2>,
    v: int,
    now: i64,
    unlock: bool,
    seq_cst: bool,
    data: S,
    x2: Peer<S, R>,
)
    requires
        inv(c, x, y),
        in_step(c, x2, y),
        happens(c, carried, x, y, Event::Reply { v, now, unlock, seq_cst, data }, x2),
    ensures
        inv(c, x2, y),
{
    let n = x.sent.len() as int;
    let len = x.st.replies.len() as int;
    let s = c.number(v);
    assert(x.open.contains(v));
    assert(x.st.replies.count(s) == 1);
    lemma_place(c, n);
    lemma_update_send(c, x, x2, n, x2.send_at(c, n));
    assert(len >= 1);
    assert(x.send_at(c, n + 0) is None);
    lemma_sent(c, x, y, x2);
    assert forall|i: int| 0 <= i < x2.st.replies.len() implies #[trigger] x2.send_at(
        c,
        x2.sent.len() + i,
    ) is None by {
        assert(x.send_at(c, n + (i + 1)) is None);
    }
    lemma_sent_back(c, x, y, x2);
    lemma_open_removed(c, x, y, v);
    assert(open_are_reserved(c, y, x2)) by {
        assert forall|u: int| #![trigger x2.open.contains(u)] x2.open.contains(u) implies {
            &&& x2.received.contains(u)
            &&& !x2.acked.contains(u)
            &&& waits(c, y, u)
            &&& x2.st.replies.count(c.number(u)) == 1
        } by {
            assert(x.open.contains(u));
        }
        assert forall|t: SeqNo| #[trigger] x2.st.replies.count(t) > 0 implies exists|u: int|
            #[trigger] x2.open.contains(u) && c.number(u) == t by {
            assert(x.st.replies.count(t) > 0);
            let u = choose|u: int| #[trigger] x.open.contains(u) && c.number(u) == t;
            assert(x2.open.contains(u));
        }
    }
    assert(answers_agree(c, y, x2)) by {
        assert forall|j: int| 0 <= j < x2.sent.len() implies ((#[trigger] x2.sent[j]).reply matches Some(
            u,
        ) ==> {
            &&& x2.received.contains(u)
            &&& !x2.open.contains(u)
            &&& x2.acked.contains(u) ==> y.received.contains(j)
            &&& !y.received.contains(j) ==> waits(c, y, u)
        }) by {
            if j < n {
                assert(x2.sent[j] == x.sent[j]);
            }
        }
        assert forall|j: int, k: int|
            0 <= j < k < x2.sent.len() && x2.sent[j].reply is Some implies #[trigger] x2.sent[j].reply
            != #[trigger] x2.sent[k].reply by {
            assert(x2.sent[j] == x.sent[j]);
            if k < n {
                assert(x2.sent[k] == x.sent[k]);
            }
        }
    }
}

/// Two packets that wait for an answer do not have the same wire number.
pub(crate) proof fn lemma_waiting_differ<S, R>(c: Terms, y: Peer<S, R>, u: int, v: int)
    requires
        c.wf(),
        waits(c, y, u),
        waits(c, y, v),
        c.number(u) == c.number(v),
    ensures
        u == v,
{
    lemma_number_sub(c, u, v);
}

/// Once the reply number of an open packet has been returned, none is left for it, and those of
/// the other open packets are left.
proof fn lemma_open_removed<S, R, S2, R2>(c: Terms, x: Peer<S, R>, y: Peer<S2, R2>, v: int)
    requires
        inv(c, x, y),
        x.open.contains(v),
    ensures
        ({
            let left = x.st.replies.remove(c.number(v));
            &&& left.count(c.number(v)) == 0
            &&& forall|t: SeqNo| t != c.number(v) ==> #[trigger] left.count(t) == x.st.replies.count(t)
            &&& forall|u: int| #[trigger]
                x.open.contains(u) && u != v ==> c.number(u) != c.number(v)
        }),
{
    assert forall|u: int| #[trigger] x.open.contains(u) && u != v implies c.number(u) != c.number(
        v,
    ) by {
        if c.number(u) == c.number(v) {
            lemma_waiting_differ(c, y, u, v);
        }
    }
}

// ---- answering keeps the invariant ----

/// Where nothing changes that the sender's side of a link speaks of, the link is kept.
proof fn lemma_same_sender<S, R, S2, R2>(c: Terms, x: Peer<S, R>, y: Peer<S2, R2>, x2: Peer<S, R>)
    requires
        link(c, x, y),
        x2.st.wf(),
        x2.st.next_send == x.st.next_send,
        x2.st.send_window == x.st.send_window,
        x2.st.replies.len() <= x.st.replies.len(),
        x2.sent == x.sent,
        x2.received == x.received,
    ensures
        link(c, x2, y),
{
    assert forall|v: int| #[trigger] x2.send_at(c, v) == x.send_at(c, v) by {}
    assert forall|v: int| #[trigger] waits(c, x2, v) == waits(c, x, v) by {}
    assert(keeps_what_was_sent(c, x2));
    assert(nothing_lost(c, x2, y));
    assert forall|v: int| #[trigger] y.received.contains(v) <==> marked(c, x2, y, v) by {
        assert(y.received.contains(v) <==> marked(c, x, y, v));
    }
    assert(open_are_reserved(c, x2, y)) by {
        assert forall|v: int| #![trigger y.open.contains(v)] y.open.contains(v) implies waits(
            c,
            x2,
            v,
        ) by {
            assert(waits(c, x, v));
        }
    }
    assert(answers_agree(c, x2, y)) by {
        assert forall|j: int| 0 <= j < y.sent.len() implies ((#[trigger] y.sent[j]).reply matches Some(
            v,
        ) ==> (!x2.received.contains(j) ==> waits(c, x2, v))) by {
            if y.sent[j].reply is Some && !x.received.contains(j) {
                assert(waits(c, x, y.sent[j].reply->0));
            }
        }
    }
    assert(settled_by_answer(c, x2, y)) by {
        assert forall|v: int| 0 <= v < x2.sent.len() && !(#[trigger] waits(c, x2, v)) implies {
            ||| y.acked.contains(v)
            ||| exists|j: int|
                0 <= j < y.sent.len() && #[trigger] y.sent[j].reply == Some(v)
                    && x2.received.contains(j)
        } by {
            assert(!waits(c, x, v));
        }
    }
    assert(replies_have_room(c, x2)) by {
        assert forall|i: int| 0 <= i < x2.st.replies.len() implies #[trigger] x2.send_at(
            c,
            x2.sent.len() + i,
        ) is None by {
            assert(x.send_at(c, x.sent.len() + i) is None);
        }
    }
}

/// Where the receive window does not change, it says the same as before.
proof fn lemma_same_receiver<S, R, S2, R2>(c: Terms, x: Peer<S, R>, y: Peer<S2, R2>, x2: Peer<S, R>)
    requires
        link(c, y, x),
        x2.st.next_recv == x.st.next_recv,
        x2.st.recv_window == x.st.recv_window,
        x2.next == x.next,
        x2.received == x.received,
    ensures
        counters_agree(c, y, x2),
        holds_what_was_sent(c, y, x2),
        keeps_what_was_sent(c, y),
        received_once(c, y, x2),
        received_in_order(y, x2),
        nothing_lost(c, y, x2),
        replies_have_room(c, y),
{
    assert forall|v: int| #[trigger] x2.recv_at(c, v) == x.recv_at(c, v) by {}
    assert forall|v: int| #[trigger] x2.received.contains(v) <==> marked(c, y, x2, v) by {
        assert(x.received.contains(v) <==> marked(c, y, x, v));
        assert(x2.recv_at(c, v) == x.recv_at(c, v));
    }
}

/// Sending an ack of a packet that was handed out, and that neither is open nor has a reply that
/// has yet to arrive, keeps the link.
proof fn lemma_acked<S, R, S2, R2>(c: Terms, x: Peer<S, R>, y: Peer<S2, R2>, v: int, x2: Peer<S, R>)
    requires
        inv(c, x, y),
        x2.st.next_recv == x.st.next_recv,
        x2.st.recv_window == x.st.recv_window,
        x2.next == x.next,
        x2.sent == x.sent,
        x2.received == x.received,
        x2.acked == x.acked.insert(v),
        x2.open == x.open.remove(v),
        x.received.contains(v),
        forall|u: int| x.open.contains(u) && u != v ==> x2.st.replies.count(c.number(u)) == 1,
        forall|t: SeqNo| #[trigger] x2.st.replies.count(t) > 0 ==> x.st.replies.count(t) > 0 && !(
        x.open.contains(v) && t == c.number(v)),
        forall|j: int|
            0 <= j < x.sent.len() && #[trigger] x.sent[j].reply == Some(v) ==> y.received.contains(j),
    ensures
        link(c, y, x2),
{
    lemma_same_receiver(c, x, y, x2);
    assert(open_are_reserved(c, y, x2)) by {
        assert forall|u: int| #![trigger x2.open.contains(u)] x2.open.contains(u) implies {
            &&& x2.received.contains(u)
            &&& !x2.acked.contains(u)
            &&& waits(c, y, u)
            &&& x2.st.replies.count(c.number(u)) == 1
        } by {
            assert(x.open.contains(u));
        }
        assert forall|t: SeqNo| #[trigger] x2.st.replies.count(t) > 0 implies exists|u: int|
            #[trigger] x2.open.contains(u) && c.number(u) == t by {
            assert(x.st.replies.count(t) > 0);
            let u = choose|u: int| #[trigger] x.open.contains(u) && c.number(u) == t;
            assert(x2.open.contains(u));
        }
    }
    assert(answers_agree(c, y, x2));
    assert(settled_by_answer(c, y, x2)) by {
        assert forall|u: int| 0 <= u < y.sent.len() && !(#[trigger] waits(c, y, u)) implies {
            ||| x2.acked.contains(u)
            ||| exists|j: int|
                0 <= j < x2.sent.len() && #[trigger] x2.sent[j].reply == Some(u)
                    && y.received.contains(j)
        } by {
            if !x.acked.contains(u) {
                let j = choose|j: int|
                    0 <= j < x.sent.len() && #[trigger] x.sent[j].reply == Some(u)
                        && y.received.contains(j);
                assert(x2.sent[j].reply == Some(u));
            }
        }
    }
}

/// Acknowledging an open packet keeps the invariant.
proof fn lemma_ack<S, R, S2, R2>(
    c: Terms,
    carried: spec_fn(S2, R) -> bool,
    x: Peer<S, R>,
    y: Peer<S2, R2>,
    v: int,
    unlock: bool,
    x2: Peer<S, R>,
)
    requires
        inv(c, x, y),
        happens(c, carried, x, y, Event::Ack { v, unlock }, x2),
    ensures
        inv(c, x2, y),
{
    assert(x.open.contains(v));
    assert(x.st.replies.count(c.number(v)) == 1);
    lemma_open_removed(c, x, y, v);
    lemma_same_sender(c, x, y, x2);
    lemma_acked(c, x, y, v, x2);
}

/// Leaving the critical section keeps the invariant.
proof fn lemma_unlock<S, R, S2, R2>(
    c: Terms,
    carried: spec_fn(S2, R) -> bool,
    x: Peer<S, R>,
    y: Peer<S2, R2>,
    x2: Peer<S, R>,
)
    requires
        inv(c, x, y),
        happens(c, carried, x, y, Event::Unlock, x2),
    ensures
        inv(c, x2, y),
{
    lemma_same_sender(c, x, y, x2);
    lemma_same_receiver(c, x, y, x2);
    lemma_same_answers(c, x, y, x2);
}

/// Where nothing is answered, the answers stay the same.
proof fn lemma_same_answers<S, R, S2, R2>(c: Terms, x: Peer<S, R>, y: Peer<S2, R2>, x2: Peer<S, R>)
    requires
        link(c, y, x),
        x2.sent == x.sent,
        x2.received == x.received,
        x2.acked == x.acked,
        x2.open == x.open,
        x2.st.replies == x.st.replies,
    ensures
        open_are_reserved(c, y, x2),
        answers_agree(c, y, x2),
        settled_by_answer(c, y, x2),
{
    assert(open_are_reserved(c, y, x2));
    assert(answers_agree(c, y, x2));
    assert(settled_by_answer(c, y, x2));
}

// ---- receiving keeps the invariant ----

/// The sender's side of a link is kept where packets are handed to it, one of which may answer
/// packet `r`.
proof fn lemma_answered<S, R, S2, R2>(
    c: Terms,
    x: Peer<S, R>,
    y: Peer<S2, R2>,
    r: Option<int>,
    x2: Peer<S, R>,
)
    requires
        inv(c, x, y),
        x2.st.wf(),
        x2.st.next_send == x.st.next_send,
        x2.sent == x.sent,
        forall|j: int| #[trigger] x.received.contains(j) ==> x2.received.contains(j),
        match r {
            Some(u) => {
                &&& waits(c, x, u)
                &&& x2.st.send_window == x.st.send_window.update(c.place(u), None)
                &&& y.received.contains(u)
                &&& !y.open.contains(u)
                &&& forall|j: int|
                    0 <= j < y.sent.len() && #[trigger] y.sent[j].reply == Some(u)
                        ==> x2.received.contains(j)
                &&& {
                    ||| y.acked.contains(u)
                    ||| exists|j: int|
                        0 <= j < y.sent.len() && #[trigger] y.sent[j].reply == Some(u)
                            && x2.received.contains(j)
                }
            },
            None => x2.st.send_window == x.st.send_window,
        },
    ensures
        counters_agree(c, x2, y),
        holds_what_was_sent(c, x2, y),
        keeps_what_was_sent(c, x2),
        received_once(c, x2, y),
        received_in_order(x2, y),
        nothing_lost(c, x2, y),
        open_are_reserved(c, x2, y),
        answers_agree(c, x2, y),
        settled_by_answer(c, x2, y),
        forall|v: int|
            #![trigger x2.send_at(c, v)]
            x.send_at(c, v) is None || (r matches Some(u) && c.place(u) == c.place(v))
                ==> x2.send_at(c, v) is None,
{
    if let Some(u) = r {
        lemma_update_send(c, x, x2, u, None);
        assert forall|v: int|
            x.sent.len() - c.cap <= v < x.sent.len() && v != u implies #[trigger] x2.send_at(c, v)
            == x.send_at(c, v) by {}
    } else {
        assert forall|v: int| #[trigger] x2.send_at(c, v) == x.send_at(c, v) by {}
    }
    assert forall|v: int| Some(v) != r implies #[trigger] waits(c, x2, v) == waits(c, x, v) by {}
    assert(keeps_what_was_sent(c, x2));
    assert forall|v: int| #[trigger] y.received.contains(v) <==> marked(c, x2, y, v) by {
        assert(y.received.contains(v) <==> marked(c, x, y, v));
    }
    assert(nothing_lost(c, x2, y)) by {
        assert forall|v: int|
            0 <= v < x2.sent.len() && !y.received.contains(v) implies #[trigger] x2.send_at(c, v) is Some by {
            assert(!marked(c, x, y, v));
            assert(x.send_at(c, v) is Some);
            assert(Some(v) != r);
        }
    }
    assert(open_are_reserved(c, x2, y)) by {
        assert forall|v: int| #![trigger y.open.contains(v)] y.open.contains(v) implies waits(
            c,
            x2,
            v,
        ) by {
            assert(waits(c, x, v));
            assert(Some(v) != r);
        }
    }
    assert(answers_agree(c, x2, y)) by {
        assert forall|j: int| 0 <= j < y.sent.len() implies ((#[trigger] y.sent[j]).reply matches Some(
            v,
        ) ==> {
            &&& y.received.contains(v)
            &&& !y.open.contains(v)
            &&& y.acked.contains(v) ==> x2.received.contains(j)
            &&& !x2.received.contains(j) ==> waits(c, x2, v)
        }) by {
            if y.sent[j].reply is Some && !x2.received.contains(j) {
                let v = y.sent[j].reply->0;
                assert(!x.received.contains(j));
                assert(waits(c, x, v));
                assert(Some(v) != r);
            }
        }
    }
    assert(settled_by_answer(c, x2, y)) by {
        assert forall|v: int| 0 <= v < x2.sent.len() && !(#[trigger] waits(c, x2, v)) implies {
            ||| y.acked.contains(v)
            ||| exists|j: int|
                0 <= j < y.sent.len() && #[trigger] y.sent[j].reply == Some(v)
                    && x2.received.contains(j)
        } by {
            if Some(v) != r && !y.acked.contains(v) {
                assert(!waits(c, x, v));
                let j = choose|j: int|
                    0 <= j < y.sent.len() && #[trigger] y.sent[j].reply == Some(v)
                        && x.received.contains(j);
                assert(x2.received.contains(j));
            }
        }
    }
    assert forall|v: int|
        #![trigger x2.send_at(c, v)]
        x.send_at(c, v) is None || (r matches Some(u) && c.place(u) == c.place(v)) implies x2.send_at(
        c,
        v,
    ) is None by {
        lemma_places_differ(c, v, v + 1);
    }
}

/// The unanswered packet with a given wire number is the one that waits with that number.
pub(crate) proof fn lemma_unanswered<S, R, S2, R2>(c: Terms, x: Peer<S, R>, y: Peer<S2, R2>, r: int)
    requires
        inv(c, x, y),
        c.in_step((x.sent.len() + c.cap) as int),
        0 <= r < x.sent.len(),
        x.sent.len() - r <= NUMBERS / 2,
    ensures
        waits(c, x, r) ==> x.st.unanswered(c.number(r)) == Some(x.sent[r].data),
        !waits(c, x, r) ==> x.st.unanswered(c.number(r)) is None,
        slot(c.number(r), c.cap) == c.place(r),
{
    let n = x.sent.len() as int;
    let cap = c.cap as int;
    lemma_place(c, r);
    let e = x.send_at(c, r);
    if waits(c, x, r) {
        assert(e is Some);
    } else if e is Some {
        // The slot holds a later packet, which has another number.
        assert(r < n - cap);
        let q = (n - 1 - r) / cap;
        let u = r + q * cap;
        vstd::arithmetic::div_mod::lemma_fundamental_div_mod(n - 1 - r, cap);
        assert(q * cap == cap * q) by (nonlinear_arith);
        assert(n - cap <= u < n);
        assert(c.place(u) == c.place(r)) by {
            vstd::arithmetic::div_mod::lemma_mod_multiples_vanish(q, c.base + r, cap);
        }
        assert(x.send_at(c, u) == e);
        lemma_number_sub(c, u, r);
    }
}

/// The arrival of an ack keeps the invariant.
proof fn lemma_receive_ack<S, R, S2, R2>(
    c: Terms,
    carried: spec_fn(S2, R) -> bool,
    x: Peer<S, R>,
    y: Peer<S2, R2>,
    v: int,
    x2: Peer<S, R>,
)
    requires
        inv(c, x, y),
        in_step(c, x2, y),
        happens(c, carried, x, y, Event::ReceiveAck { v }, x2),
    ensures
        inv(c, x2, y),
{
    assert(y.acked.contains(v));
    assert(y.received.contains(v));
    assert(marked(c, x, y, v));
    lemma_unanswered(c, x, y, v);
    let packet = Packet::<R>::Ack(c.number(v));
    assert(packet.seq_no() is None);
    assert(x2.st == x.st.answered(c.number(v)));
    let r = if waits(c, x, v) {
        Some(v)
    } else {
        None
    };
    assert(!y.open.contains(v));
    assert forall|j: int| 0 <= j < y.sent.len() && #[trigger] y.sent[j].reply == Some(
        v,
    ) implies x2.received.contains(j) by {}
    lemma_answered(c, x, y, r, x2);
    assert(replies_have_room(c, x2)) by {
        assert forall|i: int| 0 <= i < x2.st.replies.len() implies #[trigger] x2.send_at(
            c,
            x2.sent.len() + i,
        ) is None by {
            assert(x.send_at(c, x.sent.len() + i) is None);
        }
    }
    lemma_same_receiver(c, x, y, x2);
    lemma_same_answers(c, x, y, x2);
}

/// Whether a receive window whose next expected packet is `n` holds nothing but what `y` has sent.
spec fn window_fits<R, S2, R2>(
    c: Terms,
    y: Peer<S2, R2>,
    window: Seq<RecvEntry<R>>,
    n: int,
) -> bool {
    forall|v: int|
        #![trigger c.place(v)]
        n <= v < n + c.cap ==> match window[c.place(v)] {
            RecvEntry::Empty => true,
            RecvEntry::Unlocked { seq_no } => {
                &&& v < y.sent.len()
                &&& seq_no == c.number(v)
            },
            RecvEntry::Occupied { seq_no, reply_no, seq_cst, .. } => {
                &&& v < y.sent.len()
                &&& seq_no == c.number(v)
                &&& reply_no == c.reply_number(y.sent[v].reply)
                &&& seq_cst == y.sent[v].seq_cst
            },
        }
}

/// Whether such a receive window says that packet `v` has been handed out.
spec fn window_marks<R, S2, R2>(
    c: Terms,
    y: Peer<S2, R2>,
    window: Seq<RecvEntry<R>>,
    n: int,
    v: int,
) -> bool {
    ||| 0 <= v < n
    ||| n <= v < y.sent.len() && window[c.place(v)] is Unlocked
}

/// Passing over what was handed out ahead of its turn changes nothing about what was handed out.
proof fn lemma_fast_forward<R, S2, R2>(
    c: Terms,
    y: Peer<S2, R2>,
    window: Seq<RecvEntry<R>>,
    n: int,
) -> (n2: int)
    requires
        c.wf(),
        c.in_step((y.sent.len() + c.cap) as int),
        window.len() == c.cap,
        0 <= n <= y.sent.len() <= n + c.cap,
        window_fits(c, y, window, n),
    ensures
        ({
            let (window2, next) = fast_forward(window, c.number(n));
            &&& n <= n2 <= y.sent.len()
            &&& next == c.number(n2)
            &&& window2.len() == c.cap
            &&& window_fits(c, y, window2, n2)
            &&& window2[c.place(n2)] !is Unlocked
            &&& forall|v: int| #[trigger]
                window_marks(c, y, window2, n2, v) == window_marks(c, y, window, n, v)
        }),
    decreases unlocked_count(window),
{
    let i = c.place(n);
    lemma_place(c, n);
    lemma_places_differ(c, n, n + 1);
    if window[i] is Unlocked {
        let rest = window.update(i, RecvEntry::Empty);
        lemma_unlocked_update(window, i, RecvEntry::Empty);
        lemma_number_add(c, n, 1);
        assert forall|v: int| n < v < n + c.cap implies rest[#[trigger] c.place(v)]
            == window[c.place(v)] by {
            lemma_places_differ(c, n, v);
        }
        lemma_places_differ(c, n, n + c.cap);
        assert(window_fits(c, y, rest, n + 1));
        let n2 = lemma_fast_forward(c, y, rest, n + 1);
        let window2 = fast_forward(window, c.number(n)).0;
        assert forall|v: int| #[trigger]
            window_marks(c, y, window2, n2, v) == window_marks(c, y, window, n, v) by {
            assert(window_marks(c, y, window2, n2, v) == window_marks(c, y, rest, n + 1, v));
        }
        n2
    } else {
        n
    }
}

/// The receive window after packet `v`, which has not been handed out, has been.
proof fn lemma_taken<S, R, S2, R2>(c: Terms, x: Peer<S, R>, y: Peer<S2, R2>, v: int, x2: Peer<S, R>)
    requires
        inv(c, x, y),
        c.in_step((y.sent.len() + c.cap) as int),
        0 <= v < y.sent.len(),
        !x.received.contains(v),
        ({
            let taken = if v == x.next {
                x.st.passed()
            } else {
                x.st.unlocked(c.number(v))
            };
            &&& x2.st.recv_window == taken.recv_window
            &&& x2.st.next_recv == taken.next_recv
        }),
        x2.next == x.next + x2.st.next_recv.wrapping_sub(x.st.next_recv),
    ensures
        x2.st.recv_window.len() == c.cap,
        counters_agree(c, y, x2),
        holds_what_was_sent(c, y, x2),
        forall|u: int| #[trigger] marked(c, y, x2, u) <==> marked(c, y, x, u) || u == v,
{
    let n = x.next;
    lemma_place(c, v);
    lemma_places_differ(c, v, v + 1);
    assert(!marked(c, y, x, v));
    if v == n {
        let start = x.st.recv_window.update(c.place(n), RecvEntry::Empty);
        lemma_number_add(c, n, 1);
        assert forall|u: int| n < u < n + c.cap implies start[#[trigger] c.place(u)] == x.recv_at(
            c,
            u,
        ) by {
            lemma_places_differ(c, n, u);
        }
        lemma_places_differ(c, n, n + c.cap);
        assert(window_fits(c, y, start, n + 1));
        let n2 = lemma_fast_forward(c, y, start, n + 1);
        lemma_number_sub(c, n2, n);
        assert(x2.next == n2);
        assert forall|u: int| #[trigger] marked(c, y, x2, u) <==> marked(c, y, x, u) || u == v by {
            let a = window_marks(c, y, x2.st.recv_window, n2, u);
            let b = window_marks(c, y, start, n + 1, u);
            assert(a == b);
            if n < u < y.sent.len() {
                assert(start[c.place(u)] == x.recv_at(c, u));
            }
        }
        assert forall|u: int| x2.next <= u < x2.next + c.cap implies match #[trigger] x2.recv_at(
            c,
            u,
        ) {
            RecvEntry::Empty => true,
            RecvEntry::Unlocked { seq_no } => {
                &&& u != x2.next
                &&& u < y.sent.len()
                &&& seq_no == c.number(u)
            },
            RecvEntry::Occupied { seq_no, reply_no, seq_cst, .. } => {
                &&& u < y.sent.len()
                &&& seq_no == c.number(u)
                &&& reply_no == c.reply_number(y.sent[u].reply)
                &&& seq_cst == y.sent[u].seq_cst
            },
        } by {
            assert(x2.recv_at(c, u) == x2.st.recv_window[c.place(u)]);
        }
    } else {
        lemma_number_sub(c, n, n);
        assert(x2.next == n);
        assert forall|u: int| n <= u < n + c.cap && u != v implies #[trigger] x2.recv_at(c, u)
            == x.recv_at(c, u) by {
            if u < v {
                lemma_places_differ(c, u, v);
            } else {
                lemma_places_differ(c, v, u);
            }
        }
        assert(x2.recv_at(c, v) == (RecvEntry::<R>::Unlocked { seq_no: c.number(v) }));
        assert forall|u: int| #[trigger] marked(c, y, x2, u) <==> marked(c, y, x, u) || u == v by {
            if n < u < y.sent.len() && u != v {
                assert(x2.recv_at(c, u) == x.recv_at(c, u));
            }
        }
    }
}

/// Handing out a packet for the first time keeps the invariant.
pub(crate) proof fn lemma_handed_out<S, R, S2, R2>(
    c: Terms,
    x: Peer<S, R>,
    y: Peer<S2, R2>,
    v: int,
    x2: Peer<S, R>,
)
    requires
        inv(c, x, y),
        in_step(c, x, y),
        0 <= v < y.sent.len(),
        !x.received.contains(v),
        x.st.room(c.reply_number(y.sent[v].reply)) is Ok,
        y.sent[v].seq_cst ==> v == x.next,
        ({
            let taken = if v == x.next {
                x.st.passed()
            } else {
                x.st.unlocked(c.number(v))
            };
            x2.st == taken.issued(
                c.number(v),
                c.reply_number(y.sent[v].reply),
                y.sent[v].seq_cst,
            )
        }),
        x2 == handed_out(x, x2.st, v),
    ensures
        inv(c, x2, y),
        x.st.answered_data(c.reply_number(y.sent[v].reply)) == match y.sent[v].reply {
            Some(r) => Some(x.sent[r].data),
            None => None,
        },
{
    let n = x.sent.len() as int;
    let reply = y.sent[v].reply;
    let s = c.number(v);
    lemma_taken(c, x, y, v, x2);
    assert(!marked(c, y, x, v));
    assert(y.send_at(c, v) is Some);
    assert(waits(c, y, v));
    if let Some(r) = reply {
        assert(waits(c, x, r));
        lemma_unanswered(c, x, y, r);
    }
    assert(x2.st.replies == x.st.replies.insert(s));
    assert(x2.received.len() == x.received.len() + 1);
    assert(x2.received[x.received.len() as int] == v);
    assert forall|u: int| #[trigger] x2.received.contains(u) <==> x.received.contains(u) || u
        == v by {
        if x.received.contains(u) {
            let k = choose|k: int| 0 <= k < x.received.len() && x.received[k] == u;
            assert(x2.received[k] == u);
        }
        if x2.received.contains(u) {
            let k = choose|k: int| 0 <= k < x2.received.len() && x2.received[k] == u;
            if k < x.received.len() {
                assert(x.received[k] == u);
            }
        }
    }
    if let Some(r) = reply {
        assert forall|j: int| 0 <= j < y.sent.len() && #[trigger] y.sent[j].reply == Some(
            r,
        ) implies x2.received.contains(j) by {
            if j != v {
                assert(y.sent[j].reply == y.sent[v].reply);
            }
        }
        assert(y.sent[v].reply == Some(r) && x2.received.contains(v));
    }
    lemma_answered(c, x, y, reply, x2);
    assert(replies_have_room(c, x2)) by {
        assert forall|i: int| 0 <= i < x2.st.replies.len() implies #[trigger] x2.send_at(
            c,
            x2.sent.len() + i,
        ) is None by {
            lemma_blocked(c, x, y, i, reply);
            assert(!x.st.blocked(i, c.reply_number(reply)));
        }
    }
    // The other direction.
    assert(received_once(c, y, x2)) by {
        assert forall|u: int| #[trigger] x2.received.contains(u) <==> marked(c, y, x2, u) by {
            assert(x.received.contains(u) <==> marked(c, y, x, u));
        }
        assert forall|a: int, b: int|
            0 <= a < b < x2.received.len() implies x2.received[a] != x2.received[b] by {
            assert(x.received.contains(x2.received[a]));
        }
    }
    assert(received_in_order(y, x2)) by {
        assert forall|p: int, u: int|
            0 <= p < x2.received.len() && y.sent[x2.received[p]].seq_cst && 0 <= u
                < x2.received[p] implies #[trigger] x2.received.subrange(0, p).contains(u) by {
            assert(x2.received.subrange(0, p) =~= x.received.subrange(0, p));
            if p < x.received.len() {
                assert(x.received[p] == x2.received[p]);
            } else {
                assert(x.received.subrange(0, p) =~= x.received);
                assert(marked(c, y, x, u));
            }
        }
    }
    assert(nothing_lost(c, y, x2));
    assert(open_are_reserved(c, y, x2)) by {
        if x.st.replies.count(s) > 0 {
            let u = choose|u: int| #[trigger] x.open.contains(u) && c.number(u) == s;
            lemma_waiting_differ(c, y, u, v);
            assert(false);
        }
        assert forall|u: int| #![trigger x2.open.contains(u)] x2.open.contains(u) implies {
            &&& x2.received.contains(u)
            &&& !x2.acked.contains(u)
            &&& waits(c, y, u)
            &&& x2.st.replies.count(c.number(u)) == 1
        } by {
            if u != v {
                assert(x.open.contains(u));
                assert(x.st.replies.count(c.number(u)) == 1);
            }
        }
        assert forall|t: SeqNo| #[trigger] x2.st.replies.count(t) > 0 implies exists|u: int|
            #[trigger] x2.open.contains(u) && c.number(u) == t by {
            if t == s {
                assert(x2.open.contains(v));
            } else {
                assert(x.st.replies.count(t) > 0);
                let u = choose|u: int| #[trigger] x.open.contains(u) && c.number(u) == t;
                assert(x2.open.contains(u));
            }
        }
    }
    assert(answers_agree(c, y, x2)) by {
        assert forall|j: int| 0 <= j < x2.sent.len() implies ((#[trigger] x2.sent[j]).reply matches Some(
            u,
        ) ==> {
            &&& x2.received.contains(u)
            &&& !x2.open.contains(u)
            &&& x2.acked.contains(u) ==> y.received.contains(j)
            &&& !y.received.contains(j) ==> waits(c, y, u)
        }) by {
            if x.sent[j].reply is Some {
                assert(x.received.contains(x.sent[j].reply->0));
            }
        }
    }
    assert(settled_by_answer(c, y, x2));
}

/// What the receive window says of a packet that is not too old.
pub(crate) proof fn lemma_is_received<S, R, S2, R2>(
    c: Terms,
    x: Peer<S, R>,
    y: Peer<S2, R2>,
    v: int,
)
    requires
        inv(c, x, y),
        c.in_step((y.sent.len() + c.cap) as int),
        0 <= v < y.sent.len(),
        x.next - v <= NUMBERS / 2,
    ensures
        x.st.is_received(c.number(v)) == x.received.contains(v),
        !x.st.is_ahead(c.number(v)),
        slot(c.number(v), c.cap) == c.place(v),
        (c.number(v) == x.st.next_recv) == (v == x.next),
{
    lemma_place(c, v);
    lemma_number_sub(c, v, x.next);
    assert(x.received.contains(v) <==> marked(c, y, x, v));
    if x.next <= v {
        assert(x.recv_at(c, v) == x.st.recv_window[c.place(v)]);
    }
}

/// Saving a packet to the receive window keeps the invariant.
proof fn lemma_held<S, R, S2, R2>(
    c: Terms,
    x: Peer<S, R>,
    y: Peer<S2, R2>,
    v: int,
    data: R,
    x2: Peer<S, R>,
)
    requires
        inv(c, x, y),
        c.in_step((y.sent.len() + c.cap) as int),
        0 <= v < y.sent.len(),
        !x.received.contains(v),
        x.recv_at(c, v) is Empty,
        slot(c.number(v), c.cap) == c.place(v),
        x2 == (Peer {
            st: x.st.held(
                c.number(v),
                c.reply_number(y.sent[v].reply),
                y.sent[v].seq_cst,
                data,
            ),
            ..x
        }),
    ensures
        inv(c, x2, y),
{
    lemma_same_sender(c, x, y, x2);
    lemma_same_answers(c, x, y, x2);
    lemma_places_differ(c, v, v + 1);
    assert(!marked(c, y, x, v));
    assert forall|u: int|
        x.next <= u < x.next + c.cap && u != v implies #[trigger] x2.recv_at(c, u) == x.recv_at(
        c,
        u,
    ) by {
        if u < v {
            lemma_places_differ(c, u, v);
        } else {
            lemma_places_differ(c, v, u);
        }
    }
    assert forall|u: int| #[trigger] x2.received.contains(u) <==> marked(c, y, x2, u) by {
        assert(x.received.contains(u) <==> marked(c, y, x, u));
        if x.next <= u < x.next + c.cap && u != v {
            assert(x2.recv_at(c, u) == x.recv_at(c, u));
        }
    }
}

/// The arrival of a packet keeps the invariant.
proof fn lemma_receive<S, R, S2, R2>(
    c: Terms,
    carried: spec_fn(S2, R) -> bool,
    x: Peer<S, R>,
    y: Peer<S2, R2>,
    v: int,
    data: R,
    x2: Peer<S, R>,
)
    requires
        inv(c, x, y),
        in_step(c, x2, y),
        happens(c, carried, x, y, Event::Receive { v, data }, x2),
    ensures
        inv(c, x2, y),
{
    lemma_is_received(c, x, y, v);
    let packet = y.carrying(c, v, data);
    let s = c.number(v);
    let r = c.reply_number(y.sent[v].reply);
    let cst = y.sent[v].seq_cst;
    assert(packet.parts() == (Some(s), r, cst, Some(data)));
    match x.st.verdict(s, r, cst) {
        Verdict::Deliver => {
            lemma_handed_out(c, x, y, v, x2);
        },
        Verdict::HoldForRecv | Verdict::HoldForReply => {
            if x.st.can_hold(s) {
                let d = choose|d: R|
                    #![trigger x.st.held(s, r, cst, d)]
                    call_ensures(<R as Into<R>>::into, (data,), d) && x2.st == x.st.held(
                        s,
                        r,
                        cst,
                        d,
                    );
                lemma_held(c, x, y, v, d, x2);
            } else {
                assert(x2 == x);
            }
        },
        Verdict::ResendAck => {
            lemma_same_sender(c, x, y, x2);
            assert(x.st.replies.count(s) == 0);
            assert(!x.open.contains(v));
            assert(x2.open =~= x.open.remove(v));
            assert forall|j: int| 0 <= j < x.sent.len() && #[trigger] x.sent[j].reply == Some(
                v,
            ) implies y.received.contains(j) by {
                if !y.received.contains(j) {
                    assert(!marked(c, x, y, j));
                    let e = x.send_at(c, j);
                    assert(e is Some && e->0.reply_no == Some(s));
                    lemma_places_differ(c, j, j + 1);
                    assert(x.st.send_window[c.place(j)] is Some);
                    assert(x.st.has_reply_to(s));
                }
            }
            assert forall|u: int| x.open.contains(u) && u != v implies x2.st.replies.count(
                c.number(u),
            ) == 1 by {}
            lemma_acked(c, x, y, v, x2);
        },
        _ => {
            assert(x2 == x);
        },
    }
}

/// Taking a packet from the receive window keeps the invariant.
proof fn lemma_pump<S, R, S2, R2>(
    c: Terms,
    carried: spec_fn(S2, R) -> bool,
    x: Peer<S, R>,
    y: Peer<S2, R2>,
    x2: Peer<S, R>,
)
    requires
        inv(c, x, y),
        in_step(c, x2, y),
        happens(c, carried, x, y, Event::Pump, x2),
    ensures
        inv(c, x2, y),
{
    if x.st.pump_check() is Ok {
        let v = x.next;
        lemma_place(c, v);
        let e = x.recv_at(c, v);
        assert(e is Occupied);
        assert(!marked(c, y, x, v));
        lemma_handed_out(c, x, y, v, x2);
    } else {
        assert(x2 == x);
    }
}

/// Changing when packets are resent keeps the invariant.
proof fn lemma_retime<S, R, S2, R2>(
    c: Terms,
    carried: spec_fn(S2, R) -> bool,
    x: Peer<S, R>,
    y: Peer<S2, R2>,
    x2: Peer<S, R>,
)
    requires
        inv(c, x, y),
        happens(c, carried, x, y, Event::Retime, x2),
    ensures
        inv(c, x2, y),
{
    assert forall|v: int| same_packet(x.send_at(c, v), #[trigger] x2.send_at(c, v)) by {
        lemma_places_differ(c, v, v + 1);
    }
    assert forall|v: int| #[trigger] waits(c, x2, v) == waits(c, x, v) by {}
    assert(keeps_what_was_sent(c, x2));
    assert(nothing_lost(c, x2, y));
    assert forall|v: int| #[trigger] y.received.contains(v) <==> marked(c, x2, y, v) by {
        assert(y.received.contains(v) <==> marked(c, x, y, v));
    }
    assert(open_are_reserved(c, x2, y)) by {
        assert forall|v: int| #![trigger y.open.contains(v)] y.open.contains(v) implies waits(
            c,
            x2,
            v,
        ) by {
            assert(waits(c, x, v));
        }
    }
    assert(answers_agree(c, x2, y)) by {
        assert forall|j: int| 0 <= j < y.sent.len() implies ((#[trigger] y.sent[j]).reply matches Some(
            v,
        ) ==> (!x2.received.contains(j) ==> waits(c, x2, v))) by {
            if y.sent[j].reply is Some && !x.received.contains(j) {
                assert(waits(c, x, y.sent[j].reply->0));
            }
        }
    }
    assert(settled_by_answer(c, x2, y)) by {
        assert forall|v: int| 0 <= v < x2.sent.len() && !(#[trigger] waits(c, x2, v)) implies {
            ||| y.acked.contains(v)
            ||| exists|j: int|
                0 <= j < y.sent.len() && #[trigger] y.sent[j].reply == Some(v)
                    && x2.received.contains(j)
        } by {
            assert(!waits(c, x, v));
        }
    }
    assert(replies_have_room(c, x2)) by {
        assert forall|i: int| 0 <= i < x2.st.replies.len() implies #[trigger] x2.send_at(
            c,
            x2.sent.len() + i,
        ) is None by {
            assert(x.send_at(c, x.sent.len() + i) is None);
        }
    }
    lemma_same_receiver(c, x, y, x2);
    lemma_same_answers(c, x, y, x2);
}

/// The invariant holds at the beginning.
pub proof fn initial_inv<S, R, S2, R2>(c: Terms, resend_a: i64, resend_b: i64)
    requires
        c.wf(),
    ensures
        inv(c, Peer::<S, R>::initial(c, resend_a), Peer::<S2, R2>::initial(c, resend_b)),
{
    initial_link::<S, R, S2, R2>(c, resend_a, resend_b);
    initial_link::<S2, R2, S, R>(c, resend_b, resend_a);
}

proof fn initial_link<S, R, S2, R2>(c: Terms, resend_x: i64, resend_y: i64)
    requires
        c.wf(),
    ensures
        link(c, Peer::<S, R>::initial(c, resend_x), Peer::<S2, R2>::initial(c, resend_y)),
{
    let x = Peer::<S, R>::initial(c, resend_x);
    let y = Peer::<S2, R2>::initial(c, resend_y);
    assert forall|v: int| #[trigger] x.send_at(c, v) is None by {
        lemma_places_differ(c, v, v + 1);
    }
    assert forall|v: int| #[trigger] y.recv_at(c, v) is Empty by {
        lemma_places_differ(c, v, v + 1);
    }
    assert(counters_agree(c, x, y));
    assert forall|v: int| #[trigger] y.received.contains(v) <==> marked(c, x, y, v) by {}
}

/// The receive window is empty at the beginning.
pub proof fn initial_holds_nothing<S, R>(c: Terms, resend_interval: i64)
    requires
        c.wf(),
    ensures
        forall|v: int| #[trigger]
            Peer::<S, R>::initial(c, resend_interval).recv_at(c, v) is Empty,
{
    let x = Peer::<S, R>::initial(c, resend_interval);
    assert forall|v: int| #[trigger] x.recv_at(c, v) is Empty by {
        lemma_places_differ(c, v, v + 1);
    }
}

/// Whatever happens at one of the peers keeps the invariant.
pub proof fn event_keeps_inv<S, R, S2, R2>(
    c: Terms,
    carried: spec_fn(S2, R) -> bool,
    x: Peer<S, R>,
    y: Peer<S2, R2>,
    event: Event<S, R>,
    x2: Peer<S, R>,
)
    requires
        inv(c, x, y),
        in_step(c, x2, y),
        happens(c, carried, x, y, event, x2),
    ensures
        inv(c, x2, y),
{
    match event {
        Event::Send { now, seq_cst, data } => lemma_send(c, carried, x, y, now, seq_cst, data, x2),
        Event::Receive { v, data } => lemma_receive(c, carried, x, y, v, data, x2),
        Event::ReceiveAck { v } => lemma_receive_ack(c, carried, x, y, v, x2),
        Event::Pump => lemma_pump(c, carried, x, y, x2),
        Event::Reply { v, now, unlock, seq_cst, data } => lemma_reply(
            c,
            carried,
            x,
            y,
            v,
            now,
            unlock,
            seq_cst,
            data,
            x2,
        ),
        Event::Ack { v, unlock } => lemma_ack(c, carried, x, y, v, unlock, x2),
        Event::Retime => lemma_retime(c, carried, x, y, x2),
        Event::Unlock => lemma_unlock(c, carried, x, y, x2),
    }
}

/// Passing over what was handed out ahead of its turn leaves what waits where it is.
proof fn lemma_fast_forward_holds<R>(window: Seq<RecvEntry<R>>, next: SeqNo, k: int)
    requires
        0 <= k < window.len(),
        fast_forward(window, next).0[k] is Occupied,
    ensures
        fast_forward(window, next).0[k] == window[k],
    decreases unlocked_count(window),
{
    let i = slot(next, window.len());
    if 0 <= i < window.len() && window[i] is Unlocked {
        let rest = window.update(i, RecvEntry::Empty);
        lemma_unlocked_update(window, i, RecvEntry::Empty);
        lemma_fast_forward_holds(rest, next.wrapping_add(1), k);
    }
}

/// Whatever waits in the receive window after an event waited there before, in the same slot, or is
/// the packet that has just arrived.
proof fn lemma_still_held<S, R, S2, R2>(
    c: Terms,
    carried: spec_fn(S2, R) -> bool,
    x: Peer<S, R>,
    y: Peer<S2, R2>,
    event: Event<S, R>,
    x2: Peer<S, R>,
    k: int,
)
    requires
        inv(c, x, y),
        happens(c, carried, x, y, event, x2),
        0 <= k < c.cap,
        x2.st.recv_window[k] is Occupied,
    ensures
        x2.st.recv_window[k] == x.st.recv_window[k] || {
            &&& event matches Event::Receive { v, data }
            &&& x2.st.recv_window[k]->Occupied_seq_no == c.number(v)
            &&& x2.st.recv_window[k]->data == data
        },
{
    let passing = x.st.recv_window.update(slot(x.st.next_recv, c.cap), RecvEntry::Empty);
    if x2.st.recv_window == x.st.passed().recv_window {
        lemma_fast_forward_holds(passing, x.st.next_recv.wrapping_add(1), k);
    }
    if let Event::Receive { v, data } = event {
        let packet = y.carrying(c, v, data);
        let s = c.number(v);
        let r = c.reply_number(y.sent[v].reply);
        let cst = y.sent[v].seq_cst;
        assert(packet.parts() == (Some(s), r, cst, Some(data)));
        match x.st.verdict(s, r, cst) {
            Verdict::HoldForRecv | Verdict::HoldForReply => {
                if x.st.can_hold(s) {
                    let d = choose|d: R|
                        #![trigger x.st.held(s, r, cst, d)]
                        call_ensures(<R as Into<R>>::into, (data,), d) && x2.st == x.st.held(
                            s,
                            r,
                            cst,
                            d,
                        );
                    assert(d == data);
                }
            },
            _ => {},
        }
    }
}

/// Whatever happens at a peer, its receive window holds what was carried there.
pub proof fn event_keeps_carried<S, R, S2, R2>(
    c: Terms,
    carried: spec_fn(S2, R) -> bool,
    x: Peer<S, R>,
    y: Peer<S2, R2>,
    event: Event<S, R>,
    x2: Peer<S, R>,
)
    requires
        inv(c, x, y),
        inv(c, x2, y),
        in_step(c, x2, y),
        happens(c, carried, x, y, event, x2),
        holds_what_was_carried(c, carried, y, x),
    ensures
        holds_what_was_carried(c, carried, y, x2),
{
    assert forall|u: int| x2.next <= u < x2.next + c.cap implies (#[trigger] x2.recv_at(
        c,
        u,
    ) matches RecvEntry::Occupied { data, .. } ==> carried(y.sent[u].data, data)) by {
        let k = c.place(u);
        lemma_places_differ(c, u, u + 1);
        if x2.recv_at(c, u) is Occupied {
            lemma_still_held(c, carried, x, y, event, x2, k);
            if x2.st.recv_window[k] == x.st.recv_window[k] {
                let w = lemma_slot_after(c, x.next, k);
                assert(x.recv_at(c, w) is Occupied);
                lemma_number_sub(c, u, w);
                assert(u == w);
            } else {
                lemma_number_sub(c, u, event->Receive_v);
            }
        }
    }
}

/// What a peer sends changes nothing about what the other one holds.
pub proof fn event_leaves_carried<S, R, S2, R2>(
    c: Terms,
    to_x: spec_fn(S2, R) -> bool,
    to_y: spec_fn(S, R2) -> bool,
    x: Peer<S, R>,
    y: Peer<S2, R2>,
    event: Event<S, R>,
    x2: Peer<S, R>,
)
    requires
        inv(c, x, y),
        happens(c, to_x, x, y, event, x2),
        holds_what_was_carried(c, to_y, x, y),
    ensures
        holds_what_was_carried(c, to_y, x2, y),
{
}

/// Every slot belongs to one of the packets of a window.
pub(crate) proof fn lemma_slot_after(c: Terms, n: int, k: int) -> (v: int)
    requires
        2 <= c.cap,
        0 <= k < c.cap,
    ensures
        n <= v < n + c.cap,
        c.place(v) == k,
{
    let cap = c.cap as int;
    let a = c.base + n;
    let r = a % cap;
    let q = a / cap;
    vstd::arithmetic::div_mod::lemma_fundamental_div_mod(a, cap);
    assert(cap * (q + 1) == cap * q + cap) by (nonlinear_arith);
    vstd::arithmetic::div_mod::lemma_small_mod(k as nat, c.cap);
    if r <= k {
        vstd::arithmetic::div_mod::lemma_mod_multiples_vanish(q, k, cap);
        cap * q + k - c.base
    } else {
        vstd::arithmetic::div_mod::lemma_mod_multiples_vanish(q + 1, k, cap);
        cap * (q + 1) + k - c.base
    }
}

/// Every packet in the send window is one of the last ones that were sent.
pub(crate) proof fn lemma_slot_owner<S, R>(c: Terms, x: Peer<S, R>, k: int) -> (v: int)
    requires
        c.wf(),
        0 <= k < c.cap,
    ensures
        x.sent.len() - c.cap <= v < x.sent.len(),
        c.place(v) == k,
{
    lemma_slot_after(c, x.sent.len() - c.cap, k)
}

} // verus!
