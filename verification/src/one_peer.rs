//! What a session guarantees to its own application, whatever the remote peer does.
//!
//! The packets of the remote peer are counted from zero, by the numbers that come over the wire:
//! what arrives may be anything, as often as it likes and in any order.
use crate::error::{TryError, TryRawRecvError};
use crate::iter::window_data;
use crate::model::{
    fast_forward, lemma_held_count_fast_forward, lemma_unlocked_update, slot, unlocked_count,
    SeqState, Verdict,
};
use crate::seq_queue::{pumps, receives, RecvEntry, RecvOkRaw, SendEntry};
use crate::session::{retimed, same_packet, Terms};
use crate::session_proof::{
    lemma_number_add, lemma_number_sub, lemma_place, lemma_places_differ, lemma_slot_after,
};
use crate::transport_layer::{Packet, SeqNo};
use vstd::prelude::*;

verus! {

/// One end of a session, and what it has been through.
#[verifier::reject_recursive_types(S)]
#[verifier::reject_recursive_types(R)]
pub struct Log<S, R> {
    /// What the session remembers.
    pub st: SeqState<S, R>,
    /// How many packets it has sent.
    pub sent: int,
    /// The packets of the remote peer that have been handed to the application, in that order.
    pub handed: Seq<int>,
    /// The SeqCst ones among them.
    pub seq_cst: Set<int>,
    /// The next expected packet of the remote peer.
    pub next: int,
}

/// Something that happens to the session.
pub enum Act<S, R> {
    /// A packet is sent.
    Send { now: i64, seq_cst: bool, data: S },
    /// Some packet arrives.
    Receive { packet: Packet<R> },
    /// A packet is taken from the receive window.
    Pump,
    /// An issued reply number is used to reply.
    Reply { reply_no: SeqNo, now: i64, unlock: bool, seq_cst: bool, data: S },
    /// An issued reply number is used to acknowledge.
    Ack { reply_no: SeqNo, unlock: bool },
    /// Packets are resent, or the resend interval is changed.
    Retime,
    /// The critical section for SeqCst packets is left.
    Unlock,
}

impl<S, R> Log<S, R> {
    /// A session that has been through nothing.
    pub open spec fn initial(c: Terms, resend_interval: i64) -> Self {
        Log {
            st: SeqState::initial(c.cap, resend_interval, c.base),
            sent: 0,
            handed: Seq::empty(),
            seq_cst: Set::empty(),
            next: 0,
        }
    }

    /// What the receive window holds in the slot of packet `v`.
    pub open spec fn recv_at(self, c: Terms, v: int) -> RecvEntry<R> {
        self.st.recv_window[c.place(v)]
    }

    /// What the send window holds in the slot of packet `v`.
    pub open spec fn send_at(self, c: Terms, v: int) -> Option<SendEntry<S>> {
        self.st.send_window[c.place(v)]
    }

    /// The same with another state.
    pub open spec fn with_state(self, st: SeqState<S, R>) -> Self {
        Log { st, ..self }
    }

    /// The same after packet `v` has been handed to the application.
    pub open spec fn with_handed(self, st: SeqState<S, R>, v: int, seq_cst: bool) -> Self {
        Log {
            st,
            handed: self.handed.push(v),
            seq_cst: if seq_cst {
                self.seq_cst.insert(v)
            } else {
                self.seq_cst
            },
            next: self.next + st.next_recv.wrapping_sub(self.st.next_recv),
            ..self
        }
    }

    /// Which packet of the remote peer the number `seq_no` stands for, if it is not behind the next
    /// expected one.
    pub open spec fn packet_at(self, seq_no: SeqNo) -> int {
        self.next + self.st.offset(seq_no)
    }
}

/// The reply number that is issued with a packet, and whether the packet is SeqCst. Nothing is issued
/// with an ack.
pub open spec fn issued_with<S, R>(ok: RecvOkRaw<S, R>) -> Option<(SeqNo, bool)> {
    match ok {
        RecvOkRaw::Payload { reply_no, seq_cst, .. } => Some((reply_no, seq_cst)),
        RecvOkRaw::Reply { reply_no, seq_cst, .. } => Some((reply_no, seq_cst)),
        RecvOkRaw::Ack { .. } => None,
    }
}

/// Whether `act` takes a session from `l` to `l2`.
pub open spec fn does<S, R>(l: Log<S, R>, act: Act<S, R>, l2: Log<S, R>) -> bool {
    match act {
        Act::Send { now, seq_cst, data } => {
            &&& l.st.room(None) is Ok
            &&& l2 == Log {
                sent: l.sent + 1,
                ..l.with_state(l.st.sent(now, None, seq_cst, data))
            }
        },
        Act::Receive { packet } => exists|result: Result<(RecvOkRaw<S, R>, bool), TryRawRecvError>|
            #![trigger receives(l.st, packet, l2.st, result)]
            receives(l.st, packet, l2.st, result) && l2 == if result is Ok
                && packet.seq_no() is Some {
                l.with_handed(l2.st, l.packet_at(packet.seq_no()->0), packet.seq_cst())
            } else {
                l.with_state(l2.st)
            },
        Act::Pump => exists|result: Result<(RecvOkRaw<S, R>, bool), TryError>|
            #![trigger pumps(l.st, l2.st, result)]
            pumps(l.st, l2.st, result) && l2 == match result {
                Ok((ok, _)) => l.with_handed(l2.st, l.next, (issued_with(ok)->0).1),
                Err(_) => l.with_state(l2.st),
            },
        Act::Reply { reply_no, now, unlock, seq_cst, data } => {
            &&& l.st.replies.count(reply_no) > 0
            &&& l2 == Log {
                sent: l.sent + 1,
                ..l.with_state(
                    l.st.returned(reply_no, unlock).sent(now, Some(reply_no), seq_cst, data),
                )
            }
        },
        Act::Ack { reply_no, unlock } => {
            &&& l.st.replies.count(reply_no) > 0
            &&& l2 == l.with_state(l.st.returned(reply_no, unlock))
        },
        Act::Retime => retimed(l.st, l2.st) && l2 == l.with_state(l2.st),
        Act::Unlock => l2 == l.with_state(l.st.unlocked_session()),
    }
}

/// Whether `logs` is what a session goes through by `acts`, from its beginning on.
pub open spec fn is_history<S, R>(
    c: Terms,
    logs: Seq<Log<S, R>>,
    acts: Seq<Act<S, R>>,
) -> bool {
    &&& 2 <= c.cap <= u32::MAX
    &&& logs.len() == acts.len() + 1
    &&& exists|resend_interval: i64| logs[0] == #[trigger] Log::<S, R>::initial(c, resend_interval)
    &&& forall|k: int| 0 <= k < acts.len() ==> does(logs[k], #[trigger] acts[k], logs[k + 1])
}

// ---- what is handed out ----

/// Whether the slots of the receive window can be told by the wire numbers at any time.
pub open spec fn receives_in_step<S, R>(c: Terms, logs: Seq<Log<S, R>>) -> bool {
    forall|k: int| 0 <= k < logs.len() ==> c.in_step((#[trigger] logs[k]).next + c.cap)
}

/// Whether a packet has been handed out, as far as the receive window tells.
spec fn window_tells<R>(c: Terms, window: Seq<RecvEntry<R>>, n: int, v: int) -> bool {
    ||| 0 <= v < n
    ||| n <= v < n + c.cap && window[c.place(v)] is Unlocked
}

/// Whether each packet in a receive window is in the slot of its number.
spec fn window_numbered<R>(c: Terms, window: Seq<RecvEntry<R>>, n: int) -> bool {
    forall|v: int|
        #![trigger c.place(v)]
        n <= v < n + c.cap ==> match window[c.place(v)] {
            RecvEntry::Empty => true,
            RecvEntry::Unlocked { seq_no } => seq_no == c.number(v),
            RecvEntry::Occupied { seq_no, .. } => seq_no == c.number(v),
        }
}

/// What holds of what a session has handed out, at any time.
spec fn in_order<S, R>(c: Terms, l: Log<S, R>) -> bool {
    &&& l.st.wf()
    &&& l.st.cap() == c.cap
    &&& 0 <= l.next
    &&& l.st.next_recv == c.number(l.next)
    &&& window_numbered(c, l.st.recv_window, l.next)
    &&& l.recv_at(c, l.next) !is Unlocked
    &&& l.handed.no_duplicates()
    &&& forall|v: int|
        #![trigger l.handed.contains(v)]
        l.handed.contains(v) <==> window_tells(c, l.st.recv_window, l.next, v)
    &&& forall|v: int| #[trigger] l.seq_cst.contains(v) ==> l.handed.contains(v)
    &&& forall|p: int, u: int|
        0 <= p < l.handed.len() && l.seq_cst.contains(l.handed[p]) && 0 <= u < l.handed[p]
            ==> #[trigger] l.handed.subrange(0, p).contains(u)
}

/// Passing over what was handed out ahead of its turn changes nothing about what was handed out.
proof fn lemma_pass_over<R>(c: Terms, window: Seq<RecvEntry<R>>, n: int, limit: int) -> (n2: int)
    requires
        2 <= c.cap <= u32::MAX,
        c.in_step(limit),
        window.len() == c.cap,
        0 <= n <= limit <= n + c.cap,
        window_numbered(c, window, n),
        forall|v: int|
            #![trigger c.place(v)]
            limit <= v < n + c.cap ==> window[c.place(v)] !is Unlocked,
    ensures
        ({
            let (window2, next) = fast_forward(window, c.number(n));
            &&& n <= n2 <= limit
            &&& next == c.number(n2)
            &&& window2.len() == c.cap
            &&& window_numbered(c, window2, n2)
            &&& window2[c.place(n2)] !is Unlocked
            &&& forall|v: int| #[trigger]
                window_tells(c, window2, n2, v) == window_tells(c, window, n, v)
        }),
    decreases unlocked_count(window),
{
    let i = c.place(n);
    lemma_places_differ(c, n, n + 1);
    if n == limit {
        let k = slot(c.number(n), c.cap);
        assert(0 <= k < c.cap);
        let v = lemma_slot_after(c, n, k);
        assert(window[c.place(v)] !is Unlocked);
        n
    } else {
        lemma_place(c, n);
        if window[i] is Unlocked {
            let rest = window.update(i, RecvEntry::Empty);
            lemma_unlocked_update(window, i, RecvEntry::Empty);
            lemma_number_add(c, n, 1);
            assert forall|v: int| n < v < n + c.cap implies rest[#[trigger] c.place(v)]
                == window[c.place(v)] by {
                lemma_places_differ(c, n, v);
            }
            lemma_places_differ(c, n, n + c.cap);
            assert(window_numbered(c, rest, n + 1));
            assert forall|v: int|
                #![trigger c.place(v)]
                limit <= v < n + 1 + c.cap implies rest[c.place(v)] !is Unlocked by {
                if v < n + c.cap {
                    assert(rest[c.place(v)] == window[c.place(v)]);
                }
            }
            let n2 = lemma_pass_over(c, rest, n + 1, limit);
            let window2 = fast_forward(window, c.number(n)).0;
            assert forall|v: int| #[trigger]
                window_tells(c, window2, n2, v) == window_tells(c, window, n, v) by {
                assert(window_tells(c, window2, n2, v) == window_tells(c, rest, n + 1, v));
                if n < v < n + c.cap {
                    assert(rest[c.place(v)] == window[c.place(v)]);
                }
            }
            n2
        } else {
            n
        }
    }
}

/// Handing out a packet for the first time keeps what holds of what has been handed out.
proof fn lemma_handed<S, R>(c: Terms, l: Log<S, R>, v: int, seq_cst: bool, l2: Log<S, R>)
    requires
        2 <= c.cap <= u32::MAX,
        c.in_step(l.next + c.cap),
        in_order(c, l),
        l.next <= v < l.next + c.cap,
        !l.handed.contains(v),
        seq_cst ==> v == l.next,
        l2.st.wf(),
        l2.st.cap() == c.cap,
        ({
            let taken = if v == l.next {
                l.st.passed()
            } else {
                l.st.unlocked(c.number(v))
            };
            &&& l2.st.recv_window == taken.recv_window
            &&& l2.st.next_recv == taken.next_recv
        }),
        l2 == l.with_handed(l2.st, v, seq_cst),
    ensures
        in_order(c, l2),
{
    let n = l.next;
    let before = l.st.recv_window;
    let after = l2.st.recv_window;
    lemma_place(c, v);
    lemma_place(c, n);
    lemma_places_differ(c, v, v + 1);
    lemma_places_differ(c, n, n + c.cap);
    assert(!window_tells(c, before, n, v));
    if v == n {
        let start = before.update(c.place(n), RecvEntry::Empty);
        lemma_number_add(c, n, 1);
        assert forall|u: int| n < u < n + c.cap implies start[#[trigger] c.place(u)]
            == before[c.place(u)] by {
            lemma_places_differ(c, n, u);
        }
        assert(window_numbered(c, start, n + 1));
        let n2 = lemma_pass_over(c, start, n + 1, n + c.cap);
        lemma_number_sub(c, n2, n);
        assert(l2.next == n2);
        assert forall|u: int| #[trigger]
            window_tells(c, after, n2, u) <==> window_tells(c, before, n, u) || u == v by {
            assert(window_tells(c, after, n2, u) == window_tells(c, start, n + 1, u));
            if n < u < n + c.cap {
                assert(start[c.place(u)] == before[c.place(u)]);
            }
        }
    } else {
        lemma_number_sub(c, n, n);
        assert(l2.next == n);
        assert forall|u: int| n <= u < n + c.cap && u != v implies after[#[trigger] c.place(u)]
            == before[c.place(u)] by {
            if u < v {
                lemma_places_differ(c, u, v);
            } else {
                lemma_places_differ(c, v, u);
            }
        }
        assert(after[c.place(v)] == (RecvEntry::<R>::Unlocked { seq_no: c.number(v) }));
        assert(window_numbered(c, after, n));
        assert forall|u: int| #[trigger]
            window_tells(c, after, n, u) <==> window_tells(c, before, n, u) || u == v by {
            if n <= u < n + c.cap && u != v {
                assert(after[c.place(u)] == before[c.place(u)]);
            }
        }
        assert(after[c.place(n)] == before[c.place(n)]);
    }
    lemma_pushed(l.handed, v);
    assert forall|u: int| #![trigger l2.handed.contains(u)] l2.handed.contains(u)
        <==> window_tells(c, after, l2.next, u) by {
        assert(l.handed.contains(u) <==> window_tells(c, before, n, u));
    }
    assert forall|p: int, u: int|
        0 <= p < l2.handed.len() && l2.seq_cst.contains(l2.handed[p]) && 0 <= u
            < l2.handed[p] implies #[trigger] l2.handed.subrange(0, p).contains(u) by {
        if p < l.handed.len() {
            assert(l.handed[p] == l2.handed[p]);
            assert(l.handed.contains(l.handed[p]));
            assert(l2.handed.subrange(0, p) =~= l.handed.subrange(0, p));
        } else {
            assert(l2.handed[p] == v);
            assert(seq_cst) by {
                assert(!l.seq_cst.contains(v));
            }
            assert(window_tells(c, before, n, u));
            assert(l.handed.contains(u));
            assert(l2.handed.subrange(0, p) =~= l.handed);
        }
    }
}

/// What is in a sequence that one more thing has been put at the end of.
proof fn lemma_pushed(s: Seq<int>, v: int)
    ensures
        forall|u: int| #[trigger] s.push(v).contains(u) <==> s.contains(u) || u == v,
        s.no_duplicates() && !s.contains(v) ==> s.push(v).no_duplicates(),
{
    let t = s.push(v);
    assert forall|u: int| #[trigger] t.contains(u) <==> s.contains(u) || u == v by {
        if s.contains(u) {
            let k = choose|k: int| 0 <= k < s.len() && s[k] == u;
            assert(t[k] == u);
        }
        if u == v {
            assert(t[s.len() as int] == u);
        }
        if t.contains(u) {
            let k = choose|k: int| 0 <= k < t.len() && t[k] == u;
            if k < s.len() {
                assert(s[k] == u);
            }
        }
    }
    if s.no_duplicates() && !s.contains(v) {
        assert forall|i: int, j: int| 0 <= i < j < t.len() implies t[i] != t[j] by {
            assert(s[i] == t[i]);
            assert(s.contains(s[i]));
        }
    }
}

/// What is not about receiving keeps what holds of what has been handed out.
proof fn lemma_nothing_handed<S, R>(c: Terms, l: Log<S, R>, l2: Log<S, R>)
    requires
        in_order(c, l),
        l2.st.wf(),
        l2.st.cap() == c.cap,
        l2.st.recv_window == l.st.recv_window,
        l2.st.next_recv == l.st.next_recv,
        l2.handed == l.handed,
        l2.seq_cst == l.seq_cst,
        l2.next == l.next,
    ensures
        in_order(c, l2),
{
}

/// Saving a packet to the receive window keeps what holds of what has been handed out.
proof fn lemma_saved<S, R>(
    c: Terms,
    l: Log<S, R>,
    v: int,
    reply_no: Option<SeqNo>,
    seq_cst: bool,
    data: R,
)
    requires
        2 <= c.cap <= u32::MAX,
        c.in_step(l.next + c.cap),
        in_order(c, l),
        l.next <= v < l.next + c.cap,
        l.st.can_hold(c.number(v)),
    ensures
        in_order(c, l.with_state(l.st.held(c.number(v), reply_no, seq_cst, data))),
{
    let l2 = l.with_state(l.st.held(c.number(v), reply_no, seq_cst, data));
    let n = l.next;
    let before = l.st.recv_window;
    let after = l2.st.recv_window;
    lemma_place(c, v);
    lemma_places_differ(c, v, v + 1);
    lemma_places_differ(c, n, n + 1);
    assert forall|u: int| n <= u < n + c.cap && u != v implies after[#[trigger] c.place(u)]
        == before[c.place(u)] by {
        if u < v {
            lemma_places_differ(c, u, v);
        } else {
            lemma_places_differ(c, v, u);
        }
    }
    assert(after[c.place(v)] is Occupied && before[c.place(v)] is Empty);
    assert(window_numbered(c, after, n));
    assert(after[c.place(n)] !is Unlocked);
    assert forall|u: int| #![trigger l2.handed.contains(u)] l2.handed.contains(u)
        <==> window_tells(c, after, n, u) by {
        assert(l.handed.contains(u) <==> window_tells(c, before, n, u));
        if n <= u < n + c.cap && u != v {
            assert(after[c.place(u)] == before[c.place(u)]);
        }
    }
}

/// What the numbers say of a packet that is neither behind nor ahead of the receive window.
proof fn lemma_in_window<S, R>(c: Terms, l: Log<S, R>, seq_no: SeqNo)
    requires
        2 <= c.cap <= u32::MAX,
        c.in_step(l.next + c.cap),
        in_order(c, l),
        !l.st.is_behind(seq_no),
        !l.st.is_ahead(seq_no),
    ensures
        ({
            let v = l.packet_at(seq_no);
            &&& l.next <= v < l.next + c.cap
            &&& seq_no == c.number(v)
            &&& slot(seq_no, c.cap) == c.place(v)
            &&& l.st.is_received(seq_no) == l.handed.contains(v)
            &&& (seq_no == l.st.next_recv) == (v == l.next)
        }),
{
    let v = l.packet_at(seq_no);
    lemma_number_add(c, l.next, l.st.offset(seq_no));
    lemma_place(c, v);
    lemma_number_sub(c, v, l.next);
    assert(l.handed.contains(v) <==> window_tells(c, l.st.recv_window, l.next, v));
}

/// The arrival of a packet keeps what holds of what has been handed out.
proof fn lemma_arrived<S, R>(c: Terms, l: Log<S, R>, packet: Packet<R>, l2: Log<S, R>)
    requires
        2 <= c.cap <= u32::MAX,
        c.in_step(l.next + c.cap),
        in_order(c, l),
        does(l, Act::Receive { packet }, l2),
    ensures
        in_order(c, l2),
{
    match packet.seq_no() {
        None => {
            lemma_nothing_handed(c, l, l2);
        },
        Some(s) => {
            let r = packet.reply_no();
            let cst = packet.seq_cst();
            let data = packet.data()->0;
            let v = l.packet_at(s);
            let verdict = l.st.verdict(s, r, cst);
            if !l.st.is_behind(s) && !l.st.is_ahead(s) {
                lemma_in_window(c, l, s);
            }
            match verdict {
                Verdict::Deliver => {
                    lemma_passed_len(l.st);
                    lemma_handed(c, l, v, cst, l2);
                },
                Verdict::HoldForRecv | Verdict::HoldForReply => {
                    if l.st.can_hold(s) {
                        let d = choose|d: R|
                            #![trigger l.st.held(s, r, cst, d)]
                            call_ensures(<R as Into<R>>::into, (data,), d) && l2.st == l.st.held(
                                s,
                                r,
                                cst,
                                d,
                            );
                        lemma_saved(c, l, v, r, cst, d);
                    } else {
                        assert(l2 == l);
                    }
                },
                _ => {
                    assert(l2 == l);
                },
            }
        },
    }
}

/// Taking the next packet leaves the receive window as large as it was.
proof fn lemma_passed_len<S, R>(state: SeqState<S, R>)
    requires
        state.wf(),
    ensures
        state.passed().recv_window.len() == state.recv_window.len(),
{
    lemma_held_count_fast_forward(
        state.recv_window.update(slot(state.next_recv, state.cap()), RecvEntry::Empty),
        state.next_recv.wrapping_add(1),
    );
}

/// Taking a packet from the receive window keeps what holds of what has been handed out.
proof fn lemma_pumped<S, R>(c: Terms, l: Log<S, R>, l2: Log<S, R>)
    requires
        2 <= c.cap <= u32::MAX,
        c.in_step(l.next + c.cap),
        in_order(c, l),
        does(l, Act::Pump, l2),
    ensures
        in_order(c, l2),
{
    let n = l.next;
    lemma_place(c, n);
    lemma_places_differ(c, n, n + 1);
    if l.st.pump_check() is Ok {
        let entry = l.recv_at(c, n);
        assert(entry is Occupied && entry->Occupied_seq_no == c.number(n));
        assert(l.handed.contains(n) <==> window_tells(c, l.st.recv_window, n, n));
        lemma_passed_len(l.st);
        lemma_handed(c, l, n, entry->seq_cst, l2);
    } else {
        assert(l2 == l);
    }
}

/// Whatever happens keeps what holds of what has been handed out.
proof fn lemma_act_in_order<S, R>(c: Terms, l: Log<S, R>, act: Act<S, R>, l2: Log<S, R>)
    requires
        2 <= c.cap <= u32::MAX,
        c.in_step(l.next + c.cap),
        in_order(c, l),
        does(l, act, l2),
    ensures
        in_order(c, l2),
{
    match act {
        Act::Receive { packet } => lemma_arrived(c, l, packet, l2),
        Act::Pump => lemma_pumped(c, l, l2),
        _ => lemma_nothing_handed(c, l, l2),
    }
}

proof fn lemma_history_in_order<S, R>(
    c: Terms,
    logs: Seq<Log<S, R>>,
    acts: Seq<Act<S, R>>,
    k: int,
)
    requires
        is_history(c, logs, acts),
        receives_in_step(c, logs),
        0 <= k < logs.len(),
    ensures
        in_order(c, logs[k]),
    decreases k,
{
    if k == 0 {
        let resend_interval = choose|resend_interval: i64|
            logs[0] == #[trigger] Log::<S, R>::initial(c, resend_interval);
        let l = logs[0];
        assert(l.st.replies.len() == 0);
        assert forall|v: int| c.place(v) == #[trigger] c.place(v) implies 0 <= c.place(v)
            < c.cap by {
            lemma_places_differ(c, v, v + 1);
        }
        lemma_places_differ(c, 0, 1);
    } else {
        lemma_history_in_order(c, logs, acts, k - 1);
        assert(does(logs[k - 1], acts[k - 1], logs[k]));
        lemma_act_in_order(c, logs[k - 1], acts[k - 1], logs[k]);
    }
}

/// Whatever the remote peer does, a packet is handed to the application at most once, and a SeqCst
/// packet after every packet with an earlier number, SeqCst or not.
pub proof fn handed_out_in_order<S, R>(
    c: Terms,
    logs: Seq<Log<S, R>>,
    acts: Seq<Act<S, R>>,
    k: int,
    p: int,
    u: int,
)
    requires
        is_history(c, logs, acts),
        receives_in_step(c, logs),
        0 <= k < logs.len(),
        0 <= p < logs[k].handed.len(),
    ensures
        logs[k].handed.no_duplicates(),
        logs[k].seq_cst.contains(logs[k].handed[p]) && 0 <= u < logs[k].handed[p] ==> exists|q: int|
            0 <= q < p && logs[k].handed[q] == u,
{
    lemma_history_in_order(c, logs, acts, k);
    let l = logs[k];
    if l.seq_cst.contains(l.handed[p]) && 0 <= u < l.handed[p] {
        assert(l.handed.subrange(0, p).contains(u));
        let q = choose|q: int| 0 <= q < p && l.handed.subrange(0, p)[q] == u;
        assert(l.handed[q] == u);
    }
}

/// A SeqCst packet is the next expected one when it is handed to the application, as it arrives or
/// from the receive window: every packet from the first number on up to its own has been handed out
/// before, and no SeqCst packet is being processed.
pub proof fn seq_cst_comes_next<S, R>(
    c: Terms,
    logs: Seq<Log<S, R>>,
    acts: Seq<Act<S, R>>,
    k: int,
    ok: RecvOkRaw<S, R>,
    more: bool,
)
    requires
        is_history(c, logs, acts),
        receives_in_step(c, logs),
        0 <= k < acts.len(),
        match acts[k] {
            Act::Receive { packet } => receives(
                logs[k].st,
                packet,
                logs[k + 1].st,
                Ok::<(RecvOkRaw<S, R>, bool), TryRawRecvError>((ok, more)),
            ),
            Act::Pump => pumps(logs[k].st, logs[k + 1].st, Ok((ok, more))),
            _ => false,
        },
        issued_with(ok) matches Some((_, seq_cst)) && seq_cst,
    ensures
        ({
            let l = logs[k];
            &&& (issued_with(ok)->0).0 == c.number(l.next)
            &&& !l.st.locked
            &&& forall|u: int| 0 <= u < l.next ==> #[trigger] l.handed.contains(u)
            &&& !l.handed.contains(l.next)
            &&& logs[k + 1].handed == l.handed.push(l.next)
            &&& logs[k + 1].seq_cst.contains(l.next)
        }),
{
    let l = logs[k];
    let l2 = logs[k + 1];
    lemma_history_in_order(c, logs, acts, k);
    assert(does(l, acts[k], l2));
    lemma_place(c, l.next);
    assert forall|u: int| 0 <= u < l.next implies #[trigger] l.handed.contains(u) by {
        assert(window_tells(c, l.st.recv_window, l.next, u));
    }
    assert(l.handed.contains(l.next) <==> window_tells(c, l.st.recv_window, l.next, l.next));
    match acts[k] {
        Act::Receive { packet } => {
            let s = packet.seq_no()->0;
            lemma_in_window(c, l, s);
            assert(s == l.st.next_recv);
        },
        _ => {
            assert(l.recv_at(c, l.next)->Occupied_seq_no == c.number(l.next));
        },
    }
}

// ---- what is reserved ----

/// Whether the slots of the send window can be told by the wire numbers at any time.
pub open spec fn sends_in_step<S, R>(c: Terms, logs: Seq<Log<S, R>>) -> bool {
    forall|k: int| 0 <= k < logs.len() ==> c.in_step((#[trigger] logs[k]).sent + c.cap)
}

/// Whether a reply that `act` hands to the application answers a packet that waits for an answer.
pub open spec fn answers_a_packet<S, R>(l: Log<S, R>, act: Act<S, R>) -> bool {
    match act {
        Act::Receive { packet } => packet.seq_no() is Some && l.st.verdict(
            packet.seq_no()->0,
            packet.reply_no(),
            packet.seq_cst(),
        ) is Deliver ==> answers_if_any(l.st, packet.reply_no()),
        Act::Pump => match l.st.recv_window[slot(l.st.next_recv, l.st.cap())] {
            RecvEntry::Occupied { reply_no, .. } => l.st.pump_check() is Ok ==> answers_if_any(
                l.st,
                reply_no,
            ),
            _ => true,
        },
        _ => true,
    }
}

/// Whether a packet that is a reply answers a packet that waits for an answer.
pub open spec fn answers_if_any<S, R>(state: SeqState<S, R>, reply_no: Option<SeqNo>) -> bool {
    reply_no matches Some(r) ==> state.unanswered(r) is Some
}

/// Whether every reply that is handed to the application answers a packet that waits for an answer.
pub open spec fn replies_answer<S, R>(logs: Seq<Log<S, R>>, acts: Seq<Act<S, R>>) -> bool {
    forall|k: int| 0 <= k < acts.len() ==> answers_a_packet(logs[k], #[trigger] acts[k])
}

/// There is a free slot in the send window for every reply number that has been issued.
spec fn reserves<S, R>(c: Terms, l: Log<S, R>) -> bool {
    &&& l.st.wf()
    &&& l.st.cap() == c.cap
    &&& 0 <= l.sent
    &&& l.st.next_send == c.number(l.sent)
    &&& forall|i: int| 0 <= i < l.st.replies.len() ==> #[trigger] l.send_at(c, l.sent + i) is None
}

/// Whether the packet that is sent after `i` others would find its slot taken.
proof fn lemma_is_blocked<S, R>(c: Terms, l: Log<S, R>, i: int, reply_no: Option<SeqNo>)
    requires
        2 <= c.cap <= u32::MAX,
        c.in_step(l.sent + c.cap),
        reserves(c, l),
        0 <= i < c.cap,
    ensures
        l.st.blocked(i, reply_no) == (l.send_at(c, l.sent + i) is Some && !(reply_no matches Some(r)
            && slot(r, c.cap) == c.place(l.sent + i))),
{
    lemma_number_add(c, l.sent, i as u32);
    lemma_place(c, l.sent + i);
}

/// Sending a packet, where all the slots that are needed after it are free, keeps them free.
proof fn lemma_one_more_sent<S, R>(
    c: Terms,
    l: Log<S, R>,
    mid: SeqState<S, R>,
    now: i64,
    reply_no: Option<SeqNo>,
    seq_cst: bool,
    data: S,
)
    requires
        2 <= c.cap <= u32::MAX,
        c.in_step(l.sent + c.cap),
        reserves(c, l),
        mid.wf(),
        mid.send_window == l.st.send_window,
        mid.next_send == l.st.next_send,
        forall|i: int| 0 <= i <= mid.replies.len() ==> #[trigger] l.send_at(c, l.sent + i) is None,
    ensures
        reserves(
            c,
            Log { sent: l.sent + 1, ..l.with_state(mid.sent(now, reply_no, seq_cst, data)) },
        ),
{
    let l2 = Log { sent: l.sent + 1, ..l.with_state(mid.sent(now, reply_no, seq_cst, data)) };
    lemma_place(c, l.sent);
    lemma_number_add(c, l.sent, 1);
    assert forall|i: int| 0 <= i < l2.st.replies.len() implies #[trigger] l2.send_at(
        c,
        l2.sent + i,
    ) is None by {
        lemma_places_differ(c, l.sent, l.sent + (i + 1));
        assert(l.send_at(c, l.sent + (i + 1)) is None);
    }
}

/// Handing out a packet, where there is room to answer it, leaves a free slot for its answer.
proof fn lemma_one_more_issued<S, R>(
    c: Terms,
    l: Log<S, R>,
    taken: SeqState<S, R>,
    seq_no: SeqNo,
    reply_no: Option<SeqNo>,
    seq_cst: bool,
    l2: Log<S, R>,
)
    requires
        2 <= c.cap <= u32::MAX,
        c.in_step(l.sent + c.cap),
        reserves(c, l),
        l.st.room(reply_no) is Ok,
        answers_if_any(l.st, reply_no),
        taken.send_window == l.st.send_window,
        taken.recv_window.len() == c.cap,
        taken.next_send == l.st.next_send,
        taken.replies == l.st.replies,
        l2.st == taken.issued(seq_no, reply_no, seq_cst),
        l2.sent == l.sent,
    ensures
        reserves(c, l2),
{
    let len = l.st.replies.len() as int;
    assert(l2.st.replies.len() == len + 1);
    assert forall|i: int| 0 <= i < l2.st.replies.len() implies #[trigger] l2.send_at(
        c,
        l2.sent + i,
    ) is None by {
        lemma_is_blocked(c, l, i, reply_no);
        lemma_places_differ(c, l.sent + i, l.sent + i + 1);
        assert(!l.st.blocked(i, reply_no));
    }
}

/// Freeing slots of the send window, and returning reply numbers, leaves enough free slots.
proof fn lemma_still_reserves<S, R>(c: Terms, l: Log<S, R>, l2: Log<S, R>)
    requires
        2 <= c.cap <= u32::MAX,
        reserves(c, l),
        l2.st.wf(),
        l2.st.cap() == c.cap,
        l2.sent == l.sent,
        l2.st.next_send == l.st.next_send,
        l2.st.replies.len() <= l.st.replies.len(),
        forall|i: int|
            0 <= i < c.cap && l.st.send_window[i] is None ==> #[trigger] l2.st.send_window[i] is None,
    ensures
        reserves(c, l2),
{
    assert forall|i: int| 0 <= i < l2.st.replies.len() implies #[trigger] l2.send_at(
        c,
        l2.sent + i,
    ) is None by {
        lemma_places_differ(c, l.sent + i, l.sent + i + 1);
        assert(l.send_at(c, l.sent + i) is None);
    }
}

/// Whatever happens keeps a free slot for every reply number that has been issued.
proof fn lemma_act_reserves<S, R>(c: Terms, l: Log<S, R>, act: Act<S, R>, l2: Log<S, R>)
    requires
        2 <= c.cap <= u32::MAX,
        c.in_step(l.sent + c.cap),
        reserves(c, l),
        does(l, act, l2),
        answers_a_packet(l, act),
    ensures
        reserves(c, l2),
{
    match act {
        Act::Send { now, seq_cst, data } => {
            assert forall|i: int| 0 <= i <= l.st.replies.len() implies #[trigger] l.send_at(
                c,
                l.sent + i,
            ) is None by {
                lemma_is_blocked(c, l, i, None);
                assert(!l.st.blocked(i, None));
            }
            lemma_one_more_sent(c, l, l.st, now, None, seq_cst, data);
        },
        Act::Receive { packet } => {
            match packet.seq_no() {
                None => {
                    lemma_still_reserves(c, l, l2);
                },
                Some(s) => {
                    let r = packet.reply_no();
                    let cst = packet.seq_cst();
                    if l.st.verdict(s, r, cst) is Deliver {
                        let taken = if s == l.st.next_recv {
                            l.st.passed()
                        } else {
                            l.st.unlocked(s)
                        };
                        lemma_passed_len(l.st);
                        lemma_one_more_issued(c, l, taken, s, r, cst, l2);
                    } else {
                        lemma_still_reserves(c, l, l2);
                    }
                },
            }
        },
        Act::Pump => {
            if l.st.pump_check() is Ok {
                let entry = l.st.recv_window[slot(l.st.next_recv, l.st.cap())];
                lemma_passed_len(l.st);
                lemma_one_more_issued(
                    c,
                    l,
                    l.st.passed(),
                    entry->Occupied_seq_no,
                    entry->reply_no,
                    entry->seq_cst,
                    l2,
                );
            }
        },
        Act::Reply { reply_no, now, unlock, seq_cst, data } => {
            let mid = l.st.returned(reply_no, unlock);
            assert(mid.replies.len() + 1 == l.st.replies.len());
            lemma_one_more_sent(c, l, mid, now, Some(reply_no), seq_cst, data);
        },
        Act::Ack { reply_no, unlock } => {
            assert(l2.st.replies.len() + 1 == l.st.replies.len());
            lemma_still_reserves(c, l, l2);
        },
        Act::Retime => {
            assert forall|i: int|
                0 <= i < c.cap
                    && l.st.send_window[i] is None implies #[trigger] l2.st.send_window[i] is None by {
                assert(same_packet(l.st.send_window[i], l2.st.send_window[i]));
            }
            lemma_still_reserves(c, l, l2);
        },
        Act::Unlock => {
            lemma_still_reserves(c, l, l2);
        },
    }
}

proof fn lemma_history_reserves<S, R>(
    c: Terms,
    logs: Seq<Log<S, R>>,
    acts: Seq<Act<S, R>>,
    k: int,
)
    requires
        is_history(c, logs, acts),
        sends_in_step(c, logs),
        replies_answer(logs, acts),
        0 <= k < logs.len(),
    ensures
        reserves(c, logs[k]),
    decreases k,
{
    if k == 0 {
        let resend_interval = choose|resend_interval: i64|
            logs[0] == #[trigger] Log::<S, R>::initial(c, resend_interval);
        assert(logs[0].st.replies.len() == 0);
    } else {
        lemma_history_reserves(c, logs, acts, k - 1);
        assert(does(logs[k - 1], acts[k - 1], logs[k]));
        lemma_act_reserves(c, logs[k - 1], acts[k - 1], logs[k]);
    }
}

/// Replying with a reply number that has been issued is guaranteed not to fail, whatever has been
/// sent and received in the meantime: its slot in the send window is free, so that the data in the
/// window afterwards is the data that was in it before, and the data of the reply.
pub proof fn reply_overwrites_nothing<S, R>(
    c: Terms,
    logs: Seq<Log<S, R>>,
    acts: Seq<Act<S, R>>,
    k: int,
    reply_no: SeqNo,
    now: i64,
    unlock: bool,
    seq_cst: bool,
    data: S,
)
    requires
        is_history(c, logs, acts),
        sends_in_step(c, logs),
        replies_answer(logs, acts),
        0 <= k < logs.len(),
        logs[k].st.replies.count(reply_no) > 0,
    ensures
        ({
            let st = logs[k].st;
            let after = st.returned(reply_no, unlock).sent(now, Some(reply_no), seq_cst, data);
            let cap = st.cap() as int;
            &&& st.send_window[slot(st.next_send, st.cap())] is None
            &&& forall|i: int|
                0 <= i < cap && i != slot(st.next_send, st.cap()) ==> after.send_window[i]
                    == st.send_window[i]
            &&& window_data(after.send_window, 0, cap).to_multiset() == window_data(
                st.send_window,
                0,
                cap,
            ).to_multiset().insert(data)
        }),
{
    lemma_history_reserves(c, logs, acts, k);
    let l = logs[k];
    let st = l.st;
    lemma_place(c, l.sent);
    lemma_places_differ(c, l.sent, l.sent + 1);
    assert(st.replies.len() >= 1);
    assert(l.send_at(c, l.sent + 0) is None);
    lemma_slot_filled(
        st.send_window,
        slot(st.next_send, st.cap()),
        st.returned(reply_no, unlock).next_entry(now, Some(reply_no), seq_cst, data),
        0,
        st.cap() as int,
    );
}

/// A packet that is put into a free slot adds its data to the data of a window, and changes nothing
/// else about it.
proof fn lemma_slot_filled<S>(
    window: Seq<Option<SendEntry<S>>>,
    i: int,
    entry: SendEntry<S>,
    lo: int,
    hi: int,
)
    requires
        0 <= lo <= hi <= window.len(),
        0 <= i < window.len(),
        window[i] is None,
    ensures
        window_data(window.update(i, Some(entry)), lo, hi).to_multiset() == if lo <= i < hi {
            window_data(window, lo, hi).to_multiset().insert(entry.data)
        } else {
            window_data(window, lo, hi).to_multiset()
        },
    decreases hi - lo,
{
    broadcast use vstd::seq_lib::group_to_multiset_ensures;

    let filled = window.update(i, Some(entry));
    if lo < hi {
        lemma_slot_filled(window, i, entry, lo + 1, hi);
        let rest = window_data(window, lo + 1, hi);
        let filled_rest = window_data(filled, lo + 1, hi);
        if lo == i {
            vstd::seq_lib::lemma_multiset_commutative(seq![entry.data], filled_rest);
            assert(seq![entry.data].to_multiset() =~= vstd::multiset::Multiset::singleton(
                entry.data,
            )) by {
                assert(seq![entry.data] =~= Seq::<S>::empty().push(entry.data));
            }
            assert(window_data(filled, lo, hi).to_multiset() =~= rest.to_multiset().insert(
                entry.data,
            ));
        } else if let Some(e) = window[lo] {
            vstd::seq_lib::lemma_multiset_commutative(seq![e.data], rest);
            vstd::seq_lib::lemma_multiset_commutative(seq![e.data], filled_rest);
            assert(window_data(filled, lo, hi).to_multiset() =~= if lo <= i < hi {
                window_data(window, lo, hi).to_multiset().insert(entry.data)
            } else {
                window_data(window, lo, hi).to_multiset()
            });
        }
    }
}

} // verus!
