//! Two peers and what passes between them.
//!
//! A session is modelled with sequence numbers that do not wrap: the packets that a peer has sent
//! are numbered from zero, and the number that goes over the wire is the remainder. Every packet
//! that was ever sent may arrive any number of times, in any order, or never.
//!
//! What a peer sends and what it receives need not be of the same type, nor need the two peers use
//! the same types: what is sent may hold things that stay behind, and what is received may have to
//! be decoded. A relation says which data can be received where some data was sent.
use crate::error::{TryError, TryRawRecvError};
use crate::model::SeqState;
use crate::seq_queue::{pumps, receives, RecvEntry, RecvOkRaw, SendEntry};
use crate::transport_layer::{Packet, SeqNo};
use vstd::prelude::*;

verus! {

/// How many sequence numbers there are.
pub const NUMBERS: u64 = 0x1_0000_0000;

/// What the two peers have agreed upon.
pub struct Terms {
    /// The first sequence number.
    pub base: SeqNo,
    /// The number of slots of each window.
    pub cap: nat,
}

/// A packet that has been sent.
pub struct Sent<D> {
    /// Which packet of the other peer it is a reply to.
    pub reply: Option<int>,
    pub seq_cst: bool,
    pub data: D,
}

/// One end of a session.
#[verifier::reject_recursive_types(S)]
#[verifier::reject_recursive_types(R)]
pub struct Peer<S, R> {
    /// What the peer remembers.
    pub st: SeqState<S, R>,
    /// Every packet that it has sent.
    pub sent: Seq<Sent<S>>,
    /// The packets of the other peer that it has sent an ack for.
    pub acked: Set<int>,
    /// The packets of the other peer that have been handed to the application, in that order.
    pub received: Seq<int>,
    /// The packets of the other peer that the application has yet to answer.
    pub open: Set<int>,
    /// The first packet of the other peer that has not been handed to the application.
    pub next: int,
}

impl Terms {
    /// The number that goes over the wire for packet `v`.
    pub open spec fn number(self, v: int) -> SeqNo {
        ((self.base + v) % (NUMBERS as int)) as u32
    }

    /// The slot of packet `v` in a window.
    pub open spec fn place(self, v: int) -> int {
        (self.base + v) % (self.cap as int)
    }

    /// The number that goes over the wire for the packet that a reply answers.
    pub open spec fn reply_number(self, reply: Option<int>) -> Option<SeqNo> {
        match reply {
            Some(v) => Some(self.number(v)),
            None => None,
        }
    }

    /// Whether the size of the windows is sound.
    pub open spec fn wf(self) -> bool {
        2 <= self.cap <= 0x8000_0000
    }

    /// Whether the first `n` packets find their slots by their wire numbers: the window size
    /// divides the number of sequence numbers, or no number has wrapped around yet.
    pub open spec fn in_step(self, n: int) -> bool {
        NUMBERS as int % (self.cap as int) == 0 || self.base + n <= NUMBERS
    }
}

impl<S, R> Peer<S, R> {
    /// A peer that has neither sent nor received anything.
    pub open spec fn initial(c: Terms, resend_interval: i64) -> Self {
        Peer {
            st: SeqState::initial(c.cap, resend_interval, c.base),
            sent: Seq::empty(),
            acked: Set::empty(),
            received: Seq::empty(),
            open: Set::empty(),
            next: 0,
        }
    }

    /// What the send window holds in the slot of packet `v`.
    pub open spec fn send_at(self, c: Terms, v: int) -> Option<SendEntry<S>> {
        self.st.send_window[c.place(v)]
    }

    /// What the receive window holds in the slot of packet `v`.
    pub open spec fn recv_at(self, c: Terms, v: int) -> RecvEntry<R> {
        self.st.recv_window[c.place(v)]
    }

    /// Packet `v` as it is handed to the transport layer.
    pub open spec fn wire(self, c: Terms, v: int) -> Packet<S> {
        self.carrying(c, v, self.sent[v].data)
    }

    /// Packet `v` as it arrives, if it brings `data`.
    pub open spec fn carrying<D>(self, c: Terms, v: int, data: D) -> Packet<D> {
        let p = self.sent[v];
        Packet::with_data(c.number(v), c.reply_number(p.reply), p.seq_cst, data)
    }
}

/// What the network makes of the data of packets: which data can be received where some data was
/// sent, in both directions.
#[verifier::reject_recursive_types(S)]
#[verifier::reject_recursive_types(R)]
#[verifier::reject_recursive_types(S2)]
#[verifier::reject_recursive_types(R2)]
pub struct Wires<S, R, S2, R2> {
    /// Whether the first peer can receive the latter where the second one sent the former.
    pub to_first: spec_fn(S2, R) -> bool,
    /// Whether the second peer can receive the latter where the first one sent the former.
    pub to_second: spec_fn(S, R2) -> bool,
}

impl<S, R, S2, R2> Wires<S, R, S2, R2> {
    /// The same seen from the second peer.
    pub open spec fn flipped(self) -> Wires<S2, R2, S, R> {
        Wires { to_first: self.to_second, to_second: self.to_first }
    }
}

// ---- the invariant ----

/// The counters of the sender `x` and the receiver `y` agree, and the sender is never more than a
/// window ahead.
pub open spec fn counters_agree<S, R, S2, R2>(c: Terms, x: Peer<S, R>, y: Peer<S2, R2>) -> bool {
    &&& x.st.wf()
    &&& x.st.cap() == c.cap
    &&& x.st.next_send == c.number(x.sent.len() as int)
    &&& y.st.next_recv == c.number(y.next)
    &&& 0 <= y.next <= x.sent.len() <= y.next + c.cap
}

/// What the receive window of `y` holds is numbered and marked as it was sent by `x`.
pub open spec fn holds_what_was_sent<S, R, S2, R2>(
    c: Terms,
    x: Peer<S, R>,
    y: Peer<S2, R2>,
) -> bool {
    forall|v: int|
        y.next <= v < y.next + c.cap ==> match #[trigger] y.recv_at(c, v) {
            RecvEntry::Empty => true,
            RecvEntry::Unlocked { seq_no } => {
                &&& v != y.next
                &&& v < x.sent.len()
                &&& seq_no == c.number(v)
            },
            RecvEntry::Occupied { seq_no, reply_no, seq_cst, .. } => {
                &&& v < x.sent.len()
                &&& seq_no == c.number(v)
                &&& reply_no == c.reply_number(x.sent[v].reply)
                &&& seq_cst == x.sent[v].seq_cst
            },
        }
}

/// What the send window of `x` holds was sent by `x`.
pub open spec fn keeps_what_was_sent<S, R>(c: Terms, x: Peer<S, R>) -> bool {
    forall|v: int|
        x.sent.len() - c.cap <= v < x.sent.len() ==> (#[trigger] x.send_at(c, v) matches Some(e)
            ==> {
            &&& v >= 0
            &&& e.seq_no == c.number(v)
            &&& e.reply_no == c.reply_number(x.sent[v].reply)
            &&& e.seq_cst == x.sent[v].seq_cst
            &&& e.data == x.sent[v].data
        })
}

/// Whether the windows of `y` say that packet `v` has been handed out.
pub open spec fn marked<S, R, S2, R2>(c: Terms, x: Peer<S, R>, y: Peer<S2, R2>, v: int) -> bool {
    ||| 0 <= v < y.next
    ||| y.next < v < x.sent.len() && y.recv_at(c, v) is Unlocked
}

/// The receiver `y` has handed out no packet twice, and knows which ones it has handed out.
pub open spec fn received_once<S, R, S2, R2>(c: Terms, x: Peer<S, R>, y: Peer<S2, R2>) -> bool {
    &&& y.received.no_duplicates()
    &&& forall|v: int| #[trigger] y.received.contains(v) <==> marked(c, x, y, v)
}

/// Every SeqCst packet was handed out after all the packets that were sent before it.
pub open spec fn received_in_order<S, R, S2, R2>(x: Peer<S, R>, y: Peer<S2, R2>) -> bool {
    forall|p: int, u: int|
        0 <= p < y.received.len() && x.sent[y.received[p]].seq_cst && 0 <= u < y.received[p]
            ==> #[trigger] y.received.subrange(0, p).contains(u)
}

/// A packet that has not been handed out is still being sent.
pub open spec fn nothing_lost<S, R, S2, R2>(c: Terms, x: Peer<S, R>, y: Peer<S2, R2>) -> bool {
    forall|v: int|
        0 <= v < x.sent.len() && !y.received.contains(v) ==> #[trigger] x.send_at(c, v) is Some
}

/// Whether packet `v` of `x` still waits for an answer.
pub open spec fn waits<S, R>(c: Terms, x: Peer<S, R>, v: int) -> bool {
    &&& 0 <= v < x.sent.len()
    &&& v >= x.sent.len() - c.cap
    &&& x.send_at(c, v) is Some
}

/// The packets that the application at `y` has yet to answer were handed out, have not been
/// answered, and are the ones that reply numbers are reserved for.
pub open spec fn open_are_reserved<S, R, S2, R2>(c: Terms, x: Peer<S, R>, y: Peer<S2, R2>) -> bool {
    &&& forall|v: int|
        #![trigger y.open.contains(v)]
        y.open.contains(v) ==> {
            &&& y.received.contains(v)
            &&& !y.acked.contains(v)
            &&& waits(c, x, v)
            &&& y.st.replies.count(c.number(v)) == 1
        }
    &&& forall|s: SeqNo|
        #[trigger] y.st.replies.count(s) > 0 ==> exists|v: int| #[trigger]
            y.open.contains(v) && c.number(v) == s
}

/// What `y` has acknowledged was handed out, and what it has replied to was handed out and is not
/// open any more. No packet has two replies, and where one has a reply and an ack, the reply
/// arrived first.
pub open spec fn answers_agree<S, R, S2, R2>(c: Terms, x: Peer<S, R>, y: Peer<S2, R2>) -> bool {
    &&& forall|v: int| #[trigger] y.acked.contains(v) ==> y.received.contains(v)
    &&& forall|j: int|
        0 <= j < y.sent.len() ==> ((#[trigger] y.sent[j]).reply matches Some(v) ==> {
            &&& y.received.contains(v)
            &&& !y.open.contains(v)
            &&& y.acked.contains(v) ==> x.received.contains(j)
            &&& !x.received.contains(j) ==> waits(c, x, v)
        })
    &&& forall|j: int, k: int|
        0 <= j < k < y.sent.len() && y.sent[j].reply is Some ==> #[trigger] y.sent[j].reply
            != #[trigger] y.sent[k].reply
}

/// A packet of `x` that does not wait for an answer any more was acknowledged, or a reply to it was
/// handed out.
pub open spec fn settled_by_answer<S, R, S2, R2>(c: Terms, x: Peer<S, R>, y: Peer<S2, R2>) -> bool {
    forall|v: int|
        0 <= v < x.sent.len() && !(#[trigger] waits(c, x, v)) ==> {
            ||| y.acked.contains(v)
            ||| exists|j: int|
                0 <= j < y.sent.len() && #[trigger] y.sent[j].reply == Some(v)
                    && x.received.contains(j)
        }
}

/// There is a free slot in the send window for every reply number that has been issued.
pub open spec fn replies_have_room<S, R>(c: Terms, x: Peer<S, R>) -> bool {
    forall|i: int|
        0 <= i < x.st.replies.len() ==> #[trigger] x.send_at(c, x.sent.len() + i) is None
}

/// What holds of the packets that go from `x` to `y`.
pub open spec fn link<S, R, S2, R2>(c: Terms, x: Peer<S, R>, y: Peer<S2, R2>) -> bool {
    &&& counters_agree(c, x, y)
    &&& holds_what_was_sent(c, x, y)
    &&& keeps_what_was_sent(c, x)
    &&& received_once(c, x, y)
    &&& received_in_order(x, y)
    &&& nothing_lost(c, x, y)
    &&& open_are_reserved(c, x, y)
    &&& answers_agree(c, x, y)
    &&& settled_by_answer(c, x, y)
    &&& replies_have_room(c, x)
}

/// What the receive window of `y` holds was carried there from what `x` has sent.
pub open spec fn holds_what_was_carried<S, R, S2, R2>(
    c: Terms,
    carried: spec_fn(S, R2) -> bool,
    x: Peer<S, R>,
    y: Peer<S2, R2>,
) -> bool {
    forall|v: int|
        y.next <= v < y.next + c.cap ==> (#[trigger] y.recv_at(c, v) matches RecvEntry::Occupied {
            data,
            ..
        } ==> carried(x.sent[v].data, data))
}

/// What holds of two peers at any time, whatever their packets carry.
pub open spec fn inv<S, R, S2, R2>(c: Terms, x: Peer<S, R>, y: Peer<S2, R2>) -> bool {
    &&& c.wf()
    &&& link(c, x, y)
    &&& link(c, y, x)
}
// ---- what can happen ----

/// Something that happens at one of the peers.
#[allow(inconsistent_fields)]
pub enum Event<S, R> {
    /// A packet is sent.
    Send { now: i64, seq_cst: bool, data: S },
    /// Packet `v` of the other peer arrives, for the first time or again, and brings `data`.
    Receive { v: int, data: R },
    /// An ack of packet `v` arrives, for the first time or again.
    ReceiveAck { v: int },
    /// A packet is taken from the receive window.
    Pump,
    /// Packet `v` of the other peer is replied to.
    Reply { v: int, now: i64, unlock: bool, seq_cst: bool, data: S },
    /// Packet `v` of the other peer is acknowledged.
    Ack { v: int, unlock: bool },
    /// Packets are resent, or the resend interval is changed.
    Retime,
    /// The critical section for SeqCst packets is left.
    Unlock,
}

/// The peer `x` after packet `v` has been handed to the application.
pub open spec fn handed_out<S, R>(x: Peer<S, R>, st: SeqState<S, R>, v: int) -> Peer<S, R> {
    Peer {
        st,
        received: x.received.push(v),
        open: x.open.insert(v),
        next: x.next + st.next_recv.wrapping_sub(x.st.next_recv),
        ..x
    }
}

/// Whether `post` differs from `pre` in nothing but when packets are resent.
pub open spec fn retimed<S, R>(pre: SeqState<S, R>, post: SeqState<S, R>) -> bool {
    &&& post == SeqState {
        resend_interval: post.resend_interval,
        next_service_timestamp: post.next_service_timestamp,
        send_window: post.send_window,
        ..pre
    }
    &&& post.send_window.len() == pre.send_window.len()
    &&& forall|i: int|
        0 <= i < pre.send_window.len() ==> same_packet(
            #[trigger] pre.send_window[i],
            post.send_window[i],
        )
}

/// Whether two slots of a send window hold the same packet, or none.
pub open spec fn same_packet<S>(a: Option<SendEntry<S>>, b: Option<SendEntry<S>>) -> bool {
    match (a, b) {
        (Some(e), Some(f)) => f == SendEntry { next_resend_time: f.next_resend_time, ..e },
        (None, None) => true,
        _ => false,
    }
}

/// Whether `event` takes the peer `x`, whose other peer is `y`, to `x2`. What `carried` relates to the
/// data that `y` has sent is what can arrive of it.
///
/// A packet that arrives was sent less than half of the sequence numbers ago.
pub open spec fn happens<S, R, S2, R2>(
    c: Terms,
    carried: spec_fn(S2, R) -> bool,
    x: Peer<S, R>,
    y: Peer<S2, R2>,
    event: Event<S, R>,
    x2: Peer<S, R>,
) -> bool {
    match event {
        Event::Send { now, seq_cst, data } => {
            &&& x.st.room(None) is Ok
            &&& x2 == Peer {
                st: x.st.sent(now, None, seq_cst, data),
                sent: x.sent.push(Sent { reply: None, seq_cst, data }),
                ..x
            }
        },
        Event::Receive { v, data } => {
            &&& 0 <= v < y.sent.len()
            &&& x.next - v <= NUMBERS / 2
            &&& carried(y.sent[v].data, data)
            &&& exists|result: Result<(RecvOkRaw<S, R>, bool), TryRawRecvError>|
                #![trigger receives(x.st, y.carrying(c, v, data), x2.st, result)]
                receives(x.st, y.carrying(c, v, data), x2.st, result) && x2 == match result {
                    Ok(_) => handed_out(x, x2.st, v),
                    Err(TryRawRecvError::DroppedDuplicateResendAck(_)) => Peer {
                        acked: x.acked.insert(v),
                        st: x2.st,
                        ..x
                    },
                    Err(_) => Peer { st: x2.st, ..x },
                }
        },
        Event::ReceiveAck { v } => {
            &&& y.acked.contains(v)
            &&& x.sent.len() - v <= NUMBERS / 2
            &&& exists|result: Result<(RecvOkRaw<S, R>, bool), TryRawRecvError>|
                receives(x.st, Packet::<R>::Ack(c.number(v)), x2.st, result)
            &&& x2 == Peer { st: x2.st, ..x }
        },
        Event::Pump => exists|result: Result<(RecvOkRaw<S, R>, bool), TryError>|
            #![trigger pumps(x.st, x2.st, result)]
            pumps(x.st, x2.st, result) && x2 == match result {
                Ok(_) => handed_out(x, x2.st, x.next),
                Err(_) => x,
            },
        Event::Reply { v, now, unlock, seq_cst, data } => {
            &&& x.open.contains(v)
            &&& x2 == Peer {
                st: x.st.returned(c.number(v), unlock).sent(
                    now,
                    Some(c.number(v)),
                    seq_cst,
                    data,
                ),
                sent: x.sent.push(Sent { reply: Some(v), seq_cst, data }),
                open: x.open.remove(v),
                ..x
            }
        },
        Event::Ack { v, unlock } => {
            &&& x.open.contains(v)
            &&& x2 == Peer {
                st: x.st.returned(c.number(v), unlock),
                acked: x.acked.insert(v),
                open: x.open.remove(v),
                ..x
            }
        },
        Event::Retime => retimed(x.st, x2.st) && x2 == Peer { st: x2.st, ..x },
        Event::Unlock => x2 == Peer { st: x.st.unlocked_session(), ..x },
    }
}

/// Whether `packet` can arrive at the peer `x` from the peer `y`: it is a packet that `y` has sent, as
/// it was carried, or an ack of one that `y` has acknowledged, and not too old.
pub open spec fn can_arrive<S, R, S2, R2>(
    c: Terms,
    w: Wires<S, R, S2, R2>,
    x: Peer<S, R>,
    y: Peer<S2, R2>,
    packet: Packet<R>,
) -> bool {
    ||| exists|v: int, data: R|
        {
            &&& 0 <= v < y.sent.len()
            &&& x.next - v <= NUMBERS / 2
            &&& (w.to_first)(y.sent[v].data, data)
            &&& packet == #[trigger] y.carrying(c, v, data)
        }
    ||| exists|v: int|
        {
            &&& #[trigger] y.acked.contains(v)
            &&& x.sent.len() - v <= NUMBERS / 2
            &&& packet == Packet::<R>::Ack(c.number(v))
        }
}

/// Whether both peers find the slots of their packets by the wire numbers.
pub open spec fn in_step<S, R, S2, R2>(c: Terms, x: Peer<S, R>, y: Peer<S2, R2>) -> bool {
    &&& c.in_step((x.sent.len() + c.cap) as int)
    &&& c.in_step((y.sent.len() + c.cap) as int)
}

} // verus!
