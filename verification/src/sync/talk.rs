//! What comes of a conversation between two applications, from the first call to the last.
//!
//! Each application has a session of its own, which its threads share. A conversation is told by the
//! calls that the threads of both make, one after the other, and by what each call gives to its
//! thread. The two applications need not send and receive data of the same types.
use super::laws::{books_kept, brought, is_honest, performs, shared_is_a_session, Call};
use super::recv::RecvOk;
use super::shared::{Shared, Wake};
use crate::laws::{
    all_is_a_stream, data_of, exactly_once, handed_over, initial_is_reachable, reachable,
    reachable_flipped, reachable_inv,
};
use crate::session::{happens, in_step, waits, Event, Peer, Terms, Wires};
use crate::session_proof::lemma_place;
use crate::transport_layer::TransportLayer;
use vstd::prelude::*;

verus! {

/// A call that a thread of an application makes.
#[verifier::reject_recursive_types(S)]
#[verifier::reject_recursive_types(R)]
#[verifier::reject_recursive_types(TL)]
pub struct Move<S, R, TL> {
    pub call: Call<S, R>,
    /// The session of the application, and its transport layer, before the call.
    pub pre: Shared<S, R>,
    pub tl: TL,
    /// The same after the call.
    pub post: Shared<S, R>,
    pub tl_post: TL,
    pub wake: Wake,
    /// What the call gives to the thread.
    pub item: Option<RecvOk<S, R>>,
}

/// A call that a thread of one of the two applications makes.
#[verifier::reject_recursive_types(S)]
#[verifier::reject_recursive_types(R)]
#[verifier::reject_recursive_types(TL)]
#[verifier::reject_recursive_types(S2)]
#[verifier::reject_recursive_types(R2)]
#[verifier::reject_recursive_types(TL2)]
pub enum Turn<S, R, TL, S2, R2, TL2> {
    First(Move<S, R, TL>),
    Second(Move<S2, R2, TL2>),
}

impl<S, R, TL: TransportLayer<S>> Move<S, R, TL> {
    /// Whether a peer `x`, whose other peer is `y`, can make this call.
    pub open spec fn is_open_to<S2, R2>(
        self,
        c: Terms,
        w: Wires<S, R, S2, R2>,
        x: Peer<S, R>,
        y: Peer<S2, R2>,
    ) -> bool {
        &&& is_honest(c, w, x, y, self.call)
        &&& self.pre.seq == x.st
        &&& performs(
            self.call,
            self.pre,
            self.tl,
            self.post,
            self.tl_post,
            self.wake,
            self.item,
        )
    }

    /// Whether `x2` is what the peer `x`, whose other peer is `y`, has become by this call.
    pub open spec fn leads_to<S2, R2>(
        self,
        c: Terms,
        w: Wires<S, R, S2, R2>,
        x: Peer<S, R>,
        y: Peer<S2, R2>,
        x2: Peer<S, R>,
    ) -> bool {
        &&& x2.st == self.post.seq
        &&& x2 == x || exists|event: Event<S, R>| happens(c, w.to_first, x, y, event, x2)
        &&& in_step(c, x2, y) ==> reachable(c, w, x2, y)
        &&& books_kept(c, w, x, y, self.call, self.item, x2)
    }

    /// What the call has sent.
    pub open spec fn has_sent(self) -> Option<S> {
        if self.post.seq.next_send != self.pre.seq.next_send {
            Some((self.call.offers()->0).1)
        } else {
            None
        }
    }
}

/// The two peers after some turns.
pub open spec fn peers_after<
    S,
    R,
    TL: TransportLayer<S>,
    S2,
    R2,
    TL2: TransportLayer<S2>,
>(
    c: Terms,
    w: Wires<S, R, S2, R2>,
    resend: (i64, i64),
    turns: Seq<Turn<S, R, TL, S2, R2, TL2>>,
) -> (Peer<S, R>, Peer<S2, R2>)
    decreases turns.len(),
{
    if turns.len() == 0 {
        (Peer::initial(c, resend.0), Peer::initial(c, resend.1))
    } else {
        let (x, y) = peers_after(c, w, resend, turns.drop_last());
        match turns.last() {
            Turn::First(m) => (choose|x2: Peer<S, R>| m.leads_to(c, w, x, y, x2), y),
            Turn::Second(m) => (
                x,
                choose|y2: Peer<S2, R2>| m.leads_to(c, w.flipped(), y, x, y2),
            ),
        }
    }
}

/// Whether a conversation, between sessions that were created with the resend intervals `resend`,
/// can go through these turns.
pub open spec fn is_talk<S, R, TL: TransportLayer<S>, S2, R2, TL2: TransportLayer<S2>>(
    c: Terms,
    w: Wires<S, R, S2, R2>,
    resend: (i64, i64),
    turns: Seq<Turn<S, R, TL, S2, R2, TL2>>,
) -> bool
    decreases turns.len(),
{
    let (x2, y2) = peers_after(c, w, resend, turns);
    &&& in_step(c, x2, y2)
    &&& if turns.len() == 0 {
        c.wf()
    } else {
        let (x, y) = peers_after(c, w, resend, turns.drop_last());
        &&& is_talk(c, w, resend, turns.drop_last())
        &&& match turns.last() {
            Turn::First(m) => m.is_open_to(c, w, x, y),
            Turn::Second(m) => m.is_open_to(c, w.flipped(), y, x),
        }
    }
}

/// The data that the threads of the first application have sent, by `SeqEx::send` or by replies.
pub open spec fn sent_by_first<S, R, TL: TransportLayer<S>, S2, R2, TL2: TransportLayer<S2>>(
    turns: Seq<Turn<S, R, TL, S2, R2, TL2>>,
) -> Seq<S>
    decreases turns.len(),
{
    if turns.len() == 0 {
        Seq::empty()
    } else {
        let sent = sent_by_first(turns.drop_last());
        match turns.last() {
            Turn::First(m) => match m.has_sent() {
                Some(data) => sent.push(data),
                None => sent,
            },
            Turn::Second(_) => sent,
        }
    }
}

/// The data that the threads of the second application have been given, by `SeqEx::receive_all` or
/// otherwise.
pub open spec fn given_to_second<S, R, TL: TransportLayer<S>, S2, R2, TL2: TransportLayer<S2>>(
    turns: Seq<Turn<S, R, TL, S2, R2, TL2>>,
) -> Seq<R2>
    decreases turns.len(),
{
    if turns.len() == 0 {
        Seq::empty()
    } else {
        let given = given_to_second(turns.drop_last());
        match turns.last() {
            Turn::First(_) => given,
            Turn::Second(m) => match brought(m.item) {
                Some(data) => given.push(data),
                None => given,
            },
        }
    }
}

/// Whether everything that the first application sends is SeqCst.
pub open spec fn sends_in_order<S, R, TL, S2, R2, TL2>(
    turns: Seq<Turn<S, R, TL, S2, R2, TL2>>,
) -> bool {
    forall|i: int|
        0 <= i < turns.len() ==> (#[trigger] turns[i] matches Turn::First(m) ==> (
        m.call.offers() matches Some((seq_cst, _)) ==> seq_cst))
}

/// Whether each thing in `received` was carried there from the thing in the same place of `sent`.
pub open spec fn all_carried<S, R2>(
    carried: spec_fn(S, R2) -> bool,
    sent: Seq<S>,
    received: Seq<R2>,
) -> bool {
    forall|i: int| 0 <= i < received.len() ==> carried(sent[i], #[trigger] received[i])
}

/// Where everything that the first application sends is SeqCst, what `SeqEx::receive_all` and the
/// like yield to the second one was carried from the beginning of what the first one sent, in order,
/// without gaps and each thing once, however packets were lost, repeated and reordered. Once
/// everything that the first one sent has been answered, it is all of it.
pub proof fn received_as_sent<S, R, TL: TransportLayer<S>, S2, R2, TL2: TransportLayer<S2>>(
    c: Terms,
    w: Wires<S, R, S2, R2>,
    resend: (i64, i64),
    turns: Seq<Turn<S, R, TL, S2, R2, TL2>>,
)
    requires
        is_talk(c, w, resend, turns),
        sends_in_order(turns),
    ensures
        given_to_second(turns).len() <= sent_by_first(turns).len(),
        all_carried(w.to_second, sent_by_first(turns), given_to_second(turns)),
        peers_after(c, w, resend, turns).0.st.is_idle() ==> given_to_second(turns).len()
            == sent_by_first(turns).len(),
{
    let (x, y) = peers_after(c, w, resend, turns);
    let over = data_of(handed_over(x, y));
    talk_is_a_session(c, w, resend, turns);
    all_is_a_stream(c, w, x, y);
    assert forall|i: int| 0 <= i < over.len() implies #[trigger] over[i] == data_of(x.sent)[i] by {
        assert(over[i] == data_of(x.sent).subrange(0, over.len() as int)[i]);
    }
    if x.st.is_idle() {
        reachable_inv(c, w, x, y);
        assert forall|v: int| 0 <= v < x.sent.len() implies !(#[trigger] waits(c, x, v)) by {
            lemma_place(c, v);
        }
    }
}

/// A conversation is a session of two peers, who have sent and been given what the threads have.
pub proof fn talk_is_a_session<S, R, TL: TransportLayer<S>, S2, R2, TL2: TransportLayer<S2>>(
    c: Terms,
    w: Wires<S, R, S2, R2>,
    resend: (i64, i64),
    turns: Seq<Turn<S, R, TL, S2, R2, TL2>>,
)
    requires
        is_talk(c, w, resend, turns),
    ensures
        ({
            let (x, y) = peers_after(c, w, resend, turns);
            &&& reachable(c, w, x, y)
            &&& data_of(x.sent) == sent_by_first(turns)
            &&& given_to_second(turns).len() == y.received.len()
            &&& all_carried(w.to_second, data_of(handed_over(x, y)), given_to_second(turns))
            &&& sends_in_order(turns) ==> forall|v: int|
                0 <= v < x.sent.len() ==> (#[trigger] x.sent[v]).seq_cst
        }),
    decreases turns.len(),
{
    let (x2, y2) = peers_after(c, w, resend, turns);
    if turns.len() == 0 {
        initial_is_reachable(c, w, resend.0, resend.1);
        assert(data_of(x2.sent) =~= sent_by_first(turns));
    } else {
        let before = turns.drop_last();
        let (x, y) = peers_after(c, w, resend, before);
        talk_is_a_session(c, w, resend, before);
        if sends_in_order(turns) {
            assert forall|i: int| 0 <= i < before.len() implies (
            #[trigger] before[i] matches Turn::First(m) ==> (m.call.offers() matches Some((
                seq_cst,
                _,
            )) ==> seq_cst)) by {
                assert(before[i] == turns[i]);
            }
        }
        match turns.last() {
            Turn::First(m) => {
                let next = shared_is_a_session(
                    c,
                    w,
                    x,
                    y,
                    m.call,
                    m.pre,
                    m.tl,
                    m.post,
                    m.tl_post,
                    m.wake,
                    m.item,
                );
                assert(m.leads_to(c, w, x, y, next));
                assert(m.leads_to(c, w, x, y, x2));
                lemma_more_sent(c, w, x, y, x2);
            },
            Turn::Second(m) => {
                let v = w.flipped();
                reachable_flipped(c, w, x, y);
                let next = shared_is_a_session(
                    c,
                    v,
                    y,
                    x,
                    m.call,
                    m.pre,
                    m.tl,
                    m.post,
                    m.tl_post,
                    m.wake,
                    m.item,
                );
                assert(m.leads_to(c, v, y, x, next));
                assert(m.leads_to(c, v, y, x, y2));
                reachable_flipped(c, v, y2, x);
                assert(v.flipped() == w);
                lemma_more_given(w.to_second, x, y, y2, given_to_second(before), brought(m.item));
            },
        }
    }
}

/// What was handed over stays the same when more is sent.
proof fn lemma_more_sent<S, R, S2, R2>(
    c: Terms,
    w: Wires<S, R, S2, R2>,
    x: Peer<S, R>,
    y: Peer<S2, R2>,
    x2: Peer<S, R>,
)
    requires
        reachable(c, w, x, y),
        x2.sent == x.sent || x2.sent.len() == x.sent.len() + 1 && x2.sent.drop_last() == x.sent,
    ensures
        data_of(handed_over(x2, y)) == data_of(handed_over(x, y)),
        x2.sent != x.sent ==> data_of(x2.sent) == data_of(x.sent).push(x2.sent.last().data),
        forall|v: int| 0 <= v < x.sent.len() ==> x2.sent[v] == x.sent[v],
{
    assert forall|v: int| 0 <= v < x.sent.len() implies x2.sent[v] == x.sent[v] by {
        if x2.sent != x.sent {
            assert(x2.sent.drop_last()[v] == x.sent[v]);
        }
    }
    assert forall|i: int| 0 <= i < y.received.len() implies x2.sent[#[trigger] y.received[i]]
        == x.sent[y.received[i]] by {
        assert(y.received.contains(y.received[i]));
        exactly_once(c, w, x, y, y.received[i]);
    }
    assert(data_of(handed_over(x2, y)) =~= data_of(handed_over(x, y)));
    if x2.sent != x.sent {
        assert(data_of(x2.sent) =~= data_of(x.sent).push(x2.sent.last().data));
    }
}

/// What has been given stays carried from what was handed over when more is given.
proof fn lemma_more_given<S, R, S2, R2>(
    carried: spec_fn(S, R2) -> bool,
    x: Peer<S, R>,
    y: Peer<S2, R2>,
    y2: Peer<S2, R2>,
    given: Seq<R2>,
    more: Option<R2>,
)
    requires
        given.len() == y.received.len(),
        all_carried(carried, data_of(handed_over(x, y)), given),
        match more {
            Some(data) => {
                &&& y2.received.len() == y.received.len() + 1
                &&& y2.received.drop_last() == y.received
                &&& carried(x.sent[y2.received.last()].data, data)
            },
            None => y2.received == y.received,
        },
    ensures
        match more {
            Some(data) => all_carried(carried, data_of(handed_over(x, y2)), given.push(data)),
            None => all_carried(carried, data_of(handed_over(x, y2)), given),
        },
{
    if let Some(data) = more {
        let over = data_of(handed_over(x, y));
        let over2 = data_of(handed_over(x, y2));
        assert forall|i: int| 0 <= i < given.push(data).len() implies carried(
            over2[i],
            #[trigger] given.push(data)[i],
        ) by {
            if i < given.len() {
                assert(y2.received.drop_last()[i] == y.received[i]);
                assert(over2[i] == over[i]);
                assert(carried(over[i], given[i]));
            }
        }
    }
}

} // verus!
