//! The interface to the transport layer, and how a session whose data is tagged uses it.
use crate::transport_layer::{Packet, TransportLayer};
use vstd::prelude::*;

verus! {

/// A trait for giving a session access to the transport layer.
pub trait TokioLayer: Clone + Copy {
    /// The data of a packet that is sent.
    type SendData;

    /// Whether the next call of `time`, or one after it, may return `timestamp`. Any timestamp may
    /// be returned by an implementor that does not say more.
    open spec fn may_report(&self, timestamp: i64) -> bool {
        true
    }

    /// The packets that have been handed to `send`, in that order. It is left open how an
    /// implementor that does not say more keeps account of them.
    ///
    /// An implementor whose value does not change when a packet is sent, such as a shared reference,
    /// cannot keep account of what was sent: to meet what is said of `send`, a `Ghost` field has to
    /// carry the account along.
    open spec fn sent(&self) -> Seq<Packet<Self::SendData>> {
        arbitrary::<spec_fn(Self) -> Seq<Packet<Self::SendData>>>()(*self)
    }

    /// A callback that should return the current time in milliseconds.
    fn time(&mut self) -> (timestamp: i64)
        ensures
            old(self).may_report(timestamp),
            forall|t: i64| #[trigger] final(self).may_report(t) ==> old(self).may_report(t),
            final(self).sent() == old(self).sent(),
    ;

    /// A callback that should attempt to serialize and send `packet` to the remote peer.
    fn send(&mut self, packet: Packet<&Self::SendData>)
        ensures
            final(self).sent() == old(self).sent().push(packet.unref()),
    ;
}

/// The packet without the tag on its data.
pub open spec fn untagged<Tag, S>(packet: Packet<(Tag, S)>) -> Packet<S> {
    match packet {
        Packet::Payload(s, d) => Packet::Payload(s, d.1),
        Packet::SeqCstPayload(s, d) => Packet::SeqCstPayload(s, d.1),
        Packet::Reply(s, r, d) => Packet::Reply(s, r, d.1),
        Packet::SeqCstReply(s, r, d) => Packet::SeqCstReply(s, r, d.1),
        Packet::Ack(r) => Packet::Ack(r),
    }
}

/// The packet with a tag on its data.
pub open spec fn tagged<Tag, S>(packet: Packet<S>, tag: Tag) -> Packet<(Tag, S)> {
    match packet {
        Packet::Payload(s, d) => Packet::Payload(s, (tag, d)),
        Packet::SeqCstPayload(s, d) => Packet::SeqCstPayload(s, (tag, d)),
        Packet::Reply(s, r, d) => Packet::Reply(s, r, (tag, d)),
        Packet::SeqCstReply(s, r, d) => Packet::SeqCstReply(s, r, (tag, d)),
        Packet::Ack(r) => Packet::Ack(r),
    }
}

/// The packets without the tags on their data.
pub open spec fn all_untagged<Tag, S>(packets: Seq<Packet<(Tag, S)>>) -> Seq<Packet<S>> {
    packets.map_values(|p: Packet<(Tag, S)>| untagged(p))
}

fn data_of<'a, Tag, S>(tagged: &'a (Tag, S)) -> (data: &'a S)
    ensures
        *data == tagged.1,
{
    &tagged.1
}

/// A transport layer for packets whose data is tagged: the tags stay here.
pub struct Outgoing<TL: TokioLayer, Tag> {
    tl: TL,
    log: Ghost<Seq<Packet<(Tag, TL::SendData)>>>,
}

impl<TL: TokioLayer, Tag> Clone for Outgoing<TL, Tag> {
    fn clone(&self) -> (copy: Self) {
        *self
    }
}

impl<TL: TokioLayer, Tag> Copy for Outgoing<TL, Tag> {

}

impl<TL: TokioLayer, Tag> Outgoing<TL, Tag> {
    #[verifier::type_invariant]
    closed spec fn inv(self) -> bool {
        self.tl.sent() == all_untagged(self.log@)
    }

    /// Sends packets through `tl`.
    pub(crate) fn new(tl: TL) -> (outgoing: Self)
        ensures
            all_untagged(outgoing.sent()) == tl.sent(),
            forall|t: i64| #[trigger] outgoing.may_report(t) == tl.may_report(t),
    {
        let ghost log: Seq<Packet<(Tag, TL::SendData)>> = Seq::new(
            tl.sent().len(),
            |i: int| tagged(tl.sent()[i], arbitrary::<Tag>()),
        );
        assert(all_untagged(log) =~= tl.sent());
        Outgoing { tl, log: Ghost(log) }
    }

    /// The transport layer that the packets have been sent through.
    pub(crate) fn into_inner(self) -> (tl: TL)
        ensures
            tl.sent() == all_untagged(self.sent()),
    {
        proof {
            use_type_invariant(&self);
        }
        self.tl
    }
}

impl<TL: TokioLayer, Tag> TransportLayer<(Tag, TL::SendData)> for Outgoing<TL, Tag> {
    closed spec fn may_report(&self, timestamp: i64) -> bool {
        self.tl.may_report(timestamp)
    }

    closed spec fn sent(&self) -> Seq<Packet<(Tag, TL::SendData)>> {
        self.log@
    }

    fn time(&mut self) -> (timestamp: i64) {
        proof {
            use_type_invariant(&*self);
        }
        let mut tl = self.tl;
        let timestamp: i64 = tl.time();
        *self = Outgoing { tl, log: Ghost(self.log@) };
        timestamp
    }

    fn send(&mut self, packet: Packet<&(Tag, TL::SendData)>) {
        proof {
            use_type_invariant(&*self);
        }
        let mut tl = self.tl;
        let untagged_packet = packet.map(data_of);
        proof {
            assert(untagged_packet.unref() == untagged(packet.unref()));
            assert(all_untagged(self.log@.push(packet.unref())) =~= all_untagged(self.log@).push(
                untagged(packet.unref()),
            ));
        }
        tl.send(untagged_packet);
        *self = Outgoing { tl, log: Ghost(self.log@.push(packet.unref())) };
    }
}

} // verus!
