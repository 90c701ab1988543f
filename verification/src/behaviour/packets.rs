//! What becomes of packets, told kind by kind.
use crate::behaviour::made;
use crate::transport_layer::{Packet, SeqNo};
use vstd::prelude::*;

verus! {

/// A packet with data is a payload or a reply, SeqCst or not, as its parts say.
pub proof fn packet_with_data_is_of_its_kind<D>(
    seq_no: SeqNo,
    reply_no: Option<SeqNo>,
    seq_cst: bool,
    data: D,
    packet: Packet<D>,
)
    requires
        call_ensures(Packet::<D>::new_with_data, (seq_no, reply_no, seq_cst, data), packet),
    ensures
        packet == match (reply_no, seq_cst) {
            (None, false) => Packet::Payload(seq_no, data),
            (None, true) => Packet::SeqCstPayload(seq_no, data),
            (Some(r), false) => Packet::Reply(seq_no, r, data),
            (Some(r), true) => Packet::SeqCstReply(seq_no, r, data),
        },
{
}

/// A packet is made of parts if and only if they are those of some packet: a number and data, or
/// nothing but the number of the packet that an ack acknowledges.
pub proof fn packet_is_made_of_parts<D>(
    seq_no: Option<SeqNo>,
    reply_no: Option<SeqNo>,
    seq_cst: bool,
    data: Option<D>,
    packet: Option<Packet<D>>,
)
    requires
        call_ensures(Packet::<D>::new, (seq_no, reply_no, seq_cst, data), packet),
    ensures
        packet == match (seq_no, data) {
            (Some(s), Some(d)) => Some(made(s, reply_no, seq_cst, d)),
            (None, None) => match reply_no {
                Some(r) if !seq_cst => Some(Packet::Ack(r)),
                _ => None,
            },
            _ => None,
        },
{
    crate::transport_layer::valid_parts(seq_no, reply_no, seq_cst, data);
}

/// A packet of references refers to the data of the packet.
pub proof fn packet_of_references_is_the_same<D>(packet: Packet<D>, refs: Packet<&D>)
    requires
        call_ensures(Packet::<D>::as_ref, (&packet,), refs),
    ensures
        match packet {
            Packet::Payload(s, d) => refs == Packet::Payload(s, &d),
            Packet::SeqCstPayload(s, d) => refs == Packet::SeqCstPayload(s, &d),
            Packet::Reply(s, r, d) => refs == Packet::Reply(s, r, &d),
            Packet::SeqCstReply(s, r, d) => refs == Packet::SeqCstReply(s, r, &d),
            Packet::Ack(r) => refs == Packet::<&D>::Ack(r),
        },
{
}

/// Mapping a packet changes nothing but its data.
pub proof fn mapping_changes_the_data<D, T, F: FnOnce(D) -> T>(
    packet: Packet<D>,
    f: F,
    mapped: Packet<T>,
)
    requires
        call_ensures(Packet::<D>::map::<T, F>, (packet, f), mapped),
    ensures
        match (packet, mapped) {
            (Packet::Payload(s, d), Packet::Payload(t, e)) => t == s && call_ensures(f, (d,), e),
            (Packet::SeqCstPayload(s, d), Packet::SeqCstPayload(t, e)) => t == s && call_ensures(
                f,
                (d,),
                e,
            ),
            (Packet::Reply(s, r, d), Packet::Reply(t, q, e)) => t == s && q == r && call_ensures(
                f,
                (d,),
                e,
            ),
            (Packet::SeqCstReply(s, r, d), Packet::SeqCstReply(t, q, e)) => t == s && q == r
                && call_ensures(f, (d,), e),
            (Packet::Ack(r), Packet::Ack(q)) => q == r,
            _ => false,
        },
{
}

/// Cloning a packet of references clones the data and changes nothing else.
pub proof fn cloning_clones_the_data<'a, D: Clone>(packet: Packet<&'a D>, copy: Packet<D>)
    requires
        call_ensures(Packet::<&'a D>::cloned, (&packet,), copy),
    ensures
        match (packet, copy) {
            (Packet::Payload(s, d), Packet::Payload(t, e)) => t == s && cloned(*d, e),
            (Packet::SeqCstPayload(s, d), Packet::SeqCstPayload(t, e)) => t == s && cloned(*d, e),
            (Packet::Reply(s, r, d), Packet::Reply(t, q, e)) => t == s && q == r && cloned(*d, e),
            (Packet::SeqCstReply(s, r, d), Packet::SeqCstReply(t, q, e)) => t == s && q == r
                && cloned(*d, e),
            (Packet::Ack(r), Packet::Ack(q)) => q == r,
            _ => false,
        },
{
}

/// Every packet but an ack has data, and an ack has the number of the packet that it acknowledges.
pub proof fn consumed_packet_gives_its_data<D>(
    packet: Packet<D>,
    payload: Option<D>,
    consumed: Result<D, SeqNo>,
    seq_cst: bool,
)
    requires
        call_ensures(Packet::<D>::payload, (packet,), payload),
        call_ensures(Packet::<D>::consume, (packet,), consumed),
        call_ensures(Packet::<D>::is_seq_cst, (&packet,), seq_cst),
    ensures
        match packet {
            Packet::Payload(_, d) => payload == Some(d) && consumed == Ok::<D, SeqNo>(d)
                && !seq_cst,
            Packet::SeqCstPayload(_, d) => payload == Some(d) && consumed == Ok::<D, SeqNo>(d)
                && seq_cst,
            Packet::Reply(_, _, d) => payload == Some(d) && consumed == Ok::<D, SeqNo>(d)
                && !seq_cst,
            Packet::SeqCstReply(_, _, d) => payload == Some(d) && consumed == Ok::<D, SeqNo>(d)
                && seq_cst,
            Packet::Ack(r) => payload is None && consumed == Err::<D, SeqNo>(r) && !seq_cst,
        },
{
}

/// A packet can be made SeqCst, or not, and stays the same otherwise. An ack is never SeqCst.
pub proof fn setting_seq_cst_changes_the_kind<D>(packet: &mut Packet<D>, seq_cst: bool)
    requires
        call_ensures(Packet::<D>::set_seq_cst, (packet, seq_cst), ()),
    ensures
        *final(packet) == match *old(packet) {
            Packet::Payload(s, d) => made(s, None, seq_cst, d),
            Packet::SeqCstPayload(s, d) => made(s, None, seq_cst, d),
            Packet::Reply(s, r, d) => made(s, Some(r), seq_cst, d),
            Packet::SeqCstReply(s, r, d) => made(s, Some(r), seq_cst, d),
            Packet::Ack(r) => Packet::Ack(r),
        },
{
}

} // verus!
