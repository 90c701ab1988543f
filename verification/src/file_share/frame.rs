//! How packets are laid out in bytes: a type, one or two numbers in big endian, and the data.
use crate::transport_layer::{Packet, SeqNo};
use vstd::prelude::*;
use vstd::slice::slice_subrange;

verus! {

/// The first byte of a payload.
pub const PACKET_TYPE_PAYLOAD: u8 = 0;

/// The first byte of a reply.
pub const PACKET_TYPE_REPLY: u8 = 1;

/// The first byte of an ack.
pub const PACKET_TYPE_ACK: u8 = 2;

/// A number in big endian.
pub open spec fn be_bytes(n: SeqNo) -> Seq<u8> {
    seq![
        (n / 0x100_0000) as u8,
        (n / 0x1_0000 % 0x100) as u8,
        (n / 0x100 % 0x100) as u8,
        (n % 0x100) as u8,
    ]
}

/// The number that four bytes from `at` on stand for in big endian.
pub open spec fn be_value(bytes: Seq<u8>, at: int) -> SeqNo {
    (bytes[at] * 0x100_0000 + bytes[at + 1] * 0x1_0000 + bytes[at + 2] * 0x100 + bytes[at
        + 3]) as SeqNo
}

/// A payload in bytes.
pub open spec fn payload_frame(seq_no: SeqNo, body: Seq<u8>) -> Seq<u8> {
    seq![PACKET_TYPE_PAYLOAD] + be_bytes(seq_no) + body
}

/// A reply in bytes.
pub open spec fn reply_frame(seq_no: SeqNo, reply_no: SeqNo, body: Seq<u8>) -> Seq<u8> {
    seq![PACKET_TYPE_REPLY] + be_bytes(seq_no) + be_bytes(reply_no) + body
}

/// An ack in bytes.
pub open spec fn ack_frame(reply_no: SeqNo) -> Seq<u8> {
    seq![PACKET_TYPE_ACK] + be_bytes(reply_no)
}

/// The sequence number and the reply number of a packet in bytes, if it is one.
pub open spec fn frame_numbers(frame: Seq<u8>) -> Option<(Option<SeqNo>, Option<SeqNo>)> {
    if frame.len() < 5 {
        None
    } else if frame[0] == PACKET_TYPE_PAYLOAD {
        Some((Some(be_value(frame, 1)), None))
    } else if frame[0] == PACKET_TYPE_ACK {
        Some((None, Some(be_value(frame, 1))))
    } else if frame[0] == PACKET_TYPE_REPLY && frame.len() >= 9 {
        Some((Some(be_value(frame, 1)), Some(be_value(frame, 5))))
    } else {
        None
    }
}

/// The data of a payload or reply in bytes.
pub open spec fn body_of(frame: Seq<u8>) -> Option<Seq<u8>> {
    if frame.len() >= 5 && frame[0] == PACKET_TYPE_PAYLOAD {
        Some(frame.subrange(5, frame.len() as int))
    } else if frame.len() >= 9 && frame[0] == PACKET_TYPE_REPLY {
        Some(frame.subrange(9, frame.len() as int))
    } else {
        None
    }
}

/// Appends a number in big endian.
fn push_be(frame: &mut Vec<u8>, n: SeqNo)
    ensures
        final(frame)@ == old(frame)@ + be_bytes(n),
{
    frame.push((n / 0x100_0000) as u8);
    frame.push((n / 0x1_0000 % 0x100) as u8);
    frame.push((n / 0x100 % 0x100) as u8);
    frame.push((n % 0x100) as u8);
    assert(frame@ =~= old(frame)@ + be_bytes(n));
}

/// Appends bytes.
pub(crate) fn push_all(frame: &mut Vec<u8>, body: &[u8])
    ensures
        final(frame)@ == old(frame)@ + body@,
{
    let mut i: usize = 0;
    while i < body.len()
        invariant
            i <= body.len(),
            frame@ == old(frame)@ + body@.subrange(0, i as int),
        decreases body.len() - i,
    {
        frame.push(body[i]);
        i += 1;
        assert(body@.subrange(0, i as int) =~= body@.subrange(0, i - 1).push(body@[i - 1]));
    }
    assert(body@.subrange(0, i as int) =~= body@);
}

/// Lays out a payload whose data is `body`.
pub fn create_payload(seq_no: SeqNo, body: &[u8]) -> (frame: Vec<u8>)
    ensures
        frame@ == payload_frame(seq_no, body@),
{
    let mut frame: Vec<u8> = Vec::new();
    frame.push(PACKET_TYPE_PAYLOAD);
    push_be(&mut frame, seq_no);
    push_all(&mut frame, body);
    assert(frame@ =~= payload_frame(seq_no, body@));
    frame
}

/// Lays out a reply whose data is `body`.
pub fn create_reply(seq_no: SeqNo, reply_no: SeqNo, body: &[u8]) -> (frame: Vec<u8>)
    ensures
        frame@ == reply_frame(seq_no, reply_no, body@),
{
    let mut frame: Vec<u8> = Vec::new();
    frame.push(PACKET_TYPE_REPLY);
    push_be(&mut frame, seq_no);
    push_be(&mut frame, reply_no);
    push_all(&mut frame, body);
    assert(frame@ =~= reply_frame(seq_no, reply_no, body@));
    frame
}

/// Lays out an ack.
pub fn create_ack(reply_no: SeqNo) -> (frame: Vec<u8>)
    ensures
        frame@ == ack_frame(reply_no),
{
    let mut frame: Vec<u8> = Vec::new();
    frame.push(PACKET_TYPE_ACK);
    push_be(&mut frame, reply_no);
    assert(frame@ =~= ack_frame(reply_no));
    frame
}

/// The number at `at`, if there are enough bytes.
fn read_be(frame: &Vec<u8>, at: usize) -> (n: Option<SeqNo>)
    requires
        at <= 5,
    ensures
        n is Some == (frame@.len() >= at + 4),
        n matches Some(v) ==> v == be_value(frame@, at as int),
{
    if frame.len() < at + 4 {
        return None;
    }
    Some(
        frame[at] as u32 * 0x100_0000 + frame[at + 1] as u32 * 0x1_0000 + frame[at + 2] as u32
            * 0x100 + frame[at + 3] as u32,
    )
}

/// Reads the type and the numbers of a packet. Its data is the whole frame.
pub fn parse_frame(frame: Vec<u8>) -> (packet: Option<Packet<Vec<u8>>>)
    ensures
        match (frame_numbers(frame@), packet) {
            (Some((seq_no, reply_no)), Some(p)) => {
                &&& p.seq_no() == seq_no
                &&& p.reply_no() == reply_no
                &&& !p.seq_cst()
                &&& p.data() == if seq_no is Some {
                    Some(frame)
                } else {
                    None
                }
            },
            (None, None) => true,
            _ => false,
        },
{
    if frame.len() == 0 {
        return None;
    }
    let first = read_be(&frame, 1);
    match frame[0] {
        PACKET_TYPE_ACK => match first {
            Some(reply_no) => Some(Packet::Ack(reply_no)),
            None => None,
        },
        PACKET_TYPE_PAYLOAD => match first {
            Some(seq_no) => Some(Packet::Payload(seq_no, frame)),
            None => None,
        },
        PACKET_TYPE_REPLY => match (first, read_be(&frame, 5)) {
            (Some(seq_no), Some(reply_no)) => Some(Packet::Reply(seq_no, reply_no, frame)),
            _ => None,
        },
        _ => None,
    }
}

/// Reads the data of a payload or reply.
pub fn frame_body(frame: &[u8]) -> (body: Option<&[u8]>)
    ensures
        match (body_of(frame@), body) {
            (Some(expected), Some(b)) => b@ == expected,
            (None, None) => true,
            _ => false,
        },
{
    if frame.len() == 0 {
        return None;
    }
    let offset: usize = match frame[0] {
        PACKET_TYPE_PAYLOAD => 5,
        PACKET_TYPE_REPLY => 9,
        _ => {
            return None;
        },
    };
    if frame.len() < offset {
        return None;
    }
    Some(slice_subrange(frame, offset, frame.len()))
}

/// Reading four bytes gives back the number that was written.
pub proof fn be_round_trip(n: SeqNo, bytes: Seq<u8>, at: int)
    requires
        0 <= at,
        at + 4 <= bytes.len(),
        bytes.subrange(at, at + 4) == be_bytes(n),
    ensures
        be_value(bytes, at) == n,
{
    let four = be_bytes(n);
    assert(bytes[at] == bytes.subrange(at, at + 4)[0]);
    assert(bytes[at + 1] == bytes.subrange(at, at + 4)[1]);
    assert(bytes[at + 2] == bytes.subrange(at, at + 4)[2]);
    assert(bytes[at + 3] == bytes.subrange(at, at + 4)[3]);
    assert(n / 0x100_0000 < 0x100) by (nonlinear_arith)
        requires
            n <= 0xffff_ffff,
    ;
    assert(four[0] == n / 0x100_0000);
    assert(four[1] == n / 0x1_0000 % 0x100);
    assert(four[2] == n / 0x100 % 0x100);
    assert(four[3] == n % 0x100);
}

/// What is read of a payload is what was laid out.
pub proof fn payload_round_trip(seq_no: SeqNo, body: Seq<u8>)
    ensures
        frame_numbers(payload_frame(seq_no, body)) == Some((Some(seq_no), None::<SeqNo>)),
        body_of(payload_frame(seq_no, body)) == Some(body),
{
    let frame = payload_frame(seq_no, body);
    assert(frame.subrange(1, 5) =~= be_bytes(seq_no));
    be_round_trip(seq_no, frame, 1);
    assert(frame.subrange(5, frame.len() as int) =~= body);
}

/// What is read of a reply is what was laid out.
pub proof fn reply_round_trip(seq_no: SeqNo, reply_no: SeqNo, body: Seq<u8>)
    ensures
        frame_numbers(reply_frame(seq_no, reply_no, body)) == Some(
            (Some(seq_no), Some(reply_no)),
        ),
        body_of(reply_frame(seq_no, reply_no, body)) == Some(body),
{
    let frame = reply_frame(seq_no, reply_no, body);
    assert(frame.subrange(1, 5) =~= be_bytes(seq_no));
    be_round_trip(seq_no, frame, 1);
    assert(frame.subrange(5, 9) =~= be_bytes(reply_no));
    be_round_trip(reply_no, frame, 5);
    assert(frame.subrange(9, frame.len() as int) =~= body);
}

/// What is read of an ack is what was laid out.
pub proof fn ack_round_trip(reply_no: SeqNo)
    ensures
        frame_numbers(ack_frame(reply_no)) == Some((None::<SeqNo>, Some(reply_no))),
        body_of(ack_frame(reply_no)) is None,
{
    let frame = ack_frame(reply_no);
    assert(frame.subrange(1, 5) =~= be_bytes(reply_no));
    be_round_trip(reply_no, frame, 1);
}

} // verus!
