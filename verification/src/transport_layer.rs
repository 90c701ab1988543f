//! The packets that two peers exchange, and the interface to whatever carries them.
use vstd::prelude::*;

verus! {

/// A 32-bit sequence number. Packets transported with SEQEX contain at least one
/// sequence number, and sometimes two.
/// All packets will either have a seq_no, a reply_no, or both.
pub type SeqNo = u32;

/// The resend interval for a default session.
pub const DEFAULT_RESEND_INTERVAL_MS: i64 = 250;

/// The initial sequence number for a default session.
pub const DEFAULT_INITIAL_SEQ_NO: SeqNo = 0;

/// The default maximum capacity of the SEQEX send and receive window.
/// The larger the capacity, the longer packets can be sent through SEQEX without needing to wait
/// for acknowledgements to arrive.
///
/// The memory usage of SEQEX increases linearly with this number.
pub const DEFAULT_WINDOW_CAP: usize = 64;

/// SEQEX is serialization agnostic. The user is free to choose whatever serialization format they
/// want for packets originating from SEQEX. All that is required is that this enum can be
/// serialized and deserialized accurately on both ends of a connection.
///
/// It is possible and even encouraged in real-time environments to carry a "channel id" along
/// with the serialized packet. That way each end of a SEQEX connection can run multiple instances
/// of SEQEX in parallel, each instance identified by the channel id, which avoids head-of-line
/// blocking even when SeqCst packets are being sent.
#[derive(Clone, Copy, Debug, PartialEq, Eq)]
pub enum Packet<RecvData> {
    /// A normal payload: the remote peer receives it exactly once, in no particular order
    /// relative to other payloads.
    ///
    /// The contained `SeqNo` is the packet sequence number.
    Payload(SeqNo, RecvData),
    /// A payload that is received exactly once and in order relative to other SeqCst payloads
    /// and replies. Any normal payload sent before it is received before it; normal payloads
    /// sent after it can be received in any order.
    ///
    /// The contained `SeqNo` is the packet sequence number.
    SeqCstPayload(SeqNo, RecvData),
    /// A normal reply to a received packet. Replies are unambiguous: the sender and the receiver
    /// of a reply always agree upon which packet it replies to.
    ///
    /// The first `SeqNo` is the packet sequence number, and the second is the packet reply number.
    Reply(SeqNo, SeqNo, RecvData),
    /// A reply to a received packet that is received in order relative to other SeqCst payloads
    /// and replies.
    ///
    /// The first `SeqNo` is the packet sequence number, and the second is the packet reply number.
    SeqCstReply(SeqNo, SeqNo, RecvData),
    /// An acknowledgement. It is sent in response to a received packet, unless the user has
    /// chosen to send a reply instead, and it ends the exchange.
    ///
    /// The contained `SeqNo` is the packet reply number.
    Ack(SeqNo),
}

impl<RecvData> Packet<RecvData> {
    /// The sequence number of a payload or reply.
    pub open spec fn seq_no(self) -> Option<SeqNo> {
        match self {
            Packet::Payload(s, _) => Some(s),
            Packet::SeqCstPayload(s, _) => Some(s),
            Packet::Reply(s, _, _) => Some(s),
            Packet::SeqCstReply(s, _, _) => Some(s),
            Packet::Ack(_) => None,
        }
    }

    /// The number of the packet that a reply or ack answers.
    pub open spec fn reply_no(self) -> Option<SeqNo> {
        match self {
            Packet::Payload(_, _) => None,
            Packet::SeqCstPayload(_, _) => None,
            Packet::Reply(_, r, _) => Some(r),
            Packet::SeqCstReply(_, r, _) => Some(r),
            Packet::Ack(r) => Some(r),
        }
    }

    /// Whether the packet has to be received in order.
    pub open spec fn seq_cst(self) -> bool {
        self is SeqCstPayload || self is SeqCstReply
    }

    /// The data of a payload or reply.
    pub open spec fn data(self) -> Option<RecvData> {
        match self {
            Packet::Payload(_, d) => Some(d),
            Packet::SeqCstPayload(_, d) => Some(d),
            Packet::Reply(_, _, d) => Some(d),
            Packet::SeqCstReply(_, _, d) => Some(d),
            Packet::Ack(_) => None,
        }
    }

    /// Everything that a packet consists of. No two packets have the same parts.
    pub open spec fn parts(self) -> (Option<SeqNo>, Option<SeqNo>, bool, Option<RecvData>) {
        (self.seq_no(), self.reply_no(), self.seq_cst(), self.data())
    }

    /// Whether two packets differ in nothing but the data that they carry.
    pub open spec fn same_header<T>(self, other: Packet<T>) -> bool {
        &&& self.seq_no() == other.seq_no()
        &&& self.reply_no() == other.reply_no()
        &&& self.seq_cst() == other.seq_cst()
    }

    /// The payload or reply with the given parts.
    pub open spec fn with_data(
        seq_no: SeqNo,
        reply_no: Option<SeqNo>,
        seq_cst: bool,
        data: RecvData,
    ) -> Self {
        match reply_no {
            None => if seq_cst {
                Packet::SeqCstPayload(seq_no, data)
            } else {
                Packet::Payload(seq_no, data)
            },
            Some(r) => if seq_cst {
                Packet::SeqCstReply(seq_no, r, data)
            } else {
                Packet::Reply(seq_no, r, data)
            },
        }
    }

    /// Create a new payload or reply packet.
    /// If `reply_no` is `None`, this will output a payload packet.
    /// If it is `Some`, this will output a reply packet.
    pub fn new_with_data(
        seq_no: SeqNo,
        reply_no: Option<SeqNo>,
        seq_cst: bool,
        data: RecvData,
    ) -> (packet: Self)
        ensures
            packet == Self::with_data(seq_no, reply_no, seq_cst, data),
            packet.parts() == (Some(seq_no), reply_no, seq_cst, Some(data)),
    {
        proof {
            let made = Self::with_data(seq_no, reply_no, seq_cst, data);
            assert(made.parts() == (Some(seq_no), reply_no, seq_cst, Some(data)));
        }
        Self::new(Some(seq_no), reply_no, seq_cst, Some(data)).unwrap()
    }

    /// Attempt to create a packet from raw parts, if the raw parts correctly specify some valid
    /// packet type within SEQEX.
    pub fn new(
        seq_no: Option<SeqNo>,
        reply_no: Option<SeqNo>,
        seq_cst: bool,
        data: Option<RecvData>,
    ) -> (packet: Option<Self>)
        ensures
            match packet {
                Some(p) => p.parts() == (seq_no, reply_no, seq_cst, data),
                None => forall|p: Self|
                    #![trigger p.parts()]
                    p.parts() != (seq_no, reply_no, seq_cst, data),
            },
    {
        match (seq_no, reply_no, seq_cst, data) {
            (Some(s), None, false, Some(d)) => Some(Packet::Payload(s, d)),
            (Some(s), None, true, Some(d)) => Some(Packet::SeqCstPayload(s, d)),
            (Some(s), Some(r), false, Some(d)) => Some(Packet::Reply(s, r, d)),
            (Some(s), Some(r), true, Some(d)) => Some(Packet::SeqCstReply(s, r, d)),
            (None, Some(r), false, None) => Some(Packet::Ack(r)),
            _ => None,
        }
    }

    /// Converts from `&Packet<RecvData>` to `Packet<&RecvData>`.
    pub fn as_ref(&self) -> (packet: Packet<&RecvData>)
        ensures
            packet.unref() == *self,
    {
        match self {
            Packet::Payload(seq_no, data) => Packet::Payload(*seq_no, data),
            Packet::SeqCstPayload(seq_no, data) => Packet::SeqCstPayload(*seq_no, data),
            Packet::Reply(seq_no, reply_no, data) => Packet::Reply(*seq_no, *reply_no, data),
            Packet::SeqCstReply(seq_no, reply_no, data) => Packet::SeqCstReply(
                *seq_no,
                *reply_no,
                data,
            ),
            Packet::Ack(reply_no) => Packet::Ack(*reply_no),
        }
    }

    /// Maps a `Packet<RecvData>` to `Packet<T>` by applying a function to the contained data
    /// (if this is a reply or payload variant) or by doing nothing (if this is the ack variant).
    pub fn map<T, F: FnOnce(RecvData) -> T>(self, f: F) -> (packet: Packet<T>)
        requires
            self.data() matches Some(d) ==> call_requires(f, (d,)),
        ensures
            packet.same_header(self),
            packet.data() is Some == self.data() is Some,
            self.data() matches Some(d) ==> call_ensures(f, (d,), packet.data()->0),
    {
        match self {
            Packet::Payload(seq_no, data) => Packet::Payload(seq_no, f(data)),
            Packet::SeqCstPayload(seq_no, data) => Packet::SeqCstPayload(seq_no, f(data)),
            Packet::Reply(seq_no, reply_no, data) => Packet::Reply(seq_no, reply_no, f(data)),
            Packet::SeqCstReply(seq_no, reply_no, data) => Packet::SeqCstReply(
                seq_no,
                reply_no,
                f(data),
            ),
            Packet::Ack(reply_no) => Packet::Ack(reply_no),
        }
    }

    /// Returns any data contained within this packet (if this is a reply or payload variant).
    pub fn payload(self) -> (data: Option<RecvData>)
        ensures
            data == self.data(),
    {
        self.consume().ok()
    }

    /// Returns any data contained within this packet (if this is a reply or payload variant), or
    /// an `Err` containing the reply_no of an acknowledgement (if this is an ack variant).
    pub fn consume(self) -> (data: Result<RecvData, SeqNo>)
        ensures
            match data {
                Ok(d) => self.data() == Some(d),
                Err(r) => self == Packet::<RecvData>::Ack(r),
            },
    {
        match self {
            Packet::Payload(_, data) => Ok(data),
            Packet::SeqCstPayload(_, data) => Ok(data),
            Packet::Reply(_, _, data) => Ok(data),
            Packet::SeqCstReply(_, _, data) => Ok(data),
            Packet::Ack(r) => Err(r),
        }
    }

    /// Returns true if this is a SeqCst payload or SeqCst reply.
    pub fn is_seq_cst(&self) -> (seq_cst: bool)
        ensures
            seq_cst == self.seq_cst(),
    {
        match self {
            Packet::SeqCstPayload(_, _) => true,
            Packet::SeqCstReply(_, _, _) => true,
            _ => false,
        }
    }

    /// If this is a reply or payload variant, this function will change it to a SeqCst variant if
    /// `seq_cst` is true, or to a normal variant if `seq_cst` is false.
    pub fn set_seq_cst(&mut self, seq_cst: bool)
        ensures
            final(self).parts() == (
                old(self).seq_no(),
                old(self).reply_no(),
                seq_cst && old(self).seq_no() is Some,
                old(self).data(),
            ),
    {
        let mut tmp = Packet::Ack(0);
        core::mem::swap(&mut tmp, self);
        *self = match tmp {
            Packet::Payload(seq_no, data) | Packet::SeqCstPayload(seq_no, data) => if seq_cst {
                Packet::SeqCstPayload(seq_no, data)
            } else {
                Packet::Payload(seq_no, data)
            },
            Packet::Reply(seq_no, reply_no, data) | Packet::SeqCstReply(seq_no, reply_no, data) =>
            if seq_cst {
                Packet::SeqCstReply(seq_no, reply_no, data)
            } else {
                Packet::Reply(seq_no, reply_no, data)
            },
            Packet::Ack(reply_no) => Packet::Ack(reply_no),
        };
    }
}

impl<'a, RecvData> Packet<&'a RecvData> {
    /// The same packet with its data in place of a reference to it.
    pub open spec fn unref(self) -> Packet<RecvData> {
        match self {
            Packet::Payload(s, d) => Packet::Payload(s, *d),
            Packet::SeqCstPayload(s, d) => Packet::SeqCstPayload(s, *d),
            Packet::Reply(s, r, d) => Packet::Reply(s, r, *d),
            Packet::SeqCstReply(s, r, d) => Packet::SeqCstReply(s, r, *d),
            Packet::Ack(r) => Packet::Ack(r),
        }
    }
}

impl<'a, RecvData: Clone> Packet<&'a RecvData> {
    /// Maps a `Packet<&RecvData>` to `Packet<RecvData>` by cloning any data it contains.
    pub fn cloned(&self) -> (packet: Packet<RecvData>)
        ensures
            packet.same_header(*self),
            packet.data() is Some == self.data() is Some,
            self.data() matches Some(d) ==> cloned(*d, packet.data()->0),
    {
        let copy = |d: &'a RecvData| -> (c: RecvData)
            ensures
                cloned(*d, c),
            { d.clone() };
        self.map(copy)
    }
}

/// A packet is determined by its parts.
pub proof fn parts_determine_packet<D>(a: Packet<D>, b: Packet<D>)
    requires
        a.parts() == b.parts(),
    ensures
        a == b,
{
}

/// Giving a packet's parts to `Packet::new` names exactly one packet, and the parts that no
/// packet has are those without a sequence number and data, unless they are just a reply number.
pub proof fn valid_parts<D>(
    seq_no: Option<SeqNo>,
    reply_no: Option<SeqNo>,
    seq_cst: bool,
    data: Option<D>,
)
    ensures
        (exists|p: Packet<D>| #[trigger] p.parts() == (seq_no, reply_no, seq_cst, data)) <==> ({
            ||| seq_no is Some && data is Some
            ||| seq_no is None && reply_no is Some && !seq_cst && data is None
        }),
{
    if seq_no is Some && data is Some {
        let p = Packet::with_data(seq_no->0, reply_no, seq_cst, data->0);
        assert(p.parts() == (seq_no, reply_no, seq_cst, data));
    } else if seq_no is None && reply_no is Some && !seq_cst && data is None {
        let p = Packet::<D>::Ack(reply_no->0);
        assert(p.parts() == (seq_no, reply_no, seq_cst, data));
    }
}

/// A trait for giving a session access to the transport layer.
///
/// The implementor is free to choose how to define the generic types based on how they want to
/// manage memory. They are most easily implemented as some combination of custom enums, `Vec<u8>`
/// and `Arc<[u8]>`.
pub trait TransportLayer<SendData>: Clone + Copy {
    /// Whether the next call of `time`, or one after it, may return `timestamp`. Any timestamp may
    /// be returned by an implementor that does not say more.
    open spec fn may_report(&self, timestamp: i64) -> bool {
        true
    }

    /// The packets that have been handed to `send`, in that order. It is left open how an
    /// implementor that does not say more keeps account of them.
    ///
    /// An implementor whose value does not change when a packet is sent, such as a shared reference,
    /// cannot keep account of what was sent: to meet what is said of `send`, a `Ghost` field has to
    /// carry the account along.
    open spec fn sent(&self) -> Seq<Packet<SendData>> {
        arbitrary::<spec_fn(Self) -> Seq<Packet<SendData>>>()(*self)
    }

    /// A callback that should return the current time in milliseconds.
    /// The source of this time does not have to be monotonic.
    ///
    /// The timestamp that this function returns can be the time at which this instance of
    /// `TransportLayer` was created/passed into a SEQEX function, rather than the time at which
    /// this function was called.
    fn time(&mut self) -> (timestamp: i64)
        ensures
            old(self).may_report(timestamp),
            forall|t: i64| #[trigger] final(self).may_report(t) ==> old(self).may_report(t),
            final(self).sent() == old(self).sent(),
    ;

    /// A callback that should attempt to serialize and send `packet` to the remote peer.
    fn send(&mut self, packet: Packet<&SendData>)
        ensures
            final(self).sent() == old(self).sent().push(packet.unref()),
    ;
}

} // verus!
