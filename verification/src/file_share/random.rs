//! What is left to chance: which packets are lost, and under which names files are downloaded.
use super::exchange::{Downloads, Message, SendData};
use super::frame::{frame_numbers, parse_frame};
use crate::transport_layer::{Packet, SeqNo};
use rand_core::RngCore;
use vstd::prelude::*;

verus! {

/// A random number, by `rand_core::OsRng`'s `next_u32`. Nothing is claimed of it: every number can
/// come. It panics if the operating system has no randomness to give.
#[verifier::external_body]
fn random_u32() -> (random: u32) {
    rand_core::OsRng.next_u32()
}

/// A random number, by `rand_core::OsRng`'s `next_u64`. Nothing is claimed of it: every number can
/// come. It panics if the operating system has no randomness to give.
#[verifier::external_body]
fn random_u64() -> (random: u64) {
    rand_core::OsRng.next_u64()
}

/// Whether a packet is lost for which `random` has been drawn. This is so for about a quarter of all
/// numbers.
pub fn is_dropped(random: u32) -> (dropped: bool)
    ensures
        dropped == (random >= u32::MAX / 4 * 3),
{
    random >= u32::MAX / 4 * 3
}

/// Whether the next packet is lost: about one in four is.
pub fn drop_packet() -> (dropped: bool) {
    is_dropped(random_u32())
}

/// What to do about a packet in bytes.
#[derive(Debug)]
pub enum Incoming {
    /// It is lost.
    Lost,
    /// It is not a packet. Stop receiving.
    Malformed,
    /// It is an ack. Receive it, and stop receiving.
    Ack(SeqNo),
    /// It is a payload or a reply. Receive it, and everything that can be processed after it.
    Exchange(Packet<Vec<u8>>),
}

/// Whether this is what to do about a packet that arrives.
pub open spec fn is_incoming(frame: Vec<u8>, incoming: Incoming) -> bool {
    match frame_numbers(frame@) {
        None => incoming is Malformed,
        Some((None, reply_no)) => reply_no is Some && incoming == Incoming::Ack(reply_no->0),
        Some((Some(seq_no), reply_no)) => {
            &&& incoming matches Incoming::Exchange(p)
            &&& p == Packet::with_data(seq_no, reply_no, false, frame)
        },
    }
}

/// Decides what to do about a packet in bytes, for which `random` has been drawn.
pub fn incoming(frame: Vec<u8>, random: u32) -> (incoming: Incoming)
    ensures
        if random >= u32::MAX / 4 * 3 {
            incoming is Lost
        } else {
            is_incoming(frame, incoming)
        },
{
    if is_dropped(random) {
        return Incoming::Lost;
    }
    match parse_frame(frame) {
        None => Incoming::Malformed,
        Some(Packet::Ack(reply_no)) => Incoming::Ack(reply_no),
        Some(packet) => Incoming::Exchange(packet),
    }
}

/// Decides what to do about a packet in bytes, some of which are lost.
pub fn incoming_with_loss(frame: Vec<u8>) -> (out: Incoming)
    ensures
        out is Lost || is_incoming(frame, out),
{
    incoming(frame, random_u32())
}

/// A name for a file to download.
pub fn new_file_id() -> (fileid: u64) {
    random_u64()
}

impl<F> Downloads<F> {
    /// Goes on after a file has been created, or could not be, like `created`, under a random name.
    pub fn created_at_random(&mut self, file: Option<F>) -> (reply: Option<(SendData<F>, Message)>)
        ensures
            match file {
                Some(f) => {
                    &&& reply matches Some((SendData::ConfirmDownload, Message::ConfirmDownload {
                        fileid,
                    }))
                    &&& final(self)@ == old(self)@.insert(fileid, f)
                },
                None => {
                    &&& final(self)@ == old(self)@
                    &&& reply is None
                },
            },
    {
        match file {
            Some(f) => self.created(Some(f), new_file_id()),
            None => None,
        }
    }
}

} // verus!
