//! Receiving packets.
use super::error::{RecvError, TryRecvError};
use super::guard::ReplyGuard;
use super::shared::{Shared, Wake};
use super::SeqEx;
use crate::error::{RecvError as RawRecvError, TryError};
use crate::seq_queue::{pumps, RecvOkRaw};
use crate::single_thread::receives_and_resends;
use crate::transport_layer::{Packet, TransportLayer};
use vstd::prelude::*;

verus! {

/// When a packet received through `SeqEx` is ready to be processed,
/// it is returned as an instance of this enum.
///
/// This enum specifies what kind of packet was received, and any additional data associated with
/// the packet.
#[derive(Debug)]
pub enum RecvOk<SendData, RecvData> {
    /// The received packet is a payload.
    Payload {
        /// This type of packet can be optionally replied to, otherwise we need to send an ack.
        reply_guard: ReplyGuard,
        /// The data associated with the packet we just received from the remote peer.
        recv_data: RecvData,
    },
    /// The received packet is a reply to some packet we sent previously.
    Reply {
        /// This type of packet can be optionally replied to, otherwise we need to send an ack.
        reply_guard: ReplyGuard,
        /// The data associated with the packet we just received from the remote peer.
        recv_data: RecvData,
        /// The data associated with the packet that the received packet is a reply to.
        send_data: SendData,
    },
    /// The received packet is an acknowledgment of some packet we sent previously.
    Ack {
        /// The data associated with the packet that was acknowledged.
        send_data: SendData,
    },
}

impl<SendData, RecvData> RecvOk<SendData, RecvData> {
    /// Whether this is `raw` with a guard in place of the reply number.
    pub open spec fn is_guarded(self, raw: RecvOkRaw<SendData, RecvData>) -> bool {
        match raw {
            RecvOkRaw::Payload { reply_no, seq_cst, recv_data } => {
                &&& self matches RecvOk::Payload { reply_guard, recv_data: d }
                &&& d == recv_data
                &&& reply_guard.is_for(reply_no, seq_cst)
            },
            RecvOkRaw::Reply { reply_no, seq_cst, recv_data, send_data } => {
                &&& self matches RecvOk::Reply { reply_guard, recv_data: d, send_data: s }
                &&& d == recv_data
                &&& s == send_data
                &&& reply_guard.is_for(reply_no, seq_cst)
            },
            RecvOkRaw::Ack { send_data } => {
                &&& self matches RecvOk::Ack { send_data: s }
                &&& s == send_data
            },
        }
    }

    fn from_raw(value: RecvOkRaw<SendData, RecvData>) -> (ok: Self)
        ensures
            ok.is_guarded(value),
    {
        match value {
            RecvOkRaw::Payload { reply_no, seq_cst, recv_data } => RecvOk::Payload {
                reply_guard: ReplyGuard::new(reply_no, seq_cst),
                recv_data,
            },
            RecvOkRaw::Reply { reply_no, seq_cst, recv_data, send_data } => RecvOk::Reply {
                reply_guard: ReplyGuard::new(reply_no, seq_cst),
                recv_data,
                send_data,
            },
            RecvOkRaw::Ack { send_data } => RecvOk::Ack { send_data },
        }
    }

    /// What the packet brought, and what it answers.
    pub open spec fn content(self) -> (Option<(ReplyGuard, RecvData)>, Option<SendData>) {
        match self {
            RecvOk::Payload { reply_guard, recv_data } => (Some((reply_guard, recv_data)), None),
            RecvOk::Reply { reply_guard, recv_data, send_data } => (
                Some((reply_guard, recv_data)),
                Some(send_data),
            ),
            RecvOk::Ack { send_data } => (None, Some(send_data)),
        }
    }

    /// Takes the packet apart into what it brought and what it answers.
    pub fn consume(self) -> (content: (Option<(ReplyGuard, RecvData)>, Option<SendData>))
        ensures
            content == self.content(),
    {
        match self {
            RecvOk::Payload { reply_guard, recv_data } => (Some((reply_guard, recv_data)), None),
            RecvOk::Reply { reply_guard, recv_data, send_data } => (
                Some((reply_guard, recv_data)),
                Some(send_data),
            ),
            RecvOk::Ack { send_data } => (None, Some(send_data)),
        }
    }

    /// The inverse of `consume`. It fails only if there is neither anything brought nor anything
    /// answered.
    pub fn new(recv_data: Option<(ReplyGuard, RecvData)>, send_data: Option<SendData>) -> (ok:
        Option<Self>)
        ensures
            ok is None == (recv_data is None && send_data is None),
            ok matches Some(o) ==> o.content() == (recv_data, send_data),
    {
        match (recv_data, send_data) {
            (Some((reply_guard, recv_data)), None) => Some(
                RecvOk::Payload { reply_guard, recv_data },
            ),
            (Some((reply_guard, recv_data)), Some(send_data)) => Some(
                RecvOk::Reply { reply_guard, recv_data, send_data },
            ),
            (None, Some(send_data)) => Some(RecvOk::Ack { send_data }),
            (None, None) => None,
        }
    }
}

/// The error that `SeqEx::try_receive` makes of the error of the session.
pub open spec fn try_recv_error(e: RawRecvError) -> TryRecvError {
    match e {
        RawRecvError::DroppedTooEarly => TryRecvError::OutOfSequence,
        RawRecvError::DroppedDuplicate => TryRecvError::OutOfSequence,
        RawRecvError::WaitingForRecv => TryRecvError::OutOfSequence,
        RawRecvError::WaitingForReply => TryRecvError::WaitingForReply,
        RawRecvError::Closed => TryRecvError::Closed,
    }
}

/// What `SeqEx::try_receive` does with a packet.
pub open spec fn tries_to_receive<S, R, TL: TransportLayer<S>>(
    pre: Shared<S, R>,
    tl: TL,
    packet: Packet<R>,
    post: Shared<S, R>,
    tl_post: TL,
    result: Result<(RecvOk<S, R>, bool), TryRecvError>,
    wake: Wake,
) -> bool {
    if pre.closed {
        &&& post == pre
        &&& tl_post.sent() == tl.sent()
        &&& result is Err && result->Err_0 == TryRecvError::Closed
        &&& wake == Wake::Nobody
    } else {
        exists|raw: Result<(RecvOkRaw<S, R>, bool), RawRecvError>|
            {
                &&& #[trigger] receives_and_resends(pre.seq, tl, packet, post.seq, tl_post, raw)
                &&& post == pre.with_seq(post.seq)
                &&& match raw {
                    Ok((r, do_pump)) => {
                        &&& result is Ok
                        &&& result->Ok_0.0.is_guarded(r)
                        &&& result->Ok_0.1 == do_pump
                        &&& wake == pre.wake_recv()
                    },
                    Err(e) => {
                        &&& result is Err && result->Err_0 == try_recv_error(e)
                        &&& wake == Wake::Nobody
                    },
                }
            }
    }
}

/// What `SeqEx::try_pump` does.
pub open spec fn tries_to_pump<S, R>(
    pre: Shared<S, R>,
    post: Shared<S, R>,
    result: Result<(RecvOk<S, R>, bool), TryError>,
    wake: Wake,
) -> bool {
    exists|raw: Result<(RecvOkRaw<S, R>, bool), TryError>|
        {
            &&& #[trigger] pumps(pre.seq, post.seq, raw)
            &&& post == pre.with_seq(post.seq)
            &&& match raw {
                Ok((r, do_pump)) => {
                    &&& result is Ok
                    &&& result->Ok_0.0.is_guarded(r)
                    &&& result->Ok_0.1 == do_pump
                    &&& wake == pre.wake_recv()
                },
                Err(e) => {
                    &&& result is Err && result->Err_0 == e
                    &&& wake == Wake::Nobody
                },
            }
        }
}

/// How far a thread has come with `SeqEx::receive`.
#[derive(Debug)]
pub enum ReceiveStep<SendData, RecvData> {
    /// This is the result.
    Done(Result<(RecvOk<SendData, RecvData>, bool), RecvError>),
    /// The result is what `SeqEx::pump` gives, handed to `received_by_pump`.
    Pump,
}

/// How a thread goes on with `SeqEx::receive` after an attempt that does not block.
pub open spec fn receive_step<S, R>(
    result: Result<(RecvOk<S, R>, bool), TryRecvError>,
) -> ReceiveStep<S, R> {
    match result {
        Ok(ok) => ReceiveStep::Done(Ok(ok)),
        Err(TryRecvError::WaitingForReply) => ReceiveStep::Pump,
        Err(TryRecvError::OutOfSequence) => ReceiveStep::Done(Err(RecvError::OutOfSequence)),
        Err(TryRecvError::Closed) => ReceiveStep::Done(Err(RecvError::Closed)),
    }
}

/// How far a thread has come with `SeqEx::pump`.
#[derive(Debug)]
pub enum PumpStep<SendData, RecvData> {
    /// This is the result.
    Done(Option<(RecvOk<SendData, RecvData>, bool)>),
    /// Wait for a reply to be finished, and go on with `SeqEx::pump_again`.
    Wait,
}

/// One attempt of a thread to pump.
pub open spec fn pump_attempt<S, R>(
    pre: Shared<S, R>,
    post: Shared<S, R>,
    step: PumpStep<S, R>,
    wake: Wake,
) -> bool {
    match pre.seq.pump_check() {
        Ok(()) => {
            &&& step matches PumpStep::Done(Some(ok))
            &&& tries_to_pump(pre, post, Ok(ok), wake)
        },
        Err(TryError::WaitingForRecv) => {
            &&& step matches PumpStep::Done(None)
            &&& post == pre
            &&& wake == Wake::Nobody
        },
        Err(TryError::WaitingForReply) => {
            &&& step is Wait
            &&& post == (Shared { reply_receiver_waiters: true, ..pre })
            &&& wake == Wake::Nobody
        },
    }
}

impl<SendData, RecvData, const CAP: usize> SeqEx<SendData, RecvData, CAP> {
    /// A SEQEX packet was just received and deserialized from the transport layer.
    /// Passing it to this function officially writes it to the receive window so that it can be
    /// eventually processed with the SEQEX transport guarantees.
    ///
    /// If this function returns `Ok`, the contained boolean is true if `pump` should also
    /// be called, because there are packets ready to be processed in the receive window.
    pub fn try_receive<TL: TransportLayer<SendData>>(
        &mut self,
        tl: &mut TL,
        packet: Packet<RecvData>,
    ) -> (out: (Result<(RecvOk<SendData, RecvData>, bool), TryRecvError>, Wake))
        requires
            old(self).wf(),
        ensures
            final(self).wf(),
            tries_to_receive(
                old(self)@,
                *old(tl),
                packet,
                final(self)@,
                *final(tl),
                out.0,
                out.1,
            ),
    {
        if self.closed {
            return (Err(TryRecvError::Closed), Wake::Nobody);
        }
        let raw = self.seq.receive_raw(tl, packet);
        assert(receives_and_resends(old(self)@.seq, *old(tl), packet, self@.seq, *tl, raw));
        match raw {
            Ok((r, do_pump)) => (Ok((RecvOk::from_raw(r), do_pump)), self.notify_recv()),
            Err(e) => {
                let error = match e {
                    RawRecvError::DroppedTooEarly => TryRecvError::OutOfSequence,
                    RawRecvError::DroppedDuplicate => TryRecvError::OutOfSequence,
                    RawRecvError::WaitingForRecv => TryRecvError::OutOfSequence,
                    RawRecvError::WaitingForReply => TryRecvError::WaitingForReply,
                    RawRecvError::Closed => TryRecvError::Closed,
                };
                (Err(error), Wake::Nobody)
            },
        }
    }

    /// A SEQEX packet was just received and deserialized from the transport layer.
    /// Passing it to this function officially writes it to the receive window so that it can be
    /// eventually processed with the SEQEX transport guarantees.
    ///
    /// The thread may have to go on with `pump`, which may block to preserve lossless or in-order
    /// transport. In particular it will block to guarantee SeqCst packets are processed in the same
    /// order that they were sent.
    ///
    /// If we are waiting to receive packets from the remote peer, this will not block.
    pub fn receive<TL: TransportLayer<SendData>>(
        &mut self,
        tl: &mut TL,
        packet: Packet<RecvData>,
    ) -> (out: (ReceiveStep<SendData, RecvData>, Wake))
        requires
            old(self).wf(),
        ensures
            final(self).wf(),
            exists|result: Result<(RecvOk<SendData, RecvData>, bool), TryRecvError>|
                {
                    &&& #[trigger] tries_to_receive(
                        old(self)@,
                        *old(tl),
                        packet,
                        final(self)@,
                        *final(tl),
                        result,
                        out.1,
                    )
                    &&& out.0 == receive_step(result)
                },
    {
        let (result, wake) = self.try_receive(tl, packet);
        let step = match result {
            Ok(r) => ReceiveStep::Done(Ok(r)),
            Err(TryRecvError::WaitingForReply) => ReceiveStep::Pump,
            Err(TryRecvError::OutOfSequence) => ReceiveStep::Done(Err(RecvError::OutOfSequence)),
            Err(TryRecvError::Closed) => ReceiveStep::Done(Err(RecvError::Closed)),
        };
        let out = (step, wake);
        assert(tries_to_receive(old(self)@, *old(tl), packet, self@, *tl, result, out.1));
        out
    }

    /// Non-blocking variant of `pump`.
    pub fn try_pump(&mut self) -> (out: (
        Result<(RecvOk<SendData, RecvData>, bool), TryError>,
        Wake,
    ))
        requires
            old(self).wf(),
        ensures
            final(self).wf(),
            tries_to_pump(old(self)@, final(self)@, out.0, out.1),
    {
        let raw = self.seq.try_pump_raw();
        assert(pumps(old(self)@.seq, self@.seq, raw));
        match raw {
            Ok((r, do_pump)) => (Ok((RecvOk::from_raw(r), do_pump)), self.notify_recv()),
            Err(e) => (Err(e), Wake::Nobody),
        }
    }

    fn attempt_pump(&mut self) -> (out: (PumpStep<SendData, RecvData>, Wake))
        requires
            old(self).wf(),
        ensures
            final(self).wf(),
            pump_attempt(old(self)@, final(self)@, out.0, out.1),
    {
        match self.try_pump() {
            (Ok(ok), wake) => (PumpStep::Done(Some(ok)), wake),
            (Err(TryError::WaitingForRecv), _) => (PumpStep::Done(None), Wake::Nobody),
            (Err(TryError::WaitingForReply), _) => {
                self.reply_receiver_waiters = true;
                (PumpStep::Wait, Wake::Nobody)
            },
        }
    }

    /// Check if there are any packets in the receive window that can be processed.
    ///
    /// The thread may have to wait to preserve lossless or in-order transport.
    /// It will never have to if the receive window is empty (a.k.a. there is no data to receive).
    /// Only one thread waits to pump at a time.
    ///
    /// If this comes to `Some`, the contained boolean is true if `pump` should be called another
    /// time, because there are still packets ready to be processed in the receive window.
    pub fn pump(&mut self) -> (out: (PumpStep<SendData, RecvData>, Wake))
        requires
            old(self).wf(),
        ensures
            final(self).wf(),
            if old(self)@.reply_receiver_waiters {
                &&& out.0 matches PumpStep::Done(None)
                &&& out.1 == Wake::Nobody
                &&& final(self)@ == old(self)@
            } else {
                pump_attempt(old(self)@, final(self)@, out.0, out.1)
            },
    {
        if self.reply_receiver_waiters {
            (PumpStep::Done(None), Wake::Nobody)
        } else {
            self.attempt_pump()
        }
    }

    /// Goes on with `pump` after the thread has waited.
    pub fn pump_again(&mut self) -> (out: (PumpStep<SendData, RecvData>, Wake))
        requires
            old(self).wf(),
        ensures
            final(self).wf(),
            pump_attempt(
                (Shared { reply_receiver_waiters: false, ..old(self)@ }),
                final(self)@,
                out.0,
                out.1,
            ),
    {
        self.reply_receiver_waiters = false;
        self.attempt_pump()
    }
}

/// What `SeqEx::receive` comes to when it went on with `SeqEx::pump`.
pub fn received_by_pump<SendData, RecvData>(
    pumped: Option<(RecvOk<SendData, RecvData>, bool)>,
) -> (result: Result<(RecvOk<SendData, RecvData>, bool), RecvError>)
    ensures
        match pumped {
            Some(ok) => result == Ok::<(RecvOk<SendData, RecvData>, bool), RecvError>(ok),
            None => result is Err && result->Err_0 == RecvError::OutOfSequence,
        },
{
    match pumped {
        Some(ok) => Ok(ok),
        None => Err(RecvError::OutOfSequence),
    }
}

/// An iterator that goes through all packets that can currently be processed, by calling either
/// `SeqEx::pump` or `SeqEx::try_pump`.
#[derive(Debug)]
pub struct RecvIter<SendData, RecvData> {
    first: Option<RecvOk<SendData, RecvData>>,
    pumping: bool,
    blocking: bool,
}

/// How far a thread has come with `RecvIter::next`.
#[derive(Debug)]
pub enum IterStep<SendData, RecvData> {
    /// This is the result.
    Done(Option<RecvOk<SendData, RecvData>>),
    /// Call `SeqEx::pump`, and hand what it gives to `RecvIter::pumped`.
    Pump,
    /// Call `SeqEx::try_pump`, and hand what it gives to `RecvIter::pumped`.
    TryPump,
}

impl<SendData, RecvData> RecvIter<SendData, RecvData> {
    /// The packet that was received, and not handed out yet.
    pub closed spec fn first(self) -> Option<RecvOk<SendData, RecvData>> {
        self.first
    }

    /// Whether there may be more packets in the receive window.
    pub closed spec fn pumping(self) -> bool {
        self.pumping
    }

    /// Whether to wait for packets that cannot be processed yet.
    pub closed spec fn blocking(self) -> bool {
        self.blocking
    }

    /// An iterator that begins with the packet that was received, if there is one.
    pub fn new(received: Option<(RecvOk<SendData, RecvData>, bool)>, blocking: bool) -> (iter: Self)
        ensures
            iter.blocking() == blocking,
            match received {
                Some((first, do_pump)) => {
                    &&& iter.first() == Some(first)
                    &&& iter.pumping() == do_pump
                },
                None => {
                    &&& iter.first() is None
                    &&& !iter.pumping()
                },
            },
    {
        match received {
            Some((first, do_pump)) => RecvIter { first: Some(first), pumping: do_pump, blocking },
            None => RecvIter { first: None, pumping: false, blocking },
        }
    }

    /// Hands out the next packet, or says how to get it.
    pub fn next(&mut self) -> (step: IterStep<SendData, RecvData>)
        ensures
            final(self).first() is None,
            final(self).pumping() == old(self).pumping(),
            final(self).blocking() == old(self).blocking(),
            match old(self).first() {
                Some(item) => step == IterStep::Done(Some(item)),
                None => if !old(self).pumping() {
                    step == IterStep::Done(None::<RecvOk<SendData, RecvData>>)
                } else if old(self).blocking() {
                    step is Pump
                } else {
                    step is TryPump
                },
            },
    {
        match self.first.take() {
            Some(item) => IterStep::Done(Some(item)),
            None => if !self.pumping {
                IterStep::Done(None)
            } else if self.blocking {
                IterStep::Pump
            } else {
                IterStep::TryPump
            },
        }
    }

    /// Goes on with `next` after the session has been pumped.
    pub fn pumped(&mut self, pumped: Option<(RecvOk<SendData, RecvData>, bool)>) -> (item: Option<
        RecvOk<SendData, RecvData>,
    >)
        ensures
            final(self).first() == old(self).first(),
            final(self).blocking() == old(self).blocking(),
            match pumped {
                Some((ok, do_pump)) => {
                    &&& item == Some(ok)
                    &&& final(self).pumping() == (old(self).pumping() && do_pump)
                },
                None => {
                    &&& item is None
                    &&& final(self).pumping() == old(self).pumping()
                },
            },
    {
        match pumped {
            Some((ok, do_pump)) => {
                if !do_pump {
                    self.pumping = false;
                }
                Some(ok)
            },
            None => None,
        }
    }
}

impl<SendData, RecvData, const CAP: usize> SeqEx<SendData, RecvData, CAP> {
    /// Similar to `try_receive`, except this function will return an iterator which
    /// calls `try_pump` as many times as it can before either the receive
    /// window is empty, or one of the calls would block.
    pub fn try_receive_all<TL: TransportLayer<SendData>>(
        &mut self,
        tl: &mut TL,
        packet: Packet<RecvData>,
    ) -> (out: (RecvIter<SendData, RecvData>, Wake))
        requires
            old(self).wf(),
        ensures
            final(self).wf(),
            !out.0.blocking(),
            exists|result: Result<(RecvOk<SendData, RecvData>, bool), TryRecvError>|
                {
                    &&& #[trigger] tries_to_receive(
                        old(self)@,
                        *old(tl),
                        packet,
                        final(self)@,
                        *final(tl),
                        result,
                        out.1,
                    )
                    &&& match result {
                        Ok((first, do_pump)) => {
                            &&& out.0.first() == Some(first)
                            &&& out.0.pumping() == do_pump
                        },
                        Err(_) => {
                            &&& out.0.first() is None
                            &&& !out.0.pumping()
                        },
                    }
                },
    {
        let (result, wake) = self.try_receive(tl, packet);
        let ghost received = result;
        let iter = match result {
            Ok(ok) => RecvIter::new(Some(ok), false),
            Err(_) => RecvIter::new(None, false),
        };
        let out = (iter, wake);
        assert(tries_to_receive(old(self)@, *old(tl), packet, self@, *tl, received, out.1));
        out
    }

    /// Similar to `receive`, except this function will return an iterator which
    /// calls `pump` as many times as needed to empty the receive window.
    ///
    /// If this returns `None`, the thread has to go on with `pump`, and to make the iterator of what
    /// that gives.
    pub fn receive_all<TL: TransportLayer<SendData>>(
        &mut self,
        tl: &mut TL,
        packet: Packet<RecvData>,
    ) -> (out: (Option<RecvIter<SendData, RecvData>>, Wake))
        requires
            old(self).wf(),
        ensures
            final(self).wf(),
            exists|result: Result<(RecvOk<SendData, RecvData>, bool), TryRecvError>|
                {
                    &&& #[trigger] tries_to_receive(
                        old(self)@,
                        *old(tl),
                        packet,
                        final(self)@,
                        *final(tl),
                        result,
                        out.1,
                    )
                    &&& match result {
                        Ok((first, do_pump)) => {
                            &&& out.0 matches Some(iter)
                            &&& iter.first() == Some(first)
                            &&& iter.pumping() == do_pump
                            &&& iter.blocking()
                        },
                        Err(TryRecvError::WaitingForReply) => out.0 is None,
                        Err(_) => {
                            &&& out.0 matches Some(iter)
                            &&& iter.first() is None
                            &&& !iter.pumping()
                            &&& iter.blocking()
                        },
                    }
                },
    {
        let (result, wake) = self.try_receive(tl, packet);
        let ghost received = result;
        let iter = match result {
            Ok(ok) => Some(RecvIter::new(Some(ok), true)),
            Err(TryRecvError::WaitingForReply) => None,
            Err(_) => Some(RecvIter::new(None, true)),
        };
        let out = (iter, wake);
        assert(tries_to_receive(old(self)@, *old(tl), packet, self@, *tl, received, out.1));
        out
    }
}

} // verus!
