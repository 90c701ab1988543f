//! Sending packets.
use super::error::{ClosedError, TrySendError};
use super::shared::{decreased, wait_on, Shared, WaitOn};
use super::SeqEx;
use crate::error::TryError;
use crate::single_thread::{can_schedule, sends};
use crate::transport_layer::{SeqNo, TransportLayer};
use vstd::prelude::*;
use vstd::std_specs::convert::FromSpec;

verus! {

/// How far a thread has come with `SeqEx::send` or `SeqEx::send_with`.
#[derive(Debug)]
pub enum SendStep<D> {
    /// This is the result.
    Done(Result<Option<i64>, ClosedError>),
    /// Wait, and go on with `SeqEx::send_again` or `SeqEx::send_with_again`.
    Wait(WaitOn, D),
}

/// What a send that finds room does.
pub open spec fn sends_now<S, R, TL: TransportLayer<S>>(
    pre: Shared<S, R>,
    tl: TL,
    seq_cst: bool,
    data: S,
    post: Shared<S, R>,
    tl_post: TL,
    update: Option<i64>,
) -> bool {
    &&& sends(pre.seq, tl, seq_cst, data, post.seq, tl_post)
    &&& post == pre.with_seq(post.seq)
    &&& update == decreased(pre.seq.next_service_timestamp, post.seq.next_service_timestamp)
}

/// What a send with data that `f` produces does, if it finds room.
pub open spec fn sends_produced<S, R, TL: TransportLayer<S>, F: FnOnce(SeqNo) -> S>(
    pre: Shared<S, R>,
    tl: TL,
    seq_cst: bool,
    f: F,
    post: Shared<S, R>,
    tl_post: TL,
    update: Option<i64>,
) -> bool {
    exists|data: S|
        {
            &&& #[trigger] call_ensures(f, (pre.seq.next_send,), data)
            &&& sends_now(pre, tl, seq_cst, data, post, tl_post, update)
        }
}

/// Whether a send can be attempted: what is sent has a resend time, and a sender that has to wait
/// can be counted.
pub open spec fn can_send<S, R, TL: TransportLayer<S>>(pre: Shared<S, R>, tl: TL) -> bool {
    pre.closed || match pre.seq.room(None) {
        Ok(()) => can_schedule(pre.seq, tl),
        Err(TryError::WaitingForRecv) => pre.recv_waiters < usize::MAX,
        Err(TryError::WaitingForReply) => true,
    }
}

/// Whether `f` can be called for the next packet, if that is sent.
pub open spec fn can_produce<S, R, F: FnOnce(SeqNo) -> S>(pre: Shared<S, R>, f: F) -> bool {
    !pre.closed && pre.seq.room(None) is Ok ==> call_requires(f, (pre.seq.next_send,))
}

/// What an attempt that sends nothing does.
pub open spec fn send_attempt_fails<S, R, TL: TransportLayer<S>, D>(
    pre: Shared<S, R>,
    tl: TL,
    data: D,
    post: Shared<S, R>,
    tl_post: TL,
    step: SendStep<D>,
) -> bool {
    &&& tl_post.sent() == tl.sent()
    &&& if pre.closed {
        &&& step matches SendStep::Done(Err(_))
        &&& post == pre
    } else {
        let on = wait_on(pre.seq.room(None)->Err_0);
        &&& step == SendStep::Wait(on, data)
        &&& post == pre.waiting(on)
    }
}

/// One attempt of a thread to send `data`.
pub open spec fn send_attempt<S, R, TL: TransportLayer<S>>(
    pre: Shared<S, R>,
    tl: TL,
    seq_cst: bool,
    data: S,
    post: Shared<S, R>,
    tl_post: TL,
    step: SendStep<S>,
) -> bool {
    if !pre.closed && pre.seq.room(None) is Ok {
        &&& step matches SendStep::Done(Ok(update))
        &&& sends_now(pre, tl, seq_cst, data, post, tl_post, update)
    } else {
        send_attempt_fails(pre, tl, data, post, tl_post, step)
    }
}

/// One attempt of a thread to send what `f` produces.
pub open spec fn send_with_attempt<S, R, TL: TransportLayer<S>, F: FnOnce(SeqNo) -> S>(
    pre: Shared<S, R>,
    tl: TL,
    seq_cst: bool,
    f: F,
    post: Shared<S, R>,
    tl_post: TL,
    step: SendStep<F>,
) -> bool {
    if !pre.closed && pre.seq.room(None) is Ok {
        &&& step matches SendStep::Done(Ok(update))
        &&& sends_produced(pre, tl, seq_cst, f, post, tl_post, update)
    } else {
        send_attempt_fails(pre, tl, f, post, tl_post, step)
    }
}

impl<SendData, RecvData, const CAP: usize> SeqEx<SendData, RecvData, CAP> {
    /// The timestamp of when `service_scheduled` should be called next, if it is earlier than
    /// `pre`.
    pub(crate) fn update_since(&self, pre: i64) -> (update: Option<i64>)
        ensures
            update == decreased(pre, self@.seq.next_service_timestamp),
    {
        let nst: i64 = self.seq.service_timestamp();
        if pre > nst {
            Some(nst)
        } else {
            None
        }
    }

    /// Non-blocking variant of `send` that allows for a provided function to write data to
    /// the send window.
    ///
    /// This function receives the packet sequence number the packet will be assigned.
    ///
    /// A return value of `Ok` contains the timestamp of when `service_scheduled` should be called
    /// next, only if it has decreased.
    pub fn try_send_with<TL: TransportLayer<SendData>, F: FnOnce(SeqNo) -> SendData>(
        &mut self,
        tl: &mut TL,
        seq_cst: bool,
        f: F,
    ) -> (result: Result<Option<i64>, (TrySendError, F)>)
        requires
            old(self).wf(),
            !old(self)@.closed && old(self)@.seq.room(None) is Ok ==> can_schedule(
                old(self)@.seq,
                *old(tl),
            ),
            can_produce(old(self)@, f),
        ensures
            final(self).wf(),
            if old(self)@.closed {
                &&& result == Err::<Option<i64>, (TrySendError, F)>((TrySendError::Closed, f))
                &&& final(self)@ == old(self)@
                &&& final(tl).sent() == old(tl).sent()
            } else {
                match old(self)@.seq.room(None) {
                    Ok(()) => {
                        &&& result is Ok
                        &&& sends_produced(
                            old(self)@,
                            *old(tl),
                            seq_cst,
                            f,
                            final(self)@,
                            *final(tl),
                            result->Ok_0,
                        )
                    },
                    Err(e) => {
                        &&& result == Err::<Option<i64>, (TrySendError, F)>(
                            (TrySendError::from_spec(e), f),
                        )
                        &&& final(self)@ == old(self)@
                        &&& final(tl).sent() == old(tl).sent()
                    },
                }
            },
    {
        if self.closed {
            return Err((TrySendError::Closed, f));
        }
        let pre_nst: i64 = self.seq.service_timestamp();
        match self.seq.try_send_with(tl, seq_cst, f) {
            Ok(()) => {
                let update = self.update_since(pre_nst);
                assert(sends_produced(old(self)@, *old(tl), seq_cst, f, self@, *tl, update));
                Ok(update)
            },
            Err((e, f)) => Err((TrySendError::from(e), f)),
        }
    }

    /// Non-blocking variant of `send`.
    ///
    /// A return value of `Ok` contains the timestamp of when `service_scheduled` should be called
    /// next, only if it has decreased.
    pub fn try_send<TL: TransportLayer<SendData>>(
        &mut self,
        tl: &mut TL,
        seq_cst: bool,
        packet_data: SendData,
    ) -> (result: Result<Option<i64>, (TrySendError, SendData)>)
        requires
            old(self).wf(),
            !old(self)@.closed && old(self)@.seq.room(None) is Ok ==> can_schedule(
                old(self)@.seq,
                *old(tl),
            ),
        ensures
            final(self).wf(),
            if old(self)@.closed {
                &&& result == Err::<Option<i64>, (TrySendError, SendData)>(
                    (TrySendError::Closed, packet_data),
                )
                &&& final(self)@ == old(self)@
                &&& final(tl).sent() == old(tl).sent()
            } else {
                match old(self)@.seq.room(None) {
                    Ok(()) => {
                        &&& result is Ok
                        &&& sends_now(
                            old(self)@,
                            *old(tl),
                            seq_cst,
                            packet_data,
                            final(self)@,
                            *final(tl),
                            result->Ok_0,
                        )
                    },
                    Err(e) => {
                        &&& result == Err::<Option<i64>, (TrySendError, SendData)>(
                            (TrySendError::from_spec(e), packet_data),
                        )
                        &&& final(self)@ == old(self)@
                        &&& final(tl).sent() == old(tl).sent()
                    },
                }
            },
    {
        if self.closed {
            return Err((TrySendError::Closed, packet_data));
        }
        let pre_nst: i64 = self.seq.service_timestamp();
        match self.seq.try_send(tl, seq_cst, packet_data) {
            Ok(()) => Ok(self.update_since(pre_nst)),
            Err((e, data)) => Err((TrySendError::from(e), data)),
        }
    }

    /// Counts a sender that has to wait.
    pub(crate) fn start_waiting(&mut self, e: TryError) -> (on: WaitOn)
        requires
            old(self).wf(),
            e is WaitingForRecv ==> old(self)@.recv_waiters < usize::MAX,
        ensures
            final(self).wf(),
            on == wait_on(e),
            final(self)@ == old(self)@.waiting(on),
    {
        match e {
            TryError::WaitingForRecv => {
                self.recv_waiters += 1;
                WaitOn::Recv
            },
            TryError::WaitingForReply => {
                self.reply_sender_waiters = true;
                WaitOn::Reply
            },
        }
    }

    /// Counts out a sender that has waited.
    pub(crate) fn stop_waiting(&mut self, on: WaitOn)
        requires
            old(self).wf(),
            on == WaitOn::Recv ==> old(self)@.recv_waiters > 0,
        ensures
            final(self).wf(),
            final(self)@ == old(self)@.resumed(on),
    {
        match on {
            WaitOn::Recv => {
                self.recv_waiters -= 1;
            },
            WaitOn::Reply => {},
        }
    }

    /// Add the given `packet_data` to the send window, to be sent immediately, and to be resent
    /// if the payload is not successfully received by the remote peer.
    ///
    /// If either the send or receive window is full, the thread has to wait until they are not.
    ///
    /// This can only come to `Err(ClosedError)` if the function `close` has been called.
    ///
    /// Comes to the timestamp of when `service_scheduled` should be called next, only if it has
    /// decreased. This can be safely ignored if `service_scheduled` is not being used.
    pub fn send<TL: TransportLayer<SendData>>(
        &mut self,
        tl: &mut TL,
        seq_cst: bool,
        packet_data: SendData,
    ) -> (step: SendStep<SendData>)
        requires
            old(self).wf(),
            can_send(old(self)@, *old(tl)),
        ensures
            final(self).wf(),
            send_attempt(
                old(self)@,
                *old(tl),
                seq_cst,
                packet_data,
                final(self)@,
                *final(tl),
                step,
            ),
    {
        if self.closed {
            return SendStep::Done(Err(ClosedError));
        }
        let pre_nst: i64 = self.seq.service_timestamp();
        match self.seq.try_send(tl, seq_cst, packet_data) {
            Ok(()) => SendStep::Done(Ok(self.update_since(pre_nst))),
            Err((e, data)) => SendStep::Wait(self.start_waiting(e), data),
        }
    }

    /// Goes on with `send` after the thread has waited.
    pub fn send_again<TL: TransportLayer<SendData>>(
        &mut self,
        waited: WaitOn,
        tl: &mut TL,
        seq_cst: bool,
        packet_data: SendData,
    ) -> (step: SendStep<SendData>)
        requires
            old(self).wf(),
            waited == WaitOn::Recv ==> old(self)@.recv_waiters > 0,
            can_send(old(self)@.resumed(waited), *old(tl)),
        ensures
            final(self).wf(),
            send_attempt(
                old(self)@.resumed(waited),
                *old(tl),
                seq_cst,
                packet_data,
                final(self)@,
                *final(tl),
                step,
            ),
    {
        self.stop_waiting(waited);
        self.send(tl, seq_cst, packet_data)
    }

    /// Variant of `send` that allows for a provided function to write data to the send window.
    ///
    /// This function receives the packet sequence number the packet will be assigned.
    pub fn send_with<TL: TransportLayer<SendData>, F: FnOnce(SeqNo) -> SendData>(
        &mut self,
        tl: &mut TL,
        seq_cst: bool,
        f: F,
    ) -> (step: SendStep<F>)
        requires
            old(self).wf(),
            can_send(old(self)@, *old(tl)),
            can_produce(old(self)@, f),
        ensures
            final(self).wf(),
            send_with_attempt(old(self)@, *old(tl), seq_cst, f, final(self)@, *final(tl), step),
    {
        if self.closed {
            return SendStep::Done(Err(ClosedError));
        }
        let pre_nst: i64 = self.seq.service_timestamp();
        match self.seq.try_send_with(tl, seq_cst, f) {
            Ok(()) => {
                let update = self.update_since(pre_nst);
                assert(sends_produced(old(self)@, *old(tl), seq_cst, f, self@, *tl, update));
                SendStep::Done(Ok(update))
            },
            Err((e, f)) => SendStep::Wait(self.start_waiting(e), f),
        }
    }

    /// Goes on with `send_with` after the thread has waited.
    pub fn send_with_again<TL: TransportLayer<SendData>, F: FnOnce(SeqNo) -> SendData>(
        &mut self,
        waited: WaitOn,
        tl: &mut TL,
        seq_cst: bool,
        f: F,
    ) -> (step: SendStep<F>)
        requires
            old(self).wf(),
            waited == WaitOn::Recv ==> old(self)@.recv_waiters > 0,
            can_send(old(self)@.resumed(waited), *old(tl)),
            can_produce(old(self)@.resumed(waited), f),
        ensures
            final(self).wf(),
            send_with_attempt(
                old(self)@.resumed(waited),
                *old(tl),
                seq_cst,
                f,
                final(self)@,
                *final(tl),
                step,
            ),
    {
        self.stop_waiting(waited);
        self.send_with(tl, seq_cst, f)
    }
}

} // verus!
