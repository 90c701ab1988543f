//! Sending packets before a deadline.
use super::error::TrySendError;
use super::send::{can_produce, can_send, sends_now, sends_produced};
use super::shared::{wait_on, Shared, WaitOn};
use super::SeqEx;
use crate::transport_layer::{SeqNo, TransportLayer};
use vstd::prelude::*;

verus! {

/// How far a thread has come with `SeqEx::send_timeout` or `SeqEx::send_with_timeout`.
#[derive(Debug)]
pub enum TimedSendStep<D> {
    /// This is the result.
    Done(Result<Option<i64>, (TrySendError, D)>),
    /// Wait at most `millis` milliseconds, and go on with `SeqEx::send_timeout_again` or
    /// `SeqEx::send_with_timeout_again`.
    Wait {
        /// What to wait for.
        on: WaitOn,
        /// What is to be sent.
        data: D,
        /// How long to wait.
        millis: u64,
        /// When to give up.
        end_time: i64,
    },
}

/// When a send that starts at time `now` and may block for `timeout` milliseconds gives up.
pub open spec fn deadline(now: i64, timeout: i64) -> i64 {
    if now + timeout > i64::MAX {
        i64::MAX
    } else if now + timeout < i64::MIN {
        i64::MIN
    } else {
        (now + timeout) as i64
    }
}

/// How many milliseconds are left at time `now` until `end_time`.
pub open spec fn millis_left(now: i64, end_time: i64) -> int {
    if now < end_time {
        end_time - now
    } else {
        0
    }
}

/// What an attempt at time `now` that sends nothing does.
pub open spec fn timed_attempt_fails<S, R, TL: TransportLayer<S>, D>(
    pre: Shared<S, R>,
    tl: TL,
    now: i64,
    end_time: i64,
    data: D,
    post: Shared<S, R>,
    tl_post: TL,
    step: TimedSendStep<D>,
) -> bool {
    &&& tl_post.sent() == tl.sent()
    &&& if pre.closed {
        &&& step == TimedSendStep::Done(
            Err::<Option<i64>, (TrySendError, D)>((TrySendError::Closed, data)),
        )
        &&& post == pre
    } else {
        let on = wait_on(pre.seq.room(None)->Err_0);
        &&& step == (TimedSendStep::Wait {
            on,
            data,
            millis: millis_left(now, end_time) as u64,
            end_time,
        })
        &&& post == pre.waiting(on)
    }
}

/// One attempt of a thread to send `data` before `end_time`.
pub open spec fn timed_attempt<S, R, TL: TransportLayer<S>>(
    pre: Shared<S, R>,
    tl: TL,
    now: i64,
    end_time: i64,
    seq_cst: bool,
    data: S,
    post: Shared<S, R>,
    tl_post: TL,
    step: TimedSendStep<S>,
) -> bool {
    if !pre.closed && pre.seq.room(None) is Ok {
        &&& step matches TimedSendStep::Done(Ok(update))
        &&& sends_now(pre, tl, seq_cst, data, post, tl_post, update)
    } else {
        timed_attempt_fails(pre, tl, now, end_time, data, post, tl_post, step)
    }
}

/// One attempt of a thread to send what `f` produces before `end_time`.
pub open spec fn timed_with_attempt<S, R, TL: TransportLayer<S>, F: FnOnce(SeqNo) -> S>(
    pre: Shared<S, R>,
    tl: TL,
    now: i64,
    end_time: i64,
    seq_cst: bool,
    f: F,
    post: Shared<S, R>,
    tl_post: TL,
    step: TimedSendStep<F>,
) -> bool {
    if !pre.closed && pre.seq.room(None) is Ok {
        &&& step matches TimedSendStep::Done(Ok(update))
        &&& sends_produced(pre, tl, seq_cst, f, post, tl_post, update)
    } else {
        timed_attempt_fails(pre, tl, now, end_time, f, post, tl_post, step)
    }
}

/// Whether the time until `end_time` can be told at every time that the transport layer may report,
/// if the thread has to wait.
pub open spec fn can_tell_time_left<S, R, TL: TransportLayer<S>>(
    pre: Shared<S, R>,
    tl: TL,
    end_time: i64,
) -> bool {
    !pre.closed && pre.seq.room(None) is Err ==> forall|t: i64| #[trigger]
        tl.may_report(t) ==> end_time - t <= i64::MAX
}

/// What giving up does, to a sender that waited and has `data` left.
pub open spec fn times_out<S, R, TL: TransportLayer<S>, D>(
    waited: WaitOn,
    pre: Shared<S, R>,
    tl: TL,
    data: D,
    post: Shared<S, R>,
    tl_post: TL,
    step: TimedSendStep<D>,
) -> bool {
    let error = match waited {
        WaitOn::Recv => TrySendError::WaitingForRecv,
        WaitOn::Reply => TrySendError::WaitingForReply,
    };
    &&& step == TimedSendStep::Done(Err::<Option<i64>, (TrySendError, D)>((error, data)))
    &&& post == pre
    &&& tl_post.sent() == tl.sent()
}

/// When a send that starts at time `now` and may block for `timeout` milliseconds gives up.
fn give_up_at(now: i64, timeout: i64) -> (end_time: i64)
    ensures
        end_time == deadline(now, timeout),
{
    if timeout >= 0 {
        if now > i64::MAX - timeout {
            i64::MAX
        } else {
            now + timeout
        }
    } else if now < i64::MIN - timeout {
        i64::MIN
    } else {
        now + timeout
    }
}

/// How long a thread that has to give up at `end_time` can wait at time `now`.
fn time_left(now: i64, end_time: i64) -> (millis: u64)
    requires
        end_time - now <= i64::MAX,
    ensures
        millis == millis_left(now, end_time),
{
    if now < end_time {
        (end_time - now) as u64
    } else {
        0
    }
}

/// The error of a send that times out.
fn timeout_error(waited: WaitOn) -> (error: TrySendError)
    ensures
        error == match waited {
            WaitOn::Recv => TrySendError::WaitingForRecv,
            WaitOn::Reply => TrySendError::WaitingForReply,
        },
{
    match waited {
        WaitOn::Recv => TrySendError::WaitingForRecv,
        WaitOn::Reply => TrySendError::WaitingForReply,
    }
}

impl<SendData, RecvData, const CAP: usize> SeqEx<SendData, RecvData, CAP> {
    fn attempt_timed<TL: TransportLayer<SendData>>(
        &mut self,
        tl: &mut TL,
        now: i64,
        end_time: i64,
        seq_cst: bool,
        packet_data: SendData,
    ) -> (step: TimedSendStep<SendData>)
        requires
            old(self).wf(),
            can_send(old(self)@, *old(tl)),
            !old(self)@.closed && old(self)@.seq.room(None) is Err ==> end_time - now <= i64::MAX,
        ensures
            final(self).wf(),
            timed_attempt(
                old(self)@,
                *old(tl),
                now,
                end_time,
                seq_cst,
                packet_data,
                final(self)@,
                *final(tl),
                step,
            ),
    {
        if self.closed {
            return TimedSendStep::Done(Err((TrySendError::Closed, packet_data)));
        }
        let pre_nst: i64 = self.seq.service_timestamp();
        match self.seq.try_send(tl, seq_cst, packet_data) {
            Ok(()) => TimedSendStep::Done(Ok(self.update_since(pre_nst))),
            Err((e, data)) => TimedSendStep::Wait {
                on: self.start_waiting(e),
                data,
                millis: time_left(now, end_time),
                end_time,
            },
        }
    }

    fn attempt_timed_with<TL: TransportLayer<SendData>, F: FnOnce(SeqNo) -> SendData>(
        &mut self,
        tl: &mut TL,
        now: i64,
        end_time: i64,
        seq_cst: bool,
        f: F,
    ) -> (step: TimedSendStep<F>)
        requires
            old(self).wf(),
            can_send(old(self)@, *old(tl)),
            can_produce(old(self)@, f),
            !old(self)@.closed && old(self)@.seq.room(None) is Err ==> end_time - now <= i64::MAX,
        ensures
            final(self).wf(),
            timed_with_attempt(
                old(self)@,
                *old(tl),
                now,
                end_time,
                seq_cst,
                f,
                final(self)@,
                *final(tl),
                step,
            ),
    {
        if self.closed {
            return TimedSendStep::Done(Err((TrySendError::Closed, f)));
        }
        let pre_nst: i64 = self.seq.service_timestamp();
        match self.seq.try_send_with(tl, seq_cst, f) {
            Ok(()) => {
                let update = self.update_since(pre_nst);
                assert(sends_produced(old(self)@, *old(tl), seq_cst, f, self@, *tl, update));
                TimedSendStep::Done(Ok(update))
            },
            Err((e, f)) => TimedSendStep::Wait {
                on: self.start_waiting(e),
                data: f,
                millis: time_left(now, end_time),
                end_time,
            },
        }
    }

    /// Variant of `send` that will wait at most around `timeout` milliseconds.
    ///
    /// If this comes to `Err(TrySendError::WaitingForRecv)`, it timed out while it was waiting to
    /// receive an acknowledgement from the remote peer.
    /// If it comes to `Err(TrySendError::WaitingForReply)`, it timed out while it was waiting for a
    /// delinquent `ReplyGuard` to be dropped.
    /// It is guaranteed that, if it times out, at least `timeout` milliseconds have passed.
    ///
    /// This and `send_with_timeout` are the only functions that ask the transport layer for the
    /// time more than once. So that time should be accurate and monotonically increasing.
    pub fn send_timeout<TL: TransportLayer<SendData>>(
        &mut self,
        tl: &mut TL,
        seq_cst: bool,
        timeout: i64,
        packet_data: SendData,
    ) -> (step: TimedSendStep<SendData>)
        requires
            old(self).wf(),
            can_send(old(self)@, *old(tl)),
        ensures
            final(self).wf(),
            if old(self)@.closed {
                timed_attempt(
                    old(self)@,
                    *old(tl),
                    0,
                    0,
                    seq_cst,
                    packet_data,
                    final(self)@,
                    *final(tl),
                    step,
                )
            } else {
                exists|now: i64|
                    {
                        &&& #[trigger] old(tl).may_report(now)
                        &&& timed_attempt(
                            old(self)@,
                            *old(tl),
                            now,
                            deadline(now, timeout),
                            seq_cst,
                            packet_data,
                            final(self)@,
                            *final(tl),
                            step,
                        )
                    }
            },
    {
        if self.closed {
            return TimedSendStep::Done(Err((TrySendError::Closed, packet_data)));
        }
        let start_time: i64 = tl.time();
        let end_time: i64 = give_up_at(start_time, timeout);
        let step = self.attempt_timed(tl, start_time, end_time, seq_cst, packet_data);
        assert(old(tl).may_report(start_time));
        step
    }

    /// Goes on with `send_timeout` after the thread has waited.
    pub fn send_timeout_again<TL: TransportLayer<SendData>>(
        &mut self,
        waited: WaitOn,
        tl: &mut TL,
        end_time: i64,
        seq_cst: bool,
        packet_data: SendData,
    ) -> (step: TimedSendStep<SendData>)
        requires
            old(self).wf(),
            waited == WaitOn::Recv ==> old(self)@.recv_waiters > 0,
            can_send(old(self)@.resumed(waited), *old(tl)),
            can_tell_time_left(old(self)@, *old(tl), end_time),
        ensures
            final(self).wf(),
            exists|now: i64|
                #[trigger] old(tl).may_report(now) && if end_time <= now {
                    times_out(
                        waited,
                        old(self)@.resumed(waited),
                        *old(tl),
                        packet_data,
                        final(self)@,
                        *final(tl),
                        step,
                    )
                } else {
                    timed_attempt(
                        old(self)@.resumed(waited),
                        *old(tl),
                        now,
                        end_time,
                        seq_cst,
                        packet_data,
                        final(self)@,
                        *final(tl),
                        step,
                    )
                },
    {
        let now: i64 = tl.time();
        assert(old(tl).may_report(now));
        self.stop_waiting(waited);
        if end_time <= now {
            return TimedSendStep::Done(Err((timeout_error(waited), packet_data)));
        }
        self.attempt_timed(tl, now, end_time, seq_cst, packet_data)
    }

    /// Variant of `send_with` that will wait at most around `timeout` milliseconds.
    ///
    /// See the documentation for `send_timeout` for more information.
    pub fn send_with_timeout<TL: TransportLayer<SendData>, F: FnOnce(SeqNo) -> SendData>(
        &mut self,
        tl: &mut TL,
        seq_cst: bool,
        timeout: i64,
        f: F,
    ) -> (step: TimedSendStep<F>)
        requires
            old(self).wf(),
            can_send(old(self)@, *old(tl)),
            can_produce(old(self)@, f),
        ensures
            final(self).wf(),
            if old(self)@.closed {
                timed_with_attempt(
                    old(self)@,
                    *old(tl),
                    0,
                    0,
                    seq_cst,
                    f,
                    final(self)@,
                    *final(tl),
                    step,
                )
            } else {
                exists|now: i64|
                    {
                        &&& #[trigger] old(tl).may_report(now)
                        &&& timed_with_attempt(
                            old(self)@,
                            *old(tl),
                            now,
                            deadline(now, timeout),
                            seq_cst,
                            f,
                            final(self)@,
                            *final(tl),
                            step,
                        )
                    }
            },
    {
        if self.closed {
            return TimedSendStep::Done(Err((TrySendError::Closed, f)));
        }
        let start_time: i64 = tl.time();
        let end_time: i64 = give_up_at(start_time, timeout);
        let step = self.attempt_timed_with(tl, start_time, end_time, seq_cst, f);
        assert(old(tl).may_report(start_time));
        step
    }

    /// Goes on with `send_with_timeout` after the thread has waited.
    pub fn send_with_timeout_again<TL: TransportLayer<SendData>, F: FnOnce(SeqNo) -> SendData>(
        &mut self,
        waited: WaitOn,
        tl: &mut TL,
        end_time: i64,
        seq_cst: bool,
        f: F,
    ) -> (step: TimedSendStep<F>)
        requires
            old(self).wf(),
            waited == WaitOn::Recv ==> old(self)@.recv_waiters > 0,
            can_send(old(self)@.resumed(waited), *old(tl)),
            can_produce(old(self)@.resumed(waited), f),
            can_tell_time_left(old(self)@, *old(tl), end_time),
        ensures
            final(self).wf(),
            exists|now: i64|
                #[trigger] old(tl).may_report(now) && if end_time <= now {
                    times_out(
                        waited,
                        old(self)@.resumed(waited),
                        *old(tl),
                        f,
                        final(self)@,
                        *final(tl),
                        step,
                    )
                } else {
                    timed_with_attempt(
                        old(self)@.resumed(waited),
                        *old(tl),
                        now,
                        end_time,
                        seq_cst,
                        f,
                        final(self)@,
                        *final(tl),
                        step,
                    )
                },
    {
        let now: i64 = tl.time();
        assert(old(tl).may_report(now));
        self.stop_waiting(waited);
        if end_time <= now {
            return TimedSendStep::Done(Err((timeout_error(waited), f)));
        }
        self.attempt_timed_with(tl, now, end_time, seq_cst, f)
    }
}

} // verus!
