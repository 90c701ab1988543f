//! Resending packets.
use super::layer::{all_untagged, Outgoing, TokioLayer};
use super::model::Tasks;
use super::{SeqEx, ServiceState};
use crate::seq_queue::min;
use crate::single_thread::{after_service, can_service, to_resend};
use crate::transport_layer::{Packet, TransportLayer};
use vstd::prelude::*;

verus! {

/// What the task that resends packets awaits before it goes on with `SeqEx::service_task`.
#[derive(Debug, Clone, Copy, PartialEq, Eq, Structural)]
pub enum ServiceWait {
    /// Nothing.
    Nothing,
    /// An update, for as many milliseconds.
    Update(u64),
    /// An update, for as long as it takes.
    UpdateForever,
}

impl ServiceState {
    /// What to await now. `tl` is asked for the time only if there is something to resend.
    pub fn wait<TL: TokioLayer>(&self, tl: &mut TL) -> (wait: ServiceWait)
        requires
            self@ < i64::MAX ==> forall|t: i64| #[trigger]
                old(tl).may_report(t) ==> i64::MIN <= self@ - t <= i64::MAX,
        ensures
            final(tl).sent() == old(tl).sent(),
            if self@ == i64::MAX {
                wait == ServiceWait::UpdateForever
            } else {
                exists|t: i64| #[trigger]
                    old(tl).may_report(t) && wait == if t < self@ {
                        ServiceWait::Update((self@ - t) as u64)
                    } else {
                        ServiceWait::Nothing
                    }
            },
    {
        if self.next_service_timestamp < i64::MAX {
            let now: i64 = tl.time();
            assert(old(tl).may_report(now));
            let diff: i64 = self.next_service_timestamp - now;
            if diff > 0 {
                ServiceWait::Update(diff as u64)
            } else {
                ServiceWait::Nothing
            }
        } else {
            ServiceWait::UpdateForever
        }
    }
}

/// Removing the tags commutes with appending packets.
proof fn lemma_untagged_add<Tag, S>(a: Seq<Packet<(Tag, S)>>, b: Seq<Packet<(Tag, S)>>)
    ensures
        all_untagged(a + b) == all_untagged(a) + all_untagged(b),
{
    assert(all_untagged(a + b) =~= all_untagged(a) + all_untagged(b));
}

impl<SendData, RecvData, const CAP: usize> SeqEx<SendData, RecvData, CAP> {
    /// Goes on with the service of the session once the update that `ServiceState::wait` asks for
    /// has come, or has not come in time: an update only brings the next service forward, and
    /// without one everything that is due is resent.
    ///
    /// This function must be called with the same `ServiceState` instance returned upon creation of
    /// this `SeqEx`.
    pub fn service_task<TL: TokioLayer<SendData = SendData>>(
        &mut self,
        tl: &mut TL,
        state: &mut ServiceState,
        update: Option<i64>,
    )
        requires
            old(self).wf(),
            update is None ==> forall|t: i64| #[trigger]
                old(tl).may_report(t) ==> can_service(old(self).tasks(old(tl).sent()).seq, t),
        ensures
            final(self).wf(),
            ({
                let pre = old(self).tasks(old(tl).sent());
                let post = final(self).tasks(final(tl).sent());
                match update {
                    Some(up) => {
                        &&& post == pre
                        &&& final(state)@ == min(old(state)@, up)
                    },
                    None => exists|t: i64|
                        {
                            &&& #[trigger] old(tl).may_report(t)
                            &&& post == (Tasks {
                                seq: after_service(pre.seq, t),
                                sent: pre.sent + all_untagged(to_resend(pre.seq, t)),
                                ..pre
                            })
                            &&& final(state)@ == post.seq.next_service_timestamp
                        },
                }
            }),
    {
        match update {
            Some(up) => {
                if up < state.next_service_timestamp {
                    state.next_service_timestamp = up;
                }
            },
            None => {
                let mut out = Outgoing::new(*tl);
                let ghost out_pre = out;
                let now: i64 = out.time();
                proof {
                    assert(out_pre.may_report(now));
                    assert(old(tl).may_report(now));
                    lemma_untagged_add(out_pre.sent(), to_resend(self.seq@, now));
                }
                self.seq.resend_due(&mut out, now);
                *tl = out.into_inner();
                state.next_service_timestamp = self.seq.service_timestamp();
            },
        }
    }
}

} // verus!
