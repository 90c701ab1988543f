//! Handing messages to the tasks that await them.
use vstd::prelude::*;

verus! {

/// The sending half of a channel for one message, which a task awaits.
#[verifier::external_type_specification]
#[verifier::external_body]
#[verifier::reject_recursive_types(M)]
pub struct ExOneshotSender<M>(tokio::sync::oneshot::Sender<M>);

/// The history of the messages that have been handed to awaiting tasks.
#[verifier::reject_recursive_types(M)]
pub struct Deliveries<M> {
    log: Ghost<Seq<(tokio::sync::oneshot::Sender<M>, M, bool)>>,
}

impl<M> View for Deliveries<M> {
    type V = Seq<(tokio::sync::oneshot::Sender<M>, M, bool)>;

    /// Each channel, the message that was handed to it, and whether some task still awaited it.
    closed spec fn view(&self) -> Seq<(tokio::sync::oneshot::Sender<M>, M, bool)> {
        self.log@
    }
}

impl<M> Deliveries<M> {
    /// The history of a session in which nothing has been handed to a task.
    pub fn new() -> (deliveries: Self)
        ensures
            deliveries@.len() == 0,
    {
        Deliveries { log: Ghost(Seq::empty()) }
    }

    /// Hands `message` to the task that awaits it, by `tokio::sync::oneshot::Sender::send`, and
    /// tells whether that task is still there to take it. The history, which exists in proofs only,
    /// records the call.
    ///
    /// Nothing is claimed of whether a task is there: that depends on what the task has done.
    #[verifier::external_body]
    pub(crate) fn deliver(
        &mut self,
        to: tokio::sync::oneshot::Sender<M>,
        message: M,
    ) -> (delivered: bool)
        ensures
            final(self)@ == old(self)@.push((to, message, delivered)),
    {
        to.send(message).is_ok()
    }
}

} // verus!
