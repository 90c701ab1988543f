//! The mathematical model of a session: what one peer remembers, and what each event does to it.
use crate::error::TryError;
use crate::seq_queue::{RecvEntry, SendEntry};
use crate::transport_layer::{Packet, SeqNo};
use vstd::multiset::Multiset;
use vstd::prelude::*;

verus! {

/// Where a packet with sequence number `seq_no` belongs in a window of `cap` slots.
pub open spec fn slot(seq_no: SeqNo, cap: nat) -> int {
    seq_no as int % cap as int
}

/// How many slots of the receive window hold the number of a packet that was handed out ahead of
/// its turn.
pub open spec fn unlocked_count<R>(window: Seq<RecvEntry<R>>) -> nat
    decreases window.len(),
{
    if window.len() == 0 {
        0
    } else {
        unlocked_count(window.drop_last()) + if window.last() is Unlocked {
            1nat
        } else {
            0
        }
    }
}

/// Overwriting an unlocked slot leaves one unlocked slot fewer.
pub proof fn lemma_unlocked_update<R>(window: Seq<RecvEntry<R>>, i: int, entry: RecvEntry<R>)
    requires
        0 <= i < window.len(),
        window[i] is Unlocked,
        entry !is Unlocked,
    ensures
        unlocked_count(window.update(i, entry)) + 1 == unlocked_count(window),
    decreases window.len(),
{
    let updated = window.update(i, entry);
    if i == window.len() - 1 {
        assert(updated.drop_last() =~= window.drop_last());
    } else {
        assert(updated.drop_last() =~= window.drop_last().update(i, entry));
        lemma_unlocked_update(window.drop_last(), i, entry);
    }
}

/// The receive window and the next expected number after everything that was handed out ahead of
/// its turn, and is next now, has been passed over.
pub open spec fn fast_forward<R>(window: Seq<RecvEntry<R>>, next: SeqNo) -> (
    Seq<RecvEntry<R>>,
    SeqNo,
)
    decreases unlocked_count(window),
{
    let i = slot(next, window.len());
    if 0 <= i < window.len() && window[i] is Unlocked {
        proof {
            lemma_unlocked_update(window, i, RecvEntry::Empty);
        }
        fast_forward(window.update(i, RecvEntry::Empty), next.wrapping_add(1))
    } else {
        (window, next)
    }
}

/// How many packets wait in the receive window.
pub open spec fn held_count<R>(window: Seq<RecvEntry<R>>) -> nat
    decreases window.len(),
{
    if window.len() == 0 {
        0
    } else {
        held_count(window.drop_last()) + if window.last() is Occupied {
            1nat
        } else {
            0
        }
    }
}

/// No more packets wait in a receive window than it has slots.
pub proof fn lemma_held_count_bound<R>(window: Seq<RecvEntry<R>>)
    ensures
        held_count(window) <= window.len(),
    decreases window.len(),
{
    if window.len() > 0 {
        lemma_held_count_bound(window.drop_last());
    }
}

/// Emptying a slot takes away the packet in it, if there is one.
pub proof fn lemma_held_count_emptied<R>(window: Seq<RecvEntry<R>>, i: int)
    requires
        0 <= i < window.len(),
    ensures
        held_count(window) == held_count(window.update(i, RecvEntry::Empty)) + if window[i] is Occupied {
            1nat
        } else {
            0
        },
    decreases window.len(),
{
    let updated = window.update(i, RecvEntry::Empty);
    if i == window.len() - 1 {
        assert(updated.drop_last() =~= window.drop_last());
    } else {
        assert(updated.drop_last() =~= window.drop_last().update(i, RecvEntry::Empty));
        lemma_held_count_emptied(window.drop_last(), i);
    }
}

/// Passing over what was handed out ahead of its turn takes no waiting packet away.
pub proof fn lemma_held_count_fast_forward<R>(window: Seq<RecvEntry<R>>, next: SeqNo)
    ensures
        held_count(fast_forward(window, next).0) == held_count(window),
        fast_forward(window, next).0.len() == window.len(),
    decreases unlocked_count(window),
{
    let i = slot(next, window.len());
    if 0 <= i < window.len() && window[i] is Unlocked {
        lemma_unlocked_update(window, i, RecvEntry::Empty);
        lemma_held_count_emptied(window, i);
        lemma_held_count_fast_forward(
            window.update(i, RecvEntry::Empty),
            next.wrapping_add(1),
        );
    }
}

/// The earliest resend time among the packets in slots `lo` to `hi` of a send window, or
/// `i64::MAX` where there is none.
pub open spec fn earliest<S>(window: Seq<Option<SendEntry<S>>>, lo: int, hi: int) -> i64
    decreases hi - lo,
{
    if lo >= hi {
        i64::MAX
    } else {
        let rest = earliest(window, lo, hi - 1);
        match window[hi - 1] {
            Some(entry) => if entry.next_resend_time < rest {
                entry.next_resend_time
            } else {
                rest
            },
            None => rest,
        }
    }
}

/// Whether slot `i` of a send window holds a packet that should be resent at time `now`.
pub open spec fn is_due<S>(window: Seq<Option<SendEntry<S>>>, i: int, now: i64) -> bool {
    window[i] matches Some(entry) && entry.next_resend_time <= now
}

/// What becomes of a received payload or reply.
pub enum Verdict {
    /// It was handed out before, and the answer to it is on its way or still to come.
    Duplicate,
    /// It was handed out before, and nothing but an ack will answer it.
    ResendAck,
    /// It lies beyond the receive window.
    TooEarly,
    /// It is lost, because there is no room for a reply to it until a reply number is returned. The
    /// remote peer will send it again.
    NoRoom,
    /// It is saved until another packet is received.
    HoldForRecv,
    /// It is SeqCst, and is saved until the reply number that holds the lock is returned.
    HoldForReply,
    /// It is handed to the application.
    Deliver,
}

/// What one peer remembers of a session.
#[verifier::ext_equal]
#[verifier::reject_recursive_types(S)]
#[verifier::reject_recursive_types(R)]
pub struct SeqState<S, R> {
    /// How long a packet stays unacknowledged before it is resent.
    pub resend_interval: i64,
    /// Nothing has to be resent before this time.
    pub next_service_timestamp: i64,
    /// The sequence number of the next packet to be sent.
    pub next_send: SeqNo,
    /// The lowest sequence number that has not been handed to the application.
    pub next_recv: SeqNo,
    /// The packets that have been sent and not been answered.
    pub send_window: Seq<Option<SendEntry<S>>>,
    /// The packets that wait for their turn, and the numbers of those that did not have to.
    pub recv_window: Seq<RecvEntry<R>>,
    /// The reply numbers that have been issued and not been returned.
    pub replies: Multiset<SeqNo>,
    /// Whether a SeqCst packet is being processed.
    pub locked: bool,
}

impl<S, R> SeqState<S, R> {
    /// The state of a session in which nothing has been sent or received.
    pub open spec fn initial(cap: nat, resend_interval: i64, initial_seq_no: SeqNo) -> Self {
        SeqState {
            resend_interval,
            next_service_timestamp: i64::MAX,
            next_send: initial_seq_no,
            next_recv: initial_seq_no,
            send_window: Seq::new(cap, |i: int| None),
            recv_window: Seq::new(cap, |i: int| RecvEntry::Empty),
            replies: Multiset::empty(),
            locked: false,
        }
    }

    /// The number of slots of each window.
    pub open spec fn cap(self) -> nat {
        self.send_window.len()
    }

    /// What every operation keeps.
    pub open spec fn wf(self) -> bool {
        &&& 2 <= self.cap() <= u32::MAX
        &&& self.recv_window.len() == self.cap()
        &&& self.replies.len() <= self.cap() - 2
    }

    // ---- sending ----

    /// Whether the `i`th packet sent from now on would find its slot of the send window taken,
    /// by a packet other than the one that `reply_no` answers.
    pub open spec fn blocked(self, i: int, reply_no: Option<SeqNo>) -> bool {
        let at = slot(self.next_send.wrapping_add(i as u32), self.cap());
        &&& self.send_window[at] is Some
        &&& !(reply_no matches Some(r) && slot(r, self.cap()) == at)
    }

    /// Whether there is room to send one packet more than all the issued reply numbers may take,
    /// counting the slot of the packet that `reply_no` answers as free, and what to wait for
    /// where there is none.
    pub open spec fn room(self, reply_no: Option<SeqNo>) -> Result<(), TryError> {
        if self.replies.len() >= self.cap() - 2 {
            Err(TryError::WaitingForReply)
        } else if self.blocked(0, reply_no) {
            Err(TryError::WaitingForRecv)
        } else if exists|i: int| 1 <= i <= self.replies.len() && self.blocked(i, reply_no) {
            Err(TryError::WaitingForReply)
        } else {
            Ok(())
        }
    }

    /// Whether a packet sent at time `now` has a resend time that an `i64` can hold.
    pub open spec fn can_schedule(self, now: i64) -> bool {
        i64::MIN <= now + self.resend_interval <= i64::MAX
    }

    /// When a packet that is sent at time `now` should be resent.
    pub open spec fn resend_time(self, now: i64) -> i64 {
        (now + self.resend_interval) as i64
    }

    /// The record of a packet that is sent now.
    pub open spec fn next_entry(
        self,
        now: i64,
        reply_no: Option<SeqNo>,
        seq_cst: bool,
        data: S,
    ) -> SendEntry<S> {
        SendEntry {
            seq_no: self.next_send,
            reply_no,
            seq_cst,
            next_resend_time: self.resend_time(now),
            data,
        }
    }

    /// The state after a packet has been sent.
    pub open spec fn sent(
        self,
        now: i64,
        reply_no: Option<SeqNo>,
        seq_cst: bool,
        data: S,
    ) -> Self {
        SeqState {
            next_send: self.next_send.wrapping_add(1),
            next_service_timestamp: if self.next_service_timestamp > self.resend_time(now) {
                self.resend_time(now)
            } else {
                self.next_service_timestamp
            },
            send_window: self.send_window.update(
                slot(self.next_send, self.cap()),
                Some(self.next_entry(now, reply_no, seq_cst, data)),
            ),
            ..self
        }
    }

    /// The data of the unanswered packet with the number `seq_no`.
    pub open spec fn unanswered(self, seq_no: SeqNo) -> Option<S> {
        match self.send_window[slot(seq_no, self.cap())] {
            Some(entry) => if entry.seq_no == seq_no {
                Some(entry.data)
            } else {
                None
            },
            None => None,
        }
    }

    /// The state after the packet with the number `seq_no` has been answered.
    pub open spec fn answered(self, seq_no: SeqNo) -> Self {
        if self.unanswered(seq_no) is Some {
            SeqState {
                send_window: self.send_window.update(slot(seq_no, self.cap()), None),
                ..self
            }
        } else {
            self
        }
    }

    /// The data of the packet that `reply_no` answers, where there is one.
    pub open spec fn answered_data(self, reply_no: Option<SeqNo>) -> Option<S> {
        match reply_no {
            Some(r) => self.unanswered(r),
            None => None,
        }
    }

    // ---- receiving ----

    /// How far `seq_no` is ahead of the next expected number.
    pub open spec fn offset(self, seq_no: SeqNo) -> SeqNo {
        seq_no.wrapping_sub(self.next_recv)
    }

    /// Whether `seq_no` comes before the next expected number.
    pub open spec fn is_behind(self, seq_no: SeqNo) -> bool {
        self.offset(seq_no) > 0x7fff_ffff
    }

    /// Whether `seq_no` lies beyond the receive window.
    pub open spec fn is_ahead(self, seq_no: SeqNo) -> bool {
        !self.is_behind(seq_no) && self.offset(seq_no) >= self.cap()
    }

    /// Whether the packet with the number `seq_no` has been handed to the application.
    pub open spec fn is_received(self, seq_no: SeqNo) -> bool {
        ||| self.is_behind(seq_no)
        ||| !self.is_ahead(seq_no) && self.recv_window[slot(seq_no, self.cap())]
            == (RecvEntry::<R>::Unlocked { seq_no })
    }

    /// Whether a reply to the packet with the number `seq_no` has been sent and not been answered.
    pub open spec fn has_reply_to(self, seq_no: SeqNo) -> bool {
        exists|i: int|
            0 <= i < self.cap() && (#[trigger] self.send_window[i] matches Some(entry)
                && entry.reply_no == Some(seq_no))
    }

    /// Whether something other than a resent ack will answer the packet with the number `seq_no`.
    pub open spec fn will_answer(self, seq_no: SeqNo) -> bool {
        self.has_reply_to(seq_no) || self.replies.count(seq_no) > 0
    }

    /// What becomes of a payload or reply that arrives now.
    pub open spec fn verdict(
        self,
        seq_no: SeqNo,
        reply_no: Option<SeqNo>,
        seq_cst: bool,
    ) -> Verdict {
        if self.is_received(seq_no) {
            if self.will_answer(seq_no) {
                Verdict::Duplicate
            } else {
                Verdict::ResendAck
            }
        } else if self.is_ahead(seq_no) {
            Verdict::TooEarly
        } else {
            match self.room(reply_no) {
                Err(TryError::WaitingForRecv) => Verdict::HoldForRecv,
                Err(TryError::WaitingForReply) => Verdict::NoRoom,
                Ok(()) => if seq_cst && seq_no != self.next_recv {
                    Verdict::HoldForRecv
                } else if seq_cst && self.locked {
                    Verdict::HoldForReply
                } else {
                    Verdict::Deliver
                },
            }
        }
    }

    /// Whether the slot for `seq_no` in the receive window is free.
    pub open spec fn can_hold(self, seq_no: SeqNo) -> bool {
        self.recv_window[slot(seq_no, self.cap())] is Empty
    }

    /// The state after a packet has been saved to the receive window.
    pub open spec fn held(
        self,
        seq_no: SeqNo,
        reply_no: Option<SeqNo>,
        seq_cst: bool,
        data: R,
    ) -> Self {
        SeqState {
            recv_window: self.recv_window.update(
                slot(seq_no, self.cap()),
                RecvEntry::Occupied { seq_no, reply_no, seq_cst, data },
            ),
            ..self
        }
    }

    /// The state after the next expected packet has been taken.
    pub open spec fn passed(self) -> Self {
        let (recv_window, next_recv) = fast_forward(
            self.recv_window.update(slot(self.next_recv, self.cap()), RecvEntry::Empty),
            self.next_recv.wrapping_add(1),
        );
        SeqState { recv_window, next_recv, ..self }
    }

    /// The state after a packet has been taken that was not the next expected one.
    pub open spec fn unlocked(self, seq_no: SeqNo) -> Self {
        SeqState {
            recv_window: self.recv_window.update(
                slot(seq_no, self.cap()),
                RecvEntry::Unlocked { seq_no },
            ),
            ..self
        }
    }

    /// The state after the reply number `seq_no` has been issued for a packet that is a reply to
    /// `reply_no`.
    pub open spec fn issued(self, seq_no: SeqNo, reply_no: Option<SeqNo>, seq_cst: bool) -> Self {
        let reserved = SeqState {
            replies: self.replies.insert(seq_no),
            locked: self.locked || seq_cst,
            ..self
        };
        match reply_no {
            Some(r) => reserved.answered(r),
            None => reserved,
        }
    }

    /// The state after a received packet has been handed to the application.
    pub open spec fn delivered(
        self,
        seq_no: SeqNo,
        reply_no: Option<SeqNo>,
        seq_cst: bool,
    ) -> Self {
        let taken = if seq_no == self.next_recv {
            self.passed()
        } else {
            self.unlocked(seq_no)
        };
        taken.issued(seq_no, reply_no, seq_cst)
    }

    /// Whether a packet waits in the receive window that is the next expected one.
    pub open spec fn can_pump(self) -> bool {
        self.recv_window[slot(self.next_recv, self.cap())] is Occupied
    }

    /// Whether a packet that waits in the receive window can be handed out, and what to wait for
    /// where it cannot.
    pub open spec fn pump_check(self) -> Result<(), TryError> {
        match self.recv_window[slot(self.next_recv, self.cap())] {
            RecvEntry::Occupied { seq_no, reply_no, seq_cst, data } => match self.room(reply_no) {
                Err(e) => Err(e),
                Ok(()) => if seq_cst && self.locked {
                    Err(TryError::WaitingForReply)
                } else {
                    Ok(())
                },
            },
            _ => Err(TryError::WaitingForRecv),
        }
    }

    // ---- answering ----

    /// The state after the reply number `reply_no` has been returned.
    pub open spec fn returned(self, reply_no: SeqNo, unlock: bool) -> Self {
        SeqState {
            replies: self.replies.remove(reply_no),
            locked: self.locked && !unlock,
            ..self
        }
    }

    /// The state after the session has been unlocked.
    pub open spec fn unlocked_session(self) -> Self {
        SeqState { locked: false, ..self }
    }

    /// The state after a pass over the send window has ended.
    pub open spec fn serviced(self, next_service_timestamp: i64) -> Self {
        SeqState { next_service_timestamp, ..self }
    }

    // ---- resending ----

    /// Whether there is nothing to resend.
    pub open spec fn is_idle(self) -> bool {
        forall|i: int| 0 <= i < self.cap() ==> #[trigger] self.send_window[i] is None
    }

    /// The state after the packet in slot `i` of the send window has been resent.
    pub open spec fn resent(self, i: int, now: i64) -> Self {
        let entry = self.send_window[i]->0;
        SeqState {
            send_window: self.send_window.update(
                i,
                Some(SendEntry { next_resend_time: self.resend_time(now), ..entry }),
            ),
            ..self
        }
    }
}

/// The packet that a record in the send window stands for.
pub open spec fn packet_of<S>(entry: SendEntry<S>) -> Packet<S> {
    Packet::with_data(entry.seq_no, entry.reply_no, entry.seq_cst, entry.data)
}

} // verus!
