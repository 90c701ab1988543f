//! What each operation of a session does, told by nothing but numbers, windows and times.
//!
//! Every law here speaks of a function itself: of whatever it may return, and of whatever state it
//! may leave behind, where it was called with the given arguments.
use crate::error::{TryError, TryRawRecvError};
use crate::model::{fast_forward, lemma_held_count_fast_forward};
use crate::model::{lemma_unlocked_update, slot, unlocked_count};
use crate::model::{SeqState, Verdict};
use crate::seq_queue::{holds, pumps, receives, RecvEntry, RecvOkRaw, SendEntry, SeqEx};
use crate::transport_layer::{Packet, SeqNo};
use vstd::prelude::*;

pub mod callable;
pub mod errors;
pub mod layered;
pub mod packets;
pub mod plainly;
pub mod walking;
pub mod resending;

verus! {

// ---- words ----

/// The slot of a window of `cap` slots that belongs to the `i`th number after `first`, where
/// numbers start again from zero after the last one.
pub open spec fn nth(first: SeqNo, i: int, cap: nat) -> int {
    ((first + i) % 0x1_0000_0000) % (cap as int)
}

/// How many numbers it takes to count from `next` to `seq_no`.
pub open spec fn distance(next: SeqNo, seq_no: SeqNo) -> int {
    (seq_no - next) % 0x1_0000_0000
}

/// The packet with the given numbers and data.
pub open spec fn made<D>(seq_no: SeqNo, reply_no: Option<SeqNo>, seq_cst: bool, data: D) -> Packet<
    D,
> {
    match (reply_no, seq_cst) {
        (None, false) => Packet::Payload(seq_no, data),
        (None, true) => Packet::SeqCstPayload(seq_no, data),
        (Some(r), false) => Packet::Reply(seq_no, r, data),
        (Some(r), true) => Packet::SeqCstReply(seq_no, r, data),
    }
}

/// Whether the slot of the `i`th packet from now on is taken, by a packet that `reply_no` does not
/// make room for.
pub open spec fn is_taken<S, R>(st: SeqState<S, R>, i: int, reply_no: Option<SeqNo>) -> bool {
    let k = nth(st.next_send, i, st.send_window.len());
    st.send_window[k] is Some && !(reply_no matches Some(r) && nth(r, 0, st.send_window.len()) == k)
}

/// Whether one more packet can be sent, or handed out, without taking the slot of a reply that may
/// still be sent.
pub open spec fn has_room<S, R>(st: SeqState<S, R>, reply_no: Option<SeqNo>) -> bool {
    &&& st.replies.len() < st.send_window.len() - 2
    &&& forall|i: int| 0 <= i <= st.replies.len() ==> !(#[trigger] is_taken(st, i, reply_no))
}

/// What has to happen before there is room.
pub open spec fn awaits<S, R>(st: SeqState<S, R>, reply_no: Option<SeqNo>) -> TryError {
    if st.replies.len() < st.send_window.len() - 2 && is_taken(st, 0, reply_no) {
        TryError::WaitingForRecv
    } else {
        TryError::WaitingForReply
    }
}

/// Whether two states differ in nothing but their send windows, the number of the next packet to
/// be sent, and when something has to be resent next.
pub open spec fn same_but_sending<S, R>(a: SeqState<S, R>, b: SeqState<S, R>) -> bool {
    &&& b.resend_interval == a.resend_interval
    &&& b.next_recv == a.next_recv
    &&& b.recv_window == a.recv_window
}

/// Whether `b` is `a` after a packet has been sent at time `now`: it has the next number, and is
/// kept in the slot of that number, to be resent after the resend interval.
pub open spec fn is_sent<S, R>(
    a: SeqState<S, R>,
    now: i64,
    reply_no: Option<SeqNo>,
    seq_cst: bool,
    data: S,
    b: SeqState<S, R>,
) -> bool {
    let k = nth(a.next_send, 0, a.send_window.len());
    let due = now + a.resend_interval;
    &&& same_but_sending(a, b)
    &&& b.next_send == (a.next_send + 1) % 0x1_0000_0000
    &&& b.send_window.len() == a.send_window.len()
    &&& b.send_window[k] == Some(
        SendEntry { seq_no: a.next_send, reply_no, seq_cst, next_resend_time: due as i64, data },
    )
    &&& forall|i: int|
        0 <= i < a.send_window.len() && i != k ==> #[trigger] b.send_window[i] == a.send_window[i]
    &&& b.next_service_timestamp == if due < a.next_service_timestamp {
        due
    } else {
        a.next_service_timestamp as int
    }
}

pub(crate) proof fn lemma_room<S, R>(st: SeqState<S, R>, reply_no: Option<SeqNo>)
    requires
        st.wf(),
    ensures
        st.room(reply_no) is Ok <==> has_room(st, reply_no),
        st.room(reply_no) is Err ==> st.room(reply_no)->Err_0 == awaits(st, reply_no),
{
    assert forall|i: int| 0 <= i < st.cap() implies #[trigger] is_taken(st, i, reply_no)
        == st.blocked(i, reply_no) by {
        assert(st.next_send.wrapping_add(i as u32) == (st.next_send + i) % 0x1_0000_0000);
    }
    assert(is_taken(st, 0, reply_no) == st.blocked(0, reply_no));
    if has_room(st, reply_no) {
        assert forall|i: int| 1 <= i <= st.replies.len() implies !st.blocked(i, reply_no) by {
            assert(!is_taken(st, i, reply_no));
        }
    } else if st.replies.len() < st.cap() - 2 && !is_taken(st, 0, reply_no) {
        let i = choose|i: int|
            0 <= i <= st.replies.len() && #[trigger] is_taken(st, i, reply_no);
        assert(st.blocked(i, reply_no));
    }
}

pub(crate) proof fn lemma_sent<S, R>(
    st: SeqState<S, R>,
    now: i64,
    reply_no: Option<SeqNo>,
    seq_cst: bool,
    data: S,
)
    requires
        st.wf(),
        st.can_schedule(now),
    ensures
        is_sent(st, now, reply_no, seq_cst, data, st.sent(now, reply_no, seq_cst, data)),
        st.sent(now, reply_no, seq_cst, data).replies == st.replies,
        st.sent(now, reply_no, seq_cst, data).locked == st.locked,
{
    assert(0 <= slot(st.next_send, st.cap()) < st.cap());
}

// ---- making a session ----

/// A new session has sent and received nothing, and has nothing to resend.
pub proof fn new_session_is_empty<S, R, const CAP: usize>(
    interval: i64,
    first: SeqNo,
    seq: SeqEx<S, R, CAP>,
)
    requires
        call_ensures(SeqEx::<S, R, CAP>::new, (interval, first), seq),
    ensures
        seq@.send_window.len() == CAP,
        seq@.recv_window.len() == CAP,
        forall|i: int| 0 <= i < CAP ==> #[trigger] seq@.send_window[i] is None,
        forall|i: int| 0 <= i < CAP ==> #[trigger] seq@.recv_window[i] is Empty,
        forall|n: SeqNo| #[trigger] seq@.replies.count(n) == 0,
        seq@.next_send == first,
        seq@.next_recv == first,
        !seq@.locked,
        seq@.resend_interval == interval,
        seq@.next_service_timestamp == i64::MAX,
{
}

/// A default session starts with the number 0 and resends after 200 milliseconds.
pub proof fn default_session_is_empty<S, R, const CAP: usize>(seq: SeqEx<S, R, CAP>)
    requires
        call_ensures(<SeqEx<S, R, CAP> as Default>::default, (), seq),
    ensures
        seq@.send_window.len() == CAP,
        seq@.recv_window.len() == CAP,
        forall|i: int| 0 <= i < CAP ==> #[trigger] seq@.send_window[i] is None,
        forall|i: int| 0 <= i < CAP ==> #[trigger] seq@.recv_window[i] is Empty,
        forall|n: SeqNo| #[trigger] seq@.replies.count(n) == 0,
        seq@.next_send == 0,
        seq@.next_recv == 0,
        !seq@.locked,
        seq@.resend_interval == 200,
        seq@.next_service_timestamp == i64::MAX,
{
}

// ---- sending ----

/// A packet is sent if and only if fewer than `CAP - 2` packets are being processed, and its own
/// slot and those of the replies to all of them are free. It has the next number. A packet that is
/// not sent is given back, and nothing changes; the sender has to wait for a packet to be received
/// if its own slot is taken, and otherwise for a reply to be finished.
pub proof fn send_succeeds_where_there_is_room<S, R, const CAP: usize>(
    seq: &mut SeqEx<S, R, CAP>,
    now: i64,
    seq_cst: bool,
    data: S,
    result: Result<Packet<&S>, (TryError, S)>,
)
    requires
        old(seq).wf(),
        i64::MIN <= now + old(seq)@.resend_interval <= i64::MAX,
        call_ensures(SeqEx::<S, R, CAP>::try_send_direct, (seq, now, seq_cst, data), result),
    ensures
        result is Ok <==> has_room(old(seq)@, None),
        match result {
            Ok(packet) => {
                &&& packet == made(old(seq)@.next_send, None, seq_cst, &data)
                &&& is_sent(old(seq)@, now, None, seq_cst, data, final(seq)@)
                &&& final(seq)@.replies == old(seq)@.replies
                &&& final(seq)@.locked == old(seq)@.locked
            },
            Err((e, back)) => {
                &&& e == awaits(old(seq)@, None)
                &&& back == data
                &&& final(seq)@ == old(seq)@
            },
        },
{
    lemma_room(old(seq)@, None);
    lemma_sent(old(seq)@, now, None, seq_cst, data);
}

/// The same holds where the data is produced once there is room for it: the function is called
/// with the number of the packet, and is given back where nothing is sent.
pub proof fn send_with_succeeds_where_there_is_room<
    S,
    R,
    F: FnOnce(SeqNo) -> S,
    const CAP: usize,
>(
    seq: &mut SeqEx<S, R, CAP>,
    now: i64,
    seq_cst: bool,
    f: F,
    result: Result<Packet<&S>, (TryError, F)>,
)
    requires
        old(seq).wf(),
        i64::MIN <= now + old(seq)@.resend_interval <= i64::MAX,
        call_ensures(
            SeqEx::<S, R, CAP>::try_send_direct_with::<F>,
            (seq, now, seq_cst, f),
            result,
        ),
    ensures
        result is Ok <==> has_room(old(seq)@, None),
        match result {
            Ok(packet) => exists|data: S|
                {
                    &&& #[trigger] call_ensures(f, (old(seq)@.next_send,), data)
                    &&& packet == made(old(seq)@.next_send, None, seq_cst, &data)
                    &&& is_sent(old(seq)@, now, None, seq_cst, data, final(seq)@)
                    &&& final(seq)@.replies == old(seq)@.replies
                    &&& final(seq)@.locked == old(seq)@.locked
                },
            Err((e, back)) => {
                &&& e == awaits(old(seq)@, None)
                &&& back == f
                &&& final(seq)@ == old(seq)@
            },
        },
{
    lemma_room(old(seq)@, None);
    if result is Ok {
        let data = choose|data: S|
            {
                &&& #[trigger] call_ensures(f, (old(seq)@.next_send,), data)
                &&& result->Ok_0.unref() == Packet::with_data(
                    old(seq)@.next_send,
                    None,
                    seq_cst,
                    data,
                )
                &&& final(seq)@ == old(seq)@.sent(now, None, seq_cst, data)
            };
        lemma_sent(old(seq)@, now, None, seq_cst, data);
        assert(call_ensures(f, (old(seq)@.next_send,), data));
    }
}

/// Where fewer than `CAP - 2` reply numbers are issued, and the slots of the next `1 + ` as many
/// packets are free, a packet is sent.
pub proof fn free_slots_accept<S, R, const CAP: usize>(
    seq: &mut SeqEx<S, R, CAP>,
    now: i64,
    seq_cst: bool,
    data: S,
    result: Result<Packet<&S>, (TryError, S)>,
)
    requires
        old(seq).wf(),
        i64::MIN <= now + old(seq)@.resend_interval <= i64::MAX,
        old(seq)@.replies.len() < CAP - 2,
        forall|i: int|
            0 <= i <= old(seq)@.replies.len() ==> old(seq)@.send_window[#[trigger] nth(
                old(seq)@.next_send,
                i,
                CAP as nat,
            )] is None,
        call_ensures(SeqEx::<S, R, CAP>::try_send_direct, (seq, now, seq_cst, data), result),
    ensures
        result is Ok,
{
    lemma_room(old(seq)@, None);
    assert forall|i: int| 0 <= i <= old(seq)@.replies.len() implies !(#[trigger] is_taken(
        old(seq)@,
        i,
        None,
    )) by {
        assert(0 <= nth(old(seq)@.next_send, i, CAP as nat));
    }
}

/// Where the slot of one of those packets is taken, or `CAP - 2` packets are being processed,
/// nothing is sent.
pub proof fn taken_slot_refuses<S, R, const CAP: usize>(
    seq: &mut SeqEx<S, R, CAP>,
    now: i64,
    seq_cst: bool,
    data: S,
    result: Result<Packet<&S>, (TryError, S)>,
    i: int,
)
    requires
        old(seq).wf(),
        i64::MIN <= now + old(seq)@.resend_interval <= i64::MAX,
        old(seq)@.replies.len() >= CAP - 2 || {
            &&& 0 <= i <= old(seq)@.replies.len()
            &&& old(seq)@.send_window[nth(old(seq)@.next_send, i, CAP as nat)] is Some
        },
        call_ensures(SeqEx::<S, R, CAP>::try_send_direct, (seq, now, seq_cst, data), result),
    ensures
        result is Err,
        (result->Err_0).1 == data,
        final(seq)@ == old(seq)@,
        old(seq)@.replies.len() >= CAP - 2 ==> (result->Err_0).0 is WaitingForReply,
        old(seq)@.replies.len() < CAP - 2 && i == 0 ==> (result->Err_0).0 is WaitingForRecv,
        old(seq)@.replies.len() < CAP - 2 && old(seq)@.send_window[nth(
            old(seq)@.next_send,
            0,
            CAP as nat,
        )] is None ==> (result->Err_0).0 is WaitingForReply,
{
    lemma_room(old(seq)@, None);
    if old(seq)@.replies.len() < CAP - 2 {
        assert(is_taken(old(seq)@, i, None));
    }
}

/// A session whose send window is empty accepts a packet whenever fewer than `CAP - 2` packets are
/// being processed.
pub proof fn empty_window_accepts<S, R, const CAP: usize>(
    seq: &mut SeqEx<S, R, CAP>,
    now: i64,
    seq_cst: bool,
    data: S,
    result: Result<Packet<&S>, (TryError, S)>,
)
    requires
        old(seq).wf(),
        i64::MIN <= now + old(seq)@.resend_interval <= i64::MAX,
        forall|i: int| 0 <= i < CAP ==> #[trigger] old(seq)@.send_window[i] is None,
        old(seq)@.replies.len() < CAP - 2,
        call_ensures(SeqEx::<S, R, CAP>::try_send_direct, (seq, now, seq_cst, data), result),
    ensures
        result is Ok,
{
    let st = old(seq)@;
    lemma_room(st, None);
    assert forall|i: int| 0 <= i <= st.replies.len() implies !(#[trigger] is_taken(st, i, None)) by {
        assert(0 <= nth(st.next_send, i, st.cap()) < st.cap());
    }
}


// ---- receiving ----

/// Whether the packet with the number `seq_no` has been handed out.
pub open spec fn handed_before<S, R>(st: SeqState<S, R>, seq_no: SeqNo) -> bool {
    let d = distance(st.next_recv, seq_no);
    ||| d > 0x7fff_ffff
    ||| d < st.recv_window.len() && st.recv_window[nth(seq_no, 0, st.recv_window.len())]
        == (RecvEntry::<R>::Unlocked { seq_no })
}

/// Whether the number `seq_no` lies beyond the receive window.
pub open spec fn beyond<S, R>(st: SeqState<S, R>, seq_no: SeqNo) -> bool {
    st.recv_window.len() <= distance(st.next_recv, seq_no) <= 0x7fff_ffff
}

/// Whether `b` is what is left of the send window `a` once the packet `reply_no` is answered.
pub open spec fn is_freed<S>(
    a: Seq<Option<SendEntry<S>>>,
    reply_no: Option<SeqNo>,
    b: Seq<Option<SendEntry<S>>>,
) -> bool {
    &&& b.len() == a.len()
    &&& forall|i: int|
        0 <= i < a.len() ==> #[trigger] b[i] == if reply_no matches Some(r) && i == nth(
            r,
            0,
            a.len(),
        ) && (a[i] matches Some(entry) && entry.seq_no == r) {
            None
        } else {
            a[i]
        }
}

/// What was sent with the packet that `reply_no` answers, if that packet is in the window.
pub open spec fn is_answered<S>(
    window: Seq<Option<SendEntry<S>>>,
    reply_no: Option<SeqNo>,
    data: Option<S>,
) -> bool {
    match data {
        Some(d) => reply_no matches Some(r) && (window[nth(r, 0, window.len())] matches Some(entry)
            && entry.seq_no == r && entry.data == d),
        None => reply_no matches Some(r) ==> !(window[nth(r, 0, window.len())] matches Some(entry)
            && entry.seq_no == r),
    }
}

/// Whether, from `next` on, exactly `m` numbers of packets that were handed out ahead of their
/// turn are passed over in the window `a`. Their slots are empty in `b`, and nothing else is
/// changed.
pub open spec fn is_passed<R>(
    a: Seq<RecvEntry<R>>,
    next: SeqNo,
    m: nat,
    b: Seq<RecvEntry<R>>,
    after: SeqNo,
) -> bool {
    &&& m <= a.len()
    &&& b.len() == a.len()
    &&& after == (next + m) % 0x1_0000_0000
    &&& forall|j: int|
        0 <= j < m ==> {
            &&& a[#[trigger] nth(next, j, a.len())] is Unlocked
            &&& b[nth(next, j, a.len())] is Empty
        }
    &&& forall|k: int|
        0 <= k < a.len() ==> #[trigger] b[k] == a[k] || exists|j: int|
            0 <= j < m && k == #[trigger] nth(next, j, a.len())
    &&& b[nth(next, m as int, a.len())] !is Unlocked
}

/// Whether `b` is `a` after the number `seq_no` has been issued, for a packet that answers
/// `reply_no`, whatever becomes of the receive window. The number is kept until it is returned, a
/// SeqCst packet locks the session, and the answered packet leaves the send window.
pub open spec fn is_issued<S, R>(
    a: SeqState<S, R>,
    seq_no: SeqNo,
    reply_no: Option<SeqNo>,
    seq_cst: bool,
    b: SeqState<S, R>,
) -> bool {
    &&& b.resend_interval == a.resend_interval
    &&& b.next_service_timestamp == a.next_service_timestamp
    &&& b.next_send == a.next_send
    &&& is_freed(a.send_window, reply_no, b.send_window)
    &&& b.replies == a.replies.insert(seq_no)
    &&& b.locked == (a.locked || seq_cst)
}

/// Whether the next expected number moves on past the next packet and past all that were handed
/// out ahead of their turn.
pub open spec fn moves_on<S, R>(a: SeqState<S, R>, b: SeqState<S, R>) -> bool {
    exists|m: nat| #[trigger]
        is_passed(
            a.recv_window.update(nth(a.next_recv, 0, a.recv_window.len()), RecvEntry::Empty),
            ((a.next_recv + 1) % 0x1_0000_0000) as SeqNo,
            m,
            b.recv_window,
            b.next_recv,
        )
}

/// Whether `b` is `a` after the packet with the number `seq_no` has been handed out. If the packet
/// was next, the next expected number moves on, and otherwise its number is marked in its slot.
pub open spec fn is_handed_out<S, R>(
    a: SeqState<S, R>,
    seq_no: SeqNo,
    reply_no: Option<SeqNo>,
    seq_cst: bool,
    b: SeqState<S, R>,
) -> bool {
    &&& is_issued(a, seq_no, reply_no, seq_cst, b)
    &&& seq_no == a.next_recv ==> moves_on(a, b)
    &&& seq_no != a.next_recv ==> {
        &&& b.next_recv == a.next_recv
        &&& b.recv_window == a.recv_window.update(
            nth(seq_no, 0, a.recv_window.len()),
            RecvEntry::Unlocked { seq_no },
        )
    }
}

/// Whether `b` is `a` after a packet has been saved: it is in its slot, if nothing was there
/// before.
pub open spec fn is_saved<S, R, P: Into<R>>(
    a: SeqState<S, R>,
    seq_no: SeqNo,
    reply_no: Option<SeqNo>,
    seq_cst: bool,
    data: P,
    b: SeqState<S, R>,
) -> bool {
    let k = nth(seq_no, 0, a.recv_window.len());
    if a.recv_window[k] is Empty {
        exists|d: R|
            {
                &&& #[trigger] call_ensures(<P as Into<R>>::into, (data,), d)
                &&& b == (SeqState {
                    recv_window: a.recv_window.update(
                        k,
                        RecvEntry::Occupied { seq_no, reply_no, seq_cst, data: d },
                    ),
                    ..a
                })
            }
    } else {
        b == a
    }
}

proof fn lemma_passed<R>(window: Seq<RecvEntry<R>>, next: SeqNo) -> (m: nat)
    requires
        0 < window.len() <= u32::MAX,
    ensures
        is_passed(
            window,
            next,
            m,
            fast_forward(window, next).0,
            fast_forward(window, next).1,
        ),
        m <= unlocked_count(window),
    decreases unlocked_count(window),
{
    let cap = window.len();
    let i = slot(next, cap);
    assert(nth(next, 0, cap) == i);
    lemma_unlocked_bound(window);
    if window[i] is Unlocked {
        lemma_unlocked_update(window, i, RecvEntry::Empty);
        let w = window.update(i, RecvEntry::Empty);
        let n = next.wrapping_add(1);
        let m = lemma_passed(w, n);
        let (after, after_next) = fast_forward(w, n);
        assert(fast_forward(window, next) == (after, after_next));
        assert forall|j: int| nth(n, j, cap) == #[trigger] nth(next, j + 1, cap) by {
            assert((n + j) % 0x1_0000_0000 == (next + (j + 1)) % 0x1_0000_0000);
        }
        assert(nth(n, m as int, cap) == nth(next, (m as int) + 1, cap));
        assert(after[i] is Empty) by {
            if after[i] != w[i] {
                let j = choose|j: int| 0 <= j < m && i == #[trigger] nth(n, j, cap);
                assert(w[nth(n, j, cap)] is Unlocked);
            }
        }
        assert forall|j: int| 0 <= j < m + 1 implies {
            &&& window[#[trigger] nth(next, j, cap)] is Unlocked
            &&& after[nth(next, j, cap)] is Empty
        } by {
            if j > 0 {
                assert(nth(n, j - 1, cap) == nth(next, (j - 1) + 1, cap));
                assert(w[nth(n, j - 1, cap)] is Unlocked);
            }
        }
        assert forall|k: int| 0 <= k < cap implies #[trigger] after[k] == window[k] || exists|
            j: int,
        | 0 <= j < m + 1 && k == #[trigger] nth(next, j, cap) by {
            if k == i {
                assert(k == nth(next, 0, cap));
            } else if after[k] != w[k] {
                let j = choose|j: int| 0 <= j < m && k == #[trigger] nth(n, j, cap);
                assert(k == nth(next, j + 1, cap));
            }
        }
        m + 1
    } else {
        0
    }
}

proof fn lemma_unlocked_bound<R>(window: Seq<RecvEntry<R>>)
    ensures
        unlocked_count(window) <= window.len(),
    decreases window.len(),
{
    if window.len() > 0 {
        lemma_unlocked_bound(window.drop_last());
    }
}

pub(crate) proof fn lemma_moves_on<S, R>(st: SeqState<S, R>)
    requires
        st.wf(),
    ensures
        moves_on(st, st.passed()),
{
    let k = slot(st.next_recv, st.cap());
    assert(nth(st.next_recv, 0, st.cap()) == k);
    let w = st.recv_window.update(k, RecvEntry::Empty);
    let n = st.next_recv.wrapping_add(1);
    let m = lemma_passed(w, n);
    assert(n == ((st.next_recv + 1) % 0x1_0000_0000) as SeqNo);
    assert(is_passed(w, n, m, st.passed().recv_window, st.passed().next_recv));
}

pub(crate) proof fn lemma_issued<S, R>(
    st: SeqState<S, R>,
    seq_no: SeqNo,
    reply_no: Option<SeqNo>,
    seq_cst: bool,
)
    requires
        st.wf(),
    ensures
        is_issued(st, seq_no, reply_no, seq_cst, st.issued(seq_no, reply_no, seq_cst)),
        st.issued(seq_no, reply_no, seq_cst).recv_window == st.recv_window,
        st.issued(seq_no, reply_no, seq_cst).next_recv == st.next_recv,
        is_answered(st.send_window, reply_no, st.answered_data(reply_no)),
{
    if let Some(r) = reply_no {
        assert(nth(r, 0, st.cap()) == slot(r, st.cap()));
    }
}

pub(crate) proof fn lemma_handed_out<S, R>(
    st: SeqState<S, R>,
    seq_no: SeqNo,
    reply_no: Option<SeqNo>,
    seq_cst: bool,
)
    requires
        st.wf(),
    ensures
        is_handed_out(st, seq_no, reply_no, seq_cst, st.delivered(seq_no, reply_no, seq_cst)),
        is_issued(st, seq_no, reply_no, seq_cst, st.passed().issued(seq_no, reply_no, seq_cst)),
        moves_on(st, st.passed().issued(seq_no, reply_no, seq_cst)),
        is_answered(st.send_window, reply_no, st.answered_data(reply_no)),
{
    assert(nth(seq_no, 0, st.cap()) == slot(seq_no, st.cap()));
    lemma_moves_on(st);
    lemma_held_count_fast_forward(
        st.recv_window.update(slot(st.next_recv, st.cap()), RecvEntry::Empty),
        st.next_recv.wrapping_add(1),
    );
    lemma_issued(st.passed(), seq_no, reply_no, seq_cst);
    lemma_issued(st.unlocked(seq_no), seq_no, reply_no, seq_cst);
    let (m, next): (nat, SeqNo) = (
        choose|m: nat| #[trigger]
            is_passed(
                st.recv_window.update(nth(st.next_recv, 0, st.cap()), RecvEntry::Empty),
                ((st.next_recv + 1) % 0x1_0000_0000) as SeqNo,
                m,
                st.passed().recv_window,
                st.passed().next_recv,
            ),
        ((st.next_recv + 1) % 0x1_0000_0000) as SeqNo,
    );
    let b = st.passed().issued(seq_no, reply_no, seq_cst);
    assert(is_passed(
        st.recv_window.update(nth(st.next_recv, 0, st.cap()), RecvEntry::Empty),
        next,
        m,
        b.recv_window,
        b.next_recv,
    ));
}

pub(crate) proof fn lemma_made<P>(seq_no: SeqNo, reply_no: Option<SeqNo>, seq_cst: bool, data: P)
    ensures
        made(seq_no, reply_no, seq_cst, data).seq_no() == Some(seq_no),
        made(seq_no, reply_no, seq_cst, data).reply_no() == reply_no,
        made(seq_no, reply_no, seq_cst, data).seq_cst() == seq_cst,
        made(seq_no, reply_no, seq_cst, data).data() == Some(data),
{
}

pub(crate) proof fn lemma_verdict<S, R>(
    st: SeqState<S, R>,
    seq_no: SeqNo,
    reply_no: Option<SeqNo>,
    seq_cst: bool,
)
    requires
        st.wf(),
    ensures
        nth(seq_no, 0, st.cap()) == slot(seq_no, st.cap()),
        st.is_received(seq_no) == handed_before(st, seq_no),
        st.is_ahead(seq_no) == beyond(st, seq_no),
        st.room(reply_no) is Ok <==> has_room(st, reply_no),
        st.room(reply_no) is Err ==> st.room(reply_no)->Err_0 == awaits(st, reply_no),
{
    assert(st.offset(seq_no) == distance(st.next_recv, seq_no));
    lemma_room(st, reply_no);
}

/// What a payload or reply that comes in does, and what comes out of it.
pub open spec fn takes_in_packet<S, R, P: Into<R>>(
    a: SeqState<S, R>,
    seq_no: SeqNo,
    reply_no: Option<SeqNo>,
    seq_cst: bool,
    data: P,
    b: SeqState<S, R>,
    result: Result<(RecvOkRaw<S, P>, bool), TryRawRecvError>,
) -> bool {
    if handed_before(a, seq_no) {
        let answered = a.replies.count(seq_no) > 0 || exists|i: int|
            0 <= i < a.send_window.len() && (#[trigger] a.send_window[i] matches Some(entry)
                && entry.reply_no == Some(seq_no));
        &&& b == a
        &&& result matches Err(e)
        &&& answered ==> e is DroppedDuplicate
        &&& !answered ==> e == TryRawRecvError::DroppedDuplicateResendAck(seq_no)
    } else if beyond(a, seq_no) {
        &&& b == a
        &&& result matches Err(e)
        &&& e is DroppedTooEarly
    } else if !has_room(a, reply_no) {
        &&& result matches Err(e)
        &&& match awaits(a, reply_no) {
            TryError::WaitingForReply => e is WaitingForReply && b == a,
            TryError::WaitingForRecv => e is WaitingForRecv && is_saved(
                a,
                seq_no,
                reply_no,
                seq_cst,
                data,
                b,
            ),
        }
    } else if seq_cst && (seq_no != a.next_recv || a.locked) {
        &&& result matches Err(e)
        &&& is_saved(a, seq_no, reply_no, seq_cst, data, b)
        &&& seq_no != a.next_recv ==> e is WaitingForRecv
        &&& seq_no == a.next_recv ==> e is WaitingForReply
    } else {
        &&& is_handed_out(a, seq_no, reply_no, seq_cst, b)
        &&& result matches Ok((out, more))
        &&& is_handing(a, seq_no, reply_no, seq_cst, data, out)
        &&& more <==> seq_no == a.next_recv && b.recv_window[nth(
            b.next_recv,
            0,
            b.recv_window.len(),
        )] is Occupied
    }
}

/// Whether `out` is the packet with these numbers and data, together with what was sent with the
/// packet that it answers.
pub open spec fn is_handing<S, R, P>(
    a: SeqState<S, R>,
    seq_no: SeqNo,
    reply_no: Option<SeqNo>,
    seq_cst: bool,
    data: P,
    out: RecvOkRaw<S, P>,
) -> bool {
    match out {
        RecvOkRaw::Payload { reply_no: n, seq_cst: c, recv_data } => {
            &&& n == seq_no
            &&& c == seq_cst
            &&& recv_data == data
            &&& is_answered(a.send_window, reply_no, None)
        },
        RecvOkRaw::Reply { reply_no: n, seq_cst: c, recv_data, send_data } => {
            &&& n == seq_no
            &&& c == seq_cst
            &&& recv_data == data
            &&& is_answered(a.send_window, reply_no, Some(send_data))
        },
        RecvOkRaw::Ack { .. } => false,
    }
}

/// What any packet that comes in does, and what comes out of it.
pub open spec fn takes_in<S, R, P: Into<R>>(
    a: SeqState<S, R>,
    packet: Packet<P>,
    b: SeqState<S, R>,
    result: Result<(RecvOkRaw<S, P>, bool), TryRawRecvError>,
) -> bool {
    match packet {
        Packet::Payload(s, d) => takes_in_packet(a, s, None, false, d, b, result),
        Packet::SeqCstPayload(s, d) => takes_in_packet(a, s, None, true, d, b, result),
        Packet::Reply(s, r, d) => takes_in_packet(a, s, Some(r), false, d, b, result),
        Packet::SeqCstReply(s, r, d) => takes_in_packet(a, s, Some(r), true, d, b, result),
        Packet::Ack(r) => match a.send_window[nth(r, 0, a.send_window.len())] {
            Some(entry) if entry.seq_no == r => {
                &&& result matches Ok((out, more))
                &&& out matches RecvOkRaw::Ack { send_data }
                &&& send_data == entry.data
                &&& !more
                &&& b == (SeqState {
                    send_window: a.send_window.update(nth(r, 0, a.send_window.len()), None),
                    ..a
                })
            },
            _ => {
                &&& result matches Err(e)
                &&& e is DroppedDuplicate
                &&& b == a
            },
        },
    }
}

/// What pumping does, and what comes out of it.
pub open spec fn takes_next<S, R>(
    a: SeqState<S, R>,
    b: SeqState<S, R>,
    result: Result<(RecvOkRaw<S, R>, bool), TryError>,
) -> bool {
    match a.recv_window[nth(a.next_recv, 0, a.recv_window.len())] {
        RecvEntry::Occupied { seq_no, reply_no, seq_cst, data } => if !has_room(a, reply_no) {
            &&& b == a
            &&& result matches Err(e)
            &&& e == awaits(a, reply_no)
        } else if seq_cst && a.locked {
            &&& b == a
            &&& result matches Err(e)
            &&& e is WaitingForReply
        } else {
            &&& is_issued(a, seq_no, reply_no, seq_cst, b)
            &&& moves_on(a, b)
            &&& result matches Ok((out, more))
            &&& is_handing(a, seq_no, reply_no, seq_cst, data, out)
            &&& more <==> b.recv_window[nth(b.next_recv, 0, b.recv_window.len())] is Occupied
        },
        _ => {
            &&& b == a
            &&& result matches Err(e)
            &&& e is WaitingForRecv
        },
    }
}

proof fn lemma_delivered<S, R, P>(
    a: SeqState<S, R>,
    seq_no: SeqNo,
    reply_no: Option<SeqNo>,
    seq_cst: bool,
    data: P,
)
    requires
        a.wf(),
    ensures
        ({
            let b = a.delivered(seq_no, reply_no, seq_cst);
            &&& is_handed_out(a, seq_no, reply_no, seq_cst, b)
            &&& b.send_window.len() == b.recv_window.len() == a.cap()
            &&& b.can_pump() == b.recv_window[nth(b.next_recv, 0, b.recv_window.len())] is Occupied
        }),
        ({
            let b = a.passed().issued(seq_no, reply_no, seq_cst);
            &&& is_issued(a, seq_no, reply_no, seq_cst, b)
            &&& moves_on(a, b)
            &&& b.send_window.len() == b.recv_window.len() == a.cap()
            &&& b.can_pump() == b.recv_window[nth(b.next_recv, 0, b.recv_window.len())] is Occupied
        }),
        is_handing(
            a,
            seq_no,
            reply_no,
            seq_cst,
            data,
            RecvOkRaw::handed_out(seq_no, seq_cst, data, a.answered_data(reply_no)),
        ),
{
    lemma_handed_out(a, seq_no, reply_no, seq_cst);
    lemma_held_count_fast_forward(
        a.recv_window.update(slot(a.next_recv, a.cap()), RecvEntry::Empty),
        a.next_recv.wrapping_add(1),
    );
}

proof fn lemma_saved<S, R, P: Into<R>>(
    a: SeqState<S, R>,
    seq_no: SeqNo,
    reply_no: Option<SeqNo>,
    seq_cst: bool,
    data: P,
    b: SeqState<S, R>,
)
    requires
        a.wf(),
        holds(a, seq_no, reply_no, seq_cst, data, b),
    ensures
        is_saved(a, seq_no, reply_no, seq_cst, data, b),
{
    assert(nth(seq_no, 0, a.cap()) == slot(seq_no, a.cap()));
    if a.can_hold(seq_no) {
        let d = choose|d: R|
            #![trigger a.held(seq_no, reply_no, seq_cst, d)]
            call_ensures(<P as Into<R>>::into, (data,), d) && b == a.held(
                seq_no,
                reply_no,
                seq_cst,
                d,
            );
        assert(call_ensures(<P as Into<R>>::into, (data,), d));
    }
}

#[verifier::spinoff_prover]
pub(crate) proof fn lemma_takes_in_packet<S, R, P: Into<R>>(
    a: SeqState<S, R>,
    seq_no: SeqNo,
    reply_no: Option<SeqNo>,
    seq_cst: bool,
    data: P,
    b: SeqState<S, R>,
    result: Result<(RecvOkRaw<S, P>, bool), TryRawRecvError>,
)
    requires
        a.wf(),
        receives(a, made(seq_no, reply_no, seq_cst, data), b, result),
    ensures
        takes_in_packet(a, seq_no, reply_no, seq_cst, data, b, result),
{
    lemma_verdict(a, seq_no, reply_no, seq_cst);
    lemma_made(seq_no, reply_no, seq_cst, data);
    match a.verdict(seq_no, reply_no, seq_cst) {
        Verdict::Deliver => {
            lemma_delivered(a, seq_no, reply_no, seq_cst, data);
        },
        Verdict::HoldForRecv | Verdict::HoldForReply => {
            lemma_saved(a, seq_no, reply_no, seq_cst, data, b);
        },
        _ => {},
    }
}

pub(crate) proof fn lemma_takes_in<S, R, P: Into<R>>(
    a: SeqState<S, R>,
    packet: Packet<P>,
    b: SeqState<S, R>,
    result: Result<(RecvOkRaw<S, P>, bool), TryRawRecvError>,
)
    requires
        a.wf(),
        receives(a, packet, b, result),
    ensures
        takes_in(a, packet, b, result),
{
    match packet {
        Packet::Payload(s, d) => lemma_takes_in_packet(a, s, None, false, d, b, result),
        Packet::SeqCstPayload(s, d) => lemma_takes_in_packet(a, s, None, true, d, b, result),
        Packet::Reply(s, r, d) => lemma_takes_in_packet(a, s, Some(r), false, d, b, result),
        Packet::SeqCstReply(s, r, d) => lemma_takes_in_packet(a, s, Some(r), true, d, b, result),
        Packet::Ack(r) => {
            assert(nth(r, 0, a.cap()) == slot(r, a.cap()));
        },
    }
}

pub(crate) proof fn lemma_takes_next<S, R>(
    a: SeqState<S, R>,
    b: SeqState<S, R>,
    result: Result<(RecvOkRaw<S, R>, bool), TryError>,
)
    requires
        a.wf(),
        pumps(a, b, result),
    ensures
        takes_next(a, b, result),
{
    assert(nth(a.next_recv, 0, a.cap()) == slot(a.next_recv, a.cap()));
    match a.recv_window[slot(a.next_recv, a.cap())] {
        RecvEntry::Occupied { seq_no, reply_no, seq_cst, data } => {
            lemma_room(a, reply_no);
            lemma_delivered(a, seq_no, reply_no, seq_cst, data);
        },
        _ => {},
    }
}

/// Receiving a packet does what is said of any packet that comes in.
pub proof fn receiving_takes_in<S, R, P: Into<R>, const CAP: usize>(
    seq: &mut SeqEx<S, R, CAP>,
    packet: Packet<P>,
    result: Result<(RecvOkRaw<S, P>, bool), TryRawRecvError>,
)
    requires
        old(seq).wf(),
        call_ensures(
            SeqEx::<S, R, CAP>::receive_raw_and_direct::<P>,
            (seq, packet),
            result,
        ),
    ensures
        takes_in(old(seq)@, packet, final(seq)@, result),
        final(seq).wf(),
{
    lemma_takes_in(old(seq)@, packet, final(seq)@, result);
}

/// An ack is news if and only if the packet that it acknowledges is in the send window. The packet
/// leaves the window, and what was sent with it is returned. Nothing else changes.
pub proof fn ack_frees_its_packet<S, R, P: Into<R>, const CAP: usize>(
    seq: &mut SeqEx<S, R, CAP>,
    acked: SeqNo,
    result: Result<(RecvOkRaw<S, P>, bool), TryRawRecvError>,
)
    requires
        old(seq).wf(),
        call_ensures(
            SeqEx::<S, R, CAP>::receive_raw_and_direct::<P>,
            (seq, Packet::Ack(acked)),
            result,
        ),
    ensures
        match old(seq)@.send_window[acked as int % CAP as int] {
            Some(entry) if entry.seq_no == acked => {
                &&& result is Ok
                &&& (result->Ok_0).0 matches RecvOkRaw::Ack { send_data }
                &&& send_data == entry.data
                &&& !(result->Ok_0).1
                &&& final(seq)@ == (SeqState {
                    send_window: old(seq)@.send_window.update(acked as int % CAP as int, None),
                    ..old(seq)@
                })
            },
            _ => {
                &&& result is Err
                &&& result->Err_0 is DroppedDuplicate
                &&& final(seq)@ == old(seq)@
            },
        },
{
}

/// A packet that was handed out before is dropped, and nothing changes. If nothing but an ack will
/// answer it, because its number was returned and no reply to it is in the send window, the ack
/// has to be sent again.
pub proof fn duplicate_is_dropped<S, R, P: Into<R>, const CAP: usize>(
    seq: &mut SeqEx<S, R, CAP>,
    seq_no: SeqNo,
    reply_no: Option<SeqNo>,
    seq_cst: bool,
    data: P,
    result: Result<(RecvOkRaw<S, P>, bool), TryRawRecvError>,
)
    requires
        old(seq).wf(),
        call_ensures(
            SeqEx::<S, R, CAP>::receive_raw_and_direct::<P>,
            (seq, made(seq_no, reply_no, seq_cst, data)),
            result,
        ),
        distance(old(seq)@.next_recv, seq_no) > 0x7fff_ffff || {
            &&& distance(old(seq)@.next_recv, seq_no) < CAP
            &&& old(seq)@.recv_window[seq_no as int % CAP as int] == (RecvEntry::<R>::Unlocked {
                seq_no,
            })
        },
    ensures
        final(seq)@ == old(seq)@,
        result is Err,
        match result->Err_0 {
            TryRawRecvError::DroppedDuplicate => old(seq)@.replies.count(seq_no) > 0 || exists|
                i: int,
            |
                0 <= i < CAP && (#[trigger] old(seq)@.send_window[i] matches Some(entry)
                    && entry.reply_no == Some(seq_no)),
            TryRawRecvError::DroppedDuplicateResendAck(acked) => {
                &&& acked == seq_no
                &&& old(seq)@.replies.count(seq_no) == 0
                &&& forall|i: int|
                    0 <= i < CAP ==> !(#[trigger] old(seq)@.send_window[i] matches Some(entry)
                        && entry.reply_no == Some(seq_no))
            },
            _ => false,
        },
{
    let pre = old(seq)@;
    lemma_verdict(pre, seq_no, reply_no, seq_cst);
    lemma_made(seq_no, reply_no, seq_cst, data);
}

/// A packet beyond the receive window is dropped, and nothing changes. No other packet is said to
/// be too early.
pub proof fn too_early_is_dropped<S, R, P: Into<R>, const CAP: usize>(
    seq: &mut SeqEx<S, R, CAP>,
    seq_no: SeqNo,
    reply_no: Option<SeqNo>,
    seq_cst: bool,
    data: P,
    result: Result<(RecvOkRaw<S, P>, bool), TryRawRecvError>,
)
    requires
        old(seq).wf(),
        call_ensures(
            SeqEx::<S, R, CAP>::receive_raw_and_direct::<P>,
            (seq, made(seq_no, reply_no, seq_cst, data)),
            result,
        ),
    ensures
        result is Err && result->Err_0 is DroppedTooEarly <==> CAP <= distance(
            old(seq)@.next_recv,
            seq_no,
        ) <= 0x7fff_ffff,
        result is Err && result->Err_0 is DroppedTooEarly ==> final(seq)@ == old(seq)@,
{
    let pre = old(seq)@;
    lemma_verdict(pre, seq_no, reply_no, seq_cst);
    lemma_made(seq_no, reply_no, seq_cst, data);
}

/// A payload or reply that is not SeqCst, has not been handed out and lies inside the receive
/// window is handed out with its data where there is room to answer it, whatever its distance from
/// the next expected number, and whether or not the session is locked.
pub proof fn plain_packet_is_handed_out_at_once<S, R, P: Into<R>, const CAP: usize>(
    seq: &mut SeqEx<S, R, CAP>,
    seq_no: SeqNo,
    reply_no: Option<SeqNo>,
    seq_cst: bool,
    data: P,
    result: Result<(RecvOkRaw<S, P>, bool), TryRawRecvError>,
)
    requires
        old(seq).wf(),
        call_ensures(
            SeqEx::<S, R, CAP>::receive_raw_and_direct::<P>,
            (seq, made(seq_no, reply_no, seq_cst, data)),
            result,
        ),
        !seq_cst,
        distance(old(seq)@.next_recv, seq_no) <= 0x7fff_ffff,
        distance(old(seq)@.next_recv, seq_no) < CAP,
        old(seq)@.recv_window[seq_no as int % CAP as int] != (RecvEntry::<R>::Unlocked { seq_no }),
        old(seq)@.replies.len() < CAP - 2,
        forall|i: int|
            0 <= i <= old(seq)@.replies.len() ==> {
                let k = #[trigger] nth(old(seq)@.next_send, i, CAP as nat);
                old(seq)@.send_window[k] is None || (reply_no matches Some(r) && r as int
                    % CAP as int == k)
            },
    ensures
        result is Ok,
        match (result->Ok_0).0 {
            RecvOkRaw::Payload { reply_no: n, seq_cst: c, recv_data } => {
                &&& n == seq_no
                &&& !c
                &&& recv_data == data
            },
            RecvOkRaw::Reply { reply_no: n, seq_cst: c, recv_data, send_data } => {
                &&& n == seq_no
                &&& !c
                &&& recv_data == data
            },
            RecvOkRaw::Ack { .. } => false,
        },
{
    let pre = old(seq)@;
    lemma_verdict(pre, seq_no, reply_no, seq_cst);
    lemma_made(seq_no, reply_no, seq_cst, data);
    assert forall|i: int| 0 <= i <= pre.replies.len() implies !(#[trigger] is_taken(
        pre,
        i,
        reply_no,
    )) by {
        assert(0 <= nth(pre.next_send, i, CAP as nat));
        if let Some(r) = reply_no {
            assert(nth(r, 0, CAP as nat) == r as int % CAP as int);
        }
    }
}

/// A packet that has not been handed out and lies inside the receive window is handed out if and
/// only if there is room to answer it and, where it is SeqCst, it is the next one and the session
/// is not locked. Then the data of the packet is returned, together with what was sent with the
/// packet that it answers, if that is in the send window.
pub proof fn packet_is_handed_out_in_its_turn<S, R, P: Into<R>, const CAP: usize>(
    seq: &mut SeqEx<S, R, CAP>,
    seq_no: SeqNo,
    reply_no: Option<SeqNo>,
    seq_cst: bool,
    data: P,
    result: Result<(RecvOkRaw<S, P>, bool), TryRawRecvError>,
)
    requires
        old(seq).wf(),
        call_ensures(
            SeqEx::<S, R, CAP>::receive_raw_and_direct::<P>,
            (seq, made(seq_no, reply_no, seq_cst, data)),
            result,
        ),
    ensures
        result is Ok <==> {
            &&& !handed_before(old(seq)@, seq_no)
            &&& !beyond(old(seq)@, seq_no)
            &&& has_room(old(seq)@, reply_no)
            &&& seq_cst ==> seq_no == old(seq)@.next_recv && !old(seq)@.locked
        },
        result is Ok ==> {
            &&& is_handed_out(old(seq)@, seq_no, reply_no, seq_cst, final(seq)@)
            &&& match (result->Ok_0).0 {
                RecvOkRaw::Payload { reply_no: n, seq_cst: c, recv_data } => {
                    &&& n == seq_no
                    &&& c == seq_cst
                    &&& recv_data == data
                    &&& is_answered(old(seq)@.send_window, reply_no, None)
                },
                RecvOkRaw::Reply { reply_no: n, seq_cst: c, recv_data, send_data } => {
                    &&& n == seq_no
                    &&& c == seq_cst
                    &&& recv_data == data
                    &&& is_answered(old(seq)@.send_window, reply_no, Some(send_data))
                },
                RecvOkRaw::Ack { .. } => false,
            }
        },
{
    let pre = old(seq)@;
    lemma_verdict(pre, seq_no, reply_no, seq_cst);
    lemma_made(seq_no, reply_no, seq_cst, data);
    if result is Ok {
        lemma_handed_out(pre, seq_no, reply_no, seq_cst);
    }
}

/// What comes with a received packet says whether another can be pumped: it is true if and only if
/// the packet was the next one, and the receive window afterwards holds a packet in the slot of
/// the number that is then next, whether the received packet is SeqCst or not.
pub proof fn hint_is_true_where_the_next_packet_waits<S, R, P: Into<R>, const CAP: usize>(
    seq: &mut SeqEx<S, R, CAP>,
    seq_no: SeqNo,
    reply_no: Option<SeqNo>,
    seq_cst: bool,
    data: P,
    result: Result<(RecvOkRaw<S, P>, bool), TryRawRecvError>,
)
    requires
        old(seq).wf(),
        call_ensures(
            SeqEx::<S, R, CAP>::receive_raw_and_direct::<P>,
            (seq, made(seq_no, reply_no, seq_cst, data)),
            result,
        ),
        result is Ok,
    ensures
        ({
            let post = final(seq)@;
            (result->Ok_0).1 <==> seq_no == old(seq)@.next_recv && post.recv_window[
                post.next_recv as int % CAP as int
            ] is Occupied
        }),
{
    let pre = old(seq)@;
    lemma_verdict(pre, seq_no, reply_no, seq_cst);
    lemma_made(seq_no, reply_no, seq_cst, data);
    lemma_handed_out(pre, seq_no, reply_no, seq_cst);
}

/// A packet that is neither handed out before nor too early and that cannot be handed out now is
/// refused. Without room for its answer, a packet whose slot in the send window would be taken is
/// saved until another packet is received, and any other is dropped until a reply number is
/// returned. With room, a SeqCst packet is saved until it is next and the session is not locked. A
/// packet is saved only where its slot is free.
pub proof fn refused_packet_is_saved_or_dropped<S, R, P: Into<R>, const CAP: usize>(
    seq: &mut SeqEx<S, R, CAP>,
    seq_no: SeqNo,
    reply_no: Option<SeqNo>,
    seq_cst: bool,
    data: P,
    result: Result<(RecvOkRaw<S, P>, bool), TryRawRecvError>,
)
    requires
        old(seq).wf(),
        call_ensures(
            SeqEx::<S, R, CAP>::receive_raw_and_direct::<P>,
            (seq, made(seq_no, reply_no, seq_cst, data)),
            result,
        ),
        !handed_before(old(seq)@, seq_no),
        !beyond(old(seq)@, seq_no),
        result is Err,
    ensures
        !has_room(old(seq)@, reply_no) && awaits(old(seq)@, reply_no) is WaitingForReply ==> {
            &&& result->Err_0 is WaitingForReply
            &&& final(seq)@ == old(seq)@
        },
        !has_room(old(seq)@, reply_no) && awaits(old(seq)@, reply_no) is WaitingForRecv ==> {
            &&& result->Err_0 is WaitingForRecv
            &&& is_saved(old(seq)@, seq_no, reply_no, seq_cst, data, final(seq)@)
        },
        has_room(old(seq)@, reply_no) ==> {
            &&& seq_cst
            &&& is_saved(old(seq)@, seq_no, reply_no, seq_cst, data, final(seq)@)
            &&& result->Err_0 is WaitingForRecv <==> seq_no != old(seq)@.next_recv
            &&& result->Err_0 is WaitingForReply <==> seq_no == old(seq)@.next_recv
            &&& seq_no == old(seq)@.next_recv ==> old(seq)@.locked
        },
{
    let pre = old(seq)@;
    lemma_verdict(pre, seq_no, reply_no, seq_cst);
    lemma_made(seq_no, reply_no, seq_cst, data);
    match pre.verdict(seq_no, reply_no, seq_cst) {
        Verdict::HoldForRecv | Verdict::HoldForReply => {
            lemma_saved(pre, seq_no, reply_no, seq_cst, data, final(seq)@);
        },
        _ => {},
    }
}

// ---- pumping ----

/// The next packet is pumped if and only if it waits in the receive window, there is room to
/// answer it and, where it is SeqCst, the session is not locked. Its data is returned, and it is
/// then as if it had just been received. Where it is not pumped, nothing changes.
pub proof fn next_packet_is_pumped_in_its_turn<S, R, const CAP: usize>(
    seq: &mut SeqEx<S, R, CAP>,
    result: Result<(RecvOkRaw<S, R>, bool), TryError>,
)
    requires
        old(seq).wf(),
        call_ensures(SeqEx::<S, R, CAP>::try_pump_raw, (seq,), result),
    ensures
        result is Err ==> final(seq)@ == old(seq)@,
        match old(seq)@.recv_window[old(seq)@.next_recv as int % CAP as int] {
            RecvEntry::Occupied { seq_no, reply_no, seq_cst, data } => {
                &&& result is Ok <==> has_room(old(seq)@, reply_no) && !(seq_cst
                    && old(seq)@.locked)
                &&& !has_room(old(seq)@, reply_no) ==> result->Err_0 == awaits(
                    old(seq)@,
                    reply_no,
                )
                &&& has_room(old(seq)@, reply_no) && result is Err ==> result->Err_0
                    is WaitingForReply
                &&& result is Ok ==> {
                    let (out, more) = result->Ok_0;
                    let post = final(seq)@;
                    &&& more <==> post.recv_window[post.next_recv as int % CAP as int] is Occupied
                    &&& match out {
                        RecvOkRaw::Payload { reply_no: n, seq_cst: c, recv_data } => {
                            &&& n == seq_no
                            &&& c == seq_cst
                            &&& recv_data == data
                            &&& is_answered(old(seq)@.send_window, reply_no, None)
                        },
                        RecvOkRaw::Reply { reply_no: n, seq_cst: c, recv_data, send_data } => {
                            &&& n == seq_no
                            &&& c == seq_cst
                            &&& recv_data == data
                            &&& is_answered(old(seq)@.send_window, reply_no, Some(send_data))
                        },
                        RecvOkRaw::Ack { .. } => false,
                    }
                    &&& is_issued(old(seq)@, seq_no, reply_no, seq_cst, final(seq)@)
                    &&& moves_on(old(seq)@, final(seq)@)
                }
            },
            _ => result is Err && result->Err_0 is WaitingForRecv,
        },
{
    let pre = old(seq)@;
    match pre.recv_window[slot(pre.next_recv, pre.cap())] {
        RecvEntry::Occupied { seq_no, reply_no, seq_cst, data } => {
            lemma_room(pre, reply_no);
            lemma_handed_out(pre, seq_no, reply_no, seq_cst);
        },
        _ => {},
    }
}

// ---- answering ----

/// A reply is sent if and only if its number is issued, however full the send window is. The
/// number is returned with it, and the session is unlocked if that is asked for. Otherwise nothing
/// changes.
pub proof fn reply_needs_nothing_but_its_number<S, R, const CAP: usize>(
    seq: &mut SeqEx<S, R, CAP>,
    now: i64,
    reply_no: SeqNo,
    unlock: bool,
    seq_cst: bool,
    data: S,
    packet: Option<Packet<&S>>,
)
    requires
        old(seq).wf(),
        i64::MIN <= now + old(seq)@.resend_interval <= i64::MAX,
        call_ensures(
            SeqEx::<S, R, CAP>::reply_raw_and_direct,
            (seq, now, reply_no, unlock, seq_cst, data),
            packet,
        ),
    ensures
        packet is Some <==> old(seq)@.replies.count(reply_no) > 0,
        packet is None ==> final(seq)@ == old(seq)@,
        packet is Some ==> {
            &&& packet->0 == made(old(seq)@.next_send, Some(reply_no), seq_cst, &data)
            &&& is_sent(old(seq)@, now, Some(reply_no), seq_cst, data, final(seq)@)
            &&& final(seq)@.replies == old(seq)@.replies.remove(reply_no)
            &&& final(seq)@.locked == (old(seq)@.locked && !unlock)
        },
{
    if packet is Some {
        assert(old(seq)@.replies.remove(reply_no).len() + 1 == old(seq)@.replies.len());
        lemma_sent(
            old(seq)@.returned(reply_no, unlock),
            now,
            Some(reply_no),
            seq_cst,
            data,
        );
    }
}

/// A packet is acknowledged if and only if its number is issued. The number is returned, and the
/// session is unlocked if that is asked for. Nothing else changes.
pub proof fn ack_needs_nothing_but_its_number<S, R, const CAP: usize>(
    seq: &mut SeqEx<S, R, CAP>,
    reply_no: SeqNo,
    unlock: bool,
    packet: Option<Packet<&S>>,
)
    requires
        old(seq).wf(),
        call_ensures(
            SeqEx::<S, R, CAP>::ack_raw_and_direct,
            (seq, reply_no, unlock),
            packet,
        ),
    ensures
        packet is Some <==> old(seq)@.replies.count(reply_no) > 0,
        packet is None ==> final(seq)@ == old(seq)@,
        packet is Some ==> {
            &&& packet->0 == Packet::<&S>::Ack(reply_no)
            &&& final(seq)@ == (SeqState {
                replies: old(seq)@.replies.remove(reply_no),
                locked: old(seq)@.locked && !unlock,
                ..old(seq)@
            })
        },
{
}

/// Unlocking changes nothing but the lock.
pub proof fn unlocking_takes_the_lock<S, R, const CAP: usize>(seq: &mut SeqEx<S, R, CAP>)
    requires
        old(seq).wf(),
        call_ensures(SeqEx::<S, R, CAP>::unlock_raw, (seq,), ()),
    ensures
        final(seq)@ == (SeqState { locked: false, ..old(seq)@ }),
{
}

// ---- reading and setting ----

/// What is read of a session is what it holds.
pub proof fn readings_are_true<S, R, const CAP: usize>(
    seq: SeqEx<S, R, CAP>,
    asked: SeqNo,
    next: SeqNo,
    timestamp: i64,
    interval: i64,
    idle: bool,
    free: bool,
)
    requires
        seq.wf(),
        call_ensures(SeqEx::<S, R, CAP>::seq_no, (&seq,), next),
        call_ensures(SeqEx::<S, R, CAP>::service_timestamp, (&seq,), timestamp),
        call_ensures(SeqEx::<S, R, CAP>::resend_interval, (&seq,), interval),
        call_ensures(SeqEx::<S, R, CAP>::is_idle, (&seq,), idle),
        call_ensures(SeqEx::<S, R, CAP>::can_hold, (&seq, asked), free),
    ensures
        next == seq@.next_send,
        timestamp == seq@.next_service_timestamp,
        interval == seq@.resend_interval,
        idle <==> forall|i: int| 0 <= i < CAP ==> #[trigger] seq@.send_window[i] is None,
        free <==> seq@.recv_window[asked as int % CAP as int] is Empty,
{
}

/// Setting the resend interval changes nothing else.
pub proof fn setting_the_interval_changes_nothing_else<S, R, const CAP: usize>(
    seq: &mut SeqEx<S, R, CAP>,
    interval: i64,
)
    requires
        old(seq).wf(),
        call_ensures(SeqEx::<S, R, CAP>::set_resend_interval, (seq, interval), ()),
    ensures
        final(seq)@ == (SeqState { resend_interval: interval, ..old(seq)@ }),
{
}

/// A session that has nothing to resend is settled by forgetting when it had. Any other is left as
/// it is.
pub proof fn settling_forgets_the_service_time<S, R, const CAP: usize>(
    seq: &mut SeqEx<S, R, CAP>,
)
    requires
        old(seq).wf(),
        call_ensures(SeqEx::<S, R, CAP>::settle, (seq,), ()),
    ensures
        (forall|i: int| 0 <= i < CAP ==> #[trigger] old(seq)@.send_window[i] is None)
            ==> final(seq)@ == (SeqState { next_service_timestamp: i64::MAX, ..old(seq)@ }),
        !(forall|i: int| 0 <= i < CAP ==> #[trigger] old(seq)@.send_window[i] is None)
            ==> final(seq)@ == old(seq)@,
{
}

} // verus!
