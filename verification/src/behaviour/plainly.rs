//! The same again, said of one thing at a time.
use crate::behaviour::{distance, has_room, is_passed, is_taken, lemma_takes_next, made, moves_on};
use crate::behaviour::{nth, receiving_takes_in};
use crate::error::{TryError, TryRawRecvError};
use crate::model::SeqState;
use crate::seq_queue::{RecvEntry, RecvOkRaw, SendEntry, SeqEx};
use crate::transport_layer::{Packet, SeqNo};
use vstd::prelude::*;

verus! {

proof fn lemma_free<S, R>(st: SeqState<S, R>, reply_no: Option<SeqNo>)
    requires
        st.wf(),
        st.replies.len() < st.send_window.len() - 2,
        forall|i: int|
            0 <= i <= st.replies.len() ==> {
                let k = #[trigger] nth(st.next_send, i, st.send_window.len());
                st.send_window[k] is None || (reply_no matches Some(r) && r as int
                    % st.send_window.len() as int == k)
            },
    ensures
        has_room(st, reply_no),
{
    assert forall|i: int| 0 <= i <= st.replies.len() implies !(#[trigger] is_taken(
        st,
        i,
        reply_no,
    )) by {
        assert(0 <= nth(st.next_send, i, st.send_window.len()));
        if let Some(r) = reply_no {
            assert(nth(r, 0, st.send_window.len()) == r as int % st.send_window.len() as int);
        }
    }
}

proof fn lemma_slot(n: SeqNo, cap: nat)
    requires
        0 < cap,
    ensures
        nth(n, 0, cap) == n as int % cap as int,
        0 <= nth(n, 0, cap) < cap,
{
}

/// A SeqCst packet that has not been handed out and lies inside the receive window, with room to
/// answer it, is handed out if and only if it is the next one and the session is not locked.
/// Otherwise it is saved where its slot is free, and waits for another packet to be received where
/// it is not the next one, and for a reply to be finished where it is.
pub proof fn seq_cst_packet_waits_for_its_turn<S, R, P: Into<R>, const CAP: usize>(
    seq: &mut SeqEx<S, R, CAP>,
    seq_no: SeqNo,
    reply_no: Option<SeqNo>,
    seq_cst: bool,
    data: P,
    result: Result<(RecvOkRaw<S, P>, bool), TryRawRecvError>,
)
    requires
        old(seq).wf(),
        call_ensures(
            SeqEx::<S, R, CAP>::receive_raw_and_direct::<P>,
            (seq, made(seq_no, reply_no, seq_cst, data)),
            result,
        ),
        seq_cst,
        distance(old(seq)@.next_recv, seq_no) <= 0x7fff_ffff,
        distance(old(seq)@.next_recv, seq_no) < CAP,
        old(seq)@.recv_window[seq_no as int % CAP as int] != (RecvEntry::<R>::Unlocked { seq_no }),
        old(seq)@.replies.len() < CAP - 2,
        forall|i: int|
            0 <= i <= old(seq)@.replies.len() ==> {
                let k = #[trigger] nth(old(seq)@.next_send, i, CAP as nat);
                old(seq)@.send_window[k] is None || (reply_no matches Some(r) && r as int
                    % CAP as int == k)
            },
    ensures
        result is Ok <==> seq_no == old(seq)@.next_recv && !old(seq)@.locked,
        seq_no != old(seq)@.next_recv ==> result->Err_0 is WaitingForRecv,
        seq_no == old(seq)@.next_recv && old(seq)@.locked ==> result->Err_0 is WaitingForReply,
        result is Err && old(seq)@.recv_window[seq_no as int % CAP as int] is Empty ==> {
            &&& final(seq)@.recv_window[seq_no as int % CAP as int] matches RecvEntry::Occupied {
                seq_no: s,
                reply_no: r,
                seq_cst: c,
                data: d,
            }
            &&& s == seq_no
            &&& r == reply_no
            &&& c
            &&& call_ensures(<P as Into<R>>::into, (data,), d)
        },
{
    let pre = old(seq)@;
    receiving_takes_in(seq, made(seq_no, reply_no, seq_cst, data), result);
    lemma_free(pre, reply_no);
    lemma_slot(seq_no, CAP as nat);
}

/// Where `CAP - 2` packets are being processed, a packet that has not been handed out is dropped
/// until one of them is answered. Otherwise, where the slot of the answer is taken, the packet
/// waits for another to be received.
pub proof fn packet_without_room_is_refused<S, R, P: Into<R>, const CAP: usize>(
    seq: &mut SeqEx<S, R, CAP>,
    seq_no: SeqNo,
    reply_no: Option<SeqNo>,
    seq_cst: bool,
    data: P,
    result: Result<(RecvOkRaw<S, P>, bool), TryRawRecvError>,
)
    requires
        old(seq).wf(),
        call_ensures(
            SeqEx::<S, R, CAP>::receive_raw_and_direct::<P>,
            (seq, made(seq_no, reply_no, seq_cst, data)),
            result,
        ),
        distance(old(seq)@.next_recv, seq_no) <= 0x7fff_ffff,
        distance(old(seq)@.next_recv, seq_no) < CAP,
        old(seq)@.recv_window[seq_no as int % CAP as int] != (RecvEntry::<R>::Unlocked { seq_no }),
    ensures
        old(seq)@.replies.len() >= CAP - 2 ==> {
            &&& result is Err
            &&& result->Err_0 is WaitingForReply
            &&& final(seq)@ == old(seq)@
        },
        old(seq)@.replies.len() < CAP - 2 && reply_no is None && old(seq)@.send_window[
            old(seq)@.next_send as int % CAP as int
        ] is Some ==> {
            &&& result is Err
            &&& result->Err_0 is WaitingForRecv
        },
{
    let pre = old(seq)@;
    receiving_takes_in(seq, made(seq_no, reply_no, seq_cst, data), result);
    lemma_slot(seq_no, CAP as nat);
    lemma_slot(pre.next_send, CAP as nat);
}

/// A packet that is handed out is counted as being processed, and locks the session if it is
/// SeqCst. Nothing is sent, and nothing is resent earlier or later. No packet leaves the send
/// window but the one that is answered.
pub proof fn handed_out_packet_is_being_processed<S, R, P: Into<R>, const CAP: usize>(
    seq: &mut SeqEx<S, R, CAP>,
    seq_no: SeqNo,
    reply_no: Option<SeqNo>,
    seq_cst: bool,
    data: P,
    result: Result<(RecvOkRaw<S, P>, bool), TryRawRecvError>,
)
    requires
        old(seq).wf(),
        call_ensures(
            SeqEx::<S, R, CAP>::receive_raw_and_direct::<P>,
            (seq, made(seq_no, reply_no, seq_cst, data)),
            result,
        ),
        result is Ok,
    ensures
        final(seq)@.replies == old(seq)@.replies.insert(seq_no),
        final(seq)@.locked == (old(seq)@.locked || seq_cst),
        final(seq)@.next_send == old(seq)@.next_send,
        final(seq)@.next_service_timestamp == old(seq)@.next_service_timestamp,
        final(seq)@.resend_interval == old(seq)@.resend_interval,
        final(seq)@.send_window.len() == CAP,
        forall|i: int|
            0 <= i < CAP ==> {
                ||| #[trigger] final(seq)@.send_window[i] == old(seq)@.send_window[i]
                ||| {
                    &&& final(seq)@.send_window[i] is None
                    &&& reply_no is Some
                    &&& old(seq)@.send_window[i] matches Some(entry)
                    &&& entry.seq_no == reply_no->0
                }
            },
        reply_no matches Some(r) ==> !(final(seq)@.send_window[r as int % CAP as int] matches Some(
            entry,
        ) && entry.seq_no == r),
{
    let post = final(seq)@;
    receiving_takes_in(seq, made(seq_no, reply_no, seq_cst, data), result);
    if let Some(r) = reply_no {
        lemma_slot(r, CAP as nat);
        assert(post.send_window[r as int % CAP as int] == post.send_window[nth(r, 0, CAP as nat)]);
    }
}

/// A reply is handed out together with what was sent with the packet that it answers, where that
/// is in the send window. Any other packet is handed out alone.
pub proof fn reply_comes_with_what_it_answers<S, R, P: Into<R>, const CAP: usize>(
    seq: &mut SeqEx<S, R, CAP>,
    seq_no: SeqNo,
    reply_no: Option<SeqNo>,
    seq_cst: bool,
    data: P,
    result: Result<(RecvOkRaw<S, P>, bool), TryRawRecvError>,
)
    requires
        old(seq).wf(),
        call_ensures(
            SeqEx::<S, R, CAP>::receive_raw_and_direct::<P>,
            (seq, made(seq_no, reply_no, seq_cst, data)),
            result,
        ),
        result is Ok,
    ensures
        match (result->Ok_0).0 {
            RecvOkRaw::Reply { reply_no: n, seq_cst: c, recv_data, send_data } => {
                &&& n == seq_no
                &&& c == seq_cst
                &&& recv_data == data
                &&& reply_no matches Some(r)
                &&& old(seq)@.send_window[r as int % CAP as int] matches Some(entry)
                &&& entry.seq_no == r
                &&& entry.data == send_data
            },
            RecvOkRaw::Payload { reply_no: n, seq_cst: c, recv_data } => {
                &&& n == seq_no
                &&& c == seq_cst
                &&& recv_data == data
                &&& reply_no matches Some(r) ==> !(old(seq)@.send_window[r as int
                    % CAP as int] matches Some(entry) && entry.seq_no == r)
            },
            RecvOkRaw::Ack { .. } => false,
        },
{
    receiving_takes_in(seq, made(seq_no, reply_no, seq_cst, data), result);
    if let Some(r) = reply_no {
        lemma_slot(r, CAP as nat);
    }
}

/// Handing out the next packet moves the next expected number on, past exactly those packets that
/// were handed out ahead of their turn. Handing out any other packet marks its number and moves
/// nothing.
pub proof fn next_number_moves_past_what_was_handed_out<S, R, P: Into<R>, const CAP: usize>(
    seq: &mut SeqEx<S, R, CAP>,
    seq_no: SeqNo,
    reply_no: Option<SeqNo>,
    seq_cst: bool,
    data: P,
    result: Result<(RecvOkRaw<S, P>, bool), TryRawRecvError>,
)
    requires
        old(seq).wf(),
        call_ensures(
            SeqEx::<S, R, CAP>::receive_raw_and_direct::<P>,
            (seq, made(seq_no, reply_no, seq_cst, data)),
            result,
        ),
        result is Ok,
    ensures
        seq_no != old(seq)@.next_recv ==> {
            &&& final(seq)@.next_recv == old(seq)@.next_recv
            &&& final(seq)@.recv_window == old(seq)@.recv_window.update(
                seq_no as int % CAP as int,
                RecvEntry::Unlocked { seq_no },
            )
        },
        seq_no == old(seq)@.next_recv ==> exists|m: nat|
            {
                &&& #[trigger] nth(seq_no, (m + 1) as int, CAP as nat) >= 0
                &&& final(seq)@.next_recv == (seq_no + 1 + m) % 0x1_0000_0000
                &&& final(seq)@.recv_window[nth(seq_no, (m + 1) as int, CAP as nat)] !is Unlocked
                &&& forall|j: int|
                    1 <= j <= m ==> {
                        &&& old(seq)@.recv_window[#[trigger] nth(seq_no, j, CAP as nat)]
                            is Unlocked
                        &&& final(seq)@.recv_window[nth(seq_no, j, CAP as nat)] is Empty
                    }
                &&& forall|k: int|
                    0 <= k < CAP ==> {
                        ||| #[trigger] final(seq)@.recv_window[k] == old(seq)@.recv_window[k]
                        ||| final(seq)@.recv_window[k] is Empty && (old(seq)@.recv_window[k]
                            is Unlocked || k == seq_no as int % CAP as int)
                    }
            },
{
    let pre = old(seq)@;
    let post = final(seq)@;
    receiving_takes_in(seq, made(seq_no, reply_no, seq_cst, data), result);
    lemma_slot(seq_no, CAP as nat);
    if seq_no == pre.next_recv {
        assert(moves_on(pre, post));
        let w = pre.recv_window.update(nth(seq_no, 0, CAP as nat), RecvEntry::Empty);
        let n = ((seq_no + 1) % 0x1_0000_0000) as SeqNo;
        let m = choose|m: nat| #[trigger]
            is_passed(w, n, m, post.recv_window, post.next_recv);
        assert(is_passed(w, n, m, post.recv_window, post.next_recv));
        assert forall|j: int| nth(n, j, CAP as nat) == #[trigger] nth(seq_no, j + 1, CAP as nat) by {
            assert((n + j) % 0x1_0000_0000 == (seq_no + (j + 1)) % 0x1_0000_0000);
        }
        assert(nth(n, m as int, CAP as nat) == nth(seq_no, (m as int) + 1, CAP as nat));
        assert((m + 1) as int == (m as int) + 1);
        assert((n + m) % 0x1_0000_0000 == (seq_no + 1 + m) % 0x1_0000_0000);
        assert forall|j: int| 1 <= j <= m implies {
            &&& pre.recv_window[#[trigger] nth(seq_no, j, CAP as nat)] is Unlocked
            &&& post.recv_window[nth(seq_no, j, CAP as nat)] is Empty
        } by {
            assert(nth(n, j - 1, CAP as nat) == nth(seq_no, (j - 1) + 1, CAP as nat));
            assert(w[nth(n, j - 1, CAP as nat)] is Unlocked);
        }
        assert forall|k: int| 0 <= k < CAP implies {
            ||| #[trigger] post.recv_window[k] == pre.recv_window[k]
            ||| post.recv_window[k] is Empty && (pre.recv_window[k] is Unlocked || k
                == seq_no as int % CAP as int)
        } by {
            if post.recv_window[k] != w[k] {
                let j = choose|j: int| 0 <= j < m && k == #[trigger] nth(n, j, CAP as nat);
                assert(w[nth(n, j, CAP as nat)] is Unlocked);
            }
        }
    }
}

/// The next packet, where it waits in the receive window and there is room to answer it, is pumped
/// unless it is SeqCst and the session is locked. It comes with its own number and data.
pub proof fn waiting_packet_is_pumped<S, R, const CAP: usize>(
    seq: &mut SeqEx<S, R, CAP>,
    seq_no: SeqNo,
    reply_no: Option<SeqNo>,
    seq_cst: bool,
    data: R,
    result: Result<(RecvOkRaw<S, R>, bool), TryError>,
)
    requires
        old(seq).wf(),
        old(seq)@.recv_window[old(seq)@.next_recv as int % CAP as int] == (RecvEntry::Occupied {
            seq_no,
            reply_no,
            seq_cst,
            data,
        }),
        old(seq)@.replies.len() < CAP - 2,
        forall|i: int|
            0 <= i <= old(seq)@.replies.len() ==> {
                let k = #[trigger] nth(old(seq)@.next_send, i, CAP as nat);
                old(seq)@.send_window[k] is None || (reply_no matches Some(r) && r as int
                    % CAP as int == k)
            },
        call_ensures(SeqEx::<S, R, CAP>::try_pump_raw, (seq,), result),
    ensures
        result is Ok <==> !(seq_cst && old(seq)@.locked),
        result is Err ==> result->Err_0 is WaitingForReply && final(seq)@ == old(seq)@,
        result is Ok ==> {
            let post = final(seq)@;
            &&& match (result->Ok_0).0 {
                RecvOkRaw::Payload { reply_no: n, seq_cst: c, recv_data } => n == seq_no && c
                    == seq_cst && recv_data == data,
                RecvOkRaw::Reply { reply_no: n, seq_cst: c, recv_data, .. } => n == seq_no && c
                    == seq_cst && recv_data == data,
                RecvOkRaw::Ack { .. } => false,
            }
            &&& (result->Ok_0).1 <==> post.recv_window[post.next_recv as int % CAP as int]
                is Occupied
            &&& post.replies == old(seq)@.replies.insert(seq_no)
            &&& post.locked == (old(seq)@.locked || seq_cst)
        },
{
    let pre = old(seq)@;
    lemma_free(pre, reply_no);
    lemma_slot(pre.next_recv, CAP as nat);
    lemma_slot(final(seq)@.next_recv, CAP as nat);
    lemma_takes_next(pre, final(seq)@, result);
}

/// Where no packet waits in the slot of the next number, nothing is pumped and nothing changes.
pub proof fn nothing_is_pumped_where_nothing_waits<S, R, const CAP: usize>(
    seq: &mut SeqEx<S, R, CAP>,
    result: Result<(RecvOkRaw<S, R>, bool), TryError>,
)
    requires
        old(seq).wf(),
        old(seq)@.recv_window[old(seq)@.next_recv as int % CAP as int] !is Occupied,
        call_ensures(SeqEx::<S, R, CAP>::try_pump_raw, (seq,), result),
    ensures
        result is Err,
        result->Err_0 is WaitingForRecv,
        final(seq)@ == old(seq)@,
{
}

/// A packet that is sent has the next number, is kept with all its data in the slot of that
/// number, and is resent after the resend interval. The next service is no later than that, and no
/// earlier than it was before or that.
pub proof fn sent_packet_is_kept<S, R, const CAP: usize>(
    seq: &mut SeqEx<S, R, CAP>,
    now: i64,
    seq_cst: bool,
    data: S,
    result: Result<Packet<&S>, (TryError, S)>,
)
    requires
        old(seq).wf(),
        i64::MIN <= now + old(seq)@.resend_interval <= i64::MAX,
        call_ensures(SeqEx::<S, R, CAP>::try_send_direct, (seq, now, seq_cst, data), result),
        result is Ok,
    ensures
        seq_cst ==> result->Ok_0 == Packet::SeqCstPayload(old(seq)@.next_send, &data),
        !seq_cst ==> result->Ok_0 == Packet::Payload(old(seq)@.next_send, &data),
        final(seq)@.next_send == (old(seq)@.next_send + 1) % 0x1_0000_0000,
        final(seq)@.send_window == old(seq)@.send_window.update(
            old(seq)@.next_send as int % CAP as int,
            Some(
                SendEntry {
                    seq_no: old(seq)@.next_send,
                    reply_no: None,
                    seq_cst,
                    next_resend_time: (now + old(seq)@.resend_interval) as i64,
                    data,
                },
            ),
        ),
        final(seq)@.next_service_timestamp <= now + old(seq)@.resend_interval,
        final(seq)@.next_service_timestamp <= old(seq)@.next_service_timestamp,
        ({
            ||| final(seq)@.next_service_timestamp == now + old(seq)@.resend_interval
            ||| final(seq)@.next_service_timestamp == old(seq)@.next_service_timestamp
        }),
        final(seq)@.recv_window == old(seq)@.recv_window,
        final(seq)@.next_recv == old(seq)@.next_recv,
        final(seq)@.replies == old(seq)@.replies,
        final(seq)@.locked == old(seq)@.locked,
        final(seq)@.resend_interval == old(seq)@.resend_interval,
{
}

/// A reply that is given has the next number and the number that it answers, is kept with all its
/// data in the slot of its own number, and is resent after the resend interval.
pub proof fn given_reply_is_kept<S, R, const CAP: usize>(
    seq: &mut SeqEx<S, R, CAP>,
    now: i64,
    reply_no: SeqNo,
    unlock: bool,
    seq_cst: bool,
    data: S,
    packet: Option<Packet<&S>>,
)
    requires
        old(seq).wf(),
        i64::MIN <= now + old(seq)@.resend_interval <= i64::MAX,
        old(seq)@.replies.count(reply_no) > 0,
        call_ensures(
            SeqEx::<S, R, CAP>::reply_raw_and_direct,
            (seq, now, reply_no, unlock, seq_cst, data),
            packet,
        ),
    ensures
        packet is Some,
        seq_cst ==> packet->0 == Packet::SeqCstReply(old(seq)@.next_send, reply_no, &data),
        !seq_cst ==> packet->0 == Packet::Reply(old(seq)@.next_send, reply_no, &data),
        final(seq)@.next_send == (old(seq)@.next_send + 1) % 0x1_0000_0000,
        final(seq)@.send_window == old(seq)@.send_window.update(
            old(seq)@.next_send as int % CAP as int,
            Some(
                SendEntry {
                    seq_no: old(seq)@.next_send,
                    reply_no: Some(reply_no),
                    seq_cst,
                    next_resend_time: (now + old(seq)@.resend_interval) as i64,
                    data,
                },
            ),
        ),
        final(seq)@.next_service_timestamp <= now + old(seq)@.resend_interval,
        final(seq)@.next_service_timestamp <= old(seq)@.next_service_timestamp,
        ({
            ||| final(seq)@.next_service_timestamp == now + old(seq)@.resend_interval
            ||| final(seq)@.next_service_timestamp == old(seq)@.next_service_timestamp
        }),
        final(seq)@.replies == old(seq)@.replies.remove(reply_no),
        final(seq)@.locked == (old(seq)@.locked && !unlock),
        final(seq)@.recv_window == old(seq)@.recv_window,
        final(seq)@.next_recv == old(seq)@.next_recv,
        final(seq)@.resend_interval == old(seq)@.resend_interval,
{
}

} // verus!
