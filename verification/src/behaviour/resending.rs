//! What a pass over the send window does, told by comparing times.
use crate::behaviour::made;
use crate::model::{earliest, is_due, SeqState};
use crate::seq_queue::{min, next_due, SendEntry, SeqEx, ServiceIter};
use crate::single_thread::due_packets;
use crate::transport_layer::{Packet, TransportLayer};
use vstd::prelude::*;

verus! {

/// Whether `t` is the least of `bound` and the resend times in slots `lo` to `hi` of a send
/// window.
pub open spec fn is_least<S>(
    window: Seq<Option<SendEntry<S>>>,
    lo: int,
    hi: int,
    bound: int,
    t: int,
) -> bool {
    &&& t <= bound
    &&& forall|j: int|
        lo <= j < hi ==> (#[trigger] window[j] matches Some(entry) ==> t <= entry.next_resend_time)
    &&& t == bound || exists|j: int|
        lo <= j < hi && (#[trigger] window[j] matches Some(entry) && t == entry.next_resend_time)
}

/// Whether `picked` lists, in order, the slots below `n` whose packets have a resend time that is
/// not after `now`, and `packets` lists those packets.
pub open spec fn lists_due<S>(
    window: Seq<Option<SendEntry<S>>>,
    now: i64,
    n: int,
    picked: Seq<int>,
    packets: Seq<Packet<S>>,
) -> bool {
    &&& picked.len() == packets.len()
    &&& forall|a: int, b: int|
        0 <= a < b < picked.len() ==> #[trigger] picked[a] < #[trigger] picked[b]
    &&& forall|a: int|
        0 <= a < picked.len() ==> {
            &&& 0 <= #[trigger] picked[a] < n
            &&& window[picked[a]] matches Some(entry)
            &&& entry.next_resend_time <= now
            &&& packets[a] == made(entry.seq_no, entry.reply_no, entry.seq_cst, entry.data)
        }
    &&& forall|i: int|
        0 <= i < n && (#[trigger] window[i] matches Some(entry) && entry.next_resend_time <= now)
            ==> picked.contains(i)
}

/// Whether `b` is `a` after a pass at time `now`: each packet that was due has a new resend time,
/// no other packet has changed, and the next pass is due when the first packet is.
pub open spec fn is_serviced<S, R>(a: SeqState<S, R>, now: i64, b: SeqState<S, R>) -> bool {
    if now < a.next_service_timestamp {
        b == a
    } else {
        &&& b == (SeqState {
            send_window: b.send_window,
            next_service_timestamp: b.next_service_timestamp,
            ..a
        })
        &&& b.send_window.len() == a.send_window.len()
        &&& forall|i: int|
            0 <= i < a.send_window.len() ==> #[trigger] b.send_window[i] == match a.send_window[i] {
                Some(entry) if entry.next_resend_time <= now => Some(
                    SendEntry { next_resend_time: (now + a.resend_interval) as i64, ..entry },
                ),
                other => other,
            }
        &&& is_least(
            b.send_window,
            0,
            b.send_window.len() as int,
            i64::MAX as int,
            b.next_service_timestamp as int,
        )
    }
}

/// Whether `after` is `before` followed by the packets that a pass at time `now` resends: every
/// packet whose resend time is not after `now`, once each and in the order of the slots, and no
/// other.
pub open spec fn is_resent<S, R>(
    st: SeqState<S, R>,
    now: i64,
    before: Seq<Packet<S>>,
    after: Seq<Packet<S>>,
) -> bool {
    if now < st.next_service_timestamp {
        after == before
    } else {
        &&& after.len() >= before.len()
        &&& after.take(before.len() as int) == before
        &&& exists|picked: Seq<int>| #[trigger]
            lists_due(
                st.send_window,
                now,
                st.send_window.len() as int,
                picked,
                after.skip(before.len() as int),
            )
    }
}

pub(crate) proof fn lemma_resent<S, R>(st: SeqState<S, R>, now: i64, before: Seq<Packet<S>>)
    ensures
        is_resent(st, now, before, before + crate::single_thread::to_resend(st, now)),
{
    let cap = st.send_window.len() as int;
    let due = due_packets(st.send_window, now, cap);
    assert(before + Seq::<Packet<S>>::empty() =~= before);
    assert((before + due).take(before.len() as int) =~= before);
    assert((before + due).skip(before.len() as int) =~= due);
    let picked = lemma_lists_due(st.send_window, now, cap);
}

pub(crate) proof fn lemma_least<S>(
    window: Seq<Option<SendEntry<S>>>,
    lo: int,
    hi: int,
    bound: i64,
)
    ensures
        is_least(window, lo, hi, bound as int, min(bound, earliest(window, lo, hi)) as int),
    decreases hi - lo,
{
    if lo < hi {
        lemma_least(window, lo, hi - 1, bound);
        let t = min(bound, earliest(window, lo, hi));
        let rest = min(bound, earliest(window, lo, hi - 1));
        if t != bound {
            if t == rest {
                let j = choose|j: int|
                    lo <= j < hi - 1 && (#[trigger] window[j] matches Some(entry) && rest
                        == entry.next_resend_time);
                assert(lo <= j < hi && window[j] is Some);
            } else {
                assert(window[hi - 1] is Some);
            }
        }
    }
}

pub(crate) proof fn lemma_lists_due<S>(
    window: Seq<Option<SendEntry<S>>>,
    now: i64,
    n: int,
) -> (picked: Seq<int>)
    requires
        0 <= n <= window.len(),
    ensures
        lists_due(window, now, n, picked, due_packets(window, now, n)),
    decreases n,
{
    if n == 0 {
        Seq::empty()
    } else {
        let rest = lemma_lists_due(window, now, n - 1);
        if is_due(window, n - 1, now) {
            let picked = rest.push(n - 1);
            assert forall|i: int|
                0 <= i < n && (#[trigger] window[i] matches Some(entry) && entry.next_resend_time
                    <= now) implies picked.contains(i) by {
                if i == n - 1 {
                    assert(picked[rest.len() as int] == i);
                } else {
                    let a = choose|a: int| 0 <= a < rest.len() && rest[a] == i;
                    assert(picked[a] == i);
                }
            }
            picked
        } else {
            rest
        }
    }
}

pub(crate) proof fn lemma_serviced<S, R>(st: SeqState<S, R>, now: i64)
    requires
        st.wf(),
    ensures
        is_serviced(st, now, crate::single_thread::after_service(st, now)),
{
    let post = crate::single_thread::after_service(st, now);
    lemma_least(post.send_window, 0, post.send_window.len() as int, i64::MAX);
}

/// Before the time of the next pass there is nothing to do.
pub proof fn pass_waits_for_its_time<S, R, const CAP: usize>(
    seq: &mut SeqEx<S, R, CAP>,
    now: i64,
    iter: &mut Option<ServiceIter>,
    packet: Option<Packet<&S>>,
)
    requires
        now < old(seq)@.next_service_timestamp,
        call_ensures(SeqEx::<S, R, CAP>::service_direct, (seq, now, iter), packet),
    ensures
        packet is None,
        final(seq)@ == old(seq)@,
        *final(iter) == *old(iter),
{
}

proof fn lemma_first<S, R>(st: SeqState<S, R>, now: i64, from: int)
    ensures
        match next_due(st, now, from) {
            Some(k) => {
                &&& from <= k < st.send_window.len()
                &&& forall|j: int|
                    from <= j < k ==> (#[trigger] st.send_window[j] matches Some(entry)
                        ==> entry.next_resend_time > now)
                &&& st.send_window[k] matches Some(entry)
                &&& entry.next_resend_time <= now
            },
            None => forall|j: int|
                from <= j < st.send_window.len() ==> (#[trigger] st.send_window[j] matches Some(
                    entry,
                ) ==> entry.next_resend_time > now),
        },
{
    match next_due(st, now, from) {
        Some(k) => {
            crate::single_thread::lemma_first_due(st, now, from);
            assert forall|j: int| from <= j < k implies (#[trigger] st.send_window[j] matches Some(
                entry,
            ) ==> entry.next_resend_time > now) by {
                assert(!is_due(st.send_window, j, now));
            }
        },
        None => {
            assert forall|j: int| from <= j < st.send_window.len() implies (
            #[trigger] st.send_window[j] matches Some(entry) ==> entry.next_resend_time > now) by {
                assert(!is_due(st.send_window, j, now));
            }
        },
    }
}

proof fn lemma_least_of_three<S>(
    window: Seq<Option<SendEntry<S>>>,
    lo: int,
    hi: int,
    a: i64,
    b: i64,
)
    ensures
        is_least(
            window,
            lo,
            hi,
            if a < b {
                a as int
            } else {
                b as int
            },
            min(min(a, earliest(window, lo, hi)), b) as int,
        ),
{
    lemma_least(window, lo, hi, min(a, b));
}

/// A pass that has come to a slot returns the first packet from there on whose resend time is not
/// after `now`, and gives it a new resend time.
#[verifier::rlimit(40)]
pub proof fn pass_returns_the_first_due_packet<S, R, const CAP: usize>(
    seq: &mut SeqEx<S, R, CAP>,
    now: i64,
    iter: &mut Option<ServiceIter>,
    packet: Option<Packet<&S>>,
    from: int,
    so_far: i64,
)
    requires
        old(seq).wf(),
        i64::MIN <= now + old(seq)@.resend_interval <= i64::MAX,
        match *old(iter) {
            Some(i) => i@ == (from, so_far),
            None => from == 0 && so_far == i64::MAX,
        },
        0 <= from,
        call_ensures(SeqEx::<S, R, CAP>::service_direct, (seq, now, iter), packet),
        packet is Some,
    ensures
        now >= old(seq)@.next_service_timestamp,
        *final(iter) is Some,
        ({
            let k = (*final(iter))->0@.0 - 1;
            &&& from <= k < CAP
            &&& forall|j: int|
                from <= j < k ==> (#[trigger] old(seq)@.send_window[j] matches Some(entry)
                    ==> entry.next_resend_time > now)
            &&& old(seq)@.send_window[k] matches Some(entry)
            &&& entry.next_resend_time <= now
            &&& packet->0 == made(entry.seq_no, entry.reply_no, entry.seq_cst, &entry.data)
            &&& final(seq)@ == (SeqState {
                send_window: old(seq)@.send_window.update(
                    k,
                    Some(
                        SendEntry {
                            next_resend_time: (now + old(seq)@.resend_interval) as i64,
                            ..entry
                        },
                    ),
                ),
                ..old(seq)@
            })
            &&& is_least(
                old(seq)@.send_window,
                from,
                k,
                if so_far < now + old(seq)@.resend_interval {
                    so_far as int
                } else {
                    now + old(seq)@.resend_interval
                },
                (*final(iter))->0@.1 as int,
            )
        }),
{
    let pre = old(seq)@;
    lemma_first(pre, now, from);
    let k = next_due(pre, now, from)->0;
    lemma_least_of_three(pre.send_window, from, k, so_far, (now + pre.resend_interval) as i64);
    assert((*final(iter))->0@.0 == k + 1);
    let entry = pre.send_window[k]->0;
    assert(packet->0 == made(entry.seq_no, entry.reply_no, entry.seq_cst, &entry.data));
    assert(final(seq)@ == pre.resent(k, now));
    assert((*final(iter))->0@.1 == min(
        min(so_far, earliest(pre.send_window, from, k)),
        (now + pre.resend_interval) as i64,
    ));
}

/// Where no packet from there on has a resend time that is not after `now`, the pass ends, and the
/// next one is due when the first packet is.
pub proof fn pass_ends_where_nothing_is_due<S, R, const CAP: usize>(
    seq: &mut SeqEx<S, R, CAP>,
    now: i64,
    iter: &mut Option<ServiceIter>,
    packet: Option<Packet<&S>>,
    from: int,
    so_far: i64,
)
    requires
        old(seq).wf(),
        i64::MIN <= now + old(seq)@.resend_interval <= i64::MAX,
        match *old(iter) {
            Some(i) => i@ == (from, so_far),
            None => from == 0 && so_far == i64::MAX,
        },
        0 <= from,
        call_ensures(SeqEx::<S, R, CAP>::service_direct, (seq, now, iter), packet),
        now >= old(seq)@.next_service_timestamp,
        packet is None,
    ensures
        *final(iter) is Some,
        (*final(iter))->0@.0 >= CAP,
        forall|j: int|
            from <= j < CAP ==> (#[trigger] old(seq)@.send_window[j] matches Some(entry)
                ==> entry.next_resend_time > now),
        final(seq)@ == (SeqState {
            next_service_timestamp: final(seq)@.next_service_timestamp,
            ..old(seq)@
        }),
        is_least(
            old(seq)@.send_window,
            from,
            CAP as int,
            so_far as int,
            final(seq)@.next_service_timestamp as int,
        ),
{
    lemma_first(old(seq)@, now, from);
    lemma_least(old(seq)@.send_window, from, CAP as int, so_far);
}

/// A service at time `now`, if it is time for one, resends every packet in the send window whose
/// resend time is not after `now`, once each and in the order of the slots, and no other. Each
/// gets a new resend time.
pub proof fn service_resends_what_is_due<S, R, TL: TransportLayer<S>, const CAP: usize>(
    seq: &mut SeqEx<S, R, CAP>,
    tl: &mut TL,
    now: i64,
)
    requires
        old(seq).wf(),
        call_ensures(SeqEx::<S, R, CAP>::resend_due::<TL>, (seq, tl, now), ()),
    ensures
        is_serviced(old(seq)@, now, final(seq)@),
        is_resent(old(seq)@, now, old(tl).sent(), final(tl).sent()),
{
    lemma_serviced(old(seq)@, now);
    lemma_resent(old(seq)@, now, old(tl).sent());
}

/// A service at time `now`, where it was time for one, hands every packet in the send window whose
/// resend time is not after `now` to the transport layer.
pub proof fn due_packet_is_resent<S, R, TL: TransportLayer<S>, const CAP: usize>(
    seq: &mut SeqEx<S, R, CAP>,
    tl: &mut TL,
    now: i64,
    i: int,
)
    requires
        old(seq).wf(),
        old(seq)@.next_service_timestamp <= now,
        0 <= i < CAP,
        old(seq)@.send_window[i] is Some,
        (old(seq)@.send_window[i]->0).next_resend_time <= now,
        call_ensures(SeqEx::<S, R, CAP>::resend_due::<TL>, (seq, tl, now), ()),
    ensures
        ({
            let entry = old(seq)@.send_window[i]->0;
            exists|j: int|
                {
                    &&& old(tl).sent().len() <= j < final(tl).sent().len()
                    &&& #[trigger] final(tl).sent()[j] == made(
                        entry.seq_no,
                        entry.reply_no,
                        entry.seq_cst,
                        entry.data,
                    )
                }
        }),
{
    let window = old(seq)@.send_window;
    let due = due_packets(window, now, CAP as int);
    let picked = lemma_lists_due(window, now, CAP as int);
    assert(picked.contains(i));
    let a = choose|a: int| 0 <= a < picked.len() && picked[a] == i;
    assert(window[picked[a]] is Some);
    assert((old(tl).sent() + due)[old(tl).sent().len() + a] == due[a]);
}

/// After a service at time `now`, where it was time for one, no packet in the send window has a
/// resend time that is not after `now`, for a positive resend interval. The time of the next
/// service is after `now` too, and no packet is due before it.
pub proof fn nothing_is_due_after_service<S, R, TL: TransportLayer<S>, const CAP: usize>(
    seq: &mut SeqEx<S, R, CAP>,
    tl: &mut TL,
    now: i64,
)
    requires
        old(seq).wf(),
        old(seq)@.next_service_timestamp <= now,
        0 < old(seq)@.resend_interval,
        now + old(seq)@.resend_interval <= i64::MAX,
        call_ensures(SeqEx::<S, R, CAP>::resend_due::<TL>, (seq, tl, now), ()),
    ensures
        forall|i: int|
            0 <= i < CAP ==> (#[trigger] final(seq)@.send_window[i] matches Some(entry) ==> {
                &&& now < entry.next_resend_time
                &&& final(seq)@.next_service_timestamp <= entry.next_resend_time
            }),
        now < final(seq)@.next_service_timestamp,
{
    lemma_serviced(old(seq)@, now);
    let post = final(seq)@;
    assert forall|i: int| 0 <= i < CAP implies (#[trigger] post.send_window[i] matches Some(entry)
        ==> {
        &&& now < entry.next_resend_time
        &&& post.next_service_timestamp <= entry.next_resend_time
    }) by {
        assert(old(seq)@.send_window[i] is Some == post.send_window[i] is Some);
    }
}

/// A service at some time `now` that the transport layer may report does the same. The caller
/// should wait until the next service is due, but not longer than the resend interval.
pub proof fn service_waits_for_the_next_packet<
    S,
    R,
    TL: TransportLayer<S>,
    const CAP: usize,
>(
    seq: &mut SeqEx<S, R, CAP>,
    tl: &mut TL,
    wait: i64,
)
    requires
        old(seq).wf(),
        forall|t: i64| #[trigger]
            old(tl).may_report(t) ==> i64::MIN <= final(seq)@.next_service_timestamp - t
                <= i64::MAX,
        call_ensures(SeqEx::<S, R, CAP>::service::<TL>, (seq, tl), wait),
    ensures
        exists|now: i64|
            {
                &&& #[trigger] old(tl).may_report(now)
                &&& is_serviced(old(seq)@, now, final(seq)@)
                &&& is_resent(old(seq)@, now, old(tl).sent(), final(tl).sent())
                &&& wait <= final(seq)@.resend_interval
                &&& wait <= final(seq)@.next_service_timestamp - now
                &&& {
                    ||| wait == final(seq)@.resend_interval
                    ||| wait == final(seq)@.next_service_timestamp - now
                }
            },
{
    let pre = old(seq)@;
    assert forall|t: i64| #[trigger] old(tl).may_report(t) implies is_serviced(
        pre,
        t,
        crate::single_thread::after_service(pre, t),
    ) && is_resent(
        pre,
        t,
        old(tl).sent(),
        old(tl).sent() + crate::single_thread::to_resend(pre, t),
    ) by {
        lemma_serviced(pre, t);
        lemma_resent(pre, t, old(tl).sent());
    }
}

} // verus!
