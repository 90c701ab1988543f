//! What a walk over the data in the send window meets.
use crate::iter::{window_data, Iter, IterMut};
use crate::model::SeqState;
use crate::seq_queue::{SendEntry, SeqEx};
use vstd::prelude::*;

verus! {

/// Whether `picked` lists, in order, the taken slots from `lo` to `hi`, and `data` lists what is
/// in them.
pub open spec fn lists_data<S>(
    window: Seq<Option<SendEntry<S>>>,
    lo: int,
    hi: int,
    picked: Seq<int>,
    data: Seq<S>,
) -> bool {
    &&& picked.len() == data.len()
    &&& forall|a: int, b: int|
        0 <= a < b < picked.len() ==> #[trigger] picked[a] < #[trigger] picked[b]
    &&& forall|a: int|
        0 <= a < picked.len() ==> {
            &&& lo <= #[trigger] picked[a] < hi
            &&& window[picked[a]] matches Some(entry)
            &&& entry.data == data[a]
        }
    &&& forall|i: int| lo <= i < hi && #[trigger] window[i] is Some ==> picked.contains(i)
}

proof fn lemma_lists_data<S>(window: Seq<Option<SendEntry<S>>>, lo: int, hi: int) -> (picked: Seq<
    int,
>)
    requires
        0 <= lo <= hi <= window.len(),
    ensures
        lists_data(window, lo, hi, picked, window_data(window, lo, hi)),
    decreases hi - lo,
{
    if lo == hi {
        Seq::empty()
    } else {
        let rest = lemma_lists_data(window, lo + 1, hi);
        if window[lo] is Some {
            let picked = seq![lo] + rest;
            assert forall|i: int| lo <= i < hi && #[trigger] window[i] is Some implies
                picked.contains(i) by {
                if i == lo {
                    assert(picked[0] == i);
                } else {
                    let a = choose|a: int| 0 <= a < rest.len() && rest[a] == i;
                    assert(picked[a + 1] == i);
                }
            }
            picked
        } else {
            rest
        }
    }
}

/// A walk meets the data of every packet in the send window, once each and in the order of the
/// slots.
pub proof fn walk_meets_every_packet<S, R, const CAP: usize>(
    seq: SeqEx<S, R, CAP>,
    iter: Iter<S>,
) -> (picked: Seq<int>)
    requires
        seq.wf(),
        call_ensures(SeqEx::<S, R, CAP>::iter, (&seq,), iter),
    ensures
        lists_data(seq@.send_window, 0, CAP as int, picked, iter.remaining()),
        iter.wf(),
{
    lemma_lists_data(seq@.send_window, 0, CAP as int)
}

/// Each step of a walk takes the first, or the last, of what remains, and ends if and only if
/// nothing remains.
pub proof fn walk_takes_the_first<'a, S>(iter: &mut Iter<'a, S>, data: Option<&'a S>)
    requires
        old(iter).wf(),
        call_ensures(Iter::<'a, S>::next, (iter,), data),
    ensures
        data is Some <==> old(iter).remaining().len() > 0,
        data is Some ==> {
            &&& *data->0 == old(iter).remaining().first()
            &&& final(iter).remaining() == old(iter).remaining().drop_first()
        },
        data is None ==> final(iter).remaining().len() == 0,
{
    if data is Some {
        assert(final(iter).remaining() =~= (seq![*data->0] + final(iter).remaining()).drop_first());
    }
}

/// A step from the back takes the last of what remains.
pub proof fn walk_back_takes_the_last<'a, S>(iter: &mut Iter<'a, S>, data: Option<&'a S>)
    requires
        old(iter).wf(),
        call_ensures(Iter::<'a, S>::next_back, (iter,), data),
    ensures
        data is Some <==> old(iter).remaining().len() > 0,
        data is Some ==> {
            &&& *data->0 == old(iter).remaining().last()
            &&& final(iter).remaining() == old(iter).remaining().drop_last()
        },
        data is None ==> final(iter).remaining().len() == 0,
{
    if data is Some {
        assert(final(iter).remaining() =~= final(iter).remaining().push(*data->0).drop_last());
    }
}

/// A walk that may change data starts with the whole send window, and changes nothing of the
/// session outside of it.
pub proof fn changing_walk_starts_with_the_whole_window<'a, S, R, const CAP: usize>(
    seq: &'a mut SeqEx<S, R, CAP>,
    iter: IterMut<'a, S>,
)
    requires
        old(seq).wf(),
        call_ensures(SeqEx::<S, R, CAP>::iter_mut, (seq,), iter),
    ensures
        iter.front() == 0,
        iter.back() == CAP,
        iter.window()@ == old(seq)@.send_window,
        final(seq)@ == (SeqState { send_window: final(iter.window())@, ..old(seq)@ }),
{
}

/// Each step gives the data of the first taken slot that remains, and nothing but that data can be
/// changed by it.
pub proof fn changing_walk_gives_the_first<'a, 'b, S>(
    iter: &'b mut IterMut<'a, S>,
    data: Option<&'b mut S>,
)
    requires
        old(iter).wf(),
        call_ensures(IterMut::<'a, S>::next, (iter,), data),
    ensures
        final(iter).back() == old(iter).back(),
        ({
            let window = old(iter).window()@;
            let k = final(iter).front() - 1;
            match data {
                Some(d) => {
                    &&& old(iter).front() <= k < old(iter).back()
                    &&& forall|j: int| old(iter).front() <= j < k ==> #[trigger] window[j] is None
                    &&& window[k] matches Some(entry)
                    &&& entry.data == *d
                    &&& final(iter).window()@ == window.update(
                        k,
                        Some(SendEntry { data: *final(d), ..entry }),
                    )
                },
                None => {
                    &&& forall|j: int|
                        old(iter).front() <= j < old(iter).back() ==> #[trigger] window[j] is None
                    &&& final(iter).window()@ == window
                },
            }
        }),
{
}

/// A step from the back gives the data of the last taken slot that remains.
pub proof fn changing_walk_back_gives_the_last<'a, 'b, S>(
    iter: &'b mut IterMut<'a, S>,
    data: Option<&'b mut S>,
)
    requires
        old(iter).wf(),
        call_ensures(IterMut::<'a, S>::next_back, (iter,), data),
    ensures
        final(iter).front() == old(iter).front(),
        ({
            let window = old(iter).window()@;
            let k = final(iter).back();
            match data {
                Some(d) => {
                    &&& old(iter).front() <= k < old(iter).back()
                    &&& forall|j: int| k < j < old(iter).back() ==> #[trigger] window[j] is None
                    &&& window[k] matches Some(entry)
                    &&& entry.data == *d
                    &&& final(iter).window()@ == window.update(
                        k,
                        Some(SendEntry { data: *final(d), ..entry }),
                    )
                },
                None => {
                    &&& forall|j: int|
                        old(iter).front() <= j < old(iter).back() ==> #[trigger] window[j] is None
                    &&& final(iter).window()@ == window
                },
            }
        }),
{
}

} // verus!
