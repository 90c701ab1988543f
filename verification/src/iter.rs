//! Iteration over the packets that are being sent to the remote peer.
use crate::seq_queue::SendEntry;
use vstd::prelude::*;

verus! {

/// The data of the packets in slots `lo` to `hi` of a send window, in the order of the slots.
pub open spec fn window_data<S>(window: Seq<Option<SendEntry<S>>>, lo: int, hi: int) -> Seq<S>
    decreases hi - lo,
{
    if lo >= hi {
        Seq::empty()
    } else {
        match window[lo] {
            Some(entry) => seq![entry.data] + window_data(window, lo + 1, hi),
            None => window_data(window, lo + 1, hi),
        }
    }
}

/// The data in a range of slots ends with the data in the last slot.
pub proof fn lemma_window_data_last<S>(window: Seq<Option<SendEntry<S>>>, lo: int, hi: int)
    requires
        lo < hi,
    ensures
        window_data(window, lo, hi) == match window[hi - 1] {
            Some(entry) => window_data(window, lo, hi - 1).push(entry.data),
            None => window_data(window, lo, hi - 1),
        },
    decreases hi - lo,
{
    if lo < hi - 1 {
        lemma_window_data_last(window, lo + 1, hi);
    }
    assert(window_data(window, hi, hi) =~= Seq::<S>::empty());
    assert(window_data(window, lo, hi) =~= match window[hi - 1] {
        Some(entry) => window_data(window, lo, hi - 1).push(entry.data),
        None => window_data(window, lo, hi - 1),
    });
}

/// An iterator over all packets in the send window. It will iterate over all packets currently
/// being sent to the remote peer.
/// These packets are awaiting a reply from the remote peer.
pub struct Iter<'a, SendData> {
    window: &'a Vec<Option<SendEntry<SendData>>>,
    front: usize,
    back: usize,
}

impl<'a, SendData> Iter<'a, SendData> {
    /// The data that is still to come.
    pub closed spec fn remaining(&self) -> Seq<SendData> {
        window_data(self.window@, self.front as int, self.back as int)
    }

    /// What every method keeps.
    pub closed spec fn wf(&self) -> bool {
        self.front <= self.back <= self.window@.len()
    }

    pub(crate) fn new(window: &'a Vec<Option<SendEntry<SendData>>>) -> (iter: Self)
        ensures
            iter.wf(),
            iter.remaining() == window_data(window@, 0, window@.len() as int),
    {
        Iter { window, front: 0, back: window.len() }
    }

    /// Returns the next packet from the front.
    pub fn next(&mut self) -> (data: Option<&'a SendData>)
        requires
            old(self).wf(),
        ensures
            final(self).wf(),
            match data {
                Some(d) => old(self).remaining() == seq![*d] + final(self).remaining(),
                None => old(self).remaining().len() == 0 && final(self).remaining().len() == 0,
            },
    {
        while self.front < self.back
            invariant
                self.wf(),
                self.remaining() == old(self).remaining(),
            decreases self.back - self.front,
        {
            let i: usize = self.front;
            self.front += 1;
            if let Some(entry) = &self.window[i] {
                return Some(&entry.data);
            }
        }
        None
    }

    /// Returns the next packet from the back.
    pub fn next_back(&mut self) -> (data: Option<&'a SendData>)
        requires
            old(self).wf(),
        ensures
            final(self).wf(),
            match data {
                Some(d) => old(self).remaining() == final(self).remaining().push(*d),
                None => old(self).remaining().len() == 0 && final(self).remaining().len() == 0,
            },
    {
        while self.front < self.back
            invariant
                self.wf(),
                self.remaining() == old(self).remaining(),
            decreases self.back - self.front,
        {
            proof {
                lemma_window_data_last(self.window@, self.front as int, self.back as int);
            }
            self.back -= 1;
            if let Some(entry) = &self.window[self.back] {
                return Some(&entry.data);
            }
        }
        None
    }
}

/// A mutable iterator over all packets in the send window.
///
/// The user is able to mutate the contents of the packet being sent to the remote peer, as well as
/// any local metadata associated with the packet.
///
/// Take note that if the packet itself is modified, SeqEx provides no guarantees about which
/// version of the packet will have been received by the remote peer. The local peer cannot be sure
/// if the remote peer will see the modified packet. For this reason it is not recommended to modify
/// the packet.
pub struct IterMut<'a, SendData> {
    window: &'a mut Vec<Option<SendEntry<SendData>>>,
    front: usize,
    back: usize,
}

impl<'a, SendData> IterMut<'a, SendData> {
    /// The window that is iterated over.
    pub closed spec fn window(self) -> &'a mut Vec<Option<SendEntry<SendData>>> {
        self.window
    }

    /// The first slot that is still to come.
    pub closed spec fn front(&self) -> int {
        self.front as int
    }

    /// The slot behind the last one that is still to come.
    pub closed spec fn back(&self) -> int {
        self.back as int
    }

    /// What every method keeps.
    pub open spec fn wf(&self) -> bool {
        0 <= self.front() <= self.back() <= self.window()@.len()
    }

    pub(crate) fn new(window: &'a mut Vec<Option<SendEntry<SendData>>>) -> (iter: Self)
        ensures
            iter.wf(),
            iter.front() == 0,
            iter.back() == old(window)@.len(),
            *iter.window() == *old(window),
            *final(iter.window()) == *final(window),
    {
        let back: usize = window.len();
        IterMut { window, front: 0, back }
    }

    /// Returns the next packet from the front.
    pub fn next(&mut self) -> (data: Option<&mut SendData>)
        requires
            old(self).wf(),
        ensures
            final(self).wf(),
            *final(final(self).window()) == *final(old(self).window()),
            final(self).back() == old(self).back(),
            match data {
                Some(d) => {
                    let k = final(self).front() - 1;
                    let pre = old(self).window()@;
                    &&& old(self).front() <= k < old(self).back()
                    &&& forall|j: int| old(self).front() <= j < k ==> pre[j] is None
                    &&& pre[k] is Some
                    &&& pre[k]->0.data == *d
                    &&& final(self).window()@ == pre.update(
                        k,
                        Some(SendEntry { data: *final(d), ..pre[k]->0 }),
                    )
                },
                None => {
                    &&& forall|j: int|
                        old(self).front() <= j < old(self).back() ==> old(self).window()@[j] is None
                    &&& final(self).front() == old(self).back()
                    &&& *final(self).window() == *old(self).window()
                },
            },
    {
        while self.front < self.back && self.window[self.front].is_none()
            invariant
                old(self).wf(),
                *self.window == *old(self).window,
                *final(self.window) == *final(old(self).window),
                self.back == old(self).back,
                old(self).front <= self.front <= self.back,
                forall|j: int| old(self).front <= j < self.front ==> self.window@[j] is None,
            decreases self.back - self.front,
        {
            self.front += 1;
        }
        if self.front < self.back {
            let i: usize = self.front;
            self.front += 1;
            match &mut self.window[i] {
                Some(entry) => Some(&mut entry.data),
                None => None,
            }
        } else {
            None
        }
    }

    /// Returns the next packet from the back.
    pub fn next_back(&mut self) -> (data: Option<&mut SendData>)
        requires
            old(self).wf(),
        ensures
            final(self).wf(),
            *final(final(self).window()) == *final(old(self).window()),
            final(self).front() == old(self).front(),
            match data {
                Some(d) => {
                    let k = final(self).back();
                    let pre = old(self).window()@;
                    &&& old(self).front() <= k < old(self).back()
                    &&& forall|j: int| k < j < old(self).back() ==> pre[j] is None
                    &&& pre[k] is Some
                    &&& pre[k]->0.data == *d
                    &&& final(self).window()@ == pre.update(
                        k,
                        Some(SendEntry { data: *final(d), ..pre[k]->0 }),
                    )
                },
                None => {
                    &&& forall|j: int|
                        old(self).front() <= j < old(self).back() ==> old(self).window()@[j] is None
                    &&& final(self).back() == old(self).front()
                    &&& *final(self).window() == *old(self).window()
                },
            },
    {
        while self.front < self.back && self.window[self.back - 1].is_none()
            invariant
                old(self).wf(),
                *self.window == *old(self).window,
                *final(self.window) == *final(old(self).window),
                self.front == old(self).front,
                self.front <= self.back <= old(self).back,
                forall|j: int| self.back <= j < old(self).back ==> self.window@[j] is None,
            decreases self.back - self.front,
        {
            self.back -= 1;
        }
        if self.front < self.back {
            self.back -= 1;
            let i: usize = self.back;
            match &mut self.window[i] {
                Some(entry) => Some(&mut entry.data),
                None => None,
            }
        } else {
            None
        }
    }
}

} // verus!
