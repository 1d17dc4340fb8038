use crate::traits::is_step;
use crate::{Item, LendingIterator, LendingIteratorItem};
use vstd::prelude::*;

verus! {

/// The iterator that [`LendingIterator::enumerate`] returns.
#[derive(Clone, Debug)]
pub struct Enumerate<I> {
    pub(crate) iter: I,
    pub(crate) count: usize,
}

impl<I> Enumerate<I> {
    /// The iterator whose items are counted.
    pub open(crate) spec fn inner(&self) -> I {
        self.iter
    }

    /// The index that the next item gets: the number of items so far.
    pub open(crate) spec fn count(&self) -> usize {
        self.count
    }

    /// An iterator that pairs the items of `iter` with their indices, from 0.
    pub fn new(iter: I) -> (enumerated: Enumerate<I>)
        ensures
            enumerated.inner() == iter,
            enumerated.count() == 0,
    {
        Enumerate { iter, count: 0 }
    }
}

/// The index after `count`. It wraps around after `usize::MAX`.
pub open spec fn next_index(count: usize) -> usize {
    if count == usize::MAX {
        0
    } else {
        (count + 1) as usize
    }
}

impl<'any, I: LendingIteratorItem<'any>> LendingIteratorItem<'any> for Enumerate<I> {
    type Type = (usize, <I as LendingIteratorItem<'any>>::Type);
}

impl<I: LendingIterator> Enumerate<I> {
    /// What `inv` and `bound` are on this iterator. Where a closure is
    /// involved, they are known only through this lemma.
    pub proof fn lemma_inv_bound(self)
        ensures
            self.inv() <==> self.inner().inv(),
            self.bound() == self.inner().bound(),
    {
    }

    /// When the iterator is given up, so is the iterator inside: what it has
    /// borrowed is as it holds it then.
    pub proof fn lemma_given_up(self)
        requires
            has_resolved(self),
        ensures
            has_resolved(self.inner()),
    {
    }
}

impl<I: LendingIterator> LendingIterator for Enumerate<I> {
    open spec fn inv(&self) -> bool {
        self.inner().inv()
    }

    open spec fn bound(&self) -> Option<nat> {
        self.inner().bound()
    }

    /// The call is one call of `next` on the inner iterator. Its item, if
    /// there is one, is returned with the count before the call, and the
    /// count goes up by one; at the end of the inner iterator the count stays.
    fn next(&mut self) -> (item: Option<Item<'_, Self>>)
        ensures
            exists|it: &mut I, x: Option<Item<'_, I>>|
                {
                    &&& *it == old(self).inner()
                    &&& *final(it) == final(self).inner()
                    &&& call_ensures(<I as LendingIterator>::next, (it,), x)
                    &&& match x {
                        Some(a) => item == Some((old(self).count(), a)) && final(self).count()
                            == next_index(old(self).count()),
                        None => item is None && final(self).count() == old(self).count(),
                    }
                },
    {
        let a = self.iter.next()?;
        let i = self.count;
        self.count = self.count.wrapping_add(1);
        Some((i, a))
    }
}

/// How many of the first `j` results in `outs` are items.
pub open spec fn yielded<T>(outs: Seq<Option<T>>, j: int) -> nat
    decreases j,
{
    if j <= 0 {
        0
    } else {
        yielded(outs, j - 1) + if outs[j - 1] is Some {
            1nat
        } else {
            0
        }
    }
}

/// No more of the first `j` results are items than there are results.
proof fn lemma_yielded_at_most<T>(outs: Seq<Option<T>>, j: int)
    requires
        0 <= j,
    ensures
        yielded(outs, j) <= j,
    decreases j,
{
    if j > 0 {
        lemma_yielded_at_most(outs, j - 1);
    }
}

/// In a run of an `Enumerate`, the count has gone up by one for each item.
proof fn lemma_enumerate_counts<I: LendingIterator>(
    states: Seq<Enumerate<I>>,
    outs: Seq<Option<(usize, Item<'_, I>)>>,
    k: int,
)
    requires
        states.len() == outs.len() + 1,
        forall|j: int| #[trigger]
            is_step(states, j) ==> exists|it: &mut Enumerate<I>|
                {
                    &&& *it == states[j]
                    &&& *final(it) == states[j + 1]
                    &&& call_ensures(<Enumerate<I> as LendingIterator>::next, (it,), outs[j])
                },
        states[0].count() + outs.len() <= usize::MAX,
        0 <= k < states.len(),
    ensures
        states[k].count() == states[0].count() + yielded(outs, k),
    decreases k,
{
    if k > 0 {
        lemma_enumerate_counts(states, outs, k - 1);
        lemma_yielded_at_most(outs, k - 1);
        assert(is_step(states, k - 1));
    }
}

/// An `Enumerate` pairs the items of its inner iterator, in their order, with
/// the indices that count them: with 0, 1, 2 and so on after
/// [`LendingIterator::enumerate`].
///
/// In a run of the `Enumerate`, a sequence of states with the result of `next`
/// between each two, every call is a call of `next` on the inner iterator. An
/// item of the inner iterator is returned with the first count plus the
/// number of items before it, and its end is returned as it is. This holds as
/// long as the count stays below `usize::MAX`.
pub proof fn law_enumerate<I: LendingIterator>(
    states: Seq<Enumerate<I>>,
    outs: Seq<Option<(usize, Item<'_, I>)>>,
)
    requires
        states.len() == outs.len() + 1,
        forall|j: int| #[trigger]
            is_step(states, j) ==> exists|it: &mut Enumerate<I>|
                {
                    &&& *it == states[j]
                    &&& *final(it) == states[j + 1]
                    &&& call_ensures(<Enumerate<I> as LendingIterator>::next, (it,), outs[j])
                },
        states[0].count() + outs.len() <= usize::MAX,
    ensures
        forall|j: int|
            0 <= j < states.len() ==> (#[trigger] states[j]).count() == states[0].count()
                + yielded(outs, j),
        forall|j: int| #[trigger]
            is_step(states, j) ==> exists|it: &mut I, x: Option<Item<'_, I>>|
                {
                    &&& *it == states[j].inner()
                    &&& *final(it) == states[j + 1].inner()
                    &&& call_ensures(<I as LendingIterator>::next, (it,), x)
                    &&& outs[j] == match x {
                        Some(a) => Some(((states[0].count() + yielded(outs, j)) as usize, a)),
                        None => None,
                    }
                },
{
    assert forall|j: int| 0 <= j < states.len() implies (#[trigger] states[j]).count()
        == states[0].count() + yielded(outs, j) by {
        lemma_enumerate_counts(states, outs, j);
    }
    assert forall|j: int| #[trigger] is_step(states, j) implies exists|
        it: &mut I,
        x: Option<Item<'_, I>>,
    |
        {
            &&& *it == states[j].inner()
            &&& *final(it) == states[j + 1].inner()
            &&& call_ensures(<I as LendingIterator>::next, (it,), x)
            &&& outs[j] == match x {
                Some(a) => Some(((states[0].count() + yielded(outs, j)) as usize, a)),
                None => None,
            }
        } by {
        lemma_enumerate_counts(states, outs, j);
    }
}

} // verus!
