use crate::traits::is_step;
use crate::{Item, LendingIterator, LendingIteratorItem};
use vstd::prelude::*;

verus! {

/// Whether `predicate` may be called on every item of `I`.
pub open spec fn accepts_every_item<I, P>(predicate: P) -> bool where
    I: for<'any> LendingIteratorItem<'any>,
    P: FnMut(&'_ <I as LendingIteratorItem>::Type) -> bool,
 {
    forall|x: &Item<'_, I>| call_requires(predicate, (x,))
}

/// The iterator that [`LendingIterator::take_while`] returns.
#[derive(Clone, Debug)]
pub struct TakeWhile<I, P> {
    pub(crate) iter: I,
    pub(crate) predicate: P,
    pub(crate) ended: bool,
}

impl<I, P> TakeWhile<I, P> {
    /// The iterator that the items are taken from.
    pub open(crate) spec fn inner(&self) -> I {
        self.iter
    }

    /// The predicate that decides whether an item is passed on.
    pub open(crate) spec fn predicate(&self) -> P {
        self.predicate
    }

    /// Whether the predicate has rejected an item. Once set, it stays set.
    pub open(crate) spec fn ended(&self) -> bool {
        self.ended
    }
}

impl<I, P> TakeWhile<I, P> where
    I: LendingIterator,
    P: FnMut(&'_ <I as LendingIteratorItem>::Type) -> bool,
 {
    /// What `inv` and `bound` are on this iterator. Where a closure is
    /// involved, they are known only through this lemma.
    pub proof fn lemma_inv_bound(self)
        ensures
            self.inv() <==> self.inner().inv() && accepts_every_item::<I, P>(self.predicate()),
            self.bound() == if self.ended() {
                Some(0nat)
            } else {
                self.inner().bound()
            },
    {
    }

    /// When the iterator is given up, so is the iterator inside: what it has
    /// borrowed is as it holds it then.
    pub proof fn lemma_given_up(self)
        requires
            has_resolved(self),
        ensures
            has_resolved(self.inner()),
    {
    }
}

impl<'any, I: LendingIteratorItem<'any>, P> LendingIteratorItem<'any> for TakeWhile<I, P> {
    type Type = <I as LendingIteratorItem<'any>>::Type;
}

impl<I, P> LendingIterator for TakeWhile<I, P> where
    I: LendingIterator,
    P: FnMut(&'_ <I as LendingIteratorItem>::Type) -> bool,
 {
    open spec fn inv(&self) -> bool {
        &&& self.inner().inv()
        &&& accepts_every_item::<I, P>(self.predicate())
    }

    open spec fn bound(&self) -> Option<nat> {
        if self.ended() {
            Some(0)
        } else {
            self.inner().bound()
        }
    }

    /// Once ended, returns `None` and leaves the iterator as it is: neither
    /// the inner iterator nor the predicate is called. Otherwise the call is
    /// one call of `next` on the inner iterator. An item that the predicate
    /// accepts is passed on; the first that it rejects ends the iterator and
    /// is dropped; the end of the inner iterator is passed on without ending
    /// this one.
    fn next(&mut self) -> (item: Option<Item<'_, Self>>)
        ensures
            final(self).predicate() == old(self).predicate(),
            old(self).ended() ==> item is None && *final(self) == *old(self),
            !old(self).ended() ==> exists|it: &mut I, x: Option<Item<'_, I>>|
                {
                    &&& *it == old(self).inner()
                    &&& *final(it) == final(self).inner()
                    &&& call_ensures(<I as LendingIterator>::next, (it,), x)
                    &&& match x {
                        Some(a) => exists|keep: bool|
                            {
                                &&& call_ensures(old(self).predicate(), (&a,), keep)
                                &&& final(self).ended() == !keep
                                &&& item == (if keep {
                                    Some(a)
                                } else {
                                    None
                                })
                            },
                        None => item is None && !final(self).ended(),
                    }
                },
    {
        if self.ended {
            None
        } else {
            let next_item = self.iter.next()?;
            if (self.predicate)(&next_item) {
                Some(next_item)
            } else {
                self.ended = true;
                None
            }
        }
    }
}

/// In a run of a `TakeWhile`, a state that has ended is followed by states
/// that have ended.
proof fn lemma_take_while_stays_ended<I, P>(
    states: Seq<TakeWhile<I, P>>,
    outs: Seq<Option<Item<'_, I>>>,
    i: int,
    k: int,
) where I: LendingIterator, P: FnMut(&'_ <I as LendingIteratorItem>::Type) -> bool
    requires
        states.len() == outs.len() + 1,
        forall|j: int| #[trigger]
            is_step(states, j) ==> exists|it: &mut TakeWhile<I, P>|
                {
                    &&& *it == states[j]
                    &&& *final(it) == states[j + 1]
                    &&& call_ensures(<TakeWhile<I, P> as LendingIterator>::next, (it,), outs[j])
                },
        0 <= i <= k < states.len(),
        states[i].ended(),
    ensures
        states[k].ended(),
        states[k] == states[i],
    decreases k - i,
{
    if i < k {
        lemma_take_while_stays_ended(states, outs, i, k - 1);
        assert(is_step(states, k - 1));
    }
}

/// A `TakeWhile` yields the items of its inner iterator up to the first that
/// its predicate rejects, and none from then on.
///
/// In a run of the `TakeWhile`, a sequence of states with the result of
/// `next` between each two:
/// - the predicate stays the same;
/// - an item is returned only while the iterator has not ended: it is the item
///   of one call of `next` on the inner iterator, and the predicate has
///   accepted it;
/// - the iterator ends in the call in which the inner iterator hands out an
///   item that the predicate rejects, and that call returns `None`;
/// - once it has ended it stays as it is, whatever the inner iterator and the
///   predicate would do: every later call returns `None`.
pub proof fn law_take_while<I, P>(
    states: Seq<TakeWhile<I, P>>,
    outs: Seq<Option<Item<'_, I>>>,
) where I: LendingIterator, P: FnMut(&'_ <I as LendingIteratorItem>::Type) -> bool
    requires
        states.len() == outs.len() + 1,
        forall|j: int| #[trigger]
            is_step(states, j) ==> exists|it: &mut TakeWhile<I, P>|
                {
                    &&& *it == states[j]
                    &&& *final(it) == states[j + 1]
                    &&& call_ensures(<TakeWhile<I, P> as LendingIterator>::next, (it,), outs[j])
                },
    ensures
        forall|j: int| #[trigger]
            is_step(states, j) ==> states[j + 1].predicate() == states[j].predicate(),
        forall|j: int| #[trigger]
            is_step(states, j) && outs[j] is Some ==> !states[j].ended() && !states[j
                + 1].ended() && exists|it: &mut I|
                {
                    &&& *it == states[j].inner()
                    &&& *final(it) == states[j + 1].inner()
                    &&& call_ensures(<I as LendingIterator>::next, (it,), outs[j])
                    &&& call_ensures(states[j].predicate(), (&outs[j]->0,), true)
                },
        forall|j: int| #[trigger]
            is_step(states, j) && !states[j].ended() && states[j + 1].ended() ==> outs[j] is None
                && exists|it: &mut I, rejected: Item<'_, I>|
                {
                    &&& *it == states[j].inner()
                    &&& *final(it) == states[j + 1].inner()
                    &&& call_ensures(<I as LendingIterator>::next, (it,), Some(rejected))
                    &&& call_ensures(states[j].predicate(), (&rejected,), false)
                },
        forall|i: int, k: int|
            0 <= i <= k < states.len() && (#[trigger] states[i]).ended() ==> (
            #[trigger] states[k]) == states[i],
        forall|i: int, k: int|
            #[trigger] is_step(states, i) && #[trigger] is_step(states, k) && i <= k
                && states[i].ended() ==> outs[k] is None,
{
    assert forall|i: int, k: int|
        0 <= i <= k < states.len() && (#[trigger] states[i]).ended() implies (
    #[trigger] states[k]) == states[i] by {
        lemma_take_while_stays_ended(states, outs, i, k);
    }
    assert forall|i: int, k: int|
        #[trigger] is_step(states, i) && #[trigger] is_step(states, k) && i <= k
            && states[i].ended() implies outs[k] is None by {
        lemma_take_while_stays_ended(states, outs, i, k);
    }
}

} // verus!
