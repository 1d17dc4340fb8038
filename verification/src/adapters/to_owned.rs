use crate::traits::is_step;
use crate::{IntoLendingIterator, LendingIterator, LendingIteratorItem};
use std::borrow::ToOwned;
use vstd::prelude::*;

verus! {

/// An owned copy of what `borrowed` refers to.
///
/// Calls `ToOwned::to_owned`. What the copy holds is up to the implementation
/// of `ToOwned` for `T`, so nothing is said of it.
#[verifier::external_body]
fn owned_copy<T: ?Sized + ToOwned>(borrowed: &T) -> (owned: T::Owned) {
    borrowed.to_owned()
}

/// The iterator that [`LendingIterator::to_owned`] returns: an ordinary
/// iterator over owned copies of the items of a lending iterator.
#[derive(Clone, Debug)]
pub struct ToOwnedItemIterator<I>(pub(crate) I);

impl<I> ToOwnedItemIterator<I> {
    /// The lending iterator inside.
    pub open(crate) spec fn inner(&self) -> I {
        self.0
    }
}

impl<T: ?Sized + ToOwned, I: LendingIterator> ToOwnedItemIterator<I> where
    I: for<'any> LendingIteratorItem<'any, Type = &'any T>,
 {
    /// Advances the iterator. The call is one call of `next` on the lending
    /// iterator inside; an item is copied at once and the copy returned, the
    /// end is passed on.
    pub fn next(&mut self) -> (item: Option<T::Owned>)
        requires
            old(self).inner().inv(),
        ensures
            final(self).inner().inv(),
            exists|it: &mut I, x: Option<&T>|
                {
                    &&& *it == old(self).inner()
                    &&& *final(it) == final(self).inner()
                    &&& call_ensures(<I as LendingIterator>::next, (it,), x)
                    &&& x is Some <==> item is Some
                },
    {
        match self.0.next() {
            Some(x) => Some(owned_copy(x)),
            None => None,
        }
    }
}

/// The iterable that [`IntoLendingIterator::to_into_owned_item`] returns.
#[derive(Clone, Debug)]
pub struct ToIntoOwnedItemIterator<I>(pub(crate) I);

impl<I> ToIntoOwnedItemIterator<I> {
    /// The value inside.
    pub open(crate) spec fn inner(&self) -> I {
        self.0
    }
}

impl<T: ?Sized + ToOwned, I: IntoLendingIterator> ToIntoOwnedItemIterator<I> where
    I::IntoLendIter: LendingIterator,
    I::IntoLendIter: for<'any> LendingIteratorItem<'any, Type = &'any T>,
 {
    /// The ordinary iterator over owned copies of the items of the value: it
    /// holds the lending iterator that the value turns into.
    pub fn into_iter(self) -> (iter: ToOwnedItemIterator<I::IntoLendIter>)
        ensures
            call_ensures(
                <I as IntoLendingIterator>::into_lend_iter,
                (self.inner(),),
                iter.inner(),
            ),
    {
        LendingIterator::to_owned(self.0.into_lend_iter())
    }
}

/// A `ToOwnedItemIterator` yields one owned copy for each item that its
/// lending iterator lends, in the same order, and ends where that one ends.
///
/// In a run of the iterator, a sequence of states with the result of `next`
/// between each two, every call is a call of `next` on the lending iterator
/// inside, and it returns a copy exactly where that call lends an item. What
/// a copy holds is what `ToOwned` makes of the item.
pub proof fn law_to_owned<T: ?Sized + ToOwned, I: LendingIterator>(
    states: Seq<ToOwnedItemIterator<I>>,
    outs: Seq<Option<T::Owned>>,
) where I: for<'any> LendingIteratorItem<'any, Type = &'any T>
    requires
        states.len() == outs.len() + 1,
        forall|j: int| #[trigger]
            is_step(states, j) ==> exists|it: &mut ToOwnedItemIterator<I>|
                {
                    &&& *it == states[j]
                    &&& *final(it) == states[j + 1]
                    &&& call_ensures(ToOwnedItemIterator::<I>::next, (it,), outs[j])
                },
    ensures
        forall|j: int| #[trigger]
            is_step(states, j) ==> exists|it: &mut I, x: Option<&T>|
                {
                    &&& *it == states[j].inner()
                    &&& *final(it) == states[j + 1].inner()
                    &&& call_ensures(<I as LendingIterator>::next, (it,), x)
                    &&& x is Some <==> outs[j] is Some
                },
{
}

} // verus!
