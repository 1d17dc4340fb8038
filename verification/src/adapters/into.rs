use crate::traits::is_step;
use crate::{IntoLendingIterator, LendingIterator, LendingIteratorItem};
use vstd::prelude::*;

verus! {

/// The iterator that [`LendingIterator::into_iter`] returns: a lending
/// iterator whose items borrow nothing, as an ordinary iterator.
#[derive(Clone, Debug)]
pub struct IntoIter<I>(pub(crate) I);

impl<I> IntoIter<I> {
    /// The lending iterator inside.
    pub open(crate) spec fn inner(&self) -> I {
        self.0
    }

    /// Gives the lending iterator back.
    pub fn into_inner(self) -> (inner: I)
        ensures
            inner == self.inner(),
    {
        self.0
    }
}

impl<T, I: LendingIterator> IntoIter<I> where for<'any> I: LendingIteratorItem<'any, Type = T> {
    /// Advances the iterator. The call is one call of `next` on the lending
    /// iterator inside, with its result.
    pub fn next(&mut self) -> (item: Option<T>)
        requires
            old(self).inner().inv(),
        ensures
            final(self).inner().inv(),
            exists|it: &mut I|
                {
                    &&& *it == old(self).inner()
                    &&& *final(it) == final(self).inner()
                    &&& call_ensures(<I as LendingIterator>::next, (it,), item)
                },
    {
        self.0.next()
    }
}

/// The iterable that [`IntoLendingIterator::into_into_iter`] returns.
#[derive(Clone, Debug)]
pub struct IntoIntoIter<I>(pub(crate) I);

impl<I> IntoIntoIter<I> {
    /// The value inside.
    pub open(crate) spec fn inner(&self) -> I {
        self.0
    }

    /// Gives the value back.
    pub fn into_inner(self) -> (inner: I)
        ensures
            inner == self.inner(),
    {
        self.0
    }
}

impl<T, I: IntoLendingIterator> IntoIntoIter<I> where
    I::IntoLendIter: LendingIterator,
    for<'any> I::IntoLendIter: LendingIteratorItem<'any, Type = T>,
 {
    /// The ordinary iterator over the items of the value: it holds the
    /// lending iterator that the value turns into.
    pub fn into_iter(self) -> (iter: IntoIter<I::IntoLendIter>)
        ensures
            call_ensures(
                <I as IntoLendingIterator>::into_lend_iter,
                (self.inner(),),
                iter.inner(),
            ),
    {
        IntoIter(self.0.into_lend_iter())
    }
}

/// A lending iterator whose items borrow nothing yields as an ordinary
/// iterator what it yields by itself: the same items in the same order, none
/// lost and none added.
///
/// In a run of the `IntoIter`, a sequence of states with the result of `next`
/// between each two, every call is a call of `next` on the lending iterator
/// inside, with the same result.
pub proof fn law_unwrap<T, I: LendingIterator>(states: Seq<IntoIter<I>>, outs: Seq<Option<T>>) where
    for<'any> I: LendingIteratorItem<'any, Type = T>,

    requires
        states.len() == outs.len() + 1,
        forall|j: int| #[trigger]
            is_step(states, j) ==> exists|it: &mut IntoIter<I>|
                {
                    &&& *it == states[j]
                    &&& *final(it) == states[j + 1]
                    &&& call_ensures(IntoIter::<I>::next, (it,), outs[j])
                },
    ensures
        forall|j: int| #[trigger]
            is_step(states, j) ==> exists|it: &mut I|
                {
                    &&& *it == states[j].inner()
                    &&& *final(it) == states[j + 1].inner()
                    &&& call_ensures(<I as LendingIterator>::next, (it,), outs[j])
                },
{
}

} // verus!
