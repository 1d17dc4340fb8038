use crate::adapters::{IntoIntoIter, ToIntoOwnedItemIterator};
use crate::LendingIterator;
use vstd::prelude::*;

verus! {

/// A value that can be turned into a [`LendingIterator`].
///
/// It is to lending iterators what `IntoIterator` is to ordinary ones. Every
/// lending iterator is turned into itself. A type with a method that returns
/// a lending iterator implements this trait for its references.
pub trait IntoLendingIterator {
    /// The lending iterator that the value is turned into. What is done with
    /// it asks it to be a [`LendingIterator`].
    type IntoLendIter;

    /// The value as a lending iterator.
    fn into_lend_iter(self) -> Self::IntoLendIter;

    /// The value as an ordinary iterable, for a lending iterator whose items
    /// borrow nothing.
    fn into_into_iter(self) -> (iterable: IntoIntoIter<Self>) where Self: Sized
        ensures
            iterable.inner() == self,
    {
        IntoIntoIter(self)
    }

    /// The value as an ordinary iterable over owned copies of the items, for
    /// a lending iterator whose items are references.
    fn to_into_owned_item(self) -> (iterable: ToIntoOwnedItemIterator<Self>) where Self: Sized
        ensures
            iterable.inner() == self,
    {
        ToIntoOwnedItemIterator(self)
    }
}

impl<I: LendingIterator> IntoLendingIterator for I {
    type IntoLendIter = Self;

    /// A lending iterator is its own lending iterator.
    fn into_lend_iter(self) -> (iter: Self::IntoLendIter)
        ensures
            iter == self,
    {
        self
    }
}

} // verus!
