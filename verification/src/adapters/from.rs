use crate::adapters::IntoIter;
use crate::traits::is_step;
use crate::{IntoLendingIterator, Item, LendingIterator, LendingIteratorItem};
use vstd::prelude::*;

verus! {

/// An ordinary iterable as a value that turns into a lending iterator.
#[derive(Clone, Debug)]
pub struct FromIntoIterator<I>(pub(crate) I);

impl<I> FromIntoIterator<I> {
    /// The iterable inside.
    pub open(crate) spec fn inner(&self) -> I {
        self.0
    }

    /// Gives the iterable back.
    pub fn into_inner(self) -> (inner: I)
        ensures
            inner == self.inner(),
    {
        self.0
    }
}

impl<'any, I: Iterator> LendingIteratorItem<'any> for FromIntoIterator<I> {
    type Type = I::Item;
}

impl<I: Iterator> IntoLendingIterator for FromIntoIterator<I> {
    type IntoLendIter = FromIterator<I>;

    /// The lending iterator over the items of the iterator inside. An
    /// iterator is the iterator that it turns into, so it is wrapped as it is.
    /// An iterable of another kind is turned into its iterator before it is
    /// wrapped.
    fn into_lend_iter(self) -> (lending: FromIterator<I>)
        ensures
            lending.inner() == self.inner(),
    {
        FromIterator(self.0)
    }
}

/// Wraps an ordinary iterator as a lending iterator whose items borrow
/// nothing. Nothing is allocated, and [`FromIterator::into_inner`] gives the
/// iterator back.
pub fn from_iter<I: Iterator>(iter: I) -> (lending: FromIterator<I>)
    ensures
        lending.inner() == iter,
{
    FromIterator(iter)
}

/// An ordinary iterator as a lending iterator.
#[derive(Clone, Debug)]
pub struct FromIterator<I>(pub(crate) I);

impl<I> FromIterator<I> {
    /// The ordinary iterator inside.
    pub open(crate) spec fn inner(&self) -> I {
        self.0
    }

    /// Gives the ordinary iterator back.
    pub fn into_inner(self) -> (inner: I)
        ensures
            inner == self.inner(),
    {
        self.0
    }
}

impl<T, I: Iterator<Item = T>> From<I> for FromIterator<I> where
    for<'any> I: LendingIteratorItem<'any, Type = T>,
 {
    /// Wraps the iterator, as [`from_iter`] does.
    fn from(iter: I) -> (lending: Self)
        ensures
            lending.inner() == iter,
    {
        FromIterator(iter)
    }
}

impl<T, I: Iterator<Item = T>> vstd::std_specs::convert::FromSpecImpl<I> for FromIterator<I> where
    for<'any> I: LendingIteratorItem<'any, Type = T>,
 {
    open spec fn obeys_from_spec() -> bool {
        true
    }

    open(crate) spec fn from_spec(iter: I) -> Self {
        FromIterator(iter)
    }
}

impl<'any, I: Iterator> LendingIteratorItem<'any> for FromIterator<I> {
    type Type = I::Item;
}

impl<I: Iterator> LendingIterator for FromIterator<I> {
    open spec fn inv(&self) -> bool {
        true
    }

    open spec fn bound(&self) -> Option<nat> {
        if vstd::std_specs::iter::IteratorSpec::obeys_prophetic_iter_laws(&self.inner()) {
            vstd::std_specs::iter::IteratorSpec::decrease(&self.inner())
        } else {
            None
        }
    }

    /// The call is one call of `next` on the ordinary iterator inside, with
    /// its result.
    fn next(&mut self) -> (item: Option<Item<'_, Self>>)
        ensures
            exists|it: &mut I|
                {
                    &&& *it == old(self).inner()
                    &&& *final(it) == final(self).inner()
                    &&& call_ensures(<I as Iterator>::next, (it,), item)
                },
    {
        self.0.next()
    }
}

/// Wraps an ordinary iterable as a value that turns into a lending iterator.
/// Nothing is allocated, and [`FromIntoIterator::into_inner`] gives the
/// iterable back.
pub fn from_into_iter<I: IntoIterator>(iter: I) -> (lending: FromIntoIterator<I>)
    ensures
        lending.inner() == iter,
{
    FromIntoIterator(iter)
}

/// An ordinary iterator that is wrapped as a lending iterator and unwrapped
/// again yields what it yields by itself: the same items in the same order,
/// none lost and none added.
///
/// In a run of the unwrapped wrapper, a sequence of states with the result of
/// `next` between each two, every call is a call of `next` on the ordinary
/// iterator inside, with the same result. With the contracts of
/// [`from_iter`], [`LendingIterator::into_iter`] and the two `into_inner`,
/// which hand the iterator through unchanged, this is the round trip.
pub proof fn law_wrap_unwrap<I: Iterator>(
    states: Seq<IntoIter<FromIterator<I>>>,
    outs: Seq<Option<I::Item>>,
)
    requires
        states.len() == outs.len() + 1,
        forall|j: int| #[trigger]
            is_step(states, j) ==> exists|it: &mut IntoIter<FromIterator<I>>|
                {
                    &&& *it == states[j]
                    &&& *final(it) == states[j + 1]
                    &&& call_ensures(IntoIter::<FromIterator<I>>::next, (it,), outs[j])
                },
    ensures
        forall|j: int| #[trigger]
            is_step(states, j) ==> exists|it: &mut I|
                {
                    &&& *it == states[j].inner().inner()
                    &&& *final(it) == states[j + 1].inner().inner()
                    &&& call_ensures(<I as Iterator>::next, (it,), outs[j])
                },
{
}

} // verus!
