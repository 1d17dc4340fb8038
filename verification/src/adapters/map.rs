use crate::{Item, LendingIterator, LendingIteratorItem};
use vstd::prelude::*;

verus! {

/// Whether `transform` may be called on every item of `I`.
pub open spec fn transforms_every_item<I, F, NewItemType>(transform: F) -> bool where
    I: for<'any> LendingIteratorItem<'any>,
    for<'any> F: FnMut(<I as LendingIteratorItem>::Type) -> NewItemType,
 {
    forall|x: Item<'_, I>| call_requires(transform, (x,))
}

/// The iterator that [`LendingIterator::map`] returns.
#[derive(Debug)]
pub struct Mapped<I, F, NewItemType> {
    pub(crate) iter: I,
    pub(crate) map: F,
    pub(crate) new_item: core::marker::PhantomData<NewItemType>,
}

impl<I: Clone, F: Clone, NewItemType> Clone for Mapped<I, F, NewItemType> {
    fn clone(&self) -> (copy: Self) {
        Mapped {
            iter: self.iter.clone(),
            map: self.map.clone(),
            new_item: core::marker::PhantomData,
        }
    }
}

impl<I, F, NewItemType> Mapped<I, F, NewItemType> {
    /// The iterator whose items are transformed.
    pub open(crate) spec fn inner(&self) -> I {
        self.iter
    }

    /// The function that transforms the items.
    pub open(crate) spec fn transform(&self) -> F {
        self.map
    }
}

impl<I, NewItemType, F> Mapped<I, F, NewItemType> where
    I: LendingIterator,
    for<'any> F: FnMut(<I as LendingIteratorItem>::Type) -> NewItemType,
 {
    /// What `inv` and `bound` are on this iterator. Where a closure is
    /// involved, they are known only through this lemma.
    pub proof fn lemma_inv_bound(self)
        ensures
            self.inv() <==> self.inner().inv() && transforms_every_item::<I, F, NewItemType>(
                self.transform(),
            ),
            self.bound() == self.inner().bound(),
    {
    }

    /// When the iterator is given up, so is the iterator inside: what it has
    /// borrowed is as it holds it then.
    pub proof fn lemma_given_up(self)
        requires
            has_resolved(self),
        ensures
            has_resolved(self.inner()),
    {
    }
}

impl<'any, I, NewItemType, F> LendingIteratorItem<'any> for Mapped<I, F, NewItemType> {
    type Type = NewItemType;
}

impl<I, NewItemType, F> LendingIterator for Mapped<I, F, NewItemType> where
    I: LendingIterator,
    for<'any> F: FnMut(<I as LendingIteratorItem>::Type) -> NewItemType,
 {
    open spec fn inv(&self) -> bool {
        &&& self.inner().inv()
        &&& transforms_every_item::<I, F, NewItemType>(self.transform())
    }

    open spec fn bound(&self) -> Option<nat> {
        self.inner().bound()
    }

    /// The call is one call of `next` on the inner iterator. Its item, if
    /// there is one, is handed to the transform, once, and the result is
    /// returned in its place.
    fn next(&mut self) -> (item: Option<Item<'_, Self>>)
        ensures
            final(self).transform() == old(self).transform(),
            exists|it: &mut I, x: Option<Item<'_, I>>|
                {
                    &&& *it == old(self).inner()
                    &&& *final(it) == final(self).inner()
                    &&& call_ensures(<I as LendingIterator>::next, (it,), x)
                    &&& match x {
                        Some(a) => item matches Some(b) && call_ensures(
                            old(self).transform(),
                            (a,),
                            b,
                        ),
                        None => item is None,
                    }
                },
    {
        match self.iter.next() {
            Some(item) => Some((self.map)(item)),
            None => None,
        }
    }
}

} // verus!
