use crate::{Item, LendingIterator, LendingIteratorItem};
use vstd::prelude::*;

verus! {

/// Whether `callback` may be called on every item of `I`.
pub open spec fn inspects_every_item<I, F>(callback: F) -> bool where
    I: for<'any> LendingIteratorItem<'any>,
    for<'any> F: FnMut(&'_ <I as LendingIteratorItem>::Type),
 {
    forall|x: &Item<'_, I>| call_requires(callback, (x,))
}

/// The iterator that [`LendingIterator::inspect`] returns.
#[derive(Clone, Debug)]
pub struct Inspect<I, F> {
    pub(crate) iter: I,
    pub(crate) f: F,
}

impl<I, F> Inspect<I, F> {
    /// The iterator whose items are inspected.
    pub open(crate) spec fn inner(&self) -> I {
        self.iter
    }

    /// The function that is shown each item.
    pub open(crate) spec fn callback(&self) -> F {
        self.f
    }
}

impl<I, F> Inspect<I, F> where
    I: LendingIterator,
    for<'any> F: FnMut(&'_ <I as LendingIteratorItem>::Type),
 {
    /// What `inv` and `bound` are on this iterator. Where a closure is
    /// involved, they are known only through this lemma.
    pub proof fn lemma_inv_bound(self)
        ensures
            self.inv() <==> self.inner().inv() && inspects_every_item::<I, F>(self.callback()),
            self.bound() == self.inner().bound(),
    {
    }

    /// When the iterator is given up, so is the iterator inside: what it has
    /// borrowed is as it holds it then.
    pub proof fn lemma_given_up(self)
        requires
            has_resolved(self),
        ensures
            has_resolved(self.inner()),
    {
    }
}

impl<'any, I: LendingIteratorItem<'any>, F> LendingIteratorItem<'any> for Inspect<I, F> {
    type Type = <I as LendingIteratorItem<'any>>::Type;
}

impl<I, F> LendingIterator for Inspect<I, F> where
    I: LendingIterator,
    for<'any> F: FnMut(&'_ <I as LendingIteratorItem>::Type),
 {
    open spec fn inv(&self) -> bool {
        &&& self.inner().inv()
        &&& inspects_every_item::<I, F>(self.callback())
    }

    open spec fn bound(&self) -> Option<nat> {
        self.inner().bound()
    }

    /// The call is one call of `next` on the inner iterator, with its result.
    /// An item is shown to the callback, once, before it is returned.
    fn next(&mut self) -> (item: Option<Item<'_, Self>>)
        ensures
            final(self).callback() == old(self).callback(),
            exists|it: &mut I|
                {
                    &&& *it == old(self).inner()
                    &&& *final(it) == final(self).inner()
                    &&& call_ensures(<I as LendingIterator>::next, (it,), item)
                },
            item matches Some(a) ==> call_ensures(old(self).callback(), (&a,), ()),
    {
        match self.iter.next() {
            Some(item) => {
                (self.f)(&item);
                Some(item)
            },
            None => None,
        }
    }
}

} // verus!
