use crate::adapters::{Enumerate, Inspect, IntoIter, Mapped, TakeWhile, ToOwnedItemIterator};
use vstd::prelude::*;

verus! {

/// The type of the items of a [`LendingIterator`], for each lifetime that an
/// item may be borrowed for.
///
/// The second parameter makes `Self` outlive `'any` wherever the trait is
/// used with a higher-rank bound.
pub trait LendingIteratorItem<'any, WhereSelfOutlivesAny = &'any Self> {
    type Type;
}

/// The type of the items that `I` lends for the lifetime `'any`.
pub type Item<'any, I> = <I as LendingIteratorItem<'any>>::Type;

/// Whether `j` is a step of a run through `states`.
///
/// A run of an iterator is a sequence of its states in which a call of `next`
/// leads from each state to the one after it: for each step `j` there is a
/// borrow `it` of the iterator with `*it == states[j]` before the call and
/// `*final(it) == states[j + 1]` once the item is given up. A run says
/// nothing of the calls before its first state or after its last.
pub open spec fn is_step<S>(states: Seq<S>, j: int) -> bool {
    0 <= j < states.len() - 1
}

/// An iterator whose items may borrow from the iterator itself.
///
/// The item returned by [`next`](LendingIterator::next) borrows the iterator
/// mutably, so it has to be given up before the next call. A state of the
/// iterator is a value of `Self`; a call of `next` leads from the state before
/// it to the state after the item was given up.
///
/// What `next` returns is for each iterator to say. An iterator that wraps
/// another says which call of `next` on the wrapped iterator its own call
/// amounts to, as `call_ensures` of that `next` on a borrow of the wrapped
/// state.
pub trait LendingIterator: for<'any> LendingIteratorItem<'any> {
    /// What has to hold of an iterator for `next` to be called on it. Every
    /// call of `next` keeps it. Unless an iterator says otherwise, `next` can
    /// always be called.
    open spec fn inv(&self) -> bool {
        true
    }

    /// A number that shrinks with every item, where the iterator has one: an
    /// upper bound on the number of items that are still to come. Unless an
    /// iterator says otherwise, it has none.
    open spec fn bound(&self) -> Option<nat> {
        None
    }

    /// Advances the iterator: the next item, or `None` at the end.
    fn next(&mut self) -> (item: Option<Item<'_, Self>>)
        requires
            old(self).inv(),
        ensures
            final(self).inv(),
            item is Some && old(self).bound() is Some ==> final(self).bound() is Some
                && final(self).bound()->0 < old(self).bound()->0,
    ;

    /// An iterator over the first `n` items of this one, or over all of them
    /// if there are fewer.
    fn take(self, n: usize) -> (taken: Take<Self>) where Self: Sized
        ensures
            taken.inner() == self,
            taken.remaining() == n,
    {
        Take { iter: self, remaining: n }
    }

    /// An iterator over the items of this one up to the first that
    /// `predicate` rejects.
    fn take_while<P>(self, predicate: P) -> (taken: TakeWhile<Self, P>) where
        Self: Sized,
        P: FnMut(&'_ Item<'_, Self>) -> bool,

        ensures
            taken.inner() == self,
            taken.predicate() == predicate,
            !taken.ended(),
    {
        TakeWhile { iter: self, predicate, ended: false }
    }

    /// An iterator that shows each item of this one to `f` before it passes
    /// the item on.
    fn inspect<F>(self, f: F) -> (inspected: Inspect<Self, F>) where
        Self: Sized,
        for<'any> F: FnMut(&'_ Item<'_, Self>),

        ensures
            inspected.inner() == self,
            inspected.callback() == f,
    {
        Inspect { iter: self, f }
    }

    /// An iterator over what `map` makes of each item of this one.
    fn map<NewItemType, F>(self, map: F) -> (mapped: Mapped<Self, F, NewItemType>) where
        Self: Sized,
        for<'any> F: FnMut(Item<'_, Self>) -> NewItemType,

        ensures
            mapped.inner() == self,
            mapped.transform() == map,
    {
        Mapped { iter: self, map, new_item: core::marker::PhantomData }
    }

    /// Folds the items into an accumulator, from the first to the last.
    ///
    /// The result is reached over a run of the iterator to its end: a sequence
    /// of states, each the result of a call of `next` on the one before that
    /// handed out an item, and a sequence of accumulators, each the result of
    /// `f` on the one before and that item. The call of `next` on the last
    /// state returns `None`.
    fn fold<B, F>(self, init: B, f: F) -> (result: B) where
        Self: Sized,
        F: FnMut(B, Item<'_, Self>) -> B,

        requires
            self.inv(),
            self.bound() is Some,
            forall|acc: B, x: Item<'_, Self>| call_requires(f, (acc, x)),
        ensures
            exists|states: Seq<Self>, accs: Seq<B>|
                {
                    &&& states.len() == accs.len() > 0
                    &&& states[0] == self
                    &&& accs[0] == init
                    &&& accs.last() == result
                    &&& forall|j: int| #[trigger]
                        is_step(states, j) ==> exists|it: &mut Self, x: Item<'_, Self>|
                            {
                                &&& *it == states[j]
                                &&& *final(it) == states[j + 1]
                                &&& call_ensures(Self::next, (it,), Some(x))
                                &&& call_ensures(f, (accs[j], x), accs[j + 1])
                            }
                    &&& exists|it: &mut Self|
                        *it == states.last() && call_ensures(
                            Self::next,
                            (it,),
                            None::<Item<'_, Self>>,
                        )
                },
    {
        let mut iter = self;
        let mut step = f;
        let mut accum = init;
        let ghost mut states: Seq<Self> = seq![iter];
        let ghost mut accs: Seq<B> = seq![init];
        loop
            invariant_except_break
                iter.inv(),
                iter.bound() is Some,
                states.last() == iter,
            invariant
                forall|acc: B, x: Item<'_, Self>| call_requires(step, (acc, x)),
                step == f,
                states.len() == accs.len() > 0,
                states[0] == self,
                accs[0] == init,
                accs.last() == accum,
                forall|j: int| #[trigger]
                    is_step(states, j) ==> exists|it: &mut Self, x: Item<'_, Self>|
                        {
                            &&& *it == states[j]
                            &&& *final(it) == states[j + 1]
                            &&& call_ensures(Self::next, (it,), Some(x))
                            &&& call_ensures(f, (accs[j], x), accs[j + 1])
                        },
            ensures
                exists|it: &mut Self|
                    *it == states.last() && call_ensures(
                        Self::next,
                        (it,),
                        None::<Item<'_, Self>>,
                    ),
            decreases iter.bound()->0,
        {
            match iter.next() {
                Some(x) => {
                    accum = step(accum, x);
                },
                None => {
                    break ;
                },
            }
            proof {
                let earlier = states;
                states = states.push(iter);
                accs = accs.push(accum);
                assert forall|j: int| #[trigger] is_step(states, j) implies exists|
                    it: &mut Self,
                    x: Item<'_, Self>,
                |
                    {
                        &&& *it == states[j]
                        &&& *final(it) == states[j + 1]
                        &&& call_ensures(Self::next, (it,), Some(x))
                        &&& call_ensures(f, (accs[j], x), accs[j + 1])
                    } by {
                    if j < earlier.len() - 1 {
                        assert(is_step(earlier, j));
                    }
                }
            }
        }
        accum
    }

    /// Calls `f` on each item, from the first to the last.
    ///
    /// The calls follow a run of the iterator to its end: a sequence of
    /// states, each the result of a call of `next` on the one before that
    /// handed out an item, on which `f` was called. The call of `next` on the
    /// last state returns `None`.
    fn for_each(self, f: impl FnMut(Item<'_, Self>)) where Self: Sized
        requires
            self.inv(),
            self.bound() is Some,
            forall|x: Item<'_, Self>| call_requires(f, (x,)),
        ensures
            exists|states: Seq<Self>|
                {
                    &&& states.len() > 0
                    &&& states[0] == self
                    &&& forall|j: int| #[trigger]
                        is_step(states, j) ==> exists|it: &mut Self, x: Item<'_, Self>|
                            {
                                &&& *it == states[j]
                                &&& *final(it) == states[j + 1]
                                &&& call_ensures(Self::next, (it,), Some(x))
                                &&& call_ensures(f, (x,), ())
                            }
                    &&& exists|it: &mut Self|
                        *it == states.last() && call_ensures(
                            Self::next,
                            (it,),
                            None::<Item<'_, Self>>,
                        )
                },
    {
        let mut iter = self;
        let mut visit = f;
        let ghost mut states: Seq<Self> = seq![iter];
        loop
            invariant_except_break
                iter.inv(),
                iter.bound() is Some,
                states.last() == iter,
            invariant
                forall|x: Item<'_, Self>| call_requires(visit, (x,)),
                visit == f,
                states.len() > 0,
                states[0] == self,
                forall|j: int| #[trigger]
                    is_step(states, j) ==> exists|it: &mut Self, x: Item<'_, Self>|
                        {
                            &&& *it == states[j]
                            &&& *final(it) == states[j + 1]
                            &&& call_ensures(Self::next, (it,), Some(x))
                            &&& call_ensures(f, (x,), ())
                        },
            ensures
                exists|it: &mut Self|
                    *it == states.last() && call_ensures(
                        Self::next,
                        (it,),
                        None::<Item<'_, Self>>,
                    ),
            decreases iter.bound()->0,
        {
            match iter.next() {
                Some(x) => {
                    visit(x);
                },
                None => {
                    break ;
                },
            }
            proof {
                let earlier = states;
                states = states.push(iter);
                assert forall|j: int| #[trigger] is_step(states, j) implies exists|
                    it: &mut Self,
                    x: Item<'_, Self>,
                |
                    {
                        &&& *it == states[j]
                        &&& *final(it) == states[j + 1]
                        &&& call_ensures(Self::next, (it,), Some(x))
                        &&& call_ensures(f, (x,), ())
                    } by {
                    if j < earlier.len() - 1 {
                        assert(is_step(earlier, j));
                    }
                }
            }
        }
    }

    /// This iterator as an ordinary iterator, for items that borrow nothing.
    /// Nothing is allocated.
    fn into_iter<T>(self) -> (iter: IntoIter<Self>) where
        Self: for<'any> LendingIteratorItem<'any, Type = T>,
        Self: Sized,

        ensures
            iter.inner() == self,
    {
        IntoIter(self)
    }

    /// An ordinary iterator over owned copies of the items of this one, for
    /// items that are references.
    fn to_owned(self) -> (iter: ToOwnedItemIterator<Self>) where Self: Sized
        ensures
            iter.inner() == self,
    {
        ToOwnedItemIterator(self)
    }

    /// An iterator that pairs each item of this one with its index, from 0.
    fn enumerate(self) -> (enumerated: Enumerate<Self>) where Self: Sized
        ensures
            enumerated.inner() == self,
            enumerated.count() == 0,
    {
        Enumerate::new(self)
    }
}

/// The iterator that [`LendingIterator::take`] returns.
#[derive(Clone, Debug)]
pub struct Take<I> {
    pub(crate) iter: I,
    pub(crate) remaining: usize,
}

impl<I> Take<I> {
    /// The iterator that the items are taken from.
    pub open(crate) spec fn inner(&self) -> I {
        self.iter
    }

    /// How many items may still be taken.
    pub open(crate) spec fn remaining(&self) -> usize {
        self.remaining
    }
}

impl<'any, I: LendingIteratorItem<'any>> LendingIteratorItem<'any> for Take<I> {
    type Type = <I as LendingIteratorItem<'any>>::Type;
}

impl<I: LendingIterator> Take<I> {
    /// What `inv` and `bound` are on this iterator. Where a closure is
    /// involved, they are known only through this lemma.
    pub proof fn lemma_inv_bound(self)
        ensures
            self.inv() <==> self.inner().inv(),
            self.bound() == Some(self.remaining() as nat),
    {
    }

    /// When the iterator is given up, so is the iterator inside: what it has
    /// borrowed is as it holds it then.
    pub proof fn lemma_given_up(self)
        requires
            has_resolved(self),
        ensures
            has_resolved(self.inner()),
    {
    }
}

impl<I: LendingIterator> LendingIterator for Take<I> {
    open spec fn inv(&self) -> bool {
        self.inner().inv()
    }

    open spec fn bound(&self) -> Option<nat> {
        Some(self.remaining() as nat)
    }

    /// With nothing left to take, returns `None` and leaves the iterator as
    /// it is. Otherwise the call is one call of `next` on the inner iterator,
    /// with its result, and one item less remains to be taken.
    fn next(&'_ mut self) -> (item: Option<Item<'_, I>>)
        ensures
            old(self).remaining() == 0 ==> item is None && *final(self) == *old(self),
            old(self).remaining() > 0 ==> final(self).remaining() == old(self).remaining() - 1
                && exists|it: &mut I|
                {
                    &&& *it == old(self).inner()
                    &&& *final(it) == final(self).inner()
                    &&& call_ensures(<I as LendingIterator>::next, (it,), item)
                },
    {
        if self.remaining > 0 {
            self.remaining -= 1;
            self.iter.next()
        } else {
            None
        }
    }
}

/// How many items may still be taken after `steps` calls of `next`, when
/// `limit` could be taken before them.
pub open spec fn left_to_take(limit: usize, steps: int) -> int {
    if steps <= limit {
        limit - steps
    } else {
        0
    }
}

/// In a run of a `Take`, the count of what may still be taken goes down by
/// one with each call until it is 0.
proof fn lemma_take_counts_down<I: LendingIterator>(
    states: Seq<Take<I>>,
    outs: Seq<Option<Item<'_, I>>>,
    k: int,
)
    requires
        states.len() == outs.len() + 1,
        forall|j: int| #[trigger]
            is_step(states, j) ==> exists|it: &mut Take<I>|
                {
                    &&& *it == states[j]
                    &&& *final(it) == states[j + 1]
                    &&& call_ensures(<Take<I> as LendingIterator>::next, (it,), outs[j])
                },
        0 <= k < states.len(),
    ensures
        states[k].remaining() == left_to_take(states[0].remaining(), k),
    decreases k,
{
    if k > 0 {
        lemma_take_counts_down(states, outs, k - 1);
        assert(is_step(states, k - 1));
    }
}

/// A `Take` with a limit of `n` yields the first `n` items of its inner
/// iterator and no more.
///
/// In a run of the `Take`, a sequence of states with the result of `next`
/// between each two, the first `n` calls are calls of `next` on the inner
/// iterator, in the same order and with the same results, so where the inner
/// iterator ends sooner the `Take` ends with it. Every later call returns
/// `None` and leaves the state as it is.
pub proof fn law_take<I: LendingIterator>(states: Seq<Take<I>>, outs: Seq<Option<Item<'_, I>>>)
    requires
        states.len() == outs.len() + 1,
        forall|j: int| #[trigger]
            is_step(states, j) ==> exists|it: &mut Take<I>|
                {
                    &&& *it == states[j]
                    &&& *final(it) == states[j + 1]
                    &&& call_ensures(<Take<I> as LendingIterator>::next, (it,), outs[j])
                },
    ensures
        forall|j: int|
            0 <= j < states.len() ==> (#[trigger] states[j]).remaining() == left_to_take(
                states[0].remaining(),
                j,
            ),
        forall|j: int| #[trigger]
            is_step(states, j) && j < states[0].remaining() ==> exists|it: &mut I|
                {
                    &&& *it == states[j].inner()
                    &&& *final(it) == states[j + 1].inner()
                    &&& call_ensures(<I as LendingIterator>::next, (it,), outs[j])
                },
        forall|j: int| #[trigger]
            is_step(states, j) && j >= states[0].remaining() ==> outs[j] is None && states[j + 1]
                == states[j],
{
    assert forall|j: int| 0 <= j < states.len() implies (#[trigger] states[j]).remaining()
        == left_to_take(states[0].remaining(), j) by {
        lemma_take_counts_down(states, outs, j);
    }
    assert forall|j: int| #[trigger]
        is_step(states, j) && j < states[0].remaining() implies exists|it: &mut I|
        {
            &&& *it == states[j].inner()
            &&& *final(it) == states[j + 1].inner()
            &&& call_ensures(<I as LendingIterator>::next, (it,), outs[j])
        } by {
        lemma_take_counts_down(states, outs, j);
    }
    assert forall|j: int| #[trigger]
        is_step(states, j) && j >= states[0].remaining() implies outs[j] is None && states[j + 1]
        == states[j] by {
        lemma_take_counts_down(states, outs, j);
    }
}

} // verus!
