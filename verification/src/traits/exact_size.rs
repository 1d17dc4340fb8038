use crate::{Item, LendingIterator};
use vstd::prelude::*;

verus! {

/// A lending iterator that knows how many items are still to come: its
/// [`bound`](LendingIterator::bound) is that number.
pub trait ExactSizeLendingIterator: LendingIterator {
    /// The number of items that are still to come.
    ///
    /// It is the bound of the iterator, and the bound is exact: in every state
    /// `next` hands out an item exactly while the bound is above 0, and the
    /// item leaves a bound that is one less.
    fn len(&self) -> (len: usize)
        requires
            self.inv(),
        ensures
            self.bound() == Some(len as nat),
            forall|it: &mut Self, item: Option<Item<'_, Self>>|
                it.inv() && #[trigger] call_ensures(Self::next, (it,), item) ==> {
                    &&& it.bound() is Some
                    &&& item is Some <==> it.bound()->0 > 0
                    &&& final(it).bound() == Some(
                        (it.bound()->0 - if item is Some {
                            1int
                        } else {
                            0
                        }) as nat,
                    )
                },
    ;

    /// Whether no item is to come.
    fn is_empty(&self) -> (empty: bool)
        requires
            self.inv(),
        ensures
            empty <==> self.bound() == Some(0nat),
    {
        self.len() == 0
    }
}

} // verus!
