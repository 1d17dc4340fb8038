use crate::adapters::{from_into_iter, from_iter, FromIntoIterator, FromIterator};
use crate::sources::WindowsMut;
use vstd::prelude::*;

verus! {

/// Gives every ordinary iterable the method
/// [`into_into_lend_iter`](IntoIteratorExt::into_into_lend_iter).
pub trait IntoIteratorExt<I: IntoIterator> {
    /// This iterable as a value that turns into a lending iterator. Nothing
    /// is allocated.
    fn into_into_lend_iter(self) -> FromIntoIterator<I>;
}

impl<I: IntoIterator> IntoIteratorExt<I> for I {
    fn into_into_lend_iter(self) -> (lending: FromIntoIterator<I>)
        ensures
            lending.inner() == self,
    {
        from_into_iter(self)
    }
}

/// Gives every ordinary iterator the method
/// [`into_lend_iter`](IteratorExt::into_lend_iter).
pub trait IteratorExt<I: Iterator + Sized> {
    /// This iterator as a lending iterator. Nothing is allocated.
    fn into_lend_iter(self) -> FromIterator<I>;
}

impl<I: Iterator> IteratorExt<I> for I {
    fn into_lend_iter(self) -> (lending: FromIterator<I>)
        ensures
            lending.inner() == self,
    {
        from_iter(self)
    }
}

/// Gives slices the method [`windows_mut`](SliceExt::windows_mut).
pub trait SliceExt<T> {
    /// A lending iterator over the windows of `WINDOW_SIZE` elements of this
    /// slice, from the first element on, each as a mutable array.
    fn windows_mut<const WINDOW_SIZE: usize>(&mut self) -> WindowsMut<'_, T, WINDOW_SIZE>
        requires
            WINDOW_SIZE >= 1,
    ;
}

impl<T> SliceExt<T> for [T] {
    /// The iterator starts at the first element. It holds the borrow of the
    /// slice: what the slice holds in the end is what that borrow holds then.
    fn windows_mut<const WINDOW_SIZE: usize>(&mut self) -> (windows: WindowsMut<
        '_,
        T,
        WINDOW_SIZE,
    >)
        ensures
            windows.elements() == old(self)@,
            windows.position() == 0,
            final(self)@ == final(windows.slice())@,
    {
        WindowsMut { slice: self, curr_pos: 0 }
    }
}

} // verus!
