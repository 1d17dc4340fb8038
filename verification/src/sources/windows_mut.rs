use crate::traits::is_step;
use crate::{ExactSizeLendingIterator, Item, LendingIterator, LendingIteratorItem};
use vstd::prelude::*;

verus! {

/// The iterator that [`SliceExt::windows_mut`](crate::SliceExt::windows_mut)
/// returns: it lends the windows of `WINDOW_SIZE` elements of a slice, each
/// one element further than the one before.
pub struct WindowsMut<'a, T, const WINDOW_SIZE: usize> {
    pub(crate) slice: &'a mut [T],
    pub(crate) curr_pos: usize,
}

impl<'a, T, const WINDOW_SIZE: usize> WindowsMut<'a, T, WINDOW_SIZE> {
    /// The borrow of the slice that the windows are lent from.
    pub open(crate) spec fn slice(&self) -> &'a mut [T] {
        self.slice
    }

    /// The elements of the slice, as the items given up so far have left them.
    pub open spec fn elements(&self) -> Seq<T> {
        self.slice()@
    }

    /// When the iterator is given up, the slice is left as the iterator holds
    /// it then.
    pub proof fn lemma_given_up(self)
        requires
            has_resolved(self),
        ensures
            final(self.slice())@ == self.elements(),
    {
    }

    /// Where the next window starts.
    pub open(crate) spec fn position(&self) -> usize {
        self.curr_pos
    }
}

impl<'a, 'any, T, const WINDOW_SIZE: usize> LendingIteratorItem<'any> for WindowsMut<
    'a,
    T,
    WINDOW_SIZE,
> {
    type Type = &'any mut [T; WINDOW_SIZE];
}

/// The slice as an array of `N` elements, where it has that many.
///
/// Calls `TryFrom<&mut [T]>` for `&mut [T; N]`, which succeeds exactly for a
/// slice of `N` elements. The array then is the slice: it holds the same
/// elements, and what is written to it is written to the slice.
#[verifier::external_body]
fn as_array_mut<T, const N: usize>(slice: &mut [T]) -> (array: Option<&mut [T; N]>)
    ensures
        old(slice)@.len() == N ==> array is Some && array->0@ == old(slice)@ && final(slice)@
            == final(array->0)@,
        old(slice)@.len() != N ==> array is None && final(slice)@ == old(slice)@,
{
    match <&mut [T; N]>::try_from(slice) {
        Ok(array) => Some(array),
        Err(_) => None,
    }
}

/// `elements` with the `window.len()` elements from `start` on replaced by
/// those of `window`.
pub open spec fn with_window<T>(elements: Seq<T>, start: int, window: Seq<T>) -> Seq<T> {
    elements.subrange(0, start) + window + elements.subrange(
        start + window.len(),
        elements.len() as int,
    )
}

impl<'a, T, const WINDOW_SIZE: usize> LendingIterator for WindowsMut<'a, T, WINDOW_SIZE> {
    open spec fn inv(&self) -> bool {
        &&& WINDOW_SIZE >= 1
        &&& self.position() <= windows_from(self.elements().len(), WINDOW_SIZE as nat, 0)
    }

    open spec fn bound(&self) -> Option<nat> {
        Some(windows_from(self.elements().len(), WINDOW_SIZE as nat, self.position() as nat))
    }

    /// While a whole window lies at or after the position, lends that window
    /// and moves the position on by one; what the window holds when it is
    /// given up is what the slice then holds in its place. Otherwise returns
    /// `None` and changes nothing.
    fn next(&mut self) -> (item: Option<Item<'_, Self>>)
        ensures
            item is Some <==> old(self).position() + WINDOW_SIZE <= old(self).elements().len(),
            item matches Some(window) ==> {
                &&& window@ == old(self).elements().subrange(
                    old(self).position() as int,
                    old(self).position() + WINDOW_SIZE,
                )
                &&& final(self).elements() == with_window(
                    old(self).elements(),
                    old(self).position() as int,
                    final(window)@,
                )
                &&& final(self).position() == old(self).position() + 1
            },
            item is None ==> {
                &&& final(self).elements() == old(self).elements()
                &&& final(self).position() == old(self).position()
            },
            final(final(self).slice())@ == final(old(self).slice())@,
    {
        if self.curr_pos > self.slice.len() {
            return None;
        }
        let (_, tail) = self.slice.split_at_mut(self.curr_pos);
        if WINDOW_SIZE > tail.len() {
            return None;
        }
        let (window, _) = tail.split_at_mut(WINDOW_SIZE);
        self.curr_pos += 1;
        as_array_mut(window)
    }
}

/// The number of windows of `size` elements that start at or after `position`
/// in a sequence of `len` elements.
pub open spec fn windows_from(len: nat, size: nat, position: nat) -> nat {
    if position + size <= len {
        (len - size + 1 - position) as nat
    } else {
        0
    }
}

impl<'a, T, const WINDOW_SIZE: usize> ExactSizeLendingIterator for WindowsMut<'a, T, WINDOW_SIZE> {
    fn len(&self) -> (len: usize) {
        let total = self.slice.len();
        if self.curr_pos > total || WINDOW_SIZE > total - self.curr_pos {
            0
        } else {
            total - self.curr_pos - WINDOW_SIZE + 1
        }
    }
}

/// In a run of a `WindowsMut` from the start of a slice, the slice keeps its
/// length, and the position goes up by one with each window.
proof fn lemma_windows_positions<'a, 'b, T, const WINDOW_SIZE: usize>(
    states: Seq<WindowsMut<'a, T, WINDOW_SIZE>>,
    outs: Seq<Option<&'b mut [T; WINDOW_SIZE]>>,
    k: int,
)
    requires
        states.len() == outs.len() + 1,
        forall|j: int| #[trigger]
            is_step(states, j) ==> exists|it: &mut WindowsMut<'a, T, WINDOW_SIZE>|
                {
                    &&& *it == states[j]
                    &&& *final(it) == states[j + 1]
                    &&& call_ensures(
                        <WindowsMut<'a, T, WINDOW_SIZE> as LendingIterator>::next,
                        (it,),
                        outs[j],
                    )
                },
        WINDOW_SIZE >= 1,
        states[0].position() == 0,
        0 <= k < states.len(),
    ensures
        states[k].elements().len() == states[0].elements().len(),
        states[k].position() == if k + WINDOW_SIZE <= states[0].elements().len() {
            k
        } else {
            windows_from(states[0].elements().len(), WINDOW_SIZE as nat, 0) as int
        },
    decreases k,
{
    if k > 0 {
        lemma_windows_positions(states, outs, k - 1);
        assert(is_step(states, k - 1));
    }
}

/// A `WindowsMut` over a slice of `n` elements lends `n - WINDOW_SIZE + 1`
/// windows, or none where the slice is shorter than a window: the first
/// `WINDOW_SIZE` elements, then those from the second element on, and so on.
///
/// In a run of the iterator from the start of the slice, a sequence of states
/// with the result of `next` between each two, whatever is written to the
/// windows:
/// - the slice keeps its length;
/// - call `j` lends a window exactly if `j + WINDOW_SIZE <= n`;
/// - that window holds the elements from `j` on, as the slice holds them then.
pub proof fn law_windows_mut<'a, 'b, T, const WINDOW_SIZE: usize>(
    states: Seq<WindowsMut<'a, T, WINDOW_SIZE>>,
    outs: Seq<Option<&'b mut [T; WINDOW_SIZE]>>,
)
    requires
        states.len() == outs.len() + 1,
        forall|j: int| #[trigger]
            is_step(states, j) ==> exists|it: &mut WindowsMut<'a, T, WINDOW_SIZE>|
                {
                    &&& *it == states[j]
                    &&& *final(it) == states[j + 1]
                    &&& call_ensures(
                        <WindowsMut<'a, T, WINDOW_SIZE> as LendingIterator>::next,
                        (it,),
                        outs[j],
                    )
                },
        WINDOW_SIZE >= 1,
        states[0].position() == 0,
    ensures
        forall|j: int|
            0 <= j < states.len() ==> (#[trigger] states[j]).elements().len()
                == states[0].elements().len(),
        forall|j: int| #[trigger]
            is_step(states, j) ==> (outs[j] is Some <==> j + WINDOW_SIZE
                <= states[0].elements().len()),
        forall|j: int| #[trigger]
            is_step(states, j) && outs[j] is Some ==> outs[j]->0@ == states[j].elements().subrange(
                j,
                j + WINDOW_SIZE,
            ),
{
    assert forall|j: int| 0 <= j < states.len() implies (#[trigger] states[j]).elements().len()
        == states[0].elements().len() by {
        lemma_windows_positions(states, outs, j);
    }
    assert forall|j: int| #[trigger] is_step(states, j) implies (outs[j] is Some <==> j
        + WINDOW_SIZE <= states[0].elements().len()) by {
        lemma_windows_positions(states, outs, j);
    }
    assert forall|j: int| #[trigger] is_step(states, j) && outs[j] is Some implies outs[j]->0@
        == states[j].elements().subrange(j, j + WINDOW_SIZE) by {
        lemma_windows_positions(states, outs, j);
    }
}

/// In a run of a `WindowsMut` in which every window is given up as it was
/// lent, the slice stays as it was.
proof fn lemma_windows_unchanged<'a, 'b, T, const WINDOW_SIZE: usize>(
    states: Seq<WindowsMut<'a, T, WINDOW_SIZE>>,
    outs: Seq<Option<&'b mut [T; WINDOW_SIZE]>>,
    k: int,
)
    requires
        states.len() == outs.len() + 1,
        forall|j: int| #[trigger]
            is_step(states, j) ==> exists|it: &mut WindowsMut<'a, T, WINDOW_SIZE>|
                {
                    &&& *it == states[j]
                    &&& *final(it) == states[j + 1]
                    &&& call_ensures(
                        <WindowsMut<'a, T, WINDOW_SIZE> as LendingIterator>::next,
                        (it,),
                        outs[j],
                    )
                },
        forall|j: int| #[trigger]
            is_step(states, j) && outs[j] is Some ==> final(outs[j]->0)@ == outs[j]->0@,
        0 <= k < states.len(),
    ensures
        states[k].elements() == states[0].elements(),
    decreases k,
{
    if k > 0 {
        lemma_windows_unchanged(states, outs, k - 1);
        assert(is_step(states, k - 1));
    }
}

/// Over a sequence `s` of `n` elements and with `1 <= WINDOW_SIZE <= n`, a
/// `WindowsMut` lends exactly `n - WINDOW_SIZE + 1` windows, and window `j`
/// is `s[j..j + WINDOW_SIZE]`.
///
/// This holds of a run of the iterator from the start of the slice in which
/// every window is given up as it was lent. A slice shorter than a window
/// gives no window.
pub proof fn law_windows<'a, 'b, T, const WINDOW_SIZE: usize>(
    states: Seq<WindowsMut<'a, T, WINDOW_SIZE>>,
    outs: Seq<Option<&'b mut [T; WINDOW_SIZE]>>,
)
    requires
        states.len() == outs.len() + 1,
        forall|j: int| #[trigger]
            is_step(states, j) ==> exists|it: &mut WindowsMut<'a, T, WINDOW_SIZE>|
                {
                    &&& *it == states[j]
                    &&& *final(it) == states[j + 1]
                    &&& call_ensures(
                        <WindowsMut<'a, T, WINDOW_SIZE> as LendingIterator>::next,
                        (it,),
                        outs[j],
                    )
                },
        forall|j: int| #[trigger]
            is_step(states, j) && outs[j] is Some ==> final(outs[j]->0)@ == outs[j]->0@,
        WINDOW_SIZE >= 1,
        states[0].position() == 0,
    ensures
        forall|j: int| #[trigger]
            is_step(states, j) ==> (outs[j] is Some <==> j < windows_from(
                states[0].elements().len(),
                WINDOW_SIZE as nat,
                0,
            )),
        forall|j: int| #[trigger]
            is_step(states, j) && outs[j] is Some ==> outs[j]->0@
                == states[0].elements().subrange(j, j + WINDOW_SIZE),
        forall|j: int| 0 <= j < states.len() ==> (#[trigger] states[j]).elements()
                == states[0].elements(),
{
    law_windows_mut(states, outs);
    assert forall|j: int| 0 <= j < states.len() implies (#[trigger] states[j]).elements()
        == states[0].elements() by {
        lemma_windows_unchanged(states, outs, j);
    }
}

} // verus!
