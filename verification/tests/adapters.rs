use hrtb_lending_iterator::{
    Enumerate, IntoIter, IteratorExt, Item, LendingIterator, LendingIteratorItem,
};
use std::cell::Cell;

/// Lends the numbers `from`, `from + 1`, … below `to`, and counts the calls
/// of `next`.
struct Counting<'c> {
    from: u32,
    to: u32,
    calls: &'c Cell<u32>,
}

impl<'c, 'any> LendingIteratorItem<'any> for Counting<'c> {
    type Type = u32;
}

impl<'c> LendingIterator for Counting<'c> {
    fn next(&mut self) -> Option<Item<'_, Self>> {
        self.calls.set(self.calls.get() + 1);
        if self.from < self.to {
            self.from += 1;
            Some(self.from - 1)
        } else {
            None
        }
    }
}

/// Runs an unwrapped lending iterator to its end and lists the items.
fn list<T, I>(mut iter: IntoIter<I>) -> Vec<T>
where
    I: LendingIterator + for<'any> LendingIteratorItem<'any, Type = T>,
{
    let mut items = Vec::new();
    while let Some(item) = iter.next() {
        items.push(item);
    }
    items
}

#[test]
fn take_zero_never_calls_the_inner_iterator() {
    let calls = Cell::new(0);
    let mut taken = Counting { from: 0, to: 5, calls: &calls }.take(0);
    assert_eq!(taken.next(), None);
    assert_eq!(taken.next(), None);
    assert_eq!(calls.get(), 0);
}

#[test]
fn take_stops_at_the_limit_and_stays_stopped() {
    let calls = Cell::new(0);
    let mut taken = Counting { from: 0, to: 5, calls: &calls }.take(2);
    assert_eq!(taken.next(), Some(0));
    assert_eq!(taken.next(), Some(1));
    assert_eq!(taken.next(), None);
    assert_eq!(taken.next(), None);
    assert_eq!(calls.get(), 2);
}

#[test]
fn take_ends_with_a_shorter_inner_iterator() {
    let calls = Cell::new(0);
    let taken = Counting { from: 3, to: 5, calls: &calls }.take(7);
    assert_eq!(list(taken.into_iter()), [3, 4]);
    assert_eq!(calls.get(), 3);
}

#[test]
fn take_while_is_sticky() {
    let v = [0, 1, 5, 2, 0];
    let tests = Cell::new(0);
    let mut taken = v.into_iter().into_lend_iter().take_while(|x| {
        tests.set(tests.get() + 1);
        *x < 3
    });
    assert_eq!(taken.next(), Some(0));
    assert_eq!(taken.next(), Some(1));
    assert_eq!(taken.next(), None);
    assert_eq!(taken.next(), None);
    assert_eq!(taken.next(), None);
    assert_eq!(tests.get(), 3);
}

#[test]
fn take_while_leaves_the_inner_iterator_alone_once_ended() {
    let calls = Cell::new(0);
    let mut taken = Counting { from: 0, to: 9, calls: &calls }.take_while(|x| *x < 2);
    assert_eq!(taken.next(), Some(0));
    assert_eq!(taken.next(), Some(1));
    assert_eq!(taken.next(), None);
    assert_eq!(calls.get(), 3);
    assert_eq!(taken.next(), None);
    assert_eq!(taken.next(), None);
    assert_eq!(calls.get(), 3);
}

#[test]
fn take_while_passes_the_end_on() {
    let calls = Cell::new(0);
    let taken = Counting { from: 0, to: 2, calls: &calls }.take_while(|x| *x < 7);
    assert_eq!(list(taken.into_iter()), [0, 1]);
}

#[test]
fn enumerate_counts_from_zero() {
    let v = ["a", "b", "c"];
    let enumerated = v.into_iter().into_lend_iter().enumerate();
    assert_eq!(list(enumerated.into_iter()), [(0, "a"), (1, "b"), (2, "c")]);
}

#[test]
fn enumerate_new_counts_from_zero() {
    let v = [7, 8];
    let mut enumerated = Enumerate::new(v.into_iter().into_lend_iter());
    assert_eq!(enumerated.next(), Some((0, 7)));
    assert_eq!(enumerated.next(), Some((1, 8)));
    assert_eq!(enumerated.next(), None);
    assert_eq!(enumerated.next(), None);
}

#[test]
fn enumerate_keeps_the_count_at_the_end() {
    let calls = Cell::new(0);
    let mut enumerated = Counting { from: 4, to: 5, calls: &calls }.enumerate();
    assert_eq!(enumerated.next(), Some((0, 4)));
    assert_eq!(enumerated.next(), None);
    assert_eq!(enumerated.next(), None);
    assert_eq!(calls.get(), 3);
}

#[test]
fn inspect_sees_each_item_once_before_it_is_returned() {
    let v = [3, 4, 5];
    let seen = Cell::new(0);
    let mut inspected = v.into_iter().into_lend_iter().inspect(|x| seen.set(seen.get() * 10 + *x));
    assert_eq!(seen.get(), 0);
    assert_eq!(inspected.next(), Some(3));
    assert_eq!(seen.get(), 3);
    assert_eq!(inspected.next(), Some(4));
    assert_eq!(seen.get(), 34);
    assert_eq!(inspected.next(), Some(5));
    assert_eq!(seen.get(), 345);
    assert_eq!(inspected.next(), None);
    assert_eq!(seen.get(), 345);
}

#[test]
fn map_calls_the_transform_once_for_each_item() {
    let v = [0, 1, 2, 3, 4];
    let calls = Cell::new(0);
    let mapped = v.into_iter().into_lend_iter().map(|x| {
        calls.set(calls.get() + 1);
        x * x
    });
    assert_eq!(list(mapped.into_iter()), [0, 1, 4, 9, 16]);
    assert_eq!(calls.get(), 5);
}

#[test]
fn fold_goes_from_the_first_item_to_the_last() {
    let v = [1, 2, 3];
    let digits = v.into_iter().into_lend_iter().fold(0, |acc, x| acc * 10 + x);
    assert_eq!(digits, 123);
}

#[test]
fn fold_of_nothing_is_the_start() {
    let v: [u8; 0] = [];
    assert_eq!(v.into_iter().into_lend_iter().fold(42, |acc, x| acc + x), 42);
}

#[test]
fn for_each_visits_every_item_in_order() {
    let v = [1, 2, 3];
    let mut seen = Vec::new();
    v.into_iter().into_lend_iter().for_each(|x| seen.push(x));
    assert_eq!(seen, [1, 2, 3]);
}

#[test]
fn adapters_compose() {
    let v = [0, 1, 2, 3, 4, 5, 6];
    let iter = v
        .into_iter()
        .into_lend_iter()
        .map(|x| x + 1)
        .take_while(|x| *x < 6)
        .enumerate()
        .take(4);
    assert_eq!(list(iter.into_iter()), [(0, 1), (1, 2), (2, 3), (3, 4)]);
}

#[test]
fn adapters_can_be_cloned() {
    let v = [1, 2, 3];
    let mut first = v.into_iter().into_lend_iter().map(|x| x + 1).take(2);
    assert_eq!(first.next(), Some(2));
    let second = first.clone();
    assert_eq!(list(first.into_iter()), [3]);
    assert_eq!(list(second.into_iter()), [3]);
}
