use hrtb_lending_iterator::{
    from_into_iter, from_iter, FromIterator, IntoIteratorExt, IntoLendingIterator, IteratorExt,
    Item, LendingIterator, LendingIteratorItem,
};

/// Lends each of its words in turn.
struct Words {
    words: Vec<String>,
    next: usize,
}

impl<'any> LendingIteratorItem<'any> for Words {
    type Type = &'any str;
}

impl LendingIterator for Words {
    fn next(&mut self) -> Option<Item<'_, Self>> {
        let word = self.words.get(self.next)?;
        self.next += 1;
        Some(word)
    }
}

fn words() -> Words {
    Words {
        words: vec!["one".to_string(), "two".to_string()],
        next: 0,
    }
}

#[test]
fn wrapping_and_unwrapping_keeps_every_item() {
    let v = vec![3, 1, 4, 1, 5];
    let mut round_trip = from_iter(v.clone().into_iter()).into_iter();
    let mut items = Vec::new();
    while let Some(item) = round_trip.next() {
        items.push(item);
    }
    assert_eq!(items, v);
    assert_eq!(round_trip.next(), None);
}

#[test]
fn wrapping_and_unwrapping_gives_the_iterator_back() {
    let v = [3, 1, 4];
    let mut lending = from_iter(v.into_iter());
    assert_eq!(lending.next(), Some(3));
    let rest: Vec<i32> = lending.into_iter().into_inner().into_inner().collect();
    assert_eq!(rest, [1, 4]);
}

#[test]
fn the_extension_methods_wrap_as_the_functions_do() {
    let v = [1, 2];
    let mut by_method = v.into_iter().into_lend_iter();
    let mut by_function = from_iter(v.into_iter());
    assert_eq!(by_method.next(), by_function.next());
    assert_eq!(by_method.next(), by_function.next());
    assert_eq!(by_method.next(), by_function.next());

    assert_eq!(v.into_into_lend_iter().into_inner(), v);
    assert_eq!(from_into_iter(v).into_inner(), v);
}

/// An ordinary iterator over `5` and `6` that also names its items as a
/// lending iterator would.
struct FiveSix(u32);

impl Iterator for FiveSix {
    type Item = u32;

    fn next(&mut self) -> Option<u32> {
        if self.0 < 2 {
            self.0 += 1;
            Some(self.0 + 4)
        } else {
            None
        }
    }
}

impl<'any> LendingIteratorItem<'any> for FiveSix {
    type Type = u32;
}

#[test]
fn an_iterator_converts_into_its_wrapper() {
    let mut lending = FromIterator::from(FiveSix(0));
    assert_eq!(lending.next(), Some(5));
    assert_eq!(lending.next(), Some(6));
    assert_eq!(lending.next(), None);
    assert_eq!(lending.into_inner().0, 2);
}

#[test]
fn a_wrapped_iterable_gives_its_iterable_back() {
    let v = vec![1, 2, 3];
    let wrapped = v.clone().into_iter().into_into_lend_iter();
    let unwrapped = wrapped.into_into_iter().into_inner().into_inner();
    assert_eq!(unwrapped.collect::<Vec<_>>(), v);
}

#[test]
fn a_lending_iterator_turns_into_itself() {
    let mut iter = words().into_lend_iter();
    assert_eq!(iter.next(), Some("one"));
    assert_eq!(iter.next(), Some("two"));
    assert_eq!(iter.next(), None);
}

#[test]
fn copies_are_owned_and_in_order() {
    let mut copies = words().to_owned();
    let first: Option<String> = copies.next();
    let second: Option<String> = copies.next();
    let third: Option<String> = copies.next();
    assert_eq!(first, Some("one".to_string()));
    assert_eq!(second, Some("two".to_string()));
    assert_eq!(third, None);
}

#[test]
fn an_iterable_of_copies_starts_from_the_beginning() {
    let mut copies = words().to_into_owned_item().into_iter();
    assert_eq!(copies.next(), Some("one".to_string()));
    assert_eq!(copies.next(), Some("two".to_string()));
    assert_eq!(copies.next(), None);
    assert_eq!(copies.next(), None);
}
