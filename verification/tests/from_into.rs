use hrtb_lending_iterator::{
    IntoIter, IntoIteratorExt, IntoLendingIterator, IteratorExt, LendingIterator,
    LendingIteratorItem,
};

/// Runs an unwrapped lending iterator to its end and collects the items.
fn collect_all<T, I>(mut iter: IntoIter<I>) -> Vec<T>
where
    I: LendingIterator + for<'any> LendingIteratorItem<'any, Type = T>,
{
    let mut items = Vec::new();
    while let Some(item) = iter.next() {
        items.push(item);
    }
    items
}

#[test]
fn test_from_into() {
    let v = [0, 1, 2, 3, 4];

    let w = v
        .into_iter()
        .into_into_lend_iter()
        .into_into_iter()
        .into_iter();
    assert_eq!(collect_all(w), v.into_iter().collect::<Vec<_>>());

    let w = v.into_iter().into_lend_iter().into_iter();
    assert_eq!(collect_all(w), v.into_iter().collect::<Vec<_>>());
}
