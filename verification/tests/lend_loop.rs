use hrtb_lending_iterator::{IntoLendingIterator, Item, LendingIterator, LendingIteratorItem};

struct Mock();

impl Mock {
    pub fn iter(&self) -> MockLendingIterator {
        MockLendingIterator {}
    }
}

struct MockLendingIterator {}

impl<'any> LendingIteratorItem<'any> for MockLendingIterator {
    type Type = &'any str;
}

impl LendingIterator for MockLendingIterator {
    fn next(&mut self) -> Option<Item<'_, Self>> {
        None
    }
}

impl IntoLendingIterator for &Mock {
    type IntoLendIter = MockLendingIterator;
    fn into_lend_iter(self) -> Self::IntoLendIter {
        self.iter()
    }
}

fn test_mock_lend_iter(m: Mock) {
    let mut iter = m.iter().into_lend_iter();
    while let Some(x) = iter.next() {
        println!("{}", x);
    }
}

fn test_mock_into_lend_iter(m: Mock) {
    let mut iter = (&m).into_lend_iter();
    while let Some(x) = iter.next() {
        println!("{}", x);
    }
}

#[test]
fn test_macro() {
    test_mock_lend_iter(Mock {});
    test_mock_into_lend_iter(Mock {});
}
