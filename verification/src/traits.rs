//! The iteration protocol and the traits around it.

mod lending_iterator;
pub use self::lending_iterator::{
    is_step, law_take, left_to_take, Item, LendingIterator, LendingIteratorItem, Take,
};

mod into_lending;
pub use self::into_lending::IntoLendingIterator;

mod ext;
pub use self::ext::{IntoIteratorExt, IteratorExt, SliceExt};

mod exact_size;
pub use self::exact_size::ExactSizeLendingIterator;
