//! Adapters over lending iterators, and the bridges to ordinary iterators.

mod take_while;
pub use self::take_while::accepts_every_item;
pub use self::take_while::law_take_while;
pub use self::take_while::TakeWhile;

mod inspect;
pub use self::inspect::inspects_every_item;
pub use self::inspect::Inspect;

mod enumerate;
pub use self::enumerate::law_enumerate;
pub use self::enumerate::next_index;
pub use self::enumerate::yielded;
pub use self::enumerate::Enumerate;

mod map;
pub use self::map::transforms_every_item;
pub use self::map::Mapped;

mod into;
pub use self::into::law_unwrap;
pub use self::into::IntoIntoIter;
pub use self::into::IntoIter;

mod to_owned;
pub use self::to_owned::law_to_owned;
pub use self::to_owned::ToIntoOwnedItemIterator;
pub use self::to_owned::ToOwnedItemIterator;

mod from;
pub use self::from::from_into_iter;
pub use self::from::from_iter;
pub use self::from::law_wrap_unwrap;
pub use self::from::FromIntoIterator;
pub use self::from::FromIterator;
