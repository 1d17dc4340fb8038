//! Lending iterators: iterators whose items may borrow from the iterator
//! itself, so that at most one item is alive at any time.
//!
//! The protocol is the trait [`LendingIterator`], built on the item family
//! [`LendingIteratorItem`]. Adapters wrap a lending iterator and are lending
//! iterators again; bridges lead from ordinary iterators to lending ones and
//! back; [`WindowsMut`] lends overlapping mutable windows of a slice.
//!
//! # Contracts
//!
//! A state of an iterator is a value of its type. The contract of each `next`
//! relates the state before the call, the item, and the state after the item
//! was given up. An adapter says which call of `next` on the iterator inside
//! its own call amounts to; what is written through a borrowed item reaches
//! the state of the innermost iterator that way.
//!
//! What holds of several calls in a row is stated over runs (see
//! [`is_step`]) and proved in the `law_` functions.
//!
//! `next` may be called on an iterator for which
//! [`inv`](LendingIterator::inv) holds. It holds of every state that is built
//! through the constructors from iterators for which it holds, with closures
//! that accept every item of the iterator they are given to.

mod adapters;
pub use self::adapters::accepts_every_item;
pub use self::adapters::from_into_iter;
pub use self::adapters::from_iter;
pub use self::adapters::inspects_every_item;
pub use self::adapters::law_enumerate;
pub use self::adapters::law_take_while;
pub use self::adapters::law_to_owned;
pub use self::adapters::law_unwrap;
pub use self::adapters::law_wrap_unwrap;
pub use self::adapters::next_index;
pub use self::adapters::transforms_every_item;
pub use self::adapters::yielded;
pub use self::adapters::Enumerate;
pub use self::adapters::FromIntoIterator;
pub use self::adapters::FromIterator;
pub use self::adapters::Inspect;
pub use self::adapters::IntoIntoIter;
pub use self::adapters::IntoIter;
pub use self::adapters::Mapped;
pub use self::adapters::TakeWhile;
pub use self::adapters::ToIntoOwnedItemIterator;
pub use self::adapters::ToOwnedItemIterator;

mod traits;
pub use self::traits::is_step;
pub use self::traits::law_take;
pub use self::traits::left_to_take;
pub use self::traits::ExactSizeLendingIterator;
pub use self::traits::IntoIteratorExt;
pub use self::traits::IntoLendingIterator;
pub use self::traits::Item;
pub use self::traits::IteratorExt;
pub use self::traits::LendingIterator;
pub use self::traits::LendingIteratorItem;
pub use self::traits::SliceExt;
pub use self::traits::Take;

mod sources;
pub use self::sources::law_windows;
pub use self::sources::law_windows_mut;
pub use self::sources::windows_from;
pub use self::sources::with_window;
pub use self::sources::WindowsMut;
