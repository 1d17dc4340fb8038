//! Lending iterators that are not built from other iterators.

mod windows_mut;
pub use self::windows_mut::law_windows;
pub use self::windows_mut::law_windows_mut;
pub use self::windows_mut::windows_from;
pub use self::windows_mut::with_window;
pub use self::windows_mut::WindowsMut;
