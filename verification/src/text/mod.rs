//! Text styling values and caret positions shared by text backends.

pub mod layout;
pub mod style;

pub use layout::{Motion, TextCursor};
pub use style::{Family, FontStyle, Weight, Wrap};
