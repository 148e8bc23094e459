//! Caret positions and motions.

use vstd::prelude::*;

verus! {

/// A logical caret position: a line and a byte index within that line.
#[derive(Clone, Copy, Debug, PartialEq, Eq, Structural)]
pub struct TextCursor {
    pub line: usize,
    pub index: usize,
}

impl TextCursor {
    pub fn new(line: usize, index: usize) -> (r: Self)
        ensures
            r == (TextCursor { line, index }),
    {
        TextCursor { line, index }
    }
}

impl Default for TextCursor {
    fn default() -> (r: Self)
        ensures
            r == (TextCursor { line: 0, index: 0 }),
    {
        TextCursor { line: 0, index: 0 }
    }
}

/// A cursor movement, resolved against shaped text by the backend so that
/// `Up`/`Down`/`Home`/`End` respect wrapping and visual order.
#[derive(Clone, Copy, Debug, PartialEq, Eq, Structural)]
#[non_exhaustive]
pub enum Motion {
    Left,
    Right,
    Up,
    Down,
    Home,
    End,
}

} // verus!
