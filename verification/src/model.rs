//! Plain geometry and colour values shared across the toolkit.

use vstd::prelude::*;

verus! {

/// A width and height in whole pixels.
#[derive(Clone, Copy, Debug, PartialEq, Eq, Structural)]
pub struct Size {
    pub width: u32,
    pub height: u32,
}

impl Size {
    pub fn new(width: u32, height: u32) -> (r: Self)
        ensures
            r == (Size { width, height }),
    {
        Size { width, height }
    }
}

impl Default for Size {
    fn default() -> (r: Self)
        ensures
            r == (Size { width: 0, height: 0 }),
    {
        Size { width: 0, height: 0 }
    }
}

/// An 8-bit-per-channel RGBA colour.
#[derive(Clone, Copy, Debug, PartialEq, Eq, Structural)]
pub struct Color {
    pub r: u8,
    pub g: u8,
    pub b: u8,
    pub a: u8,
}

impl Color {
    pub fn rgba(r: u8, g: u8, b: u8, a: u8) -> (c: Self)
        ensures
            c == (Color { r, g, b, a }),
    {
        Color { r, g, b, a }
    }
}

} // verus!
