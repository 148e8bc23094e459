//! Font selection values.

use vstd::prelude::*;

verus! {

/// A font family: a generic one or one named by the app.
#[derive(Clone, Debug, PartialEq, Eq)]
pub enum Family {
    Monospace,
    SansSerif,
    Serif,
    Name(String),
}

/// The weight of glyphs in the font, their degree of blackness or stroke
/// thickness, from 100 (thin) to 900 (black).
#[derive(Clone, Copy, Debug, PartialEq, Eq, Structural)]
pub struct Weight(pub u16);

/// Thin weight, the thinnest value.
pub const WEIGHT_THIN: u16 = 100;

/// Extra light weight.
pub const WEIGHT_EXTRA_LIGHT: u16 = 200;

/// Light weight.
pub const WEIGHT_LIGHT: u16 = 300;

/// Normal weight.
pub const WEIGHT_NORMAL: u16 = 400;

/// Medium weight, higher than normal.
pub const WEIGHT_MEDIUM: u16 = 500;

/// Semibold weight.
pub const WEIGHT_SEMIBOLD: u16 = 600;

/// Bold weight.
pub const WEIGHT_BOLD: u16 = 700;

/// Extra-bold weight.
pub const WEIGHT_EXTRA_BOLD: u16 = 800;

/// Black weight, the thickest value.
pub const WEIGHT_BLACK: u16 = 900;

impl Default for Weight {
    fn default() -> (r: Weight)
        ensures
            r == Weight(WEIGHT_NORMAL),
    {
        Weight(WEIGHT_NORMAL)
    }
}

/// Allows italic or oblique faces to be selected.
#[derive(Clone, Copy, Debug, PartialEq, Eq, Structural)]
pub enum FontStyle {
    /// A face that is neither italic nor obliqued.
    Normal,
    /// A form that is generally cursive in nature.
    Italic,
    /// A typically-sloped version of the regular face.
    Oblique,
}

impl Default for FontStyle {
    fn default() -> (r: FontStyle)
        ensures
            r == FontStyle::Normal,
    {
        FontStyle::Normal
    }
}

/// How a run of text wraps.
#[derive(Clone, Copy, Debug, PartialEq, Eq, Structural)]
pub enum Wrap {
    /// No wrapping.
    Unwrapped,
    /// Wraps at a glyph level.
    Glyph,
    /// Wraps at the word level.
    Word,
    /// Wraps at the word level, or falls back to glyph level if a word
    /// cannot fit on a line by itself.
    WordOrGlyph,
}

/// The label shown for each wrap mode.
pub open spec fn wrap_label(w: Wrap) -> Seq<char> {
    match w {
        Wrap::Unwrapped => "No Wrap"@,
        Wrap::Word => "Word Wrap"@,
        Wrap::WordOrGlyph => "Word Wrap or Character"@,
        Wrap::Glyph => "Character"@,
    }
}

impl Wrap {
    /// The label shown for this wrap mode.
    pub fn label(&self) -> (r: &'static str)
        ensures
            r@ == wrap_label(*self),
    {
        match self {
            Wrap::Unwrapped => "No Wrap",
            Wrap::Word => "Word Wrap",
            Wrap::WordOrGlyph => "Word Wrap or Character",
            Wrap::Glyph => "Character",
        }
    }
}

} // verus!
