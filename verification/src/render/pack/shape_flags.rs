//! Bits of the flag byte packed by the quad pipeline's shape parameters.

use vstd::prelude::*;

verus! {

pub const HAS_BORDER: u8 = 1;

pub const HAS_SHADOW: u8 = 2;

pub const GRADIENT_V: u8 = 4;

} // verus!
