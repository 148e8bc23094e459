//! Plain data handed back by background work.

use vstd::prelude::*;

verus! {

/// A decoded image: `width x height` pixels of RGBA, four bytes each, row
/// by row, as a loader hands it back for upload.
pub struct RawImage {
    pub width: u32,
    pub height: u32,
    pub rgba: Vec<u8>,
}

} // verus!
