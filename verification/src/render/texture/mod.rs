//! Texture handles, atlases and the slot bookkeeping behind the bindless
//! texture array.

use vstd::prelude::*;

use crate::model::Size;

pub mod atlas;
pub mod slots;

pub use atlas::Atlas;
pub use slots::{SlotsState, TextureSlots};

verus! {

/// Everything a shader needs to sample a texture: the packed slot and
/// generation, and the packed UV scale and offset inside its texture.
#[derive(Clone, Copy, Debug, PartialEq, Eq, Structural)]
pub struct TextureHandle {
    pub slot_gen: u32,
    pub scale_packed: u32,
    pub offset_packed: u32,
    pub size_px: Size,
}

impl Default for TextureHandle {
    /// The all-zero handle: `slot_gen == 0` means "no texture".
    fn default() -> (r: Self)
        ensures
            r == (TextureHandle { slot_gen: 0, scale_packed: 0, offset_packed: 0, size_px: Size { width: 0, height: 0 } }),
    {
        TextureHandle { slot_gen: 0, scale_packed: 0, offset_packed: 0, size_px: Size { width: 0, height: 0 } }
    }
}

} // verus!
