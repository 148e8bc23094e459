//! The renderer's bookkeeping: atlas packing, buffer growth, attachments,
//! frame decisions, handle packing, textures, pipelines and glyphs.

pub mod allocator;
pub mod attachment;
pub mod capacity;
pub mod frame;
pub mod pack;
pub mod texture;
pub mod pipeline;
pub mod glyph_atlas;
pub mod glyph_cache;
pub mod glyph_pixels;
pub mod words;
