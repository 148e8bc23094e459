//! Verified core of a retained-mode UI toolkit rendered with the GPU on
//! Wayland: texture-atlas packing and texture slots, the glyph atlas's pages,
//! the mesh arena, the pipeline registry and its shared render pass, the
//! integer decisions of drawing a frame, surface bookkeeping and input
//! mapping of the Wayland front end, output selection, and the small pure
//! helpers of the widget tree.

pub mod model;
pub mod render;
pub mod sctk;
pub mod task;
pub mod text;
pub mod theme;
pub mod tree;
