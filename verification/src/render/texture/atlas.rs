//! A texture slot subdivided by a rectangle allocator.

use vstd::prelude::*;

use super::TextureHandle;
use crate::model::Size;
use crate::render::allocator::{Allocator, AllocatorKind, AtlasRect};

verus! {

/// One texture slot whose area is handed out rect by rect.
pub struct Atlas {
    pub slot_index: usize,
    pub generation: u32,
    pub size_px: Size,
    pub allocator: Allocator,
}

impl Atlas {
    pub open spec fn wf(&self) -> bool {
        self.allocator.wf()
    }

    pub fn new(slot_index: usize, generation: u32, size_px: Size, kind: AllocatorKind) -> (r: Self)
        ensures
            r.wf(),
            r.slot_index == slot_index,
            r.generation == generation,
            r.size_px == size_px,
            r.allocator.kind() == kind,
            r.allocator.extent() == (size_px.width as nat, size_px.height as nat),
            r.allocator.is_fresh(),
    {
        Atlas {
            slot_index,
            generation,
            size_px,
            allocator: Allocator::new(kind, size_px.width, size_px.height),
        }
    }

    /// Allocate a `w x h` rect inside this atlas. Returns `None` when full.
    pub fn allocate(&mut self, w: u32, h: u32) -> (r: Option<AtlasRect>)
        requires
            old(self).wf(),
        ensures
            final(self).wf(),
            final(self).slot_index == old(self).slot_index,
            final(self).generation == old(self).generation,
            final(self).size_px == old(self).size_px,
            old(self).allocator.places(w as nat, h as nat, r, final(self).allocator),
    {
        self.allocator.allocate(w, h)
    }

    /// Mark the region occupied by `handle`, whose texel offset inside the
    /// atlas is `(x, y)`, as reclaimable.
    ///
    /// Only meaningful for atlases created with [`AllocatorKind::Skyline`];
    /// on a `Shelf` atlas this is a no-op.
    pub fn free(&mut self, handle: TextureHandle, x: u32, y: u32)
        requires
            old(self).wf(),
        ensures
            final(self).wf(),
            final(self).slot_index == old(self).slot_index,
            final(self).generation == old(self).generation,
            final(self).size_px == old(self).size_px,
            ({
                let rect = AtlasRect { x, y, w: handle.size_px.width, h: handle.size_px.height };
                match (old(self).allocator, final(self).allocator) {
                    (Allocator::Shelf(a), Allocator::Shelf(b)) => b@ == a@,
                    (Allocator::Skyline(a), Allocator::Skyline(b)) => b@ == (crate::render::allocator::SkylineState {
                        freed: if rect.is_empty() { a@.freed } else { a@.freed.push(rect) },
                        ..a@
                    }),
                    _ => false,
                }
            }),
    {
        self.allocator.free(AtlasRect { x, y, w: handle.size_px.width, h: handle.size_px.height });
    }
}

} // verus!
