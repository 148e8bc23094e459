//! Rectangle allocators for texture atlases.

use vstd::prelude::*;

pub mod shelf;
pub mod skyline;

pub use shelf::ShelfAllocator;
pub use skyline::{Segment, SkylineAllocator, SkylineState};

verus! {

/// A rectangle inside an atlas, in texels.
#[derive(Clone, Copy, Debug, PartialEq, Eq, Structural)]
pub struct AtlasRect {
    pub x: u32,
    pub y: u32,
    pub w: u32,
    pub h: u32,
}

impl AtlasRect {
    /// The rect covers no texel.
    pub open spec fn is_empty(self) -> bool {
        self.w == 0 || self.h == 0
    }

    /// The rect lies inside a `width x height` atlas.
    pub open spec fn within(self, width: int, height: int) -> bool {
        self.x + self.w <= width && self.y + self.h <= height
    }

    /// The two rects share no texel.
    pub open spec fn disjoint(self, other: AtlasRect) -> bool {
        ||| self.is_empty()
        ||| other.is_empty()
        ||| self.x + self.w <= other.x
        ||| other.x + other.w <= self.x
        ||| self.y + self.h <= other.y
        ||| other.y + other.h <= self.y
    }
}

impl Default for AtlasRect {
    fn default() -> (r: Self)
        ensures
            r == (AtlasRect { x: 0, y: 0, w: 0, h: 0 }),
    {
        AtlasRect { x: 0, y: 0, w: 0, h: 0 }
    }
}

/// Which packing strategy an atlas uses.
#[derive(Clone, Copy, Debug, PartialEq, Eq, Structural)]
pub enum AllocatorKind {
    /// Row-based shelf packing. Fast, minimal bookkeeping, no individual free.
    Shelf,
    /// Skyline packing. Better density for mixed sizes; supports individual free.
    Skyline,
}

impl Default for AllocatorKind {
    fn default() -> (r: Self)
        ensures
            r == AllocatorKind::Shelf,
    {
        AllocatorKind::Shelf
    }
}

/// An atlas allocator of either kind.
pub enum Allocator {
    Shelf(ShelfAllocator),
    Skyline(SkylineAllocator),
}

impl Allocator {
    pub open spec fn wf(&self) -> bool {
        match self {
            Allocator::Shelf(a) => a.wf(),
            Allocator::Skyline(a) => a.wf(),
        }
    }

    /// The kind this allocator was made with.
    pub open spec fn kind(&self) -> AllocatorKind {
        match self {
            Allocator::Shelf(_) => AllocatorKind::Shelf,
            Allocator::Skyline(_) => AllocatorKind::Skyline,
        }
    }

    /// Width and height of the atlas this allocator packs.
    pub open spec fn extent(&self) -> (nat, nat) {
        match self {
            Allocator::Shelf(a) => (a@.width, a@.height),
            Allocator::Skyline(a) => (a@.width, a@.height),
        }
    }

    /// This allocator is empty: nothing placed, nothing freed.
    pub open spec fn is_fresh(&self) -> bool {
        match self {
            Allocator::Shelf(a) => a@.cursor_x == 0 && a@.cursor_y == 0 && a@.row_h == 0,
            Allocator::Skyline(a) => a@.skyline == seq![Segment { x: 0, y: 0 }] && a@.freed.len() == 0,
        }
    }

    /// A `w x h` request on this allocator yields `r` and leaves `after`.
    pub open spec fn places(&self, w: nat, h: nat, r: Option<AtlasRect>, after: Allocator) -> bool {
        match (self, after) {
            (Allocator::Shelf(a), Allocator::Shelf(b)) => (r, b@) == a@.place(w, h),
            (Allocator::Skyline(a), Allocator::Skyline(b)) => a@.places(w, h, r, b@),
            _ => false,
        }
    }

    pub fn new(kind: AllocatorKind, width: u32, height: u32) -> (r: Self)
        ensures
            r.wf(),
            r.kind() == kind,
            r.extent() == (width as nat, height as nat),
            r.is_fresh(),
    {
        match kind {
            AllocatorKind::Shelf => Allocator::Shelf(ShelfAllocator::new(width, height)),
            AllocatorKind::Skyline => Allocator::Skyline(SkylineAllocator::new(width, height)),
        }
    }

    /// Allocate a rect. Returns `None` if no space is available.
    pub fn allocate(&mut self, w: u32, h: u32) -> (r: Option<AtlasRect>)
        requires
            old(self).wf(),
        ensures
            final(self).wf(),
            old(self).places(w as nat, h as nat, r, *final(self)),
    {
        match self {
            Allocator::Shelf(a) => a.allocate(w, h),
            Allocator::Skyline(a) => a.allocate(w, h),
        }
    }

    /// Mark a previously allocated rect as reclaimable.
    ///
    /// This is a no-op for `Shelf`: shelf packing cannot reclaim individual
    /// rects without resetting the entire atlas.
    pub fn free(&mut self, rect: AtlasRect)
        requires
            old(self).wf(),
        ensures
            final(self).wf(),
            match (*old(self), *final(self)) {
                (Allocator::Shelf(a), Allocator::Shelf(b)) => b@ == a@,
                (Allocator::Skyline(a), Allocator::Skyline(b)) => b@ == (SkylineState {
                    freed: if rect.is_empty() { a@.freed } else { a@.freed.push(rect) },
                    ..a@
                }),
                _ => false,
            },
    {
        match self {
            Allocator::Shelf(_) => {},
            Allocator::Skyline(a) => a.free(rect),
        }
    }

    /// Reset the allocator to its initial empty state.
    pub fn reset(&mut self)
        requires
            old(self).wf(),
        ensures
            final(self).wf(),
            final(self).kind() == old(self).kind(),
            final(self).extent() == old(self).extent(),
            final(self).is_fresh(),
    {
        match self {
            Allocator::Shelf(a) => a.reset(),
            Allocator::Skyline(a) => a.reset(),
        }
    }
}

} // verus!
