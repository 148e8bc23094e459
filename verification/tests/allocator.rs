use ui::render::allocator::{Allocator, AllocatorKind, AtlasRect, ShelfAllocator, SkylineAllocator};

fn shelf(w: u32, h: u32) -> ShelfAllocator {
    ShelfAllocator::new(w, h)
}

fn sky(w: u32, h: u32) -> SkylineAllocator {
    SkylineAllocator::new(w, h)
}

// Shelf packing, through the allocator of either kind's shelf variant.

#[test]
fn alloc_shelf_single_fits_at_origin() {
    let mut a = shelf(256, 256);
    let r = a.allocate(32, 16).unwrap();
    assert_eq!((r.x, r.y, r.w, r.h), (0, 0, 32, 16));
}

#[test]
fn alloc_shelf_second_fits_next_to_first() {
    let mut a = shelf(256, 256);
    let r1 = a.allocate(32, 16).unwrap();
    let r2 = a.allocate(24, 16).unwrap();
    assert_eq!((r1.x, r1.y), (0, 0));
    assert_eq!((r2.x, r2.y), (32, 0));
}

#[test]
fn alloc_shelf_row_h_tracks_tallest() {
    let mut a = shelf(100, 100);
    let _ = a.allocate(10, 5).unwrap();
    let _ = a.allocate(10, 20).unwrap();
    let _ = a.allocate(10, 5).unwrap();
    let _ = a.allocate(70, 1).unwrap(); // fills rest of row
    let wrap = a.allocate(5, 5).unwrap();
    assert_eq!(wrap.y, 20);
    assert_eq!(wrap.x, 0);
}

#[test]
fn alloc_shelf_wraps_to_new_row() {
    let mut a = shelf(10, 20);
    let _ = a.allocate(6, 4).unwrap();
    let r = a.allocate(6, 4).unwrap();
    assert_eq!(r.x, 0);
    assert_eq!(r.y, 4);
}

#[test]
fn alloc_shelf_rejects_oversized() {
    let mut a = shelf(32, 32);
    assert!(a.allocate(33, 10).is_none());
    assert!(a.allocate(10, 33).is_none());
}

#[test]
fn alloc_shelf_rejects_when_vertical_full() {
    let mut a = shelf(5, 5);
    let _ = a.allocate(5, 5).unwrap();
    assert!(a.allocate(1, 1).is_none());
}

#[test]
fn alloc_shelf_exact_fit() {
    let mut a = shelf(100, 50);
    let r = a.allocate(100, 50).unwrap();
    assert_eq!((r.x, r.y, r.w, r.h), (0, 0, 100, 50));
    assert!(a.allocate(1, 1).is_none());
}

#[test]
fn alloc_shelf_zero_size_does_not_advance_cursor() {
    let mut a = shelf(100, 100);
    let _ = a.allocate(0, 0).unwrap();
    let r2 = a.allocate(10, 10).unwrap();
    assert_eq!((r2.x, r2.y), (0, 0));
}

#[test]
fn alloc_shelf_fills_16_tiles_in_40x40() {
    let mut a = shelf(40, 40);
    let mut n = 0;
    while a.allocate(10, 10).is_some() {
        n += 1;
    }
    assert_eq!(n, 16);
}

#[test]
fn alloc_shelf_wastes_vertical_space_on_mixed_heights() {
    // Regression guard: shelf packing deliberately wastes the space below
    // short rects on a tall row.
    let mut a = shelf(100, 100);
    let _ = a.allocate(100, 80).unwrap();
    let r = a.allocate(1, 1).unwrap();
    assert_eq!(r.y, 80);
}

#[test]
fn alloc_shelf_reset_reuses_space() {
    let mut a = shelf(10, 10);
    let _ = a.allocate(10, 10).unwrap();
    assert!(a.allocate(1, 1).is_none());
    a.reset();
    let r = a.allocate(10, 10).unwrap();
    assert_eq!((r.x, r.y), (0, 0));
}

// Skyline packing.

#[test]
fn skyline_single_at_origin() {
    let mut a = sky(256, 256);
    let r = a.allocate(32, 16).unwrap();
    assert_eq!((r.x, r.y), (0, 0));
    assert_eq!((r.w, r.h), (32, 16));
}

#[test]
fn skyline_rejects_oversized() {
    let mut a = sky(32, 32);
    assert!(a.allocate(33, 10).is_none());
    assert!(a.allocate(10, 33).is_none());
}

#[test]
fn skyline_zero_size_succeeds() {
    let mut a = sky(100, 100);
    let r = a.allocate(0, 0).unwrap();
    assert_eq!((r.w, r.h), (0, 0));
    // Should still be able to alloc real space afterwards.
    assert!(a.allocate(10, 10).is_some());
}

#[test]
fn skyline_packs_tighter_than_shelf_on_mixed_heights() {
    let mut a = sky(100, 100);
    let _ = a.allocate(100, 80).unwrap();
    // 20 rows remain: a 1x1 should land there.
    let r = a.allocate(1, 1).unwrap();
    assert_eq!(r.y, 80);
}

#[test]
fn skyline_full_returns_none() {
    let mut a = sky(10, 10);
    let _ = a.allocate(10, 10).unwrap();
    assert!(a.allocate(1, 1).is_none());
}

#[test]
fn skyline_free_makes_space_reclaimable() {
    let mut a = sky(50, 50);
    let r1 = a.allocate(50, 50).unwrap(); // fills atlas
    assert!(a.allocate(10, 10).is_none());
    a.free(r1);
    // After free, the free list should satisfy the next alloc.
    let r2 = a.allocate(10, 10);
    assert!(r2.is_some(), "freed space should be reclaimable");
}

#[test]
fn skyline_reset_reclaims_all_space() {
    let mut a = sky(100, 100);
    let _ = a.allocate(100, 100).unwrap();
    assert!(a.allocate(1, 1).is_none());
    a.reset();
    let r = a.allocate(100, 100).unwrap();
    assert_eq!((r.x, r.y), (0, 0));
}

#[test]
fn skyline_raise_skyline_correct_after_three_rects() {
    let mut a = sky(60, 60);
    let r1 = a.allocate(20, 10).unwrap();
    let r2 = a.allocate(20, 30).unwrap();
    let r3 = a.allocate(20, 5).unwrap();
    assert_eq!((r1.x, r1.y), (0, 0));
    assert_eq!((r2.x, r2.y), (20, 0));
    // Notch at x=0 after r1 is y=10, notch at x=40 is y=0: the lower wins.
    assert_eq!(r3.y, 0, "skyline should use the lowest notch");
    assert_eq!(r3.x, 40);
}

// Shelf packing through the shelf module's own tests.

#[test]
fn shelf_shelf_single_fits_at_origin() {
    let mut a = shelf(256, 256);
    let r = a.allocate(32, 16).unwrap();
    assert_eq!((r.x, r.y, r.w, r.h), (0, 0, 32, 16));
}

#[test]
fn shelf_shelf_second_fits_next_to_first() {
    let mut a = shelf(256, 256);
    let r1 = a.allocate(32, 16).unwrap();
    let r2 = a.allocate(24, 16).unwrap();
    assert_eq!((r1.x, r1.y), (0, 0));
    assert_eq!((r2.x, r2.y), (32, 0));
}

#[test]
fn shelf_shelf_row_h_tracks_tallest() {
    let mut a = shelf(100, 100);
    let _ = a.allocate(10, 5).unwrap();
    let _ = a.allocate(10, 20).unwrap();
    let _ = a.allocate(10, 5).unwrap();
    let _ = a.allocate(70, 1).unwrap(); // fills rest of row
    let wrap = a.allocate(5, 5).unwrap();
    assert_eq!(wrap.y, 20);
    assert_eq!(wrap.x, 0);
}

#[test]
fn shelf_shelf_wraps_to_new_row() {
    let mut a = shelf(10, 20);
    let _ = a.allocate(6, 4).unwrap();
    let r = a.allocate(6, 4).unwrap();
    assert_eq!(r.x, 0);
    assert_eq!(r.y, 4);
}

#[test]
fn shelf_shelf_rejects_oversized() {
    let mut a = shelf(32, 32);
    assert!(a.allocate(33, 10).is_none());
    assert!(a.allocate(10, 33).is_none());
}

#[test]
fn shelf_shelf_rejects_when_vertical_full() {
    let mut a = shelf(5, 5);
    let _ = a.allocate(5, 5).unwrap();
    assert!(a.allocate(1, 1).is_none());
}

#[test]
fn shelf_shelf_exact_fit() {
    let mut a = shelf(100, 50);
    let r = a.allocate(100, 50).unwrap();
    assert_eq!((r.x, r.y, r.w, r.h), (0, 0, 100, 50));
    assert!(a.allocate(1, 1).is_none());
}

#[test]
fn shelf_shelf_zero_size_does_not_advance_cursor() {
    let mut a = shelf(100, 100);
    let _ = a.allocate(0, 0).unwrap();
    let r2 = a.allocate(10, 10).unwrap();
    assert_eq!((r2.x, r2.y), (0, 0));
}

#[test]
fn shelf_shelf_fills_16_tiles_in_40x40() {
    let mut a = shelf(40, 40);
    let mut n = 0;
    while a.allocate(10, 10).is_some() {
        n += 1;
    }
    assert_eq!(n, 16);
}

#[test]
fn shelf_shelf_wastes_vertical_space_on_mixed_heights() {
    let mut a = shelf(100, 100);
    let _ = a.allocate(100, 80).unwrap();
    let r = a.allocate(1, 1).unwrap();
    assert_eq!(r.y, 80);
}

#[test]
fn shelf_shelf_reset_reuses_space() {
    let mut a = shelf(10, 10);
    let _ = a.allocate(10, 10).unwrap();
    assert!(a.allocate(1, 1).is_none());
    a.reset();
    let r = a.allocate(10, 10).unwrap();
    assert_eq!((r.x, r.y), (0, 0));
}

// Further cases.

#[test]
fn shelf_failed_request_still_wraps_the_row() {
    // A request too tall for what is left starts a new row even though it
    // fails; the next request sees the wrapped cursor.
    let mut a = shelf(10, 10);
    let _ = a.allocate(6, 6).unwrap();
    assert!(a.allocate(6, 6).is_none());
    let r = a.allocate(4, 4).unwrap();
    assert_eq!((r.x, r.y), (0, 6));
}

#[test]
fn shelf_rects_never_overlap() {
    let mut a = shelf(50, 50);
    let mut placed: Vec<AtlasRect> = Vec::new();
    for (w, h) in [(10, 7), (20, 3), (25, 9), (5, 5), (30, 12), (12, 1), (50, 4), (3, 3)] {
        if let Some(r) = a.allocate(w, h) {
            assert!(r.x + r.w <= 50 && r.y + r.h <= 50);
            for p in &placed {
                let apart = r.x + r.w <= p.x || p.x + p.w <= r.x || r.y + r.h <= p.y || p.y + p.h <= r.y;
                assert!(apart, "{r:?} overlaps {p:?}");
            }
            placed.push(r);
        }
    }
    assert!(placed.len() >= 6);
}

#[test]
fn skyline_rects_never_overlap() {
    let mut a = sky(64, 64);
    let mut placed: Vec<AtlasRect> = Vec::new();
    for (w, h) in [(10, 7), (20, 3), (25, 9), (5, 5), (30, 12), (12, 1), (64, 4), (3, 3), (9, 30)] {
        if let Some(r) = a.allocate(w, h) {
            assert!(r.x + r.w <= 64 && r.y + r.h <= 64);
            for p in &placed {
                let apart = r.x + r.w <= p.x || p.x + p.w <= r.x || r.y + r.h <= p.y || p.y + p.h <= r.y;
                assert!(apart, "{r:?} overlaps {p:?}");
            }
            placed.push(r);
        }
    }
    assert_eq!(placed.len(), 9);
}

#[test]
fn skyline_free_list_is_first_fit_and_keeps_position() {
    let mut a = sky(40, 40);
    let big = a.allocate(40, 20).unwrap();
    let small = a.allocate(10, 10).unwrap();
    a.free(small);
    a.free(big);
    // The first freed rect that can hold 8x8 is `small`.
    let r = a.allocate(8, 8).unwrap();
    assert_eq!((r.x, r.y, r.w, r.h), (small.x, small.y, 8, 8));
    // Only `big` can hold 30x15.
    let r = a.allocate(30, 15).unwrap();
    assert_eq!((r.x, r.y), (big.x, big.y));
}

#[test]
fn skyline_free_ignores_empty_rects() {
    let mut a = sky(10, 10);
    let _ = a.allocate(10, 10).unwrap();
    a.free(AtlasRect { x: 0, y: 0, w: 0, h: 5 });
    assert!(a.allocate(1, 1).is_none());
}

#[test]
fn skyline_zero_width_request_ignores_height_limit() {
    let mut a = sky(10, 10);
    let r = a.allocate(0, 50).unwrap();
    assert_eq!((r.x, r.y, r.w, r.h), (0, 0, 0, 50));
}

#[test]
fn skyline_ties_go_to_the_leftmost_notch() {
    let mut a = sky(30, 30);
    let _ = a.allocate(10, 5).unwrap();
    let _ = a.allocate(10, 8).unwrap();
    let _ = a.allocate(10, 5).unwrap();
    // Notches at x=0 and x=20 both sit at y=5.
    let r = a.allocate(10, 1).unwrap();
    assert_eq!((r.x, r.y), (0, 5));
}

#[test]
fn allocator_dispatches_by_kind() {
    let mut shelf = Allocator::new(AllocatorKind::Shelf, 100, 100);
    let mut sky = Allocator::new(AllocatorKind::Skyline, 100, 100);
    let _ = shelf.allocate(30, 20).unwrap();
    let _ = shelf.allocate(20, 10).unwrap();
    let _ = sky.allocate(30, 20).unwrap();
    let _ = sky.allocate(20, 10).unwrap();
    // The shelf keeps filling its open row; the skyline takes the lowest
    // baseline, the untouched ground right of both rects, over the notch
    // at x=30 that sits at height 10. It does so even though the notch
    // would fit the rect more snugly: (30, 10) is never chosen here.
    let a = shelf.allocate(20, 5).unwrap();
    let b = sky.allocate(20, 5).unwrap();
    assert_eq!((a.x, a.y), (50, 0));
    assert_eq!((b.x, b.y), (50, 0));
    let c = sky.allocate(20, 5).unwrap();
    assert_eq!((c.x, c.y), (70, 0));
}

#[test]
fn allocator_free_is_a_no_op_for_shelf() {
    let mut a = Allocator::new(AllocatorKind::Shelf, 10, 10);
    let r = a.allocate(10, 10).unwrap();
    a.free(r);
    assert!(a.allocate(1, 1).is_none());
    a.reset();
    assert!(a.allocate(10, 10).is_some());
}

#[test]
fn allocator_kind_defaults_to_shelf() {
    assert_eq!(AllocatorKind::default(), AllocatorKind::Shelf);
}

fn overlap(a: &AtlasRect, b: &AtlasRect) -> bool {
    a.w > 0 && a.h > 0 && b.w > 0 && b.h > 0
        && a.x < b.x + b.w && b.x < a.x + a.w && a.y < b.y + b.h && b.y < a.y + a.h
}

#[test]
fn skyline_reuse_never_overlaps_live_rects() {
    let mut a = sky(64, 64);
    let mut live: Vec<AtlasRect> = Vec::new();
    for (w, h) in [(20, 10), (16, 30), (30, 8), (12, 12)] {
        live.push(a.allocate(w, h).unwrap());
    }
    a.free(live.remove(1));
    for (w, h) in [(10, 20), (16, 16), (40, 10), (5, 5)] {
        if let Some(r) = a.allocate(w, h) {
            for l in &live {
                assert!(!overlap(&r, l), "{r:?} overlaps {l:?}");
            }
            live.push(r);
        }
    }
}

#[test]
fn shelf_run_never_overlaps() {
    let mut a = ShelfAllocator::new(50, 50);
    let mut got: Vec<AtlasRect> = Vec::new();
    for (w, h) in [(20, 10), (20, 5), (20, 7), (30, 12), (25, 3), (50, 10)] {
        if let Some(r) = a.allocate(w, h) {
            assert!(r.x + r.w <= 50 && r.y + r.h <= 50);
            for g in &got {
                assert!(!overlap(&r, g));
            }
            got.push(r);
        }
    }
    assert!(got.len() >= 5);
}

#[test]
fn skyline_uses_notch_efficiently() {
    // Place a 30x20 rect, then a 20x10 rect beside it, leaving a notch at
    // x=30, y=10. The packer takes the lowest baseline, the open ground at
    // y=0 right of both rects, rather than that notch: a snugger fit
    // never outranks a lower one.
    let mut a = sky(100, 100);
    let _ = a.allocate(30, 20).unwrap();
    let _ = a.allocate(20, 10).unwrap();
    let r = a.allocate(20, 5).unwrap();
    assert_eq!((r.x, r.y), (50, 0));
}
