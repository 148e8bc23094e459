use ui::model::Size;
use ui::render::allocator::{Allocator, AllocatorKind};
use ui::render::pack::pack_slot_gen;
use ui::render::texture::{Atlas, TextureHandle, TextureSlots};

fn fresh_atlas(w: u32, h: u32) -> Atlas {
    Atlas::new(0, 0, Size::new(w, h), AllocatorKind::Shelf)
}

#[test]
fn alloc_single_fits_at_origin() {
    let mut a = fresh_atlas(256, 256);
    let r = a.allocate(32, 16).expect("should fit");
    assert_eq!((r.x, r.y, r.w, r.h), (0, 0, 32, 16));
}

#[test]
fn alloc_second_fits_next_to_first_on_same_row() {
    let mut a = fresh_atlas(256, 256);
    let r1 = a.allocate(32, 16).unwrap();
    let r2 = a.allocate(24, 16).unwrap();
    assert_eq!((r1.x, r1.y), (0, 0));
    assert_eq!((r2.x, r2.y), (32, 0), "second rect starts where first ended on x");
}

#[test]
fn alloc_row_h_tracks_tallest_on_current_row() {
    // Pack: [10x5][10x20][10x5]: row height should be 20 by the end.
    let mut a = fresh_atlas(100, 100);
    let _ = a.allocate(10, 5).unwrap();
    let _ = a.allocate(10, 20).unwrap(); // bumps row_h to 20
    let _ = a.allocate(10, 5).unwrap();
    // Fill the rest of row 1 (width 100, we used 30, so 70 left).
    let _ = a.allocate(70, 1).unwrap();
    // Next alloc of any size triggers the wrap.
    let wrap = a.allocate(5, 5).unwrap();
    assert_eq!(wrap.y, 20, "new row should start below the tallest on prev row");
    assert_eq!(wrap.x, 0, "new row starts at x=0");
}

#[test]
fn alloc_wraps_to_new_row_when_current_row_full() {
    // 10-wide atlas, first row holds one 6x4 rect. Next 6x4 needs to wrap.
    let mut a = fresh_atlas(10, 20);
    let _ = a.allocate(6, 4).unwrap();
    let r = a.allocate(6, 4).unwrap();
    assert_eq!(r.x, 0);
    assert_eq!(r.y, 4, "second row starts at row_h of first");
}

#[test]
fn alloc_rejects_rect_larger_than_atlas() {
    let mut a = fresh_atlas(32, 32);
    assert!(a.allocate(33, 10).is_none(), "too wide");
    assert!(a.allocate(10, 33).is_none(), "too tall");
    assert!(a.allocate(100, 100).is_none(), "both");
}

#[test]
fn alloc_rejects_when_vertical_space_exhausted() {
    // A tiny atlas that fits exactly one row of 5x5.
    let mut a = fresh_atlas(5, 5);
    let _ = a.allocate(5, 5).unwrap();
    // Next request needs to wrap to y=5 but the atlas ends at y=5.
    assert!(a.allocate(1, 1).is_none());
}

#[test]
fn alloc_exactly_fits_atlas_width_on_single_row() {
    let mut a = fresh_atlas(100, 50);
    let r = a.allocate(100, 50).expect("exact-fit should succeed");
    assert_eq!((r.x, r.y, r.w, r.h), (0, 0, 100, 50));
    // Next alloc has nowhere to go.
    assert!(a.allocate(1, 1).is_none());
}

#[test]
fn alloc_zero_sized_rect_succeeds_and_does_not_advance_cursor() {
    let mut a = fresh_atlas(100, 100);
    let r = a.allocate(0, 0).expect("zero-sized alloc should succeed");
    assert_eq!((r.w, r.h), (0, 0));
    // A subsequent real alloc should still start at x=0.
    let r2 = a.allocate(10, 10).unwrap();
    assert_eq!((r2.x, r2.y), (0, 0));
}

#[test]
fn alloc_many_small_rects_fills_multiple_rows() {
    // 40x40 atlas filled with 10x10 rects should pack 4x4 = 16 rects.
    let mut a = fresh_atlas(40, 40);
    let mut allocated = 0;
    while a.allocate(10, 10).is_some() {
        allocated += 1;
    }
    assert_eq!(allocated, 16, "a 40x40 atlas should fit 16 10x10 tiles");
    // One more attempt must still fail.
    assert!(a.allocate(10, 10).is_none());
}

#[test]
fn alloc_mixed_heights_waste_vertical_space() {
    // Shelf packers waste space below short rects in a tall row.
    let mut a = fresh_atlas(100, 100);
    let _ = a.allocate(100, 80).unwrap(); // row_h becomes 80
    let r = a.allocate(1, 1).unwrap();
    assert_eq!(r.y, 80, "gap below short rects is still 80 tall");
}

#[test]
fn texture_texture_handle_default_is_all_zero() {
    // slot_gen == 0 is the sentinel for "no texture".
    let h = TextureHandle::default();
    assert_eq!(h.slot_gen, 0);
    assert_eq!(h.scale_packed, 0);
    assert_eq!(h.offset_packed, 0);
    assert_eq!(h.size_px, Size::new(0, 0));
}

#[test]
fn mod_texture_handle_default_is_all_zero() {
    let h = TextureHandle::default();
    assert_eq!(h.slot_gen, 0);
    assert_eq!(h.scale_packed, 0);
    assert_eq!(h.offset_packed, 0);
    assert_eq!(h.size_px, Size::new(0, 0));
}

#[test]
fn atlas_free_reclaims_on_skyline_only() {
    let mut sky = Atlas::new(3, 1, Size::new(20, 20), AllocatorKind::Skyline);
    let r = sky.allocate(20, 20).unwrap();
    let handle = TextureHandle { slot_gen: pack_slot_gen(3, 1), scale_packed: 0, offset_packed: 0, size_px: Size::new(20, 20) };
    sky.free(handle, r.x, r.y);
    assert_eq!(sky.allocate(5, 5).map(|r| (r.x, r.y)), Some((0, 0)));

    let mut shelf = Atlas::new(3, 1, Size::new(20, 20), AllocatorKind::Shelf);
    let r = shelf.allocate(20, 20).unwrap();
    shelf.free(handle, r.x, r.y);
    assert!(shelf.allocate(5, 5).is_none());
}

#[test]
fn slots_hand_out_lowest_first_and_pack_the_generation() {
    let mut slots = TextureSlots::new(4);
    let a = slots.load(16, 8).unwrap();
    let b = slots.load(2, 2).unwrap();
    assert_eq!(a.slot_gen, pack_slot_gen(0, 0));
    assert_eq!(b.slot_gen, pack_slot_gen(1, 0));
    assert_eq!(a.scale_packed, 0xFFFF_FFFF);
    assert_eq!(a.offset_packed, 0);
    assert_eq!(a.size_px, Size::new(16, 8));
    assert_eq!(slots.writable_slot(a), Some(0));
    assert_eq!(slots.writable_slot(b), Some(1));
}

#[test]
fn slots_refuse_stale_handles_after_unload() {
    let mut slots = TextureSlots::new(2);
    let a = slots.load(1, 1).unwrap();
    assert!(slots.unload(a));
    assert_eq!(slots.writable_slot(a), None);
    assert!(!slots.unload(a));
    // The slot comes back with the next generation.
    let again = slots.load(1, 1).unwrap();
    assert_eq!(again.slot_gen, pack_slot_gen(0, 1));
    assert_eq!(slots.writable_slot(again), Some(0));
}

#[test]
fn slots_refuse_the_empty_handle_and_exhaustion() {
    let mut slots = TextureSlots::new(1);
    assert_eq!(slots.writable_slot(TextureHandle::default()), None);
    assert!(!slots.unload(TextureHandle::default()));
    assert!(slots.load(1, 1).is_some());
    assert!(slots.load(1, 1).is_none());
    assert!(slots.create_atlas(8, 8, AllocatorKind::Shelf).is_none());
}

#[test]
fn slots_create_and_destroy_atlas() {
    let mut slots = TextureSlots::new(2);
    let mut atlas = slots.create_atlas(64, 32, AllocatorKind::Skyline).unwrap();
    assert_eq!((atlas.slot_index, atlas.generation), (0, 0));
    assert_eq!(atlas.size_px, Size::new(64, 32));
    assert!(slots.is_live(0));
    assert!(atlas.allocate(64, 32).is_some());
    slots.destroy_atlas(&mut atlas);
    assert!(!slots.is_live(0));
    assert_eq!(atlas.generation, 1);
    assert_eq!(atlas.size_px, Size::new(0, 0));
    assert!(matches!(atlas.allocator, Allocator::Skyline(_)));
    // The allocator was reset.
    assert!(atlas.allocate(64, 32).is_some());
    assert_eq!(slots.len(), 2);
}

/// Quantise two unit floats into the low and high halves of a word.
fn pack_unorm2x16(xy: [f32; 2]) -> u32 {
    let q = |v: f32| -> u32 { (v.clamp(0.0, 1.0) * 65535.0 + 0.5).floor() as u32 };
    q(xy[0]) | (q(xy[1]) << 16)
}

#[test]
fn texture_texture_handle_copy_and_eq() {
    let h1 = TextureHandle {
        slot_gen: pack_slot_gen(3, 7),
        scale_packed: pack_unorm2x16([1.0, 1.0]),
        offset_packed: pack_unorm2x16([0.25, 0.5]),
        size_px: Size::new(32, 32),
    };
    let h2 = h1; // Copy
    assert_eq!(h1, h2);
    assert_ne!(h1, TextureHandle::default());
}

#[test]
fn mod_texture_handle_copy_and_eq() {
    let h1 = TextureHandle {
        slot_gen: pack_slot_gen(3, 7),
        scale_packed: pack_unorm2x16([1.0, 1.0]),
        offset_packed: pack_unorm2x16([0.25, 0.5]),
        size_px: Size::new(32, 32),
    };
    let h2 = h1; // Copy
    assert_eq!(h1, h2);
    assert_ne!(h1, TextureHandle::default());
}

#[test]
fn generation_write_sends_the_slot_word_in_native_order() {
    let mut slots = TextureSlots::new(4);
    let h = slots.load(8, 8).unwrap();
    assert!(slots.unload(h));
    let (offset, bytes) = slots.generation_write(0);
    assert_eq!(offset, 0);
    assert_eq!(bytes, 1u32.to_ne_bytes().to_vec());
    let (offset, bytes) = slots.generation_write(3);
    assert_eq!(offset, 12);
    assert_eq!(bytes, vec![0, 0, 0, 0]);
}

#[test]
fn stale_handle_stays_refused_after_later_loads_and_unloads() {
    let mut slots = TextureSlots::new(2);
    let first = slots.load(4, 4).unwrap();
    assert!(slots.unload(first));
    let second = slots.load(4, 4).unwrap();
    let other = slots.load(4, 4).unwrap();
    assert!(slots.unload(second));
    let _third = slots.load(4, 4).unwrap();
    assert!(!slots.unload(first));
    assert!(!slots.unload(second));
    assert!(slots.unload(other));
}
