use ui::model::Size;
use ui::render::allocator::AllocatorKind;
use ui::render::glyph_atlas::{GlyphPages, GLYPH_PAGE_SIZE};
use ui::render::glyph_pixels::{premul_rgba, straight_rgba, GlyphContent};
use ui::render::texture::{TextureHandle, TextureSlots};
use ui::render::glyph_cache::{skips_upload, GlyphCache};

/// Linear coverage to sRGB, as the atlas's sRGB format expects.
fn srgb_table() -> Vec<u8> {
    (0..=255u32)
        .map(|c| {
            let f = c as f32 / 255.0;
            let e = if f <= 0.0031308 { f * 12.92 } else { 1.055 * f.powf(1.0 / 2.4) - 0.055 };
            (e * 255.0).round().clamp(0.0, 255.0) as u8
        })
        .collect()
}

#[test]
fn premultiplied_mask_repeats_coverage() {
    let out = premul_rgba(GlyphContent::Mask, &vec![0, 128, 255]);
    assert_eq!(out, vec![0, 0, 0, 0, 128, 128, 128, 128, 255, 255, 255, 255]);
}

#[test]
fn premultiplied_subpixel_takes_strongest_channel_as_alpha() {
    let out = premul_rgba(GlyphContent::SubpixelMask, &vec![10, 200, 30, 1, 2, 3, 99]);
    assert_eq!(out, vec![10, 200, 30, 200, 1, 2, 3, 3]);
}

#[test]
fn premultiplied_colour_is_scaled_by_alpha() {
    let out = premul_rgba(GlyphContent::Color, &vec![255, 128, 0, 128, 200, 100, 50, 255, 1]);
    assert_eq!(out, vec![128, 64, 0, 128, 200, 100, 50, 255]);
}

#[test]
fn straight_mask_is_white_at_coverage() {
    let out = straight_rgba(GlyphContent::Mask, &vec![7, 0], &srgb_table());
    assert_eq!(out, vec![255, 255, 255, 7, 255, 255, 255, 0]);
}

#[test]
fn straight_subpixel_normalises_to_the_strongest_channel() {
    let table = srgb_table();
    let out = straight_rgba(GlyphContent::SubpixelMask, &vec![0, 0, 0, 100, 50, 0], &table);
    // (50 * 255 + 50) / 100 = 128 relative coverage for green.
    assert_eq!(out, vec![0, 0, 0, 0, table[255], table[128], table[0], 100]);
}

#[test]
fn straight_colour_passes_through() {
    let data = vec![1, 2, 3, 4, 5];
    assert_eq!(straight_rgba(GlyphContent::Color, &data, &srgb_table()), data);
}

#[test]
fn small_glyphs_share_a_page_until_it_is_full() {
    let mut slots = TextureSlots::new(8);
    let mut pages = GlyphPages::new(AllocatorKind::Shelf);
    assert!(pages.can_upload(&slots, 12));
    let first = pages.upload(&mut slots, 10, 12);
    let fresh = first.new_page.expect("first glyph opens a page");
    assert_eq!((fresh.page_id, fresh.slot_index, fresh.page_size), (0, 0, Size::new(GLYPH_PAGE_SIZE, GLYPH_PAGE_SIZE)));
    let a = first.placement.unwrap();
    let second = pages.upload(&mut slots, 10, 12);
    assert_eq!(second.new_page, None);
    let b = second.expect_placed();
    assert_eq!(a.page_id, 0);
    assert_eq!(b.page_id, 0);
    assert_eq!(a.page_size, Size::new(GLYPH_PAGE_SIZE, GLYPH_PAGE_SIZE));
    assert_ne!((a.rect.x, a.rect.y), (b.rect.x, b.rect.y));
    assert_eq!(pages.page_count(0), 1);
    // Different heights go to different buckets and pages.
    let big = pages.upload(&mut slots, 40, 40).expect_placed();
    assert_eq!(big.page_id, 1);
    assert_eq!(pages.page_count(2), 1);
}

#[test]
fn a_glyph_larger_than_a_page_is_refused() {
    let mut slots = TextureSlots::new(8);
    let mut pages = GlyphPages::new(AllocatorKind::Skyline);
    let r = pages.upload(&mut slots, GLYPH_PAGE_SIZE + 1, 10);
    assert!(r.placement.is_none());
    assert_eq!(r.evicted, None);
}

#[test]
fn a_full_bucket_recycles_its_least_recently_used_page() {
    let mut slots = TextureSlots::new(8);
    let mut pages = GlyphPages::new(AllocatorKind::Shelf);
    // Bucket 1 holds glyphs 17..=32 px tall and keeps one page.
    let first = pages.upload(&mut slots, GLYPH_PAGE_SIZE, 20).expect_placed();
    assert_eq!(first.page_id, 0);
    pages.tick();
    // The page is full after 51 rows of 20 px; the next needs a new page,
    // but the bucket is at its cap: page 0 is recycled.
    let mut last = first;
    let mut evicted = None;
    for _ in 0..60 {
        let r = pages.upload(&mut slots, GLYPH_PAGE_SIZE, 20);
        if r.evicted.is_some() {
            evicted = r.evicted;
            last = r.placement.unwrap();
            break;
        }
    }
    assert_eq!(evicted, Some(0));
    assert_eq!(last.page_id, 1);
    assert_eq!(pages.page_count(1), 1);
    assert_eq!(pages.last_used_of(0), None);
    assert_eq!(pages.last_used_of(1), Some(pages.frame()));
}

#[test]
fn the_small_bucket_keeps_two_pages_and_evicts_the_colder() {
    let mut slots = TextureSlots::new(8);
    let mut pages = GlyphPages::new(AllocatorKind::Shelf);
    // 64 rows of 16 px fill the first page of bucket 0.
    for _ in 0..64 {
        assert_eq!(pages.upload(&mut slots, GLYPH_PAGE_SIZE, 16).expect_placed().page_id, 0);
    }
    // Below the cap of two pages, a second page is added.
    for _ in 0..64 {
        assert_eq!(pages.upload(&mut slots, GLYPH_PAGE_SIZE, 16).expect_placed().page_id, 1);
    }
    assert_eq!(pages.page_count(0), 2);
    pages.tick();
    pages.touch(0);
    // Both pages are full; page 1 was used least recently and goes.
    let r = pages.upload(&mut slots, GLYPH_PAGE_SIZE, 16);
    assert_eq!(r.evicted, Some(1));
    assert_eq!(r.placement.unwrap().page_id, 2);
    assert_eq!(pages.page_count(0), 2);
}

#[test]
fn a_new_page_needs_a_free_texture_slot() {
    let mut slots = TextureSlots::new(1);
    let mut pages = GlyphPages::new(AllocatorKind::Shelf);
    assert!(pages.can_upload(&slots, 10));
    pages.upload(&mut slots, 10, 10);
    // Bucket 0 may grow to two pages, but no slot is left for one.
    assert!(!pages.can_upload(&slots, 12));
    // Bucket 2 has no page yet and cannot get one either.
    assert!(!pages.can_upload(&slots, 40));
}

trait Placed {
    fn expect_placed(self) -> ui::render::glyph_atlas::GlyphPlacement;
}

impl Placed for ui::render::glyph_atlas::GlyphUpload {
    fn expect_placed(self) -> ui::render::glyph_atlas::GlyphPlacement {
        assert_eq!(self.evicted, None);
        self.placement.expect("glyph placed")
    }
}

#[test]
fn glyph_cache_forgets_only_the_recycled_page() {
    let h = |n: u32| TextureHandle { slot_gen: n, ..TextureHandle::default() };
    let mut c = GlyphCache::new();
    c.insert(1, h(10), 0);
    c.insert(2, h(20), 1);
    c.insert(3, h(30), 0);
    assert_eq!(c.lookup(2), Some(h(20)));
    assert_eq!(c.page_of(3), Some(0));
    c.forget_page(0);
    assert_eq!(c.lookup(1), None);
    assert_eq!(c.lookup(3), None);
    assert_eq!(c.lookup(2), Some(h(20)));
    assert_eq!(c.page_of(2), Some(1));
    assert_eq!(c.lookup(9), None);
}

#[test]
fn empty_and_oversized_glyphs_skip_upload() {
    assert!(skips_upload(0, 5));
    assert!(skips_upload(5, 0));
    assert!(skips_upload(1025, 5));
    assert!(skips_upload(5, 1025));
    assert!(!skips_upload(1024, 1024));
    assert!(!skips_upload(1, 1));
}
