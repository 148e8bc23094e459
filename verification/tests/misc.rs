use ui::model::{Color, Size};
use ui::render::glyph_atlas::{bucket_cap, bucket_for_height, PagePool, GLYPH_PAGE_SIZE};
use ui::render::allocator::AllocatorKind;
use ui::render::texture::Atlas;
use ui::text::layout::{Motion, TextCursor};
use ui::text::style::{Family, FontStyle, Weight, Wrap, WEIGHT_NORMAL};
use ui::theme::{Style, GAP, RING_WIDTH};
use ui::tree::{child_clip, child_seed, clamped_min_height, color_for_depth, mix64, ROOT_SEED};

use std::collections::HashMap;

#[test]
fn style_falls_back_to_base() {
    let base = Color::rgba(1, 2, 3, 4);
    let red = Color::rgba(255, 0, 0, 255);
    let s = Style { fill: Some(red), border: None, foreground: None };
    assert_eq!(s.fill_or(base), red);
    assert_eq!(s.border_or(base), base);
    assert_eq!(s.foreground_or(base), base);
    let d = Style::default();
    assert_eq!(d.fill_or(base), base);
    assert_eq!((GAP, RING_WIDTH), (2, 2));
}

#[test]
fn text_values() {
    let c = TextCursor::new(3, 7);
    assert_eq!((c.line, c.index), (3, 7));
    assert_eq!(TextCursor::default(), TextCursor::new(0, 0));
    assert_ne!(Motion::Left, Motion::Right);
    assert_eq!(Weight::default(), Weight(WEIGHT_NORMAL));
    assert_eq!(FontStyle::default(), FontStyle::Normal);
    assert_eq!(Wrap::Unwrapped.label(), "No Wrap");
    assert_eq!(Wrap::Glyph.label(), "Character");
    assert_eq!(Wrap::Word.label(), "Word Wrap");
    assert_eq!(Wrap::WordOrGlyph.label(), "Word Wrap or Character");
    assert_eq!(Family::Name("Inter".to_string()), Family::Name("Inter".to_string()));
}

#[test]
fn node_ids_are_deterministic_and_distinct() {
    let a = mix64(ROOT_SEED, 1);
    assert_eq!(a, mix64(ROOT_SEED, 1));
    assert_ne!(a, mix64(ROOT_SEED, 2));
    assert_ne!(a, mix64(a, 1));
    // Unkeyed children are numbered from 1; keyed ones use their key.
    assert_eq!(child_seed(ROOT_SEED, None, 0), mix64(ROOT_SEED, 1));
    assert_eq!(child_seed(ROOT_SEED, Some(42), 0), mix64(ROOT_SEED, 42));
}

#[test]
fn mix64_reference_value() {
    // splitmix64 finaliser of (0 ^ golden) ^ (0 * golden) = golden.
    let golden: u64 = 0x9E37_79B9_7F4A_7C15;
    let mut z = golden;
    z = (z ^ (z >> 30)).wrapping_mul(0xBF58_476D_1CE4_E5B9);
    z = (z ^ (z >> 27)).wrapping_mul(0x94D0_49BB_1331_11EB);
    assert_eq!(mix64(0, 0), z ^ (z >> 31));
}

#[test]
fn clip_rects_intersect() {
    assert_eq!(child_clip(None, false, [1, 2, 3, 4]), None);
    assert_eq!(child_clip(Some([0, 0, 5, 5]), false, [1, 2, 3, 4]), Some([0, 0, 5, 5]));
    assert_eq!(child_clip(None, true, [1, 2, 3, 4]), Some([1, 2, 3, 4]));
    assert_eq!(child_clip(Some([0, 0, 10, 10]), true, [5, 6, 10, 10]), Some([5, 6, 5, 4]));
    // Disjoint rects clip to nothing.
    assert_eq!(child_clip(Some([0, 0, 10, 10]), true, [20, 20, 5, 5]), Some([20, 20, 0, 0]));
}

#[test]
fn min_height_clamps() {
    assert_eq!(clamped_min_height(5, 10, 20), 10);
    assert_eq!(clamped_min_height(15, 10, 20), 15);
    assert_eq!(clamped_min_height(25, 10, 20), 20);
}

#[test]
fn depth_palette_cycles() {
    assert_eq!(color_for_depth(0), Color::rgba(255, 66, 66, 220));
    assert_eq!(color_for_depth(7), Color::rgba(191, 90, 242, 220));
    assert_eq!(color_for_depth(8), color_for_depth(0));
    assert_eq!(color_for_depth(13), Color::rgba(10, 132, 255, 220));
}

#[test]
fn glyph_buckets() {
    assert_eq!(bucket_for_height(0), 0);
    assert_eq!(bucket_for_height(16), 0);
    assert_eq!(bucket_for_height(17), 1);
    assert_eq!(bucket_for_height(32), 1);
    assert_eq!(bucket_for_height(33), 2);
    assert_eq!((bucket_cap(0), bucket_cap(1), bucket_cap(2)), (2, 1, 1));
}

fn page(id: usize) -> Atlas {
    Atlas::new(id, 0, Size::new(GLYPH_PAGE_SIZE, GLYPH_PAGE_SIZE), AllocatorKind::Shelf)
}

#[test]
fn page_pool_order_and_lru() {
    let mut pool = PagePool::new(2);
    assert!(!pool.is_full());
    assert!(pool.visit_order().is_empty());
    pool.add_page(10, page(0));
    pool.add_page(11, page(1));
    assert!(pool.is_full());
    // The newest page is current and tried first.
    assert_eq!(pool.visit_order(), vec![1, 0]);
    pool.set_current(10);
    assert_eq!(pool.visit_order(), vec![0, 1]);

    let mut last_used = HashMap::new();
    last_used.insert(10usize, 5u64);
    last_used.insert(11usize, 3u64);
    assert_eq!(pool.coldest(&last_used), Some(11));
    last_used.insert(11usize, 5u64);
    // Ties go to the first page.
    assert_eq!(pool.coldest(&last_used), Some(10));
    last_used.remove(&11);
    // Never used counts as 0.
    assert_eq!(pool.coldest(&last_used), Some(11));

    let removed = pool.remove_page(10).unwrap();
    assert_eq!(removed.id, 10);
    assert_eq!(pool.len(), 1);
    // The current page went away, so the newest remaining one is current.
    assert_eq!(pool.visit_order(), vec![0]);
    assert_eq!(pool.page_id(0), 11);
    assert!(pool.remove_page(99).is_none());
    let r = pool.atlas_mut(0).allocate(8, 8).unwrap();
    assert_eq!((r.x, r.y), (0, 0));
}

#[test]
fn sibling_and_cousin_ids_differ() {
    let ids: Vec<u64> = (0..64usize).map(|i| mix64(ROOT_SEED, i)).collect();
    for i in 0..ids.len() {
        for j in 0..i {
            assert_ne!(ids[i], ids[j]);
        }
    }
    assert_ne!(mix64(ROOT_SEED, 3), mix64(ROOT_SEED ^ 1, 3));
}
