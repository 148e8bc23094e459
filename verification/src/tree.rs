//! The pure parts of the widget-tree walks: node ids, clip rectangles,
//! height clamping and the debug outline palette.

use vstd::prelude::*;
use vstd::wrapping::u64_specs::wrapping_mul;
use vstd::arithmetic::div_mod::{lemma_mul_mod_noop_left, lemma_mul_mod_noop_right};
use vstd::arithmetic::mul::lemma_mul_is_associative;

use crate::model::Color;

verus! {

/// Id of the root node; every other id is mixed down from it.
pub const ROOT_SEED: u64 = 0xCBF2_9CE4_8422_2325;

/// The splitmix64 finaliser applied to `parent` and a child index.
pub open spec fn mix64_spec(parent: u64, idx: u64) -> u64 {
    let z0 = (parent ^ 0x9E37_79B9_7F4A_7C15u64) ^ wrapping_mul(idx, 0x9E37_79B9_7F4A_7C15u64);
    let z1 = wrapping_mul(z0 ^ (z0 >> 30u64), 0xBF58_476D_1CE4_E5B9u64);
    let z2 = wrapping_mul(z1 ^ (z1 >> 27u64), 0x94D0_49BB_1331_11EBu64);
    z2 ^ (z2 >> 31u64)
}

/// Id of child `idx` of the node with id `parent`.
pub fn mix64(parent: u64, idx: usize) -> (r: u64)
    ensures
        r == mix64_spec(parent, idx as u64),
{
    let mut z = (parent ^ 0x9E37_79B9_7F4A_7C15u64) ^ (idx as u64).wrapping_mul(0x9E37_79B9_7F4A_7C15u64);
    z = (z ^ (z >> 30)).wrapping_mul(0xBF58_476D_1CE4_E5B9u64);
    z = (z ^ (z >> 27)).wrapping_mul(0x94D0_49BB_1331_11EBu64);
    z ^ (z >> 31)
}

/// Multiplying by `c` modulo 2^64 is undone by multiplying by `inv` when
/// `c * inv` is 1 modulo 2^64.
proof fn lemma_mul_undone(x: u64, c: u64, inv: u64)
    requires
        (c as int * inv as int) % 0x1_0000_0000_0000_0000int == 1,
    ensures
        wrapping_mul(wrapping_mul(x, c), inv) == x,
{
    let m = 0x1_0000_0000_0000_0000int;
    let (xi, ci, ii) = (x as int, c as int, inv as int);
    lemma_mul_mod_noop_left(xi * ci, ii, m);
    lemma_mul_is_associative(xi, ci, ii);
    lemma_mul_mod_noop_right(xi, ci * ii, m);
    assert(wrapping_mul(x, c) as int == (xi * ci) % m);
    assert(xi * 1 == xi);
}

/// The three stages of the finaliser each lose nothing, so two ids agree
/// only when the mixed inputs agree.
proof fn lemma_mix64_inputs_agree(z: u64, y: u64)
    requires
        ({
            let z1 = wrapping_mul(z ^ (z >> 30u64), 0xBF58_476D_1CE4_E5B9u64);
            let z2 = wrapping_mul(z1 ^ (z1 >> 27u64), 0x94D0_49BB_1331_11EBu64);
            let y1 = wrapping_mul(y ^ (y >> 30u64), 0xBF58_476D_1CE4_E5B9u64);
            let y2 = wrapping_mul(y1 ^ (y1 >> 27u64), 0x94D0_49BB_1331_11EBu64);
            z2 ^ (z2 >> 31u64) == y2 ^ (y2 >> 31u64)
        }),
    ensures
        z == y,
{
    let z0 = z ^ (z >> 30u64);
    let y0 = y ^ (y >> 30u64);
    let z1 = wrapping_mul(z0, 0xBF58_476D_1CE4_E5B9u64);
    let y1 = wrapping_mul(y0, 0xBF58_476D_1CE4_E5B9u64);
    let z1s = z1 ^ (z1 >> 27u64);
    let y1s = y1 ^ (y1 >> 27u64);
    let z2 = wrapping_mul(z1s, 0x94D0_49BB_1331_11EBu64);
    let y2 = wrapping_mul(y1s, 0x94D0_49BB_1331_11EBu64);
    assert(z2 ^ (z2 >> 31u64) == y2 ^ (y2 >> 31u64) ==> z2 == y2) by (bit_vector);
    lemma_mul_undone(z1s, 0x94D0_49BB_1331_11EBu64, 0x3196_42B2_D24D_8EC3u64);
    lemma_mul_undone(y1s, 0x94D0_49BB_1331_11EBu64, 0x3196_42B2_D24D_8EC3u64);
    assert(z1 ^ (z1 >> 27u64) == y1 ^ (y1 >> 27u64) ==> z1 == y1) by (bit_vector);
    lemma_mul_undone(z0, 0xBF58_476D_1CE4_E5B9u64, 0x96DE_1B17_3F11_9089u64);
    lemma_mul_undone(y0, 0xBF58_476D_1CE4_E5B9u64, 0x96DE_1B17_3F11_9089u64);
    assert(z ^ (z >> 30u64) == y ^ (y >> 30u64) ==> z == y) by (bit_vector);
}

/// Under one parent, children with different indices get different ids;
/// the same index under different parents gives different ids.
pub proof fn lemma_mix64_injective(p: u64, q: u64, i: u64, j: u64)
    ensures
        mix64_spec(p, i) == mix64_spec(p, j) ==> i == j,
        mix64_spec(p, i) == mix64_spec(q, i) ==> p == q,
{
    let k = 0x9E37_79B9_7F4A_7C15u64;
    let a = (p ^ k) ^ wrapping_mul(i, k);
    if mix64_spec(p, i) == mix64_spec(p, j) {
        let b = (p ^ k) ^ wrapping_mul(j, k);
        lemma_mix64_inputs_agree(a, b);
        let (mi, mj, pk) = (wrapping_mul(i, k), wrapping_mul(j, k), p ^ k);
        assert(pk ^ mi == pk ^ mj ==> mi == mj) by (bit_vector);
        lemma_mul_undone(i, k, 0xF1DE_83E1_9937_733Du64);
        lemma_mul_undone(j, k, 0xF1DE_83E1_9937_733Du64);
    }
    if mix64_spec(p, i) == mix64_spec(q, i) {
        let b = (q ^ k) ^ wrapping_mul(i, k);
        lemma_mix64_inputs_agree(a, b);
        let mi = wrapping_mul(i, k);
        assert((p ^ k) ^ mi == (q ^ k) ^ mi ==> p == q) by (bit_vector);
    }
}

/// Id of the `y`th child of the node with id `seed`: mixed from its key
/// when it has one, from its 1-based position otherwise.
pub fn child_seed(seed: u64, key: Option<u64>, y: usize) -> (r: u64)
    requires
        y < usize::MAX,
    ensures
        r == (match key {
            Some(k) => mix64_spec(seed, k as usize as u64),
            None => mix64_spec(seed, (y + 1) as u64),
        }),
{
    match key {
        Some(k) => mix64(seed, k as usize),
        None => mix64(seed, y + 1),
    }
}

/// `[x, y, w, h]` of the overlap of two rects, empty rects clamped to zero
/// size.
pub open spec fn intersect_spec(p: [i32; 4], r: [i32; 4]) -> [i32; 4] {
    let x0 = if p[0] >= r[0] { p[0] } else { r[0] };
    let y0 = if p[1] >= r[1] { p[1] } else { r[1] };
    let x1 = if p[0] + p[2] <= r[0] + r[2] { p[0] + p[2] } else { r[0] + r[2] };
    let y1 = if p[1] + p[3] <= r[1] + r[3] { p[1] + p[3] } else { r[1] + r[3] };
    [
        x0,
        y0,
        if x1 - x0 >= 0 { (x1 - x0) as i32 } else { 0 },
        if y1 - y0 >= 0 { (y1 - y0) as i32 } else { 0 },
    ]
}

/// The rect's far edges fit in `i32`.
pub open spec fn edges_fit(r: [i32; 4]) -> bool {
    i32::MIN <= r[0] + r[2] <= i32::MAX && i32::MIN <= r[1] + r[3] <= i32::MAX
}

/// Point `(x, y)` lies in the rect `[x, y, w, h]`.
pub open spec fn holds_point(r: [i32; 4], x: int, y: int) -> bool {
    r[0] <= x < r[0] + r[2] && r[1] <= y < r[1] + r[3]
}

/// The sides of the overlap of `p` and `r` fit in `i32`.
pub open spec fn overlap_fits(p: [i32; 4], r: [i32; 4]) -> bool {
    let x0 = if p[0] >= r[0] { p[0] } else { r[0] };
    let y0 = if p[1] >= r[1] { p[1] } else { r[1] };
    let x1 = if p[0] + p[2] <= r[0] + r[2] { p[0] + p[2] } else { r[0] + r[2] };
    let y1 = if p[1] + p[3] <= r[1] + r[3] { p[1] + p[3] } else { r[1] + r[3] };
    i32::MIN <= x1 - x0 <= i32::MAX && i32::MIN <= y1 - y0 <= i32::MAX
}

/// The clip of a clipping node inside a clip is their overlap: a point lies
/// in it exactly when it lies in both, and it has no negative side.
pub proof fn lemma_clip_is_intersection(p: [i32; 4], r: [i32; 4], x: int, y: int)
    requires
        edges_fit(p),
        edges_fit(r),
        overlap_fits(p, r),
    ensures
        holds_point(intersect_spec(p, r), x, y) <==> (holds_point(p, x, y) && holds_point(r, x, y)),
        intersect_spec(p, r)[2] >= 0,
        intersect_spec(p, r)[3] >= 0,
{
}

/// The clip rect in force for a node's children: the parent's clip, or,
/// when the node clips its children, its own rect cut down to the parent's.
pub fn child_clip(parent_clip: Option<[i32; 4]>, clip_children: bool, rect: [i32; 4]) -> (r: Option<[i32; 4]>)
    requires
        clip_children ==> edges_fit(rect),
        clip_children ==> (parent_clip matches Some(p) ==> edges_fit(p)),
        clip_children ==> (parent_clip matches Some(p) ==> {
            let x0 = if p[0] >= rect[0] { p[0] } else { rect[0] };
            let y0 = if p[1] >= rect[1] { p[1] } else { rect[1] };
            let x1 = if p[0] + p[2] <= rect[0] + rect[2] { p[0] + p[2] } else { rect[0] + rect[2] };
            let y1 = if p[1] + p[3] <= rect[1] + rect[3] { p[1] + p[3] } else { rect[1] + rect[3] };
            i32::MIN <= x1 - x0 <= i32::MAX && i32::MIN <= y1 - y0 <= i32::MAX
        }),
    ensures
        !clip_children ==> r == parent_clip,
        clip_children ==> r == Some(match parent_clip {
            Some(p) => intersect_spec(p, rect),
            None => rect,
        }),
        clip_children ==> (parent_clip matches Some(p) ==> forall|x: int, y: int|
            #[trigger] holds_point(r->Some_0, x, y) <==> (holds_point(p, x, y) && holds_point(rect, x, y))),
{
    proof {
        if clip_children {
            if let Some(p) = parent_clip {
                assert forall|x: int, y: int|
                    #[trigger] holds_point(intersect_spec(p, rect), x, y) <==> (holds_point(p, x, y) && holds_point(rect, x, y)) by {
                    lemma_clip_is_intersection(p, rect, x, y);
                }
            }
        }
    }
    let mut clip = parent_clip;
    if clip_children {
        let mut r = rect;
        if let Some(p) = clip {
            let px = p[0];
            let py = p[1];
            let pw = p[2];
            let ph = p[3];
            let x0 = if px >= r[0] { px } else { r[0] };
            let y0 = if py >= r[1] { py } else { r[1] };
            let x1 = if px + pw <= r[0] + r[2] { px + pw } else { r[0] + r[2] };
            let y1 = if py + ph <= r[1] + r[3] { py + ph } else { r[1] + r[3] };
            let w = if x1 - x0 >= 0 { x1 - x0 } else { 0 };
            let h = if y1 - y0 >= 0 { y1 - y0 } else { 0 };
            r = [x0, y0, w, h];
        }
        clip = Some(r);
    }
    clip
}

/// A leaf's minimum height after asking it for its height at the assigned
/// width: the answer raised to the old minimum, then capped at the maximum.
pub fn clamped_min_height(h: i32, min: i32, max: i32) -> (r: i32)
    ensures
        r == (if h >= min { if h <= max { h } else { max } } else { if min <= max { min } else { max } }),
{
    let raised = if h >= min { h } else { min };
    if raised <= max { raised } else { max }
}

/// Outline colour of the debug overlay at each nesting depth.
pub open spec fn depth_palette(i: int) -> Color {
    if i == 0 {
        Color { r: 255, g: 66, b: 66, a: 220 }
    } else if i == 1 {
        Color { r: 255, g: 159, b: 28, a: 220 }
    } else if i == 2 {
        Color { r: 255, g: 214, b: 10, a: 220 }
    } else if i == 3 {
        Color { r: 52, g: 199, b: 89, a: 220 }
    } else if i == 4 {
        Color { r: 48, g: 176, b: 199, a: 220 }
    } else if i == 5 {
        Color { r: 10, g: 132, b: 255, a: 220 }
    } else if i == 6 {
        Color { r: 94, g: 92, b: 230, a: 220 }
    } else {
        Color { r: 191, g: 90, b: 242, a: 220 }
    }
}

/// Outline colour for a node at `depth`: red, orange, yellow, green, teal,
/// blue, indigo, purple, repeating.
pub fn color_for_depth(depth: usize) -> (r: Color)
    ensures
        r == depth_palette(depth as int % 8),
{
    match depth % 8 {
        0 => Color::rgba(255, 66, 66, 220),
        1 => Color::rgba(255, 159, 28, 220),
        2 => Color::rgba(255, 214, 10, 220),
        3 => Color::rgba(52, 199, 89, 220),
        4 => Color::rgba(48, 176, 199, 220),
        5 => Color::rgba(10, 132, 255, 220),
        6 => Color::rgba(94, 92, 230, 220),
        _ => Color::rgba(191, 90, 242, 220),
    }
}

} // verus!
