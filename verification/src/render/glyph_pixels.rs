//! Conversion of rasterised glyph images to the RGBA bytes the glyph atlas
//! stores.

use vstd::prelude::*;

verus! {

/// What the bytes of a rasterised glyph hold.
#[derive(Clone, Copy, Debug, PartialEq, Eq, Structural)]
pub enum GlyphContent {
    /// One coverage byte per pixel.
    Mask,
    /// Three coverage bytes (red, green, blue) per pixel.
    SubpixelMask,
    /// Four bytes of straight sRGB colour with alpha per pixel.
    Color,
}

pub open spec fn max3(r: u8, g: u8, b: u8) -> u8 {
    let rg = if r >= g { r } else { g };
    if rg >= b { rg } else { b }
}

/// Bytes of RGBA output for `n` input bytes: one pixel per complete input
/// pixel, a trailing partial pixel is dropped.
pub open spec fn rgba_len(content: GlyphContent, n: int) -> int {
    match content {
        GlyphContent::Mask => 4 * n,
        GlyphContent::SubpixelMask => 4 * (n / 3),
        GlyphContent::Color => 4 * (n / 4),
    }
}

/// Byte `c` (0 red, 1 green, 2 blue, 3 alpha) of premultiplied output pixel
/// `p`: a mask gives its coverage in all four channels, a subpixel mask
/// keeps its channels with the strongest as alpha, colour is multiplied by
/// its alpha.
pub open spec fn premul_byte(content: GlyphContent, d: Seq<u8>, p: int, c: int) -> u8 {
    match content {
        GlyphContent::Mask => d[p],
        GlyphContent::SubpixelMask => if c < 3 {
            d[3 * p + c]
        } else {
            max3(d[3 * p], d[3 * p + 1], d[3 * p + 2])
        },
        GlyphContent::Color => if c < 3 {
            (d[4 * p + c] * d[4 * p + 3] / 255) as u8
        } else {
            d[4 * p + 3]
        },
    }
}

/// Subpixel coverage `v` relative to the strongest channel `a` (rounded,
/// at most 255).
pub open spec fn relative_coverage(v: u8, a: u8) -> int {
    let q = (v * 255 + a / 2) / (a as int);
    if q > 255 { 255 } else { q }
}

/// Byte `c` of straight (unmultiplied) output pixel `p`. A mask is white at
/// its coverage; a subpixel mask carries per-channel coverage relative to
/// the strongest channel, sRGB-encoded through `srgb`, with the strongest as
/// alpha (all zero when no channel is covered); colour passes through.
pub open spec fn straight_byte(content: GlyphContent, d: Seq<u8>, srgb: Seq<u8>, p: int, c: int) -> u8 {
    match content {
        GlyphContent::Mask => if c < 3 {
            255
        } else {
            d[p]
        },
        GlyphContent::SubpixelMask => {
            let a = max3(d[3 * p], d[3 * p + 1], d[3 * p + 2]);
            if a == 0 {
                0
            } else if c < 3 {
                srgb[relative_coverage(d[3 * p + c], a)]
            } else {
                a
            }
        },
        GlyphContent::Color => d[4 * p + c],
    }
}

/// Output pixel `p` of `content` made from input `d` is premultiplied: no
/// colour byte exceeds the alpha. A mask pixel is its coverage in every
/// channel; a subpixel pixel keeps its three coverages and takes the
/// strongest of them as alpha; a colour pixel keeps its alpha and scales
/// each colour byte by it, rounding down.
pub proof fn lemma_premultiplied(content: GlyphContent, d: Seq<u8>, p: int)
    requires
        0 <= p,
        match content {
            GlyphContent::Mask => p < d.len(),
            GlyphContent::SubpixelMask => 3 * p + 2 < d.len(),
            GlyphContent::Color => 4 * p + 3 < d.len(),
        },
    ensures
        forall|c: int| 0 <= c < 3 ==> #[trigger] premul_byte(content, d, p, c) <= premul_byte(content, d, p, 3),
        content == GlyphContent::Mask ==> forall|c: int| 0 <= c < 4 ==> #[trigger] premul_byte(content, d, p, c) == d[p],
        content == GlyphContent::SubpixelMask ==> {
            &&& forall|c: int| 0 <= c < 3 ==> #[trigger] premul_byte(content, d, p, c) == d[3 * p + c]
            &&& premul_byte(content, d, p, 3) == d[3 * p] || premul_byte(content, d, p, 3) == d[3 * p + 1]
                || premul_byte(content, d, p, 3) == d[3 * p + 2]
        },
        content == GlyphContent::Color ==> {
            &&& premul_byte(content, d, p, 3) == d[4 * p + 3]
            &&& forall|c: int| 0 <= c < 3 ==> {
                &&& #[trigger] premul_byte(content, d, p, c) * 255 <= d[4 * p + c] * d[4 * p + 3]
                &&& d[4 * p + c] * d[4 * p + 3] < (premul_byte(content, d, p, c) + 1) * 255
            }
        },
{
    if content == GlyphContent::Color {
        let a = d[4 * p + 3];
        assert forall|c: int| 0 <= c < 3 implies {
            &&& #[trigger] premul_byte(content, d, p, c) <= premul_byte(content, d, p, 3)
            &&& premul_byte(content, d, p, c) * 255 <= d[4 * p + c] * d[4 * p + 3]
            &&& d[4 * p + c] * d[4 * p + 3] < (premul_byte(content, d, p, c) + 1) * 255
        } by {
            let x = d[4 * p + c];
            let q = x * a / 255;
            assert(0 <= q <= a && q * 255 <= x * a < (q + 1) * 255) by (nonlinear_arith)
                requires
                    0 <= x <= 255,
                    0 <= a <= 255,
                    q == x * a / 255;
            assert(premul_byte(content, d, p, c) == q);
        }
    }
}

proof fn lemma_pixel_index(p: int, c: int)
    requires
        0 <= p,
        0 <= c < 4,
    ensures
        (4 * p + c) / 4 == p,
        (4 * p + c) % 4 == c,
{
    assert((4 * p + c) / 4 == p && (4 * p + c) % 4 == c) by (nonlinear_arith)
        requires
            0 <= p,
            0 <= c < 4,
    ;
}

proof fn lemma_pixel_count(n: int, w: int, p: int)
    requires
        0 <= n,
        w == 3 || w == 4,
        0 <= p < n / w,
    ensures
        w * p + w <= n,
{
    assert(w * p + w <= n) by (nonlinear_arith)
        requires
            0 <= n,
            w == 3 || w == 4,
            0 <= p < n / w,
    ;
}

fn max_u8(a: u8, b: u8) -> (r: u8)
    ensures
        r == (if a >= b { a } else { b }),
{
    if a >= b {
        a
    } else {
        b
    }
}

/// `v` multiplied by the alpha `a` (out of 255), rounded down.
fn scale_by_alpha(v: u8, a: u8) -> (r: u8)
    ensures
        r == (v * a / 255) as u8,
{
    assert(0 <= (v as u32) * (a as u32) <= 255 * 255) by (nonlinear_arith);
    ((v as u32) * (a as u32) / 255) as u8
}

fn push_pixel(out: &mut Vec<u8>, r: u8, g: u8, b: u8, a: u8)
    ensures
        final(out)@ == old(out)@ + seq![r, g, b, a],
{
    out.push(r);
    out.push(g);
    out.push(b);
    out.push(a);
}

/// Premultiplied RGBA bytes of a rasterised glyph.
pub fn premul_rgba(content: GlyphContent, data: &Vec<u8>) -> (r: Vec<u8>)
    requires
        4 * data@.len() <= usize::MAX,
    ensures
        r@.len() == rgba_len(content, data@.len() as int),
        forall|k: int| 0 <= k < r@.len() ==> #[trigger] r@[k] == premul_byte(content, data@, k / 4, k % 4),
{
    let n = data.len();
    let w: usize = match content {
        GlyphContent::Mask => 1,
        GlyphContent::SubpixelMask => 3,
        GlyphContent::Color => 4,
    };
    let pixels = n / w;
    let mut out: Vec<u8> = Vec::new();
    let mut p: usize = 0;
    while p < pixels
        invariant
            n == data@.len(),
            4 * n <= usize::MAX,
            w == (match content {
                GlyphContent::Mask => 1usize,
                GlyphContent::SubpixelMask => 3usize,
                GlyphContent::Color => 4usize,
            }),
            pixels == n / w,
            p <= pixels,
            out@.len() == 4 * p,
            forall|k: int| 0 <= k < out@.len() ==> #[trigger] out@[k] == premul_byte(content, data@, k / 4, k % 4),
        decreases pixels - p,
    {
        if w > 1 {
            proof {
                lemma_pixel_count(n as int, w as int, p as int);
            }
        }
        let ghost before = out@;
        match content {
            GlyphContent::Mask => {
                let a = data[p];
                push_pixel(&mut out, a, a, a, a);
            },
            GlyphContent::SubpixelMask => {
                let r = data[3 * p];
                let g = data[3 * p + 1];
                let b = data[3 * p + 2];
                let a = max_u8(max_u8(r, g), b);
                push_pixel(&mut out, r, g, b, a);
            },
            GlyphContent::Color => {
                let a = data[4 * p + 3];
                let r = scale_by_alpha(data[4 * p], a);
                let g = scale_by_alpha(data[4 * p + 1], a);
                let b = scale_by_alpha(data[4 * p + 2], a);
                push_pixel(&mut out, r, g, b, a);
            },
        }
        proof {
            assert forall|k: int| 0 <= k < out@.len() implies #[trigger] out@[k] == premul_byte(content, data@, k / 4, k % 4) by {
                if k >= before.len() {
                    lemma_pixel_index(p as int, k - 4 * p);
                } else {
                    assert(out@[k] == before[k]);
                }
            }
        }
        p = p + 1;
    }
    proof {
        assert((n / w) * 4 == rgba_len(content, n as int)) by (nonlinear_arith)
            requires
                w == (match content {
                    GlyphContent::Mask => 1usize,
                    GlyphContent::SubpixelMask => 3usize,
                    GlyphContent::Color => 4usize,
                }),
        ;
    }
    out
}

/// Coverage `v` relative to the strongest channel `a`, rounded, at most 255.
fn relative(v: u8, a: u8) -> (r: usize)
    requires
        a > 0,
    ensures
        r == relative_coverage(v, a),
        r <= 255,
{
    assert(0 <= (v as u32) * 255 + (a as u32) / 2 <= 255 * 255 + 128) by (nonlinear_arith);
    let q = ((v as u32) * 255 + (a as u32) / 2) / (a as u32);
    if q > 255 {
        255
    } else {
        q as usize
    }
}

/// Straight (unmultiplied) RGBA bytes of a rasterised glyph. `srgb` maps a
/// linear coverage byte to its sRGB encoding; it is applied to subpixel
/// coverage, which lives in the colour channels.
pub fn straight_rgba(content: GlyphContent, data: &Vec<u8>, srgb: &Vec<u8>) -> (r: Vec<u8>)
    requires
        4 * data@.len() <= usize::MAX,
        srgb@.len() == 256,
    ensures
        r@.len() == (if content == GlyphContent::Color { data@.len() as int } else { rgba_len(content, data@.len() as int) }),
        forall|k: int| 0 <= k < r@.len() ==> #[trigger] r@[k] == straight_byte(content, data@, srgb@, k / 4, k % 4),
{
    if content == GlyphContent::Color {
        let copy = data.clone();
        proof {
            assert forall|k: int| 0 <= k < copy@.len() implies #[trigger] copy@[k] == straight_byte(content, data@, srgb@, k / 4, k % 4) by {
                lemma_pixel_index(k / 4, k % 4);
            }
        }
        return copy;
    }
    let n = data.len();
    let w: usize = match content {
        GlyphContent::Mask => 1,
        GlyphContent::SubpixelMask => 3,
        GlyphContent::Color => 4,
    };
    let pixels = n / w;
    let mut out: Vec<u8> = Vec::new();
    let mut p: usize = 0;
    while p < pixels
        invariant
            n == data@.len(),
            4 * n <= usize::MAX,
            srgb@.len() == 256,
            content != GlyphContent::Color,
            w == (match content {
                GlyphContent::Mask => 1usize,
                GlyphContent::SubpixelMask => 3usize,
                GlyphContent::Color => 4usize,
            }),
            pixels == n / w,
            p <= pixels,
            out@.len() == 4 * p,
            forall|k: int| 0 <= k < out@.len() ==> #[trigger] out@[k] == straight_byte(content, data@, srgb@, k / 4, k % 4),
        decreases pixels - p,
    {
        if w > 1 {
            proof {
                lemma_pixel_count(n as int, w as int, p as int);
            }
        }
        let ghost before = out@;
        match content {
            GlyphContent::Mask => {
                push_pixel(&mut out, 255, 255, 255, data[p]);
            },
            GlyphContent::SubpixelMask => {
                let r = data[3 * p];
                let g = data[3 * p + 1];
                let b = data[3 * p + 2];
                let a = max_u8(max_u8(r, g), b);
                if a == 0 {
                    push_pixel(&mut out, 0, 0, 0, 0);
                } else {
                    let nr = srgb[relative(r, a)];
                    let ng = srgb[relative(g, a)];
                    let nb = srgb[relative(b, a)];
                    push_pixel(&mut out, nr, ng, nb, a);
                }
            },
            GlyphContent::Color => {
                push_pixel(&mut out, data[4 * p], data[4 * p + 1], data[4 * p + 2], data[4 * p + 3]);
            },
        }
        proof {
            assert forall|k: int| 0 <= k < out@.len() implies #[trigger] out@[k] == straight_byte(content, data@, srgb@, k / 4, k % 4) by {
                if k >= before.len() {
                    lemma_pixel_index(p as int, k - 4 * p);
                } else {
                    assert(out@[k] == before[k]);
                }
            }
        }
        p = p + 1;
    }
    proof {
        assert((n / w) * 4 == rgba_len(content, n as int)) by (nonlinear_arith)
            requires
                w == (match content {
                    GlyphContent::Mask => 1usize,
                    GlyphContent::SubpixelMask => 3usize,
                    GlyphContent::Color => 4usize,
                }),
        ;
    }
    out
}

} // verus!
