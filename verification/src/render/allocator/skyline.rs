//! Skyline ("lowest horizontal line first") rectangle packing.

use vstd::prelude::*;

use super::AtlasRect;

verus! {

/// A skyline segment: the horizontal span `[x, next_segment.x)` sits at
/// height `y`. The last segment always extends to the atlas width.
#[derive(Clone, Copy, Debug)]
pub struct Segment {
    pub x: u32,
    pub y: u32,
}

/// Where segment `i` of `s` ends when the last one ends at `bound`.
pub open spec fn segment_end(s: Seq<Segment>, bound: int, i: int) -> int {
    if i + 1 < s.len() {
        s[i + 1].x as int
    } else {
        bound
    }
}

/// Segment `i` of `s` (the last one ending at `bound`) spans column `p`.
pub open spec fn covers(s: Seq<Segment>, bound: int, i: int, p: int) -> bool {
    &&& 0 <= i < s.len()
    &&& s[i].x <= p
    &&& p < segment_end(s, bound, i)
}

/// Segment starts strictly increase.
pub open spec fn sorted(s: Seq<Segment>) -> bool {
    forall|i: int, j: int| 0 <= i < j < s.len() ==> #[trigger] s[i].x < #[trigger] s[j].x
}

/// Neighbouring segments of `s` sit at different heights.
pub open spec fn no_equal_neighbours(s: Seq<Segment>) -> bool {
    forall|i: int, j: int| 0 <= i && j == i + 1 && j < s.len() ==> #[trigger] s[i].y != #[trigger] s[j].y
}

/// `s` is a skyline over `[0, width)` no higher than `height`, with one
/// segment per step.
pub open spec fn skyline_wf(s: Seq<Segment>, width: int, height: int) -> bool {
    &&& s.len() >= 1
    &&& s[0].x == 0
    &&& sorted(s)
    &&& forall|i: int| 0 < i < s.len() ==> #[trigger] s[i].x < width
    &&& forall|i: int| 0 <= i < s.len() ==> #[trigger] s[i].y <= height
    &&& no_equal_neighbours(s)
}

/// Segment `i` of `s` meets the span `[x, end)`.
pub open spec fn overlaps(s: Seq<Segment>, width: int, i: int, x: int, end: int) -> bool {
    s[i].x < end && segment_end(s, width, i) > x
}

/// Highest of the first `k` segments of `s` that meet `[x, end)`, or 0.
pub open spec fn max_height_upto(s: Seq<Segment>, width: int, x: int, end: int, k: int) -> int
    decreases k,
{
    if k <= 0 {
        0
    } else {
        let m = max_height_upto(s, width, x, end, k - 1);
        if overlaps(s, width, k - 1, x, end) && s[k - 1].y > m {
            s[k - 1].y as int
        } else {
            m
        }
    }
}

/// Highest point of the skyline `s` over the span `[x, x + w)`.
pub open spec fn max_height(s: Seq<Segment>, width: int, x: int, w: int) -> int {
    max_height_upto(s, width, x, x + w, s.len() as int)
}

/// Best position among the first `k` segment starts for a `w x h` rect:
/// the first start with the lowest baseline at which the rect still fits,
/// paired with that baseline.
pub open spec fn best_fit(s: Seq<Segment>, width: int, height: int, w: int, h: int, k: int) -> Option<(u32, u32)>
    decreases k,
{
    if k <= 0 {
        None
    } else {
        let prev = best_fit(s, width, height, w, h, k - 1);
        let x = s[k - 1].x;
        if x + w <= width {
            let b = max_height(s, width, x as int, w);
            let better = match prev {
                None => true,
                Some(p) => b < p.1,
            };
            if b + h <= height && better {
                Some((x, b as u32))
            } else {
                prev
            }
        } else {
            prev
        }
    }
}

/// Index of the first of the first `k` freed rects that can hold `w x h`.
pub open spec fn first_fit(freed: Seq<AtlasRect>, w: int, h: int, k: int) -> Option<int>
    decreases k,
{
    if k <= 0 {
        None
    } else {
        match first_fit(freed, w, h, k - 1) {
            Some(i) => Some(i),
            None => if freed[k - 1].w >= w && freed[k - 1].h >= h {
                Some(k - 1)
            } else {
                None
            },
        }
    }
}

/// Height of the raised skyline at column `p`, given that segment `k` of
/// the old skyline spans `p`.
pub open spec fn raised_height(old: Seq<Segment>, x: int, end: int, new_h: int, p: int, k: int) -> int {
    if x <= p < end {
        new_h
    } else {
        old[k].y as int
    }
}

/// Over `[0, bound)`, `r` (its last segment ending at `bound`) is the
/// skyline `old` with the span `[x, end)` raised to `new_h`.
pub open spec fn describes(
    r: Seq<Segment>,
    bound: int,
    old: Seq<Segment>,
    width: int,
    x: int,
    end: int,
    new_h: int,
) -> bool {
    forall|p: int, j: int, k: int|
        0 <= p < bound && #[trigger] covers(r, bound, j, p) && #[trigger] covers(old, width, k, p)
            ==> r[j].y == raised_height(old, x, end, new_h, p, k)
}

/// The abstract state of a [`SkylineAllocator`].
pub struct SkylineState {
    pub width: nat,
    pub height: nat,
    pub skyline: Seq<Segment>,
    pub freed: Seq<AtlasRect>,
}

impl SkylineState {
    pub open spec fn wf(self) -> bool {
        &&& self.width <= u32::MAX
        &&& self.height <= u32::MAX
        &&& skyline_wf(self.skyline, self.width as int, self.height as int)
    }

    /// Every rect in the free list lies inside the atlas.
    pub open spec fn freed_within(self) -> bool {
        forall|i: int| 0 <= i < self.freed.len() ==> #[trigger] self.freed[i].within(self.width as int, self.height as int)
    }

    /// `t` is this state with its skyline raised to `new_h` over `[x, end)`.
    pub open spec fn raised_to(self, t: SkylineState, x: int, end: int, new_h: int) -> bool {
        &&& t.width == self.width
        &&& t.height == self.height
        &&& t.freed == self.freed
        &&& skyline_wf(t.skyline, t.width as int, t.height as int)
        &&& describes(t.skyline, self.width as int, self.skyline, self.width as int, x, end, new_h)
    }

    /// The outcome of a `w x h` request: rect `r` handed out and state `t`.
    pub open spec fn places(self, w: nat, h: nat, r: Option<AtlasRect>, t: SkylineState) -> bool {
        if w == 0 || h == 0 {
            r == Some(AtlasRect { x: 0, y: 0, w: w as u32, h: h as u32 }) && t == self
        } else if w > self.width || h > self.height {
            r.is_none() && t == self
        } else {
            match first_fit(self.freed, w as int, h as int, self.freed.len() as int) {
                Some(pos) => {
                    &&& r == Some(AtlasRect { x: self.freed[pos].x, y: self.freed[pos].y, w: w as u32, h: h as u32 })
                    &&& t == SkylineState {
                        freed: self.freed.update(pos, self.freed.last()).drop_last(),
                        ..self
                    }
                },
                None => match best_fit(
                    self.skyline,
                    self.width as int,
                    self.height as int,
                    w as int,
                    h as int,
                    self.skyline.len() as int,
                ) {
                    None => r.is_none() && t == self,
                    Some(best) => {
                        &&& r == Some(AtlasRect { x: best.0, y: best.1, w: w as u32, h: h as u32 })
                        &&& self.raised_to(t, best.0 as int, best.0 + w, best.1 + h)
                    },
                },
            }
        }
    }
}

/// Skyline (lowest-horizontal-line-first) packer.
///
/// Tracks the upper edge of occupied space as a step function and places each
/// new rect in the lowest available notch wide enough to fit it. Significantly
/// better density than shelf packing for mixed-size workloads.
///
/// Freed rects are stored in a free list and checked on every subsequent
/// `allocate`. This gives O(n) free-list search, acceptable for user atlases
/// with a small number of textures.
pub struct SkylineAllocator {
    width: u32,
    height: u32,
    skyline: Vec<Segment>,
    freed: Vec<AtlasRect>,
}

impl View for SkylineAllocator {
    type V = SkylineState;

    closed spec fn view(&self) -> SkylineState {
        SkylineState {
            width: self.width as nat,
            height: self.height as nat,
            skyline: self.skyline@,
            freed: self.freed@,
        }
    }
}

/// In a sorted skyline at most one segment spans a column.
pub proof fn lemma_covers_unique(s: Seq<Segment>, bound: int, i: int, k: int, p: int)
    requires
        sorted(s),
        covers(s, bound, i, p),
        covers(s, bound, k, p),
    ensures
        i == k,
{
    if i < k {
        assert(s[i + 1].x <= s[k].x) by {
            if i + 1 < k {
                assert(s[i + 1].x < s[k].x);
            }
        }
    } else if k < i {
        assert(s[k + 1].x <= s[i].x) by {
            if k + 1 < i {
                assert(s[k + 1].x < s[i].x);
            }
        }
    }
}

/// Every segment that meets `[x, end)` among the first `k` is no higher than
/// `max_height_upto(.., k)`, which is itself the height of one of them (or 0).
pub proof fn lemma_max_height_upto(s: Seq<Segment>, width: int, height: int, x: int, end: int, k: int)
    requires
        0 <= k <= s.len(),
        forall|i: int| 0 <= i < s.len() ==> #[trigger] s[i].y <= height,
        0 <= height,
    ensures
        0 <= max_height_upto(s, width, x, end, k) <= height,
        forall|i: int| 0 <= i < k && overlaps(s, width, i, x, end) ==> s[i].y <= max_height_upto(s, width, x, end, k),
    decreases k,
{
    if k > 0 {
        lemma_max_height_upto(s, width, height, x, end, k - 1);
    }
}

/// The skyline under every column of `[x, x + w)` is at most
/// `max_height(s, width, x, w)`.
pub proof fn lemma_max_height_bounds(s: Seq<Segment>, width: int, height: int, x: int, w: int, p: int, k: int)
    requires
        skyline_wf(s, width, height),
        0 <= height,
        x <= p < x + w,
        covers(s, width, k, p),
    ensures
        s[k].y <= max_height(s, width, x, w),
        max_height(s, width, x, w) <= height,
{
    lemma_max_height_upto(s, width, height, x, x + w, s.len() as int);
    assert(overlaps(s, width, k, x, x + w));
}

/// A candidate in `best_fit` always fits the atlas.
pub proof fn lemma_best_fit(s: Seq<Segment>, width: int, height: int, w: int, h: int, k: int)
    requires
        0 <= k <= s.len(),
        forall|i: int| 0 <= i < s.len() ==> #[trigger] s[i].y <= height,
        0 <= height <= u32::MAX,
    ensures
        best_fit(s, width, height, w, h, k) matches Some(b) ==> {
            &&& b.0 + w <= width
            &&& b.1 + h <= height
            &&& b.1 == max_height(s, width, b.0 as int, w)
            &&& exists|i: int| 0 <= i < k && #[trigger] s[i].x == b.0
        },
    decreases k,
{
    if k > 0 {
        lemma_best_fit(s, width, height, w, h, k - 1);
        let x = s[k - 1].x;
        lemma_max_height_upto(s, width, height, x as int, x + w, s.len() as int);
        if let Some(b) = best_fit(s, width, height, w, h, k) {
            if best_fit(s, width, height, w, h, k - 1) != best_fit(s, width, height, w, h, k) {
                assert(s[k - 1].x == b.0);
            } else {
                let i = choose|i: int| 0 <= i < k - 1 && #[trigger] s[i].x == b.0;
                assert(s[i].x == b.0);
            }
        }
    }
}

/// Appending a segment that starts at the old bound keeps what the earlier
/// segments describe.
proof fn lemma_extend(
    r: Seq<Segment>,
    c: int,
    seg: Segment,
    e: int,
    old: Seq<Segment>,
    width: int,
    x: int,
    end: int,
    new_h: int,
)
    requires
        describes(r, c, old, width, x, end, new_h),
        sorted(r),
        forall|j: int| 0 <= j < r.len() ==> #[trigger] r[j].x < c,
        seg.x == c,
        c < e,
        forall|p: int, k: int|
            c <= p < e && #[trigger] covers(old, width, k, p) ==> seg.y == raised_height(old, x, end, new_h, p, k),
    ensures
        describes(r.push(seg), e, old, width, x, end, new_h),
        sorted(r.push(seg)),
        forall|j: int| 0 <= j < r.push(seg).len() ==> #[trigger] r.push(seg)[j].x < e,
{
    let r2 = r.push(seg);
    assert forall|p: int, j: int, k: int|
        0 <= p < e && #[trigger] covers(r2, e, j, p) && #[trigger] covers(old, width, k, p)
        implies r2[j].y == raised_height(old, x, end, new_h, p, k) by {
        if j < r.len() {
            assert(r2[j] == r[j]);
            if j + 1 < r.len() {
                assert(r2[j + 1] == r[j + 1]);
            }
            assert(covers(r, c, j, p));
        } else {
            assert(r2[j] == seg);
        }
    }
    assert forall|i: int, j: int| 0 <= i < j < r2.len() implies #[trigger] r2[i].x < #[trigger] r2[j].x by {
        if j < r.len() {
            assert(r2[i] == r[i] && r2[j] == r[j]);
        } else {
            assert(r2[i] == r[i]);
        }
    }
    assert forall|j: int| 0 <= j < r2.len() implies #[trigger] r2[j].x < e by {
        if j < r.len() {
            assert(r2[j] == r[j]);
        }
    }
}

/// Letting the last segment run on to a further bound keeps the description
/// when the added columns carry its height.
proof fn lemma_stretch(
    r: Seq<Segment>,
    c: int,
    e: int,
    old: Seq<Segment>,
    width: int,
    x: int,
    end: int,
    new_h: int,
)
    requires
        describes(r, c, old, width, x, end, new_h),
        r.len() > 0,
        sorted(r),
        forall|j: int| 0 <= j < r.len() ==> #[trigger] r[j].x < c,
        c <= e,
        forall|p: int, k: int|
            c <= p < e && #[trigger] covers(old, width, k, p) ==> r.last().y == raised_height(old, x, end, new_h, p, k),
    ensures
        describes(r, e, old, width, x, end, new_h),
{
    assert forall|p: int, j: int, k: int|
        0 <= p < e && #[trigger] covers(r, e, j, p) && #[trigger] covers(old, width, k, p)
        implies r[j].y == raised_height(old, x, end, new_h, p, k) by {
        if j + 1 < r.len() {
            assert(covers(r, c, j, p));
        } else if p < c {
            assert(covers(r, c, j, p));
        }
    }
}

impl SkylineAllocator {
    pub open spec fn wf(&self) -> bool {
        self@.wf()
    }

    pub fn new(width: u32, height: u32) -> (r: Self)
        ensures
            r.wf(),
            r@ == (SkylineState {
                width: width as nat,
                height: height as nat,
                skyline: seq![Segment { x: 0, y: 0 }],
                freed: Seq::empty(),
            }),
    {
        // Initially the entire width is at height 0.
        let mut skyline = Vec::new();
        skyline.push(Segment { x: 0, y: 0 });
        let r = Self { width, height, skyline, freed: Vec::new() };
        assert(r@.skyline =~= seq![Segment { x: 0, y: 0 }]);
        r
    }

    /// Place a `w x h` rect: a zero-sized request succeeds at the origin
    /// without touching the skyline; otherwise the first freed rect that can
    /// hold it is reused, and failing that the rect goes to the lowest notch
    /// of the skyline (leftmost among equally low ones).
    pub fn allocate(&mut self, w: u32, h: u32) -> (r: Option<AtlasRect>)
        requires
            old(self).wf(),
        ensures
            final(self).wf(),
            old(self)@.places(w as nat, h as nat, r, final(self)@),
    {
        // Degenerate: zero-size rects succeed without touching the skyline,
        // matching shelf allocator behaviour.
        if w == 0 || h == 0 {
            return Some(AtlasRect { x: 0, y: 0, w, h });
        }
        if w > self.width || h > self.height {
            return None;
        }

        // Check free list first (first-fit).
        let nf = self.freed.len();
        let mut pos: usize = 0;
        while pos < nf
            invariant
                self.wf(),
                nf == self.freed@.len(),
                pos <= nf,
                first_fit(self.freed@, w as int, h as int, pos as int).is_none(),
            ensures
                pos <= nf,
                first_fit(self.freed@, w as int, h as int, pos as int).is_none(),
                pos < nf ==> self.freed@[pos as int].w >= w && self.freed@[pos as int].h >= h,
            decreases nf - pos,
        {
            if self.freed[pos].w >= w && self.freed[pos].h >= h {
                break;
            }
            pos = pos + 1;
        }
        if pos < nf {
            assert(first_fit(self.freed@, w as int, h as int, pos + 1) == Some(pos as int));
            assert forall|k: int| pos + 1 <= k <= nf implies first_fit(self.freed@, w as int, h as int, k) == Some(pos as int) by {
                lemma_first_fit_stays(self.freed@, w as int, h as int, pos as int, k);
            }
            let r = self.freed.swap_remove(pos);
            return Some(AtlasRect { x: r.x, y: r.y, w, h });
        }

        // Find the skyline position with the lowest baseline that still fits.
        let ghost s = self.skyline@;
        proof {
            lemma_max_height_upto(s, self.width as int, self.height as int, 0, 0, 0);
        }
        let mut best_x: Option<u32> = None;
        let mut best_baseline: u32 = u32::MAX;
        let n = self.skyline.len();
        let mut i: usize = 0;
        while i < n
            invariant
                self.wf(),
                s == self.skyline@,
                n == s.len(),
                i <= n,
                0 < w <= self.width,
                0 < h <= self.height,
                match best_fit(s, self.width as int, self.height as int, w as int, h as int, i as int) {
                    None => best_x.is_none() && best_baseline == u32::MAX,
                    Some(b) => best_x == Some(b.0) && best_baseline == b.1,
                },
            decreases n - i,
        {
            let x = self.skyline[i].x;
            if w <= self.width - x {
                let baseline = self.max_height_in_range(x, w);
                proof {
                    lemma_max_height_upto(s, self.width as int, self.height as int, x as int, x + w, n as int);
                }
                if h <= self.height - baseline && baseline < best_baseline {
                    best_baseline = baseline;
                    best_x = Some(x);
                }
            }
            i = i + 1;
        }

        proof {
            lemma_best_fit(s, self.width as int, self.height as int, w as int, h as int, n as int);
        }
        let x = match best_x {
            Some(x) => x,
            None => return None,
        };
        let y = best_baseline;
        self.raise_skyline(x, w, y + h);
        Some(AtlasRect { x, y, w, h })
    }

    /// Put `rect` on the free list; empty rects are ignored.
    pub fn free(&mut self, rect: AtlasRect)
        requires
            old(self).wf(),
        ensures
            final(self).wf(),
            final(self)@ == (SkylineState {
                freed: if rect.is_empty() { old(self)@.freed } else { old(self)@.freed.push(rect) },
                ..old(self)@
            }),
    {
        if rect.w > 0 && rect.h > 0 {
            self.freed.push(rect);
        }
    }

    /// Back to a flat, empty skyline with an empty free list.
    pub fn reset(&mut self)
        requires
            old(self).wf(),
        ensures
            final(self).wf(),
            final(self)@ == (SkylineState {
                skyline: seq![Segment { x: 0, y: 0 }],
                freed: Seq::empty(),
                ..old(self)@
            }),
    {
        let mut skyline = Vec::new();
        skyline.push(Segment { x: 0, y: 0 });
        self.skyline = skyline;
        self.freed.clear();
        assert(self.skyline@ =~= seq![Segment { x: 0, y: 0 }]);
    }

    /// Returns the maximum skyline height across the horizontal span [x, x+w).
    fn max_height_in_range(&self, x: u32, w: u32) -> (r: u32)
        requires
            self.wf(),
            x + w <= self.width,
        ensures
            r == max_height(self.skyline@, self.width as int, x as int, w as int),
    {
        let end = x + w;
        let n = self.skyline.len();
        let mut max_h: u32 = 0;
        let mut i: usize = 0;
        proof {
            lemma_max_height_upto(self.skyline@, self.width as int, self.height as int, x as int, end as int, n as int);
        }
        while i < n
            invariant
                self.wf(),
                n == self.skyline@.len(),
                end == x + w,
                i <= n,
                max_h == max_height_upto(self.skyline@, self.width as int, x as int, end as int, i as int),
            decreases n - i,
        {
            proof {
                lemma_max_height_upto(self.skyline@, self.width as int, self.height as int, x as int, end as int, i + 1);
            }
            let seg_start = self.skyline[i].x;
            let seg_end = if i + 1 < n {
                self.skyline[i + 1].x
            } else {
                self.width
            };
            // Segment [seg_start, seg_end) overlaps [x, end) when:
            if seg_start < end && seg_end > x {
                if self.skyline[i].y > max_h {
                    max_h = self.skyline[i].y;
                }
            }
            i = i + 1;
        }
        max_h
    }

    /// Raise the skyline profile over [x, x+w) to `new_h`.
    fn raise_skyline(&mut self, x: u32, w: u32, new_h: u32)
        requires
            old(self).wf(),
            0 < w,
            x + w <= old(self).width,
            new_h <= old(self).height,
        ensures
            final(self).wf(),
            old(self)@.raised_to(final(self)@, x as int, x + w, new_h as int),
    {
        let end = x + w;
        let n = self.skyline.len();
        let ghost old_s = self.skyline@;
        let ghost width = self.width as int;
        let ghost height = self.height as int;
        let mut result: Vec<Segment> = Vec::new();
        let mut raised = false;

        let mut i: usize = 0;
        while i < n
            invariant
                self.wf(),
                self.skyline@ == old_s,
                width == self.width,
                height == self.height,
                n == old_s.len(),
                0 < w,
                end == x + w,
                end <= width,
                new_h <= height,
                i <= n,
                sorted(result@),
                forall|j: int| 0 <= j < result@.len() ==> #[trigger] result@[j].x < segment_end(old_s, width, i - 1),
                forall|j: int| 0 <= j < result@.len() ==> #[trigger] result@[j].y <= height,
                i == 0 ==> result@.len() == 0,
                i > 0 ==> result@.len() > 0 && result@[0].x == 0,
                raised == (i > 0 && x < segment_end(old_s, width, i - 1)),
                raised && segment_end(old_s, width, i - 1) <= end ==> result@.last() == (Segment { x, y: new_h }),
                i > 0 ==> describes(result@, segment_end(old_s, width, i - 1), old_s, width, x as int, end as int, new_h as int),
            decreases n - i,
        {
            let seg = self.skyline[i];
            let seg_end = if i + 1 < n {
                self.skyline[i + 1].x
            } else {
                self.width
            };
            let ghost start = seg.x as int;
            let ghost r0 = result@;
            proof {
                assert(seg_end == segment_end(old_s, width, i as int));
                if i > 0 {
                    assert(segment_end(old_s, width, i - 1) == start);
                }
                assert(start < seg_end) by {
                    if i + 1 < n {
                        assert(old_s[i as int].x < old_s[i + 1].x);
                    }
                }
                assert forall|p: int, k: int| start <= p < seg_end && #[trigger] covers(old_s, width, k, p) implies k == i by {
                    assert(covers(old_s, width, i as int, p));
                    lemma_covers_unique(old_s, width, i as int, k, p);
                }
                if i == 0 {
                    assert(describes(r0, start, old_s, width, x as int, end as int, new_h as int));
                }
            }

            if seg_end <= x {
                // Entirely before the raised region.
                proof {
                    lemma_extend(r0, start, seg, seg_end as int, old_s, width, x as int, end as int, new_h as int);
                }
                result.push(seg);
            } else if seg.x >= end {
                // Entirely after the raised region. Insert the raised segment
                // before this one if we haven't already.
                if !raised {
                    result.push(Segment { x, y: new_h });
                    raised = true;
                }
                proof {
                    lemma_extend(r0, start, seg, seg_end as int, old_s, width, x as int, end as int, new_h as int);
                }
                result.push(seg);
            } else {
                // This segment overlaps [x, end).
                let ghost mut c = start;
                if seg.x < x {
                    // Keep the portion before x.
                    proof {
                        lemma_extend(r0, start, seg, x as int, old_s, width, x as int, end as int, new_h as int);
                        c = x as int;
                    }
                    result.push(seg);
                }
                let ghost mid = if seg_end < end { seg_end as int } else { end as int };
                // Insert the raised segment once.
                if !raised {
                    proof {
                        lemma_extend(result@, c, Segment { x, y: new_h }, mid, old_s, width, x as int, end as int, new_h as int);
                    }
                    result.push(Segment { x, y: new_h });
                    raised = true;
                } else {
                    proof {
                        lemma_stretch(result@, c, mid, old_s, width, x as int, end as int, new_h as int);
                    }
                }
                // If this segment extends past end, restore its previous height there.
                if seg_end > end {
                    proof {
                        lemma_extend(result@, mid, Segment { x: end, y: seg.y }, seg_end as int, old_s, width, x as int, end as int, new_h as int);
                    }
                    result.push(Segment { x: end, y: seg.y });
                }
            }
            i = i + 1;
        }

        if !raised {
            result.push(Segment { x, y: new_h });
        }

        // Coalesce consecutive segments with the same height.
        let ghost r = result@;
        let m = result.len();
        let mut coalesced: Vec<Segment> = Vec::new();
        let mut k: usize = 0;
        while k < m
            invariant
                r == result@,
                m == r.len(),
                m > 0,
                r[0].x == 0,
                sorted(r),
                forall|j: int| 0 <= j < r.len() ==> #[trigger] r[j].x < width,
                forall|j: int| 0 <= j < r.len() ==> #[trigger] r[j].y <= height,
                describes(r, width, old_s, width, x as int, end as int, new_h as int),
                k <= m,
                sorted(coalesced@),
                no_equal_neighbours(coalesced@),
                k == 0 <==> coalesced@.len() == 0,
                k > 0 ==> coalesced@[0].x == 0 && coalesced@.last().y == r[k - 1].y,
                forall|j: int| 0 <= j < coalesced@.len() ==> #[trigger] coalesced@[j].x < segment_end(r, width, k - 1),
                forall|j: int| 0 <= j < coalesced@.len() ==> #[trigger] coalesced@[j].y <= height,
                forall|j: int| 0 < j < coalesced@.len() ==> #[trigger] coalesced@[j].x < width,
                k > 0 ==> describes(coalesced@, segment_end(r, width, k - 1), old_s, width, x as int, end as int, new_h as int),
            decreases m - k,
        {
            let seg = result[k];
            let ghost c0 = coalesced@;
            let ghost lo = r[k as int].x as int;
            let ghost hi = segment_end(r, width, k as int);
            proof {
                if k > 0 {
                    assert(segment_end(r, width, k - 1) == lo);
                }
                assert(lo < hi) by {
                    if k + 1 < m {
                        assert(r[k as int].x < r[k + 1].x);
                    }
                }
                assert forall|p: int, kk: int| lo <= p < hi && #[trigger] covers(old_s, width, kk, p)
                    implies seg.y == raised_height(old_s, x as int, end as int, new_h as int, p, kk) by {
                    assert(covers(r, width, k as int, p));
                }
                if k == 0 {
                    assert(describes(c0, lo, old_s, width, x as int, end as int, new_h as int));
                }
            }
            let skip = coalesced.len() > 0 && coalesced[coalesced.len() - 1].y == seg.y;
            if skip {
                proof {
                    lemma_stretch(c0, lo, hi, old_s, width, x as int, end as int, new_h as int);
                }
            } else {
                proof {
                    lemma_extend(c0, lo, seg, hi, old_s, width, x as int, end as int, new_h as int);
                    let c1 = c0.push(seg);
                    assert forall|a: int, b: int| 0 <= a && b == a + 1 && b < c1.len() implies #[trigger] c1[a].y != #[trigger] c1[b].y by {
                        if b < c0.len() {
                            assert(c1[a] == c0[a] && c1[b] == c0[b]);
                        }
                    }
                }
                coalesced.push(seg);
            }
            k = k + 1;
        }

        self.skyline = coalesced;
    }
}

/// Once the first `pos + 1` freed rects contain a fit at `pos`, longer
/// prefixes keep it.
pub proof fn lemma_first_fit_stays(freed: Seq<AtlasRect>, w: int, h: int, pos: int, k: int)
    requires
        0 <= pos < k,
        first_fit(freed, w, h, pos + 1) == Some(pos),
    ensures
        first_fit(freed, w, h, k) == Some(pos),
    decreases k,
{
    if k > pos + 1 {
        lemma_first_fit_stays(freed, w, h, pos, k - 1);
    }
}

/// Some segment of a well-formed skyline spans each column of the atlas.
pub proof fn lemma_column_covered(s: Seq<Segment>, width: int, height: int, p: int)
    requires
        skyline_wf(s, width, height),
        0 <= p < width,
    ensures
        exists|k: int| covers(s, width, k, p),
{
    lemma_column_covered_from(s, width, height, p, 0);
}

proof fn lemma_column_covered_from(s: Seq<Segment>, width: int, height: int, p: int, i: int)
    requires
        skyline_wf(s, width, height),
        0 <= i < s.len(),
        s[i].x <= p < width,
    ensures
        exists|k: int| covers(s, width, k, p),
    decreases s.len() - i,
{
    if i + 1 < s.len() && s[i + 1].x <= p {
        lemma_column_covered_from(s, width, height, p, i + 1);
    } else {
        assert(covers(s, width, i, p));
    }
}

impl SkylineState {
    /// `r` lies under this skyline: over every column it spans, its top is
    /// no higher than the skyline.
    pub open spec fn under(self, r: AtlasRect) -> bool {
        &&& r.within(self.width as int, self.height as int)
        &&& forall|p: int, k: int|
            r.x <= p < r.x + r.w && #[trigger] covers(self.skyline, self.width as int, k, p)
                ==> r.y + r.h <= self.skyline[k].y
    }
}

/// A request never yields a non-empty rect outside the atlas, as long as every rect
/// that was put on the free list lay inside it; that stays so.
pub proof fn lemma_skyline_alloc_within(s: SkylineState, w: nat, h: nat, r: Option<AtlasRect>, t: SkylineState)
    requires
        s.wf(),
        s.freed_within(),
        w <= u32::MAX,
        h <= u32::MAX,
        s.places(w, h, r, t),
    ensures
        t.freed_within(),
        r matches Some(rect) ==> rect.is_empty() || rect.within(s.width as int, s.height as int),
{
    if w != 0 && h != 0 && w <= s.width && h <= s.height {
        match first_fit(s.freed, w as int, h as int, s.freed.len() as int) {
            Some(pos) => {
                lemma_first_fit_found(s.freed, w as int, h as int, s.freed.len() as int);
                assert(s.freed[pos].within(s.width as int, s.height as int));
                let f2 = s.freed.update(pos, s.freed.last()).drop_last();
                assert forall|i: int| 0 <= i < f2.len() implies #[trigger] f2[i].within(s.width as int, s.height as int) by {
                    if i == pos {
                        assert(s.freed[s.freed.len() - 1].within(s.width as int, s.height as int));
                    } else {
                        assert(s.freed[i].within(s.width as int, s.height as int));
                    }
                }
            },
            None => {
                lemma_best_fit(s.skyline, s.width as int, s.height as int, w as int, h as int, s.skyline.len() as int);
            },
        }
    }
}

/// A rect placed on the skyline sits on top of the old skyline, so it
/// shares no texel with any rect under the old skyline; both it and every
/// such rect lie under the new skyline.
pub proof fn lemma_skyline_alloc_disjoint(
    s: SkylineState,
    w: nat,
    h: nat,
    rect: AtlasRect,
    t: SkylineState,
    earlier: AtlasRect,
)
    requires
        s.wf(),
        w <= u32::MAX,
        h <= u32::MAX,
        w > 0,
        h > 0,
        first_fit(s.freed, w as int, h as int, s.freed.len() as int).is_none(),
        s.places(w, h, Some(rect), t),
        s.under(earlier),
    ensures
        t.wf(),
        rect.disjoint(earlier),
        t.under(rect),
        t.under(earlier),
{
    let width = s.width as int;
    let height = s.height as int;
    lemma_best_fit(s.skyline, width, height, w as int, h as int, s.skyline.len() as int);
    let x = rect.x as int;
    let end = rect.x + rect.w;
    let new_h = rect.y + rect.h;
    // Every column of the new rect was at or below its baseline.
    assert forall|p: int, k: int| x <= p < end && #[trigger] covers(s.skyline, width, k, p) implies s.skyline[k].y <= rect.y by {
        lemma_max_height_bounds(s.skyline, width, height, x, w as int, p, k);
    }
    if !rect.disjoint(earlier) {
        let p = if rect.x < earlier.x { earlier.x as int } else { rect.x as int };
        lemma_column_covered(s.skyline, width, height, p);
        let k = choose|k: int| covers(s.skyline, width, k, p);
        assert(earlier.y + earlier.h <= s.skyline[k].y);
        assert(s.skyline[k].y <= rect.y);
    }
    assert forall|p: int, j: int| rect.x <= p < rect.x + rect.w && #[trigger] covers(t.skyline, width, j, p)
        implies rect.y + rect.h <= t.skyline[j].y by {
        lemma_column_covered(s.skyline, width, height, p);
        let k = choose|k: int| covers(s.skyline, width, k, p);
        assert(covers(s.skyline, width, k, p));
    }
    assert forall|p: int, j: int| earlier.x <= p < earlier.x + earlier.w && #[trigger] covers(t.skyline, width, j, p)
        implies earlier.y + earlier.h <= t.skyline[j].y by {
        lemma_column_covered(s.skyline, width, height, p);
        let k = choose|k: int| covers(s.skyline, width, k, p);
        assert(covers(s.skyline, width, k, p));
        if x <= p < end {
            assert(s.skyline[k].y <= rect.y);
        }
    }
}

/// A fit found by `first_fit` is in range and holds the request.
pub proof fn lemma_first_fit_found(freed: Seq<AtlasRect>, w: int, h: int, k: int)
    requires
        0 <= k <= freed.len(),
    ensures
        first_fit(freed, w, h, k) matches Some(pos) ==> 0 <= pos < k && freed[pos].w >= w && freed[pos].h >= h,
    decreases k,
{
    if k > 0 {
        lemma_first_fit_found(freed, w, h, k - 1);
    }
}

/// No two of the rects share a texel.
pub open spec fn pairwise_disjoint(rs: Seq<AtlasRect>) -> bool {
    forall|i: int, j: int|
        #![trigger rs[i], rs[j]]
        0 <= i < rs.len() && 0 <= j < rs.len() && i != j ==> rs[i].disjoint(rs[j])
}

/// `a` is the corner of `b` a smaller request takes: same origin, no wider,
/// no taller.
pub open spec fn corner_of(a: AtlasRect, b: AtlasRect) -> bool {
    a.x == b.x && a.y == b.y && a.w <= b.w && a.h <= b.h
}

impl SkylineState {
    /// This state accounts for `live`, the rects handed out and not freed
    /// since: every non-empty live rect and every freed rect lies under the
    /// skyline, freed rects are non-empty, and no two rects, live or freed,
    /// overlap.
    pub open spec fn accounts_for(self, live: Seq<AtlasRect>) -> bool {
        &&& self.wf()
        &&& forall|i: int| 0 <= i < live.len() && !(#[trigger] live[i]).is_empty() ==> self.under(live[i])
        &&& forall|i: int| 0 <= i < self.freed.len() ==> !(#[trigger] self.freed[i]).is_empty() && self.under(self.freed[i])
        &&& pairwise_disjoint(live + self.freed)
    }
}

/// A corner of a rect shares no texel with what the rect shares none with.
proof fn lemma_corner_disjoint(a: AtlasRect, b: AtlasRect, c: AtlasRect)
    requires
        corner_of(a, b),
        b.disjoint(c),
    ensures
        a.disjoint(c),
        c.disjoint(a),
{
}

/// Rects each taken (or cornered) from a different one of a pairwise
/// disjoint sequence are pairwise disjoint.
proof fn lemma_pairwise_from(all: Seq<AtlasRect>, rs: Seq<AtlasRect>, orig: spec_fn(int) -> int)
    requires
        pairwise_disjoint(all),
        forall|k: int| 0 <= k < rs.len() ==> 0 <= #[trigger] orig(k) < all.len() && corner_of(rs[k], all[orig(k)]),
        forall|k1: int, k2: int| 0 <= k1 < rs.len() && 0 <= k2 < rs.len() && k1 != k2 ==> #[trigger] orig(k1) != #[trigger] orig(k2),
    ensures
        pairwise_disjoint(rs),
{
    assert forall|i: int, j: int| 0 <= i < rs.len() && 0 <= j < rs.len() && i != j implies #[trigger] rs[i].disjoint(#[trigger] rs[j]) by {
        let (a, b) = (orig(i), orig(j));
        assert(all[a].disjoint(all[b]));
        lemma_corner_disjoint(rs[i], all[a], all[b]);
        lemma_corner_disjoint(rs[j], all[b], rs[i]);
    }
}

/// An allocator with an empty free list accounts for no live rects: so it
/// is right after `new` and after `reset`.
pub proof fn lemma_empty_accounts(s: SkylineState)
    requires
        s.wf(),
        s.freed.len() == 0,
    ensures
        s.accounts_for(Seq::empty()),
{
    assert(Seq::<AtlasRect>::empty() + s.freed =~= Seq::<AtlasRect>::empty());
}

/// A request never hands out a rect that overlaps a live one, whether it is
/// cut from the free list or placed on the skyline, and the allocator then
/// accounts for the live rects and the new one.
pub proof fn lemma_skyline_alloc_accounts(
    s: SkylineState,
    live: Seq<AtlasRect>,
    w: nat,
    h: nat,
    r: Option<AtlasRect>,
    t: SkylineState,
)
    requires
        s.accounts_for(live),
        w <= u32::MAX,
        h <= u32::MAX,
        s.places(w, h, r, t),
    ensures
        r is None ==> t.accounts_for(live),
        r matches Some(rect) ==> {
            &&& t.accounts_for(live.push(rect))
            &&& forall|i: int| 0 <= i < live.len() ==> rect.disjoint(#[trigger] live[i])
        },
{
    let n = live.len() as int;
    let all = live + s.freed;
    if r is None {
        return;
    }
    let rect = r->Some_0;
    let live2 = live.push(rect);
    let all2 = live2 + t.freed;
    if w == 0 || h == 0 {
        assert forall|i: int, j: int| 0 <= i < all2.len() && 0 <= j < all2.len() && i != j
            implies #[trigger] all2[i].disjoint(#[trigger] all2[j]) by {
            if i != n && j != n {
                let a = if i < n { i } else { i - 1 };
                let b = if j < n { j } else { j - 1 };
                assert(all2[i] == all[a] && all2[j] == all[b]);
            }
        }
        assert forall|i: int| 0 <= i < live2.len() && !(#[trigger] live2[i]).is_empty() implies t.under(live2[i]) by {
            assert(live2[i] == live[i]);
        }
        return;
    }
    match first_fit(s.freed, w as int, h as int, s.freed.len() as int) {
        Some(pos) => {
            lemma_first_fit_found(s.freed, w as int, h as int, s.freed.len() as int);
            let m = s.freed.len() as int;
            let f2 = t.freed;
            assert(f2 == s.freed.update(pos, s.freed.last()).drop_last());
            assert(corner_of(rect, s.freed[pos]));
            let orig = |k: int| if k < n {
                k
            } else if k == n {
                n + pos
            } else if k - n - 1 == pos {
                n + m - 1
            } else {
                k - 1
            };
            assert forall|k: int| 0 <= k < all2.len() implies 0 <= #[trigger] orig(k) < all.len() && corner_of(all2[k], all[orig(k)]) by {
                if k < n {
                    assert(all2[k] == live[k] && all[k] == live[k]);
                } else if k == n {
                    assert(all2[k] == rect && all[n + pos] == s.freed[pos]);
                } else {
                    let q = k - n - 1;
                    assert(all2[k] == f2[q]);
                    if q == pos {
                        assert(f2[q] == s.freed[m - 1]);
                        assert(all[n + m - 1] == s.freed[m - 1]);
                    } else {
                        assert(f2[q] == s.freed[q]);
                        assert(all[n + q] == s.freed[q]);
                    }
                }
            }
            lemma_pairwise_from(all, all2, orig);
            // Every rect, old or new, is still under the unchanged skyline.
            assert(t.skyline == s.skyline && t.width == s.width && t.height == s.height);
            assert(s.under(s.freed[pos]));
            assert forall|i: int| 0 <= i < live2.len() && !(#[trigger] live2[i]).is_empty() implies t.under(live2[i]) by {
                if i < n {
                    assert(live2[i] == live[i]);
                }
            }
            assert forall|i: int| 0 <= i < t.freed.len() implies !(#[trigger] t.freed[i]).is_empty() && t.under(t.freed[i]) by {
                if i == pos {
                    assert(t.freed[i] == s.freed[m - 1]);
                } else {
                    assert(t.freed[i] == s.freed[i]);
                }
            }
            assert forall|i: int| 0 <= i < live.len() implies rect.disjoint(#[trigger] live[i]) by {
                assert(all2[n] == rect && all2[i] == live[i]);
            }
        },
        None => {
            assert(t.freed == s.freed);
            assert forall|i: int| 0 <= i < all.len() implies rect.disjoint(#[trigger] all[i]) && (!all[i].is_empty() ==> t.under(all[i])) by {
                if i < n {
                    assert(all[i] == live[i]);
                } else {
                    assert(all[i] == s.freed[i - n]);
                }
                if !all[i].is_empty() {
                    lemma_skyline_alloc_disjoint(s, w, h, rect, t, all[i]);
                }
            }
            lemma_skyline_alloc_disjoint(s, w, h, rect, t, AtlasRect { x: 0, y: 0, w: 0, h: 0 });
            assert forall|i: int, j: int| 0 <= i < all2.len() && 0 <= j < all2.len() && i != j
                implies #[trigger] all2[i].disjoint(#[trigger] all2[j]) by {
                let a = if i < n { i } else { i - 1 };
                let b = if j < n { j } else { j - 1 };
                if i != n && j != n {
                    assert(all2[i] == all[a] && all2[j] == all[b]);
                } else if i == n {
                    assert(all2[j] == all[b]);
                } else {
                    assert(all2[i] == all[a]);
                }
            }
            assert forall|i: int| 0 <= i < live2.len() && !(#[trigger] live2[i]).is_empty() implies t.under(live2[i]) by {
                if i < n {
                    assert(live2[i] == all[i]);
                }
            }
            assert forall|i: int| 0 <= i < t.freed.len() implies !(#[trigger] t.freed[i]).is_empty() && t.under(t.freed[i]) by {
                assert(t.freed[i] == all[n + i]);
            }
            assert forall|i: int| 0 <= i < live.len() implies rect.disjoint(#[trigger] live[i]) by {
                assert(all[i] == live[i]);
            }
        },
    }
}

/// Freeing a live rect moves it to the free list; the allocator then
/// accounts for the rects still live.
pub proof fn lemma_skyline_free_accounts(s: SkylineState, live: Seq<AtlasRect>, i: int, t: SkylineState)
    requires
        s.accounts_for(live),
        0 <= i < live.len(),
        t == (SkylineState { freed: if live[i].is_empty() { s.freed } else { s.freed.push(live[i]) }, ..s }),
    ensures
        t.accounts_for(live.remove(i)),
{
    let n = live.len() as int;
    let all = live + s.freed;
    let live2 = live.remove(i);
    let all2 = live2 + t.freed;
    let orig = |k: int| if k < i {
        k
    } else if k < n - 1 {
        k + 1
    } else if k < n - 1 + s.freed.len() {
        k + 1
    } else {
        i
    };
    assert forall|k: int| 0 <= k < all2.len() implies 0 <= #[trigger] orig(k) < all.len() && corner_of(all2[k], all[orig(k)]) by {
        if k < i {
            assert(all2[k] == live[k]);
        } else if k < n - 1 {
            assert(all2[k] == live[k + 1]);
        } else if k < n - 1 + s.freed.len() {
            assert(all2[k] == t.freed[k - (n - 1)]);
            assert(t.freed[k - (n - 1)] == s.freed[k - (n - 1)]);
            assert(all[k + 1] == s.freed[k + 1 - n]);
        } else {
            assert(all2[k] == t.freed[s.freed.len() as int]);
        }
    }
    lemma_pairwise_from(all, all2, orig);
    assert forall|k: int| 0 <= k < live2.len() && !(#[trigger] live2[k]).is_empty() implies t.under(live2[k]) by {
        if k < i {
            assert(live2[k] == live[k]);
        } else {
            assert(live2[k] == live[k + 1]);
        }
    }
    assert forall|k: int| 0 <= k < t.freed.len() implies !(#[trigger] t.freed[k]).is_empty() && t.under(t.freed[k]) by {
        if k < s.freed.len() {
            assert(t.freed[k] == s.freed[k]);
        } else {
            assert(t.freed[k] == live[i]);
        }
    }
}

/// Height of the skyline `s` at column `p` of a `width` wide atlas.
pub open spec fn height_at(s: Seq<Segment>, width: int, p: int) -> int {
    let k = choose|k: int| covers(s, width, k, p);
    s[k].y as int
}

/// The places a skyline request tries are exactly the columns where the
/// skyline steps: column 0 and every column whose height differs from the
/// one to its left are segment starts, and no other column is.
pub proof fn lemma_starts_are_steps(s: Seq<Segment>, width: int, height: int, c: int)
    requires
        skyline_wf(s, width, height),
        0 < c < width,
    ensures
        (exists|i: int| 0 <= i < s.len() && #[trigger] s[i].x == c) <==> height_at(s, width, c) != height_at(s, width, c - 1),
{
    lemma_column_covered(s, width, height, c);
    lemma_column_covered(s, width, height, c - 1);
    let k = choose|k: int| covers(s, width, k, c);
    let d = c - 1;
    let k1 = choose|k: int| covers(s, width, k, d);
    if exists|i: int| 0 <= i < s.len() && #[trigger] s[i].x == c {
        let i = choose|i: int| 0 <= i < s.len() && #[trigger] s[i].x == c;
        assert(i > 0);
        assert(covers(s, width, i, c)) by {
            if i + 1 < s.len() {
                assert(s[i].x < s[i + 1].x);
            }
        }
        assert(covers(s, width, i - 1, d)) by {
            assert(s[i - 1].x < s[i].x);
        }
        lemma_covers_unique(s, width, i, k, c);
        lemma_covers_unique(s, width, i - 1, k1, d);
        assert(s[i - 1].y != s[i].y);
    } else {
        assert(s[k].x != c);
        assert(covers(s, width, k, d));
        lemma_covers_unique(s, width, k, k1, d);
    }
}

/// Top edge over column `p` of the highest of `placed` that spans it, or 0.
pub open spec fn top_of(placed: Seq<AtlasRect>, p: int) -> int
    decreases placed.len(),
{
    if placed.len() == 0 {
        0
    } else {
        let t = top_of(placed.drop_last(), p);
        let r = placed.last();
        if r.x <= p < r.x + r.w && r.y + r.h > t {
            r.y + r.h
        } else {
            t
        }
    }
}

impl SkylineState {
    /// The skyline is the outline of `placed`, the rects placed on it since
    /// it was last flat: over every column its height is the top of the
    /// highest of them there, or 0.
    pub open spec fn outlines(self, placed: Seq<AtlasRect>) -> bool {
        &&& self.wf()
        &&& forall|p: int| 0 <= p < self.width ==> #[trigger] height_at(self.skyline, self.width as int, p) == top_of(placed, p)
    }
}

/// A flat skyline outlines no rects: so it is after `new` and `reset`.
pub proof fn lemma_flat_outlines(s: SkylineState)
    requires
        s.wf(),
        s.skyline == seq![Segment { x: 0, y: 0 }],
    ensures
        s.outlines(Seq::empty()),
{
    assert forall|p: int| 0 <= p < s.width implies #[trigger] height_at(s.skyline, s.width as int, p) == top_of(Seq::<AtlasRect>::empty(), p) by {
        lemma_column_covered(s.skyline, s.width as int, s.height as int, p);
    }
}

/// Every request keeps the skyline the outline of what was placed on it:
/// a rect placed on the skyline joins the outline; a rect cut from the free
/// list, an empty or failed request, and freeing leave the skyline as it is.
pub proof fn lemma_places_outlines(
    s: SkylineState,
    placed: Seq<AtlasRect>,
    w: nat,
    h: nat,
    r: Option<AtlasRect>,
    t: SkylineState,
)
    requires
        s.outlines(placed),
        w <= u32::MAX,
        h <= u32::MAX,
        s.places(w, h, r, t),
    ensures
        t.wf(),
        (w > 0 && h > 0 && first_fit(s.freed, w as int, h as int, s.freed.len() as int).is_none() && r is Some)
            ==> t.outlines(placed.push(r->Some_0)),
        !(w > 0 && h > 0 && first_fit(s.freed, w as int, h as int, s.freed.len() as int).is_none() && r is Some)
            ==> t.skyline == s.skyline && t.outlines(placed),
{
    if w > 0 && h > 0 && w <= s.width && h <= s.height && first_fit(s.freed, w as int, h as int, s.freed.len() as int).is_none() && r is Some {
        let rect = r->Some_0;
        let width = s.width as int;
        let height = s.height as int;
        lemma_best_fit(s.skyline, width, height, w as int, h as int, s.skyline.len() as int);
        let placed2 = placed.push(rect);
        assert forall|p: int| 0 <= p < t.width implies #[trigger] height_at(t.skyline, t.width as int, p) == top_of(placed2, p) by {
            lemma_column_covered(s.skyline, width, height, p);
            lemma_column_covered(t.skyline, width, height, p);
            let k = choose|k: int| covers(s.skyline, width, k, p);
            let j = choose|j: int| covers(t.skyline, width, j, p);
            assert(placed2.drop_last() =~= placed);
            assert(placed2.last() == rect);
            assert(height_at(s.skyline, width, p) == s.skyline[k].y);
            if rect.x <= p < rect.x + rect.w {
                lemma_max_height_bounds(s.skyline, width, height, rect.x as int, w as int, p, k);
            }
        }
    } else if w > 0 && h > 0 && w <= s.width && h <= s.height && first_fit(s.freed, w as int, h as int, s.freed.len() as int).is_some() {
        assert(t.skyline == s.skyline);
    }
}

/// The outline depends on the skyline alone: freeing a rect, which only
/// lengthens the free list, keeps it.
pub proof fn lemma_same_skyline_outlines(s: SkylineState, placed: Seq<AtlasRect>, t: SkylineState)
    requires
        s.outlines(placed),
        t.skyline == s.skyline,
        t.width == s.width,
        t.height == s.height,
    ensures
        t.outlines(placed),
{
}

/// A segment start `x` can take a `w x h` rect: it fits the width, and on
/// top of the skyline there it fits the height.
pub open spec fn start_fits(s: Seq<Segment>, width: int, height: int, w: int, h: int, x: int) -> bool {
    x + w <= width && max_height(s, width, x, w) + h <= height
}

/// `best_fit` over the first `k` starts finds a place exactly when one of
/// them fits, and then the lowest baseline among those that fit, at the
/// leftmost start with that baseline.
pub proof fn lemma_best_fit_lowest_leftmost(s: Seq<Segment>, width: int, height: int, w: int, h: int, k: int)
    requires
        0 <= k <= s.len(),
        sorted(s),
        forall|i: int| 0 <= i < s.len() ==> #[trigger] s[i].y <= height,
        0 <= height <= u32::MAX,
    ensures
        best_fit(s, width, height, w, h, k) is None <==> forall|i: int| 0 <= i < k ==> !start_fits(s, width, height, w, h, #[trigger] s[i].x as int),
        best_fit(s, width, height, w, h, k) matches Some(b) ==> {
            &&& exists|i: int| 0 <= i < k && #[trigger] s[i].x == b.0 && start_fits(s, width, height, w, h, b.0 as int)
            &&& b.1 == max_height(s, width, b.0 as int, w)
            &&& forall|i: int| 0 <= i < k && start_fits(s, width, height, w, h, #[trigger] s[i].x as int)
                ==> b.1 <= max_height(s, width, s[i].x as int, w)
            &&& forall|i: int| 0 <= i < k && start_fits(s, width, height, w, h, #[trigger] s[i].x as int) && s[i].x < b.0
                ==> b.1 < max_height(s, width, s[i].x as int, w)
        },
    decreases k,
{
    if k > 0 {
        lemma_best_fit_lowest_leftmost(s, width, height, w, h, k - 1);
        let prev = best_fit(s, width, height, w, h, k - 1);
        let x = s[k - 1].x;
        lemma_max_height_upto(s, width, height, x as int, x + w, s.len() as int);
        let mx = max_height(s, width, x as int, w);
        let cur = best_fit(s, width, height, w, h, k);
        if let Some(p) = prev {
            let i0 = choose|i: int| 0 <= i < k - 1 && #[trigger] s[i].x == p.0 && start_fits(s, width, height, w, h, p.0 as int);
            assert(s[i0].x < s[k - 1].x);
        }
        if start_fits(s, width, height, w, h, x as int) && (prev is None || mx < prev->Some_0.1) {
            assert(cur == Some((x, mx as u32)));
            assert(start_fits(s, width, height, w, h, s[k - 1].x as int));
            assert forall|i: int| 0 <= i < k && start_fits(s, width, height, w, h, #[trigger] s[i].x as int)
                implies mx <= max_height(s, width, s[i].x as int, w) by {
                if i < k - 1 {
                    assert(prev is Some);
                }
            }
            assert forall|i: int| 0 <= i < k && start_fits(s, width, height, w, h, #[trigger] s[i].x as int) && s[i].x < x
                implies mx < max_height(s, width, s[i].x as int, w) by {
                assert(i != k - 1);
                assert(prev is Some);
            }
        } else {
            assert(cur == prev);
            if let Some(b) = prev {
                assert forall|i: int| 0 <= i < k && start_fits(s, width, height, w, h, #[trigger] s[i].x as int)
                    implies b.1 <= max_height(s, width, s[i].x as int, w) by {
                    if i == k - 1 {
                        assert(!(mx < b.1));
                    }
                }
                assert forall|i: int| 0 <= i < k && start_fits(s, width, height, w, h, #[trigger] s[i].x as int) && s[i].x < b.0
                    implies b.1 < max_height(s, width, s[i].x as int, w) by {
                    if i == k - 1 {
                        let i0 = choose|i: int| 0 <= i < k - 1 && #[trigger] s[i].x == b.0 && start_fits(s, width, height, w, h, b.0 as int);
                        assert(s[i0].x < s[k - 1].x);
                    }
                }
            } else {
                assert(!start_fits(s, width, height, w, h, s[k - 1].x as int));
            }
        }
    }
}

/// Highest column of the skyline `s` over `[x, end)`, or 0.
pub open spec fn column_max(s: Seq<Segment>, width: int, x: int, end: int) -> int
    decreases end - x,
{
    if end <= x {
        0
    } else {
        let m = column_max(s, width, x, end - 1);
        let top = height_at(s, width, end - 1);
        if top > m {
            top
        } else {
            m
        }
    }
}

/// `max_height_upto` is 0 or the height of one of the segments it looks at.
proof fn lemma_max_height_attained(s: Seq<Segment>, width: int, x: int, end: int, k: int)
    requires
        0 <= k <= s.len(),
    ensures
        max_height_upto(s, width, x, end, k) == 0 || exists|i: int|
            0 <= i < k && overlaps(s, width, i, x, end) && #[trigger] s[i].y == max_height_upto(s, width, x, end, k),
    decreases k,
{
    if k > 0 {
        lemma_max_height_attained(s, width, x, end, k - 1);
        if max_height_upto(s, width, x, end, k) != max_height_upto(s, width, x, end, k - 1) {
            assert(s[k - 1].y == max_height_upto(s, width, x, end, k));
        } else if max_height_upto(s, width, x, end, k) != 0 {
            let i = choose|i: int|
                0 <= i < k - 1 && overlaps(s, width, i, x, end) && #[trigger] s[i].y == max_height_upto(s, width, x, end, k - 1);
            assert(s[i].y == max_height_upto(s, width, x, end, k));
        }
    }
}

/// `column_max` bounds every column of its range, is at least 0, and is the
/// height of one of them when the range is not empty.
proof fn lemma_column_max(s: Seq<Segment>, width: int, height: int, x: int, end: int)
    requires
        skyline_wf(s, width, height),
        0 <= x,
        end <= width,
    ensures
        column_max(s, width, x, end) >= 0,
        forall|p: int| x <= p < end ==> #[trigger] height_at(s, width, p) <= column_max(s, width, x, end),
        x < end ==> exists|p: int| x <= p < end && #[trigger] height_at(s, width, p) == column_max(s, width, x, end),
    decreases end - x,
{
    if x < end {
        lemma_column_max(s, width, height, x, end - 1);
        let q = end - 1;
        assert(height_at(s, width, q) >= 0);
        if column_max(s, width, x, end) == height_at(s, width, q) {
            assert(height_at(s, width, q) == column_max(s, width, x, end));
        } else {
            let p = choose|p: int| x <= p < end - 1 && #[trigger] height_at(s, width, p) == column_max(s, width, x, end - 1);
            assert(height_at(s, width, p) == column_max(s, width, x, end));
        }
    }
}

/// Over a span of at least one column, the baseline a request sits on,
/// `max_height`, is the highest column of the skyline over the span.
pub proof fn lemma_max_height_is_column_max(s: Seq<Segment>, width: int, height: int, x: int, w: int)
    requires
        skyline_wf(s, width, height),
        0 <= height,
        0 <= x,
        0 < w,
        x + w <= width,
    ensures
        max_height(s, width, x, w) == column_max(s, width, x, x + w),
{
    let end = x + w;
    lemma_column_max(s, width, height, x, end);
    lemma_max_height_upto(s, width, height, x, end, s.len() as int);
    lemma_max_height_attained(s, width, x, end, s.len() as int);
    let q = choose|p: int| x <= p < end && #[trigger] height_at(s, width, p) == column_max(s, width, x, end);
    lemma_column_covered(s, width, height, q);
    let kq = choose|k: int| covers(s, width, k, q);
    lemma_max_height_bounds(s, width, height, x, w, q, kq);
    if max_height(s, width, x, w) != 0 {
        let i = choose|i: int|
            0 <= i < s.len() && overlaps(s, width, i, x, end) && #[trigger] s[i].y == max_height_upto(s, width, x, end, s.len() as int);
        let p = if s[i].x >= x { s[i].x as int } else { x };
        assert(covers(s, width, i, p));
        lemma_column_covered(s, width, height, p);
        let kp = choose|k: int| covers(s, width, k, p);
        lemma_covers_unique(s, width, i, kp, p);
        assert(height_at(s, width, p) == s[i].y);
    }
}

/// Highest of `top_of(placed, ..)` over the columns `[x, end)`, or 0.
pub open spec fn top_max(placed: Seq<AtlasRect>, x: int, end: int) -> int
    decreases end - x,
{
    if end <= x {
        0
    } else {
        let m = top_max(placed, x, end - 1);
        let top = top_of(placed, end - 1);
        if top > m {
            top
        } else {
            m
        }
    }
}

/// Column `x` of a `width` wide atlas is where the outline of `placed`
/// steps: the first column, or one whose top differs from its left
/// neighbour's.
pub open spec fn is_step(placed: Seq<AtlasRect>, width: int, x: int) -> bool {
    x == 0 || (0 < x < width && top_of(placed, x) != top_of(placed, x - 1))
}

/// A `w x h` rect fits on the outline of `placed` at column `x`.
pub open spec fn history_fits(placed: Seq<AtlasRect>, width: int, height: int, w: int, h: int, x: int) -> bool {
    x + w <= width && top_max(placed, x, x + w) + h <= height
}

/// Where the outline and the skyline agree column by column, so do their
/// highest columns over a span.
proof fn lemma_top_max_is_column_max(s: SkylineState, placed: Seq<AtlasRect>, x: int, end: int)
    requires
        s.outlines(placed),
        0 <= x,
        end <= s.width,
    ensures
        top_max(placed, x, end) == column_max(s.skyline, s.width as int, x, end),
    decreases end - x,
{
    if x < end {
        lemma_top_max_is_column_max(s, placed, x, end - 1);
        assert(height_at(s.skyline, s.width as int, end - 1) == top_of(placed, end - 1));
    }
}

/// The skyline rule over the placement history. When no freed rect can
/// hold a `w x h` request (both at least 1, neither beyond the atlas) and
/// the skyline outlines `placed`, the request fails exactly when no step of
/// the outline can take the rect; otherwise it lands at the leftmost step
/// of lowest base that can, on that base.
pub proof fn lemma_skyline_places_by_history(
    s: SkylineState,
    placed: Seq<AtlasRect>,
    w: nat,
    h: nat,
    r: Option<AtlasRect>,
    t: SkylineState,
)
    requires
        s.outlines(placed),
        0 < w <= s.width,
        0 < h <= s.height,
        first_fit(s.freed, w as int, h as int, s.freed.len() as int).is_none(),
        s.places(w, h, r, t),
    ensures
        r is None <==> forall|x: int| #[trigger] is_step(placed, s.width as int, x)
            ==> !history_fits(placed, s.width as int, s.height as int, w as int, h as int, x),
        r matches Some(rect) ==> {
            &&& rect.w == w && rect.h == h
            &&& is_step(placed, s.width as int, rect.x as int)
            &&& history_fits(placed, s.width as int, s.height as int, w as int, h as int, rect.x as int)
            &&& rect.y == top_max(placed, rect.x as int, rect.x + w)
            &&& forall|x: int| #[trigger] is_step(placed, s.width as int, x)
                && history_fits(placed, s.width as int, s.height as int, w as int, h as int, x)
                ==> rect.y <= top_max(placed, x, x + w)
            &&& forall|x: int| #[trigger] is_step(placed, s.width as int, x)
                && history_fits(placed, s.width as int, s.height as int, w as int, h as int, x) && x < rect.x
                ==> rect.y < top_max(placed, x, x + w)
        },
{
    let (width, height) = (s.width as int, s.height as int);
    let sk = s.skyline;
    let n = sk.len() as int;
    lemma_best_fit_lowest_leftmost(sk, width, height, w as int, h as int, n);
    // Starts of the skyline are the steps of the outline.
    assert forall|x: int| #[trigger] is_step(placed, width, x) <==> (exists|i: int| 0 <= i < n && #[trigger] sk[i].x == x) by {
        if 0 < x < width {
            lemma_starts_are_steps(sk, width, height, x);
        }
        if exists|i: int| 0 <= i < n && #[trigger] sk[i].x == x {
            let i = choose|i: int| 0 <= i < n && #[trigger] sk[i].x == x;
            if i > 0 {
                lemma_starts_are_steps(sk, width, height, x);
            }
        }
        if x == 0 {
            assert(sk[0].x == 0);
        }
    }
    // At a start, fitting the skyline is fitting the outline.
    assert forall|x: int| 0 <= x && x + w <= width implies max_height(sk, width, x, w as int) == top_max(placed, x, x + w) by {
        lemma_max_height_is_column_max(sk, width, height, x, w as int);
        lemma_top_max_is_column_max(s, placed, x, x + w);
    }
    assert forall|i: int| 0 <= i < n implies start_fits(sk, width, height, w as int, h as int, #[trigger] sk[i].x as int)
        == history_fits(placed, width, height, w as int, h as int, sk[i].x as int) by {
        if sk[i].x + w <= width {
            assert(max_height(sk, width, sk[i].x as int, w as int) == top_max(placed, sk[i].x as int, sk[i].x + w));
        }
    }
    if r is None {
        assert(best_fit(sk, width, height, w as int, h as int, n) is None);
        assert forall|x: int| #[trigger] is_step(placed, width, x) implies !history_fits(placed, width, height, w as int, h as int, x) by {
            let i = choose|i: int| 0 <= i < n && #[trigger] sk[i].x == x;
            assert(!start_fits(sk, width, height, w as int, h as int, sk[i].x as int));
        }
    } else {
        let rect = r->Some_0;
        let b = best_fit(sk, width, height, w as int, h as int, n)->Some_0;
        assert(rect.x == b.0 && rect.y == b.1);
        let i0 = choose|i: int| 0 <= i < n && #[trigger] sk[i].x == b.0 && start_fits(sk, width, height, w as int, h as int, b.0 as int);
        assert(start_fits(sk, width, height, w as int, h as int, sk[i0].x as int));
        assert(is_step(placed, width, rect.x as int));
        assert forall|x: int| #[trigger] is_step(placed, width, x) && history_fits(placed, width, height, w as int, h as int, x)
            implies rect.y <= top_max(placed, x, x + w) && (x < rect.x ==> rect.y < top_max(placed, x, x + w)) by {
            let i = choose|i: int| 0 <= i < n && #[trigger] sk[i].x == x;
            assert(start_fits(sk, width, height, w as int, h as int, sk[i].x as int));
        }
        assert(!(forall|x: int| #[trigger] is_step(placed, width, x) ==> !history_fits(placed, width, height, w as int, h as int, x)));
    }
}

} // verus!
