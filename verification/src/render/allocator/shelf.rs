//! Row-based ("shelf") rectangle packing.

use vstd::prelude::*;

use super::AtlasRect;

verus! {

/// Simple left-to-right, top-to-bottom shelf packer.
///
/// Rects are placed in rows (shelves) of height equal to the tallest rect on
/// that row. Individual rects cannot be freed; the whole allocator must be
/// reset. Very low overhead - O(1) alloc.
pub struct ShelfAllocator {
    width: u32,
    height: u32,
    cursor_x: u32,
    cursor_y: u32,
    row_h: u32,
}

/// The abstract state of a [`ShelfAllocator`].
pub struct ShelfState {
    pub width: nat,
    pub height: nat,
    pub cursor_x: nat,
    pub cursor_y: nat,
    pub row_h: nat,
}

impl ShelfState {
    /// The cursor never leaves the atlas and the open row fits below it.
    pub open spec fn wf(self) -> bool {
        &&& self.width <= u32::MAX
        &&& self.height <= u32::MAX
        &&& self.cursor_x <= self.width
        &&& self.cursor_y + self.row_h <= self.height
    }

    /// The state after moving the cursor to the start of the next row.
    pub open spec fn wrapped(self) -> ShelfState {
        ShelfState { cursor_x: 0, cursor_y: self.cursor_y + self.row_h, row_h: 0, ..self }
    }

    /// The state from which a `w` wide request is placed: the current one if
    /// the request still fits on the open row, the wrapped one otherwise.
    pub open spec fn placing(self, w: nat) -> ShelfState {
        if self.cursor_x + w > self.width {
            self.wrapped()
        } else {
            self
        }
    }

    /// The outcome of a `w x h` request: the rect placed, if any, and the
    /// state afterwards.
    pub open spec fn place(self, w: nat, h: nat) -> (Option<AtlasRect>, ShelfState) {
        if w > self.width || h > self.height {
            (None, self)
        } else {
            let s = self.placing(w);
            if s.cursor_y + h > s.height {
                (None, s)
            } else {
                (
                    Some(AtlasRect { x: s.cursor_x as u32, y: s.cursor_y as u32, w: w as u32, h: h as u32 }),
                    ShelfState {
                        cursor_x: s.cursor_x + w,
                        row_h: if h > s.row_h { h } else { s.row_h },
                        ..s
                    },
                )
            }
        }
    }

    /// `r` lies in the part of the atlas this state has already handed out:
    /// a closed row above the cursor, or the open row left of the cursor.
    pub open spec fn holds(self, r: AtlasRect) -> bool {
        ||| r.is_empty()
        ||| (r.x + r.w <= self.width && r.y + r.h <= self.cursor_y)
        ||| (r.y == self.cursor_y && r.x + r.w <= self.cursor_x && r.h <= self.row_h)
    }
}

impl View for ShelfAllocator {
    type V = ShelfState;

    closed spec fn view(&self) -> ShelfState {
        ShelfState {
            width: self.width as nat,
            height: self.height as nat,
            cursor_x: self.cursor_x as nat,
            cursor_y: self.cursor_y as nat,
            row_h: self.row_h as nat,
        }
    }
}

impl ShelfAllocator {
    pub open spec fn wf(&self) -> bool {
        self@.wf()
    }

    pub fn new(width: u32, height: u32) -> (r: Self)
        ensures
            r.wf(),
            r@ == (ShelfState { width: width as nat, height: height as nat, cursor_x: 0, cursor_y: 0, row_h: 0 }),
    {
        Self { width, height, cursor_x: 0, cursor_y: 0, row_h: 0 }
    }

    /// Place a `w x h` rect. Returns `None` when it does not fit; a request
    /// that overflows the open row starts a new row even when it then fails.
    pub fn allocate(&mut self, w: u32, h: u32) -> (r: Option<AtlasRect>)
        requires
            old(self).wf(),
        ensures
            final(self).wf(),
            (r, final(self)@) == old(self)@.place(w as nat, h as nat),
    {
        if w > self.width || h > self.height {
            return None;
        }
        if w > self.width - self.cursor_x {
            self.cursor_x = 0;
            self.cursor_y = self.cursor_y + self.row_h;
            self.row_h = 0;
        }
        if h > self.height - self.cursor_y {
            return None;
        }
        let rect = AtlasRect { x: self.cursor_x, y: self.cursor_y, w, h };
        self.cursor_x = self.cursor_x + w;
        if h > self.row_h {
            self.row_h = h;
        }
        Some(rect)
    }

    /// Forget every placed rect.
    pub fn reset(&mut self)
        requires
            old(self).wf(),
        ensures
            final(self).wf(),
            final(self)@ == (ShelfState { cursor_x: 0, cursor_y: 0, row_h: 0, ..old(self)@ }),
    {
        self.cursor_x = 0;
        self.cursor_y = 0;
        self.row_h = 0;
    }
}

/// Every rect a shelf allocator hands out lies inside the atlas, does not
/// overlap any rect handed out before it, and every earlier rect stays
/// accounted for.
pub proof fn lemma_shelf_alloc_disjoint(s: ShelfState, w: nat, h: nat, earlier: AtlasRect)
    requires
        s.wf(),
        w <= u32::MAX,
        h <= u32::MAX,
        s.holds(earlier),
    ensures
        ({
            let (r, t) = s.place(w, h);
            &&& t.wf()
            &&& t.holds(earlier)
            &&& r matches Some(rect) ==> {
                &&& rect.within(s.width as int, s.height as int)
                &&& t.holds(rect)
                &&& rect.disjoint(earlier)
            }
        }),
{
}

/// The outcome of running `requests` (widths and heights) against a shelf
/// state one after another: what each request got, and the state after the
/// last.
pub open spec fn shelf_run(s: ShelfState, requests: Seq<(nat, nat)>) -> (Seq<Option<AtlasRect>>, ShelfState)
    decreases requests.len(),
{
    if requests.len() == 0 {
        (Seq::empty(), s)
    } else {
        let (got, mid) = shelf_run(s, requests.drop_last());
        let (r, t) = mid.place(requests.last().0, requests.last().1);
        (got.push(r), t)
    }
}

/// Over any run of requests, every rect handed out lies inside the atlas and
/// no two of them overlap.
pub proof fn lemma_shelf_run_disjoint(s: ShelfState, requests: Seq<(nat, nat)>)
    requires
        s.wf(),
        forall|i: int| 0 <= i < requests.len() ==> (#[trigger] requests[i]).0 <= u32::MAX && requests[i].1 <= u32::MAX,
    ensures
        ({
            let (got, t) = shelf_run(s, requests);
            &&& t.wf()
            &&& got.len() == requests.len()
            &&& forall|i: int| 0 <= i < got.len() && (#[trigger] got[i]) is Some ==> {
                &&& got[i]->Some_0.within(s.width as int, s.height as int)
                &&& t.holds(got[i]->Some_0)
            }
            &&& forall|i: int, j: int| 0 <= i < j < got.len() && (#[trigger] got[i]) is Some && (#[trigger] got[j]) is Some
                ==> got[i]->Some_0.disjoint(got[j]->Some_0)
        }),
    decreases requests.len(),
{
    if requests.len() > 0 {
        let p = requests.drop_last();
        assert forall|i: int| 0 <= i < p.len() implies (#[trigger] p[i]).0 <= u32::MAX && p[i].1 <= u32::MAX by {
            assert(p[i] == requests[i]);
        }
        lemma_shelf_run_disjoint(s, p);
        let (got0, mid) = shelf_run(s, p);
        let (w, h) = requests.last();
        assert(requests.last() == requests[requests.len() - 1]);
        let (r, t) = mid.place(w, h);
        let got = got0.push(r);
        assert(mid.width == s.width && mid.height == s.height) by {
            lemma_shelf_run_keeps_size(s, p);
        }
        lemma_shelf_alloc_disjoint(mid, w, h, AtlasRect { x: 0, y: 0, w: 0, h: 0 });
        assert forall|i: int| 0 <= i < got.len() && (#[trigger] got[i]) is Some implies {
            &&& got[i]->Some_0.within(s.width as int, s.height as int)
            &&& t.holds(got[i]->Some_0)
        } by {
            if i < got0.len() {
                assert(got[i] == got0[i]);
                lemma_shelf_alloc_disjoint(mid, w, h, got0[i]->Some_0);
            }
        }
        assert forall|i: int, j: int| 0 <= i < j < got.len() && (#[trigger] got[i]) is Some && (#[trigger] got[j]) is Some
            implies got[i]->Some_0.disjoint(got[j]->Some_0) by {
            assert(got[i] == got0[i]);
            if j < got0.len() {
                assert(got[j] == got0[j]);
            } else {
                lemma_shelf_alloc_disjoint(mid, w, h, got0[i]->Some_0);
            }
        }
    }
}

/// A run of requests never changes the atlas size.
pub proof fn lemma_shelf_run_keeps_size(s: ShelfState, requests: Seq<(nat, nat)>)
    ensures
        shelf_run(s, requests).1.width == s.width,
        shelf_run(s, requests).1.height == s.height,
    decreases requests.len(),
{
    if requests.len() > 0 {
        lemma_shelf_run_keeps_size(s, requests.drop_last());
    }
}

} // verus!
