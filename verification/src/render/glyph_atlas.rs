//! Page bookkeeping of the glyph atlas: glyphs go to one of three
//! height buckets, each a small pool of atlas pages recycled least recently
//! used first.

use vstd::prelude::*;

use std::collections::HashMap;

use crate::model::Size;
use crate::render::allocator::{AllocatorKind, AtlasRect};
use crate::render::texture::{Atlas, SlotsState, TextureSlots};

verus! {

broadcast use vstd::std_specs::hash::group_hash_axioms;

/// Side length of each GPU atlas page in pixels.
pub const GLYPH_PAGE_SIZE: u32 = 1024;

/// Number of height buckets.
pub const NUM_BUCKETS: usize = 3;

/// Bucket 0 holds glyphs up to 16 px tall, bucket 1 up to 32 px, bucket 2
/// the rest.
pub open spec fn bucket_spec(h: u32) -> usize {
    if h <= 16 {
        0
    } else if h <= 32 {
        1
    } else {
        2
    }
}

/// The bucket a glyph of height `h` goes to.
pub fn bucket_for_height(h: u32) -> (r: usize)
    ensures
        r == bucket_spec(h),
{
    if h <= 16 {
        0
    } else if h <= 32 {
        1
    } else {
        2
    }
}

/// Maximum pages of each bucket before least-recently-used recycling:
/// small glyphs dominate traffic and get two pages.
pub fn bucket_cap(bucket: usize) -> (r: usize)
    requires
        bucket < NUM_BUCKETS,
    ensures
        r == (if bucket == 0 { 2usize } else { 1usize }),
{
    if bucket == 0 {
        2
    } else {
        1
    }
}

/// One atlas page of a bucket.
pub struct Page {
    pub id: usize,
    pub atlas: Atlas,
}

/// The pages of one bucket, in creation order.
pub struct PagePool {
    pages: Vec<Page>,
    cap: usize,
    /// The page tried most recently.
    current_page_id: Option<usize>,
}

/// Position of the first page among the first `k` with id `id`.
pub open spec fn position_upto(pages: Seq<Page>, id: usize, k: int) -> Option<int>
    decreases k,
{
    if k <= 0 {
        None
    } else {
        match position_upto(pages, id, k - 1) {
            Some(p) => Some(p),
            None => if pages[k - 1].id == id {
                Some(k - 1)
            } else {
                None
            },
        }
    }
}

/// The order pages are tried in: the one at `first` (if any), then every
/// other position in order.
pub open spec fn visit_order_spec(n: int, first: Option<int>) -> Seq<usize> {
    match first {
        Some(c) => seq![c as usize] + Seq::new((n - 1) as nat, |i: int| if i < c { i as usize } else { (i + 1) as usize }),
        None => Seq::new(n as nat, |i: int| i as usize),
    }
}

/// When a page was last used: its entry in `last_used`, 0 when absent.
pub open spec fn age_of(last_used: Map<usize, u64>, id: usize) -> u64 {
    if last_used.contains_key(id) {
        last_used[id]
    } else {
        0
    }
}

/// Position of the first least recently used page among the first `k`.
pub open spec fn coldest_upto(pages: Seq<Page>, last_used: Map<usize, u64>, k: int) -> Option<int>
    decreases k,
{
    if k <= 0 {
        None
    } else {
        match coldest_upto(pages, last_used, k - 1) {
            Some(p) => if age_of(last_used, pages[k - 1].id) < age_of(last_used, pages[p].id) {
                Some(k - 1)
            } else {
                Some(p)
            },
            None => Some(k - 1),
        }
    }
}

/// A `w x h` request on page `a` is refused and leaves it as `b`.
pub open spec fn refuses(a: Page, b: Page, w: nat, h: nat) -> bool {
    a.atlas.allocator.places(w, h, None, b.atlas.allocator)
}

/// `b` is page `a` with, at most, its allocator changed.
pub open spec fn same_page(a: Page, b: Page) -> bool {
    &&& a.id == b.id
    &&& a.atlas.slot_index == b.atlas.slot_index
    &&& a.atlas.generation == b.atlas.generation
    &&& a.atlas.size_px == b.atlas.size_px
}

/// What a placement attempt over the pages in visit order did: with `r`
/// `None` every page refused; with `Some((pos, rect))` the pages were tried
/// in order, those before `pos` refused, `pos` took the rect, and the pages
/// after it were not touched.
pub open spec fn tried_in_order(before: Seq<Page>, after: Seq<Page>, order: Seq<usize>, w: nat, h: nat, r: Option<(usize, AtlasRect)>) -> bool {
    match r {
        None => forall|s: int| 0 <= s < order.len() ==> refuses(before[#[trigger] order[s] as int], after[order[s] as int], w, h),
        Some((pos, rect)) => exists|t: int| {
            &&& 0 <= t < order.len()
            &&& #[trigger] order[t] == pos
            &&& forall|s: int| 0 <= s < t ==> refuses(before[#[trigger] order[s] as int], after[order[s] as int], w, h)
            &&& before[pos as int].atlas.allocator.places(w, h, Some(rect), after[pos as int].atlas.allocator)
            &&& forall|s: int| t < s < order.len() ==> after[#[trigger] order[s] as int] == before[order[s] as int]
        },
    }
}

/// `after` is `before` after an attempt to place a `w x h` rect on its
/// pages in visit order, with result `r`: page ids and textures stay, the
/// page that took the rect becomes current.
pub open spec fn inserted(before: PagePool, after: PagePool, w: nat, h: nat, r: Option<(usize, AtlasRect)>) -> bool {
    &&& after.cap() == before.cap()
    &&& after.pages().len() == before.pages().len()
    &&& forall|i: int| 0 <= i < before.pages().len() ==> same_page(before.pages()[i], #[trigger] after.pages()[i])
    &&& tried_in_order(
        before.pages(),
        after.pages(),
        visit_order_spec(before.pages().len() as int, before.current_pos()),
        w,
        h,
        r,
    )
    &&& after.current() == (match r {
        Some((pos, _)) => Some(before.pages()[pos as int].id),
        None => before.current(),
    })
    &&& (r matches Some((pos, _)) ==> pos < before.pages().len())
}

impl PagePool {
    pub closed spec fn pages(&self) -> Seq<Page> {
        self.pages@
    }

    /// Every page's atlas is well formed.
    pub open spec fn wf(&self) -> bool {
        forall|i: int| 0 <= i < self.pages().len() ==> (#[trigger] self.pages()[i]).atlas.wf()
    }

    /// Position of the current page, if there is one and it is in the pool.
    pub open spec fn current_pos(&self) -> Option<int> {
        match self.current() {
            Some(cid) => position_upto(self.pages(), cid, self.pages().len() as int),
            None => None,
        }
    }

    pub closed spec fn cap(&self) -> usize {
        self.cap
    }

    pub closed spec fn current(&self) -> Option<usize> {
        self.current_page_id
    }

    pub fn new(cap: usize) -> (r: Self)
        ensures
            r.pages() == Seq::<Page>::empty(),
            r.cap() == cap,
            r.current().is_none(),
    {
        PagePool { pages: Vec::new(), cap, current_page_id: None }
    }

    pub fn len(&self) -> (r: usize)
        ensures
            r == self.pages().len(),
    {
        self.pages.len()
    }

    /// The bucket holds as many pages as it may.
    pub fn is_full(&self) -> (r: bool)
        ensures
            r == (self.pages().len() >= self.cap()),
    {
        self.pages.len() >= self.cap
    }

    /// Position of the page with id `id`, if any.
    pub fn position(&self, id: usize) -> (r: Option<usize>)
        ensures
            match position_upto(self.pages(), id, self.pages().len() as int) {
                Some(p) => r == Some(p as usize) && 0 <= p < self.pages().len() && self.pages()[p].id == id,
                None => r.is_none(),
            },
    {
        let n = self.pages.len();
        let mut k: usize = 0;
        while k < n
            invariant
                n == self.pages@.len(),
                k <= n,
                position_upto(self.pages@, id, k as int).is_none(),
            decreases n - k,
        {
            if self.pages[k].id == id {
                assert(position_upto(self.pages@, id, k + 1) == Some(k as int));
                proof {
                    lemma_position_stays(self.pages@, id, k as int, n as int);
                }
                return Some(k);
            }
            k = k + 1;
        }
        None
    }

    /// Positions of the pages in the order to try them: the current page
    /// first, then the rest in creation order.
    pub fn visit_order(&self) -> (r: Vec<usize>)
        ensures
            r@ == visit_order_spec(self.pages().len() as int, self.current_pos()),
    {
        let n = self.pages.len();
        let first = match self.current_page_id {
            Some(cid) => self.position(cid),
            None => None,
        };
        let mut order: Vec<usize> = Vec::new();
        match first {
            Some(c) => {
                order.push(c);
                let mut i: usize = 0;
                while i < n
                    invariant
                        n == self.pages@.len(),
                        c < n,
                        i <= n,
                        order@ == seq![c] + Seq::new(
                            (if i <= c { i } else { (i - 1) as usize }) as nat,
                            |j: int| if j < c { j as usize } else { (j + 1) as usize },
                        ),
                    decreases n - i,
                {
                    if i != c {
                        order.push(i);
                    }
                    i = i + 1;
                }
                assert(order@ =~= visit_order_spec(n as int, Some(c as int)));
            },
            None => {
                let mut i: usize = 0;
                while i < n
                    invariant
                        n == self.pages@.len(),
                        i <= n,
                        order@ == Seq::new(i as nat, |j: int| j as usize),
                    decreases n - i,
                {
                    order.push(i);
                    i = i + 1;
                }
                assert(order@ =~= visit_order_spec(n as int, None));
            },
        }
        order
    }

    /// Try to place a `w x h` rect on the pages in visit order (the current
    /// page first) and make the page that takes it current. Returns the
    /// page's position and the rect, or `None` when every page refused.
    pub fn try_insert(&mut self, w: u32, h: u32) -> (r: Option<(usize, AtlasRect)>)
        requires
            old(self).wf(),
        ensures
            final(self).wf(),
            inserted(*old(self), *final(self), w as nat, h as nat, r),
    {
        let order = self.visit_order();
        let n = self.pages.len();
        let ghost before = self.pages@;
        let ghost first = self.current_pos();
        proof {
            match first {
                Some(c) => {
                    lemma_position_range(before, self.current_page_id->Some_0, n as int);
                },
                None => {},
            }
            lemma_visit_order(n as int, first);
        }
        let mut s: usize = 0;
        while s < n
            invariant
                n == before.len(),
                before == old(self).pages(),
                first == old(self).current_pos(),
                order@ == visit_order_spec(n as int, first),
                order@.len() == n,
                forall|k: int| 0 <= k < n ==> #[trigger] order@[k] < n,
                forall|a: int, b: int| 0 <= a < n && 0 <= b < n && a != b ==> #[trigger] order@[a] != #[trigger] order@[b],
                s <= n,
                self.cap == old(self).cap(),
                self.current_page_id == old(self).current(),
                self.pages@.len() == n,
                forall|i: int| 0 <= i < n ==> (#[trigger] self.pages@[i]).atlas.wf(),
                forall|i: int| 0 <= i < n ==> same_page(before[i], #[trigger] self.pages@[i]),
                forall|k: int| 0 <= k < s ==> refuses(before[#[trigger] order@[k] as int], self.pages@[order@[k] as int], w as nat, h as nat),
                forall|k: int| s <= k < n ==> self.pages@[#[trigger] order@[k] as int] == before[order@[k] as int],
            decreases n - s,
        {
            let pos = order[s];
            let ghost mid = self.pages@;
            let res = self.atlas_mut(pos).allocate(w, h);
            proof {
                assert forall|k: int| s < k < n implies self.pages@[#[trigger] order@[k] as int] == before[order@[k] as int] by {
                    assert(order@[k] != order@[s as int]);
                }
                assert forall|k: int| 0 <= k < s implies refuses(before[#[trigger] order@[k] as int], self.pages@[order@[k] as int], w as nat, h as nat) by {
                    assert(order@[k] != order@[s as int]);
                }
            }
            match res {
                Some(rect) => {
                    self.current_page_id = Some(self.pages[pos].id);
                    assert(order@[s as int] == pos);
                    return Some((pos, rect));
                },
                None => {},
            }
            s = s + 1;
        }
        None
    }

    /// The page at position `pos`.
    pub fn page(&self, pos: usize) -> (r: &Page)
        requires
            pos < self.pages().len(),
        ensures
            *r == self.pages()[pos as int],
    {
        &self.pages[pos]
    }

    /// Id of the page at position `pos`.
    pub fn page_id(&self, pos: usize) -> (r: usize)
        requires
            pos < self.pages().len(),
        ensures
            r == self.pages()[pos as int].id,
    {
        self.pages[pos].id
    }

    /// The atlas of the page at position `pos`, to allocate from.
    pub fn atlas_mut(&mut self, pos: usize) -> (r: &mut Atlas)
        requires
            pos < old(self).pages().len(),
        ensures
            *r == old(self).pages()[pos as int].atlas,
            final(self).pages() == old(self).pages().update(pos as int, Page { id: old(self).pages()[pos as int].id, atlas: *final(r) }),
            final(self).cap() == old(self).cap(),
            final(self).current() == old(self).current(),
    {
        &mut self.pages[pos].atlas
    }

    /// Make the page with id `id` the one tried first.
    pub fn set_current(&mut self, id: usize)
        ensures
            final(self).pages() == old(self).pages(),
            final(self).cap() == old(self).cap(),
            final(self).current() == Some(id),
    {
        self.current_page_id = Some(id);
    }

    /// Add a fresh page and make it the one tried first.
    pub fn add_page(&mut self, id: usize, atlas: Atlas)
        ensures
            final(self).pages() == old(self).pages().push(Page { id, atlas }),
            final(self).cap() == old(self).cap(),
            final(self).current() == Some(id),
    {
        self.pages.push(Page { id, atlas });
        self.current_page_id = Some(id);
    }

    /// Id of the least recently used page (the first of equally old ones),
    /// or `None` when the bucket has no page.
    pub fn coldest(&self, last_used: &HashMap<usize, u64>) -> (r: Option<usize>)
        ensures
            r == (match coldest_upto(self.pages(), last_used@, self.pages().len() as int) {
                Some(p) => Some(self.pages()[p].id),
                None => None::<usize>,
            }),
    {
        let n = self.pages.len();
        let mut best: Option<usize> = None;
        let mut best_age: u64 = 0;
        let mut k: usize = 0;
        while k < n
            invariant
                n == self.pages@.len(),
                k <= n,
                match coldest_upto(self.pages@, last_used@, k as int) {
                    Some(p) => best == Some(p as usize) && 0 <= p < k && best_age == age_of(last_used@, self.pages@[p].id),
                    None => best.is_none() && k == 0,
                },
            decreases n - k,
        {
            let id = self.pages[k].id;
            let age = match last_used.get(&id) {
                Some(a) => *a,
                None => 0,
            };
            match best {
                Some(_) => {
                    if age < best_age {
                        best = Some(k);
                        best_age = age;
                    }
                },
                None => {
                    best = Some(k);
                    best_age = age;
                },
            }
            k = k + 1;
        }
        match best {
            Some(p) => Some(self.pages[p].id),
            None => None,
        }
    }

    /// Take the page with id `id` out of the bucket. When it was the
    /// current page, the newest remaining page becomes current.
    pub fn remove_page(&mut self, id: usize) -> (r: Option<Page>)
        ensures
            final(self).cap() == old(self).cap(),
            match position_upto(old(self).pages(), id, old(self).pages().len() as int) {
                None => r.is_none() && final(self).pages() == old(self).pages() && final(self).current() == old(self).current(),
                Some(pos) => {
                    &&& r == Some(old(self).pages()[pos])
                    &&& final(self).pages() == old(self).pages().remove(pos)
                    &&& final(self).current() == (if old(self).current() == Some(id) {
                        if final(self).pages().len() == 0 {
                            None
                        } else {
                            Some(final(self).pages().last().id)
                        }
                    } else {
                        old(self).current()
                    })
                },
            },
    {
        let pos = match self.position(id) {
            Some(pos) => pos,
            None => return None,
        };
        let page = self.pages.remove(pos);
        if self.current_page_id == Some(id) {
            let n = self.pages.len();
            self.current_page_id = if n == 0 {
                None
            } else {
                Some(self.pages[n - 1].id)
            };
        }
        Some(page)
    }
}

/// The coldest position among the first `k` pages is one of them.
pub proof fn lemma_coldest_range(pages: Seq<Page>, last_used: Map<usize, u64>, k: int)
    ensures
        coldest_upto(pages, last_used, k) matches Some(p) ==> 0 <= p < k,
        k > 0 ==> coldest_upto(pages, last_used, k) is Some,
    decreases k,
{
    if k > 0 {
        lemma_coldest_range(pages, last_used, k - 1);
    }
}

/// A page with id `id` among the first `k` is found.
pub proof fn lemma_position_exists(pages: Seq<Page>, id: usize, p: int, k: int)
    requires
        0 <= p < k,
        pages[p].id == id,
    ensures
        position_upto(pages, id, k) is Some,
    decreases k,
{
    if k - 1 > p {
        lemma_position_exists(pages, id, p, k - 1);
    }
}

/// A position found among the first `k` pages is one of them.
pub proof fn lemma_position_range(pages: Seq<Page>, id: usize, k: int)
    ensures
        position_upto(pages, id, k) matches Some(p) ==> 0 <= p < k && pages[p].id == id,
    decreases k,
{
    if k > 0 {
        lemma_position_range(pages, id, k - 1);
    }
}

/// The visit order names every position exactly once.
pub proof fn lemma_visit_order(n: int, first: Option<int>)
    requires
        0 <= n <= usize::MAX,
        first matches Some(c) ==> 0 <= c < n,
    ensures
        visit_order_spec(n, first).len() == n,
        forall|s: int| 0 <= s < n ==> #[trigger] visit_order_spec(n, first)[s] < n,
        forall|s: int, t: int| 0 <= s < n && 0 <= t < n && s != t ==> #[trigger] visit_order_spec(n, first)[s] != #[trigger] visit_order_spec(n, first)[t],
{
    let o = visit_order_spec(n, first);
    match first {
        Some(c) => {
            let rest = Seq::new((n - 1) as nat, |i: int| if i < c { i as usize } else { (i + 1) as usize });
            assert(o == seq![c as usize] + rest);
            assert forall|s: int| 0 <= s < n implies #[trigger] o[s] < n && (o[s] == c <==> s == 0) && (s > 0 ==> (o[s] as int == if s - 1 < c { s - 1 } else { s })) by {
                if s > 0 {
                    assert(o[s] == rest[s - 1]);
                } else {
                    assert(o[0] == c as usize);
                }
            }
        },
        None => {},
    }
}

/// The page cap of bucket `b`.
pub open spec fn cap_spec(b: int) -> usize {
    if b == 0 { 2 } else { 1 }
}

/// Where a glyph was placed: the page and its texture slot, and the rect
/// inside the page.
#[derive(Clone, Copy, Debug, PartialEq, Eq, Structural)]
pub struct GlyphPlacement {
    pub page_id: usize,
    pub slot_index: usize,
    pub generation: u32,
    pub page_size: Size,
    pub rect: AtlasRect,
}

/// A page added to the atlas: its id, texture slot and size.
#[derive(Clone, Copy, Debug, PartialEq, Eq, Structural)]
pub struct NewPage {
    pub page_id: usize,
    pub slot_index: usize,
    pub generation: u32,
    pub page_size: Size,
}

/// The outcome of an upload: where the glyph went (`None` when it is larger
/// than a page), the page recycled to make room, whose glyphs are gone, and
/// the page added, whose texture must be created.
#[derive(Clone, Copy, Debug, PartialEq, Eq, Structural)]
pub struct GlyphUpload {
    pub placement: Option<GlyphPlacement>,
    pub evicted: Option<usize>,
    pub new_page: Option<NewPage>,
}

/// The description of `page` as a new page.
pub open spec fn new_page_of(page: Page) -> NewPage {
    NewPage {
        page_id: page.id,
        slot_index: page.atlas.slot_index,
        generation: page.atlas.generation,
        page_size: page.atlas.size_px,
    }
}

/// The placement a successful attempt on `pool` at position `pos` gives.
pub open spec fn placement_at(pool: PagePool, pos: int, rect: AtlasRect) -> GlyphPlacement {
    let page = pool.pages()[pos];
    GlyphPlacement {
        page_id: page.id,
        slot_index: page.atlas.slot_index,
        generation: page.atlas.generation,
        page_size: page.atlas.size_px,
        rect,
    }
}

/// `page` is a new page `id`: an empty `GLYPH_PAGE_SIZE` square atlas
/// packed by `kind` on the slot handed out next by `slots`.
pub open spec fn fresh_page(page: Page, id: usize, slots: SlotsState, kind: AllocatorKind) -> bool {
    let idx = slots.free.last();
    &&& page.id == id
    &&& page.atlas.wf()
    &&& page.atlas.slot_index == idx
    &&& page.atlas.generation == slots.gens[idx as int]
    &&& page.atlas.size_px == (Size { width: GLYPH_PAGE_SIZE, height: GLYPH_PAGE_SIZE })
    &&& page.atlas.allocator.kind() == kind
    &&& page.atlas.allocator.extent() == (GLYPH_PAGE_SIZE as nat, GLYPH_PAGE_SIZE as nat)
    &&& page.atlas.allocator.is_fresh()
}

/// The pages of the glyph atlas: three height buckets of pages, the id the
/// next page gets, the packer new pages use, and when each page was last
/// used (frames counted by `tick`).
pub struct GlyphPages {
    buckets: Vec<PagePool>,
    next_page_id: usize,
    page_allocator: AllocatorKind,
    page_last_used: HashMap<usize, u64>,
    frame: u64,
}

impl GlyphPages {
    pub closed spec fn pool(&self, b: int) -> PagePool {
        self.buckets@[b]
    }

    pub closed spec fn bucket_count(&self) -> nat {
        self.buckets@.len()
    }

    pub closed spec fn next_id(&self) -> usize {
        self.next_page_id
    }

    pub closed spec fn kind(&self) -> AllocatorKind {
        self.page_allocator
    }

    pub closed spec fn last_used(&self) -> Map<usize, u64> {
        self.page_last_used@
    }

    pub closed spec fn frame_count(&self) -> u64 {
        self.frame
    }

    pub open spec fn wf(&self) -> bool {
        &&& self.bucket_count() == NUM_BUCKETS
        &&& forall|b: int| 0 <= b < NUM_BUCKETS ==> {
            &&& (#[trigger] self.pool(b)).wf()
            &&& self.pool(b).cap() == cap_spec(b)
            &&& self.pool(b).pages().len() <= cap_spec(b)
        }
    }

    /// Every page's texture slot is one of the first `n`.
    pub open spec fn pages_within(&self, n: nat) -> bool {
        forall|b: int, i: int| 0 <= b < NUM_BUCKETS && 0 <= i < self.pool(b).pages().len() ==> (#[trigger] self.pool(b).pages()[i]).atlas.slot_index < n
    }

    /// `other` equals `self` but for the pool of bucket `b` and the use times.
    pub open spec fn same_but(&self, other: &GlyphPages, b: int) -> bool {
        &&& other.bucket_count() == self.bucket_count()
        &&& other.next_id() == self.next_id()
        &&& other.kind() == self.kind()
        &&& other.frame_count() == self.frame_count()
        &&& forall|c: int| 0 <= c < self.bucket_count() && c != b ==> #[trigger] other.pool(c) == self.pool(c)
    }

    /// `after` is `self` after trying to place a `w x h` glyph on the pages
    /// of bucket `b` in visit order, with result `r`; the page that took it
    /// is marked used.
    pub open spec fn tried(&self, after: &GlyphPages, b: int, w: nat, h: nat, r: Option<GlyphPlacement>) -> bool {
        &&& self.same_but(after, b)
        &&& match r {
            None => {
                &&& inserted(self.pool(b), after.pool(b), w, h, None)
                &&& after.last_used() == self.last_used()
            },
            Some(pl) => exists|pos: usize| {
                &&& inserted(self.pool(b), after.pool(b), w, h, Some((pos, pl.rect)))
                &&& pl == #[trigger] placement_at(self.pool(b), pos as int, pl.rect)
                &&& after.last_used() == self.last_used().insert(pl.page_id, self.frame_count())
            },
        }
    }

    /// `after` is `self` after a fresh page, made from the next free slot of
    /// `slots`, was added to bucket `b` (behind `kept`, what the bucket
    /// keeps of its pages), made current and marked used.
    pub open spec fn added_page(&self, after: &GlyphPages, b: int, kept: Seq<Page>, slots: SlotsState) -> bool {
        let id = self.next_id();
        let pa = after.pool(b);
        &&& after.bucket_count() == self.bucket_count()
        &&& after.kind() == self.kind()
        &&& after.frame_count() == self.frame_count()
        &&& forall|c: int| 0 <= c < self.bucket_count() && c != b ==> #[trigger] after.pool(c) == self.pool(c)
        &&& after.next_id() == vstd::wrapping::usize_specs::wrapping_add(id, 1)
        &&& pa.cap() == self.pool(b).cap()
        &&& pa.pages().len() == kept.len() + 1
        &&& pa.pages().drop_last() == kept
        &&& fresh_page(pa.pages().last(), id, slots, self.kind())
        &&& pa.current() == Some(id)
    }

    /// Empty buckets whose new pages are packed by `page_allocator`.
    pub fn new(page_allocator: AllocatorKind) -> (r: Self)
        ensures
            r.wf(),
            forall|b: int| 0 <= b < NUM_BUCKETS ==> (#[trigger] r.pool(b)).pages().len() == 0 && r.pool(b).current().is_none(),
            r.next_id() == 0,
            r.kind() == page_allocator,
            r.last_used() == Map::<usize, u64>::empty(),
            r.frame_count() == 0,
    {
        let mut buckets: Vec<PagePool> = Vec::new();
        buckets.push(PagePool::new(bucket_cap(0)));
        buckets.push(PagePool::new(bucket_cap(1)));
        buckets.push(PagePool::new(bucket_cap(2)));
        GlyphPages { buckets, next_page_id: 0, page_allocator, page_last_used: HashMap::new(), frame: 0 }
    }

    /// Advance the frame counter; call once per render pass, before
    /// anything is prepared, so that use times are meaningful.
    pub fn tick(&mut self)
        requires
            old(self).wf(),
        ensures
            final(self).wf(),
            final(self).bucket_count() == old(self).bucket_count(),
            final(self).next_id() == old(self).next_id(),
            final(self).kind() == old(self).kind(),
            forall|b: int| 0 <= b < old(self).bucket_count() ==> #[trigger] final(self).pool(b) == old(self).pool(b),
            final(self).frame_count() == vstd::wrapping::u64_specs::wrapping_add(old(self).frame_count(), 1),
            final(self).last_used() == old(self).last_used(),
    {
        self.frame = self.frame.wrapping_add(1);
        assert(forall|b: int| 0 <= b < NUM_BUCKETS ==> #[trigger] self.pool(b) == old(self).pool(b));
    }

    /// The current frame count.
    pub fn frame(&self) -> (r: u64)
        ensures
            r == self.frame_count(),
    {
        self.frame
    }

    /// Mark page `page_id` as used this frame (a glyph on it was drawn), so
    /// that it is not taken for cold.
    pub fn touch(&mut self, page_id: usize)
        requires
            old(self).wf(),
        ensures
            final(self).wf(),
            old(self).same_but(&*final(self), -1),
            final(self).last_used() == old(self).last_used().insert(page_id, old(self).frame_count()),
    {
        self.page_last_used.insert(page_id, self.frame);
        assert(forall|b: int| 0 <= b < NUM_BUCKETS ==> #[trigger] self.pool(b) == old(self).pool(b));
    }

    /// The frame page `page_id` was last used in, if it is known.
    pub fn last_used_of(&self, page_id: usize) -> (r: Option<u64>)
        ensures
            r == (if self.last_used().contains_key(page_id) { Some(self.last_used()[page_id]) } else { None }),
    {
        match self.page_last_used.get(&page_id) {
            Some(f) => Some(*f),
            None => None,
        }
    }

    /// Number of pages in bucket `bucket`.
    pub fn page_count(&self, bucket: usize) -> (r: usize)
        requires
            self.wf(),
            bucket < NUM_BUCKETS,
        ensures
            r == self.pool(bucket as int).pages().len(),
    {
        self.buckets[bucket].len()
    }

    /// Add a fresh page to bucket `bucket` from the next free texture slot,
    /// make it current and mark it used.
    fn alloc_page_in_bucket(&mut self, bucket: usize, slots: &mut TextureSlots)
        requires
            old(self).wf(),
            bucket < NUM_BUCKETS,
            old(self).pool(bucket as int).pages().len() < cap_spec(bucket as int),
            old(slots).wf(),
            old(slots)@.free.len() > 0,
        ensures
            final(self).wf(),
            final(slots).wf(),
            final(slots)@ == old(slots)@.taken(),
            old(self).added_page(&*final(self), bucket as int, old(self).pool(bucket as int).pages(), old(slots)@),
            final(self).last_used() == old(self).last_used().insert(old(self).next_id(), old(self).frame_count()),
            old(self).pages_within(old(slots)@.gens.len()) ==> final(self).pages_within(final(slots)@.gens.len()),
    {
        let id = self.next_page_id;
        self.next_page_id = self.next_page_id.wrapping_add(1);
        let atlas = match slots.create_atlas(GLYPH_PAGE_SIZE, GLYPH_PAGE_SIZE, self.page_allocator) {
            Some(a) => a,
            None => {
                assert(false);
                return;
            },
        };
        let mut pool = PagePool::new(0);
        std::mem::swap(&mut pool, &mut self.buckets[bucket]);
        pool.add_page(id, atlas);
        std::mem::swap(&mut pool, &mut self.buckets[bucket]);
        self.page_last_used.insert(id, self.frame);
        proof {
            let pa = self.pool(bucket as int);
            assert(pa.pages().drop_last() == old(self).pool(bucket as int).pages());
            assert forall|b: int| 0 <= b < NUM_BUCKETS implies (#[trigger] self.pool(b)).wf() && self.pool(b).cap() == cap_spec(b) && self.pool(b).pages().len() <= cap_spec(b) by {
                if b != bucket {
                    assert(self.pool(b) == old(self).pool(b));
                } else {
                    assert forall|i: int| 0 <= i < pa.pages().len() implies (#[trigger] pa.pages()[i]).atlas.wf() by {
                        if i < pa.pages().len() - 1 {
                            assert(pa.pages()[i] == old(self).pool(b).pages()[i]);
                        }
                    }
                }
            }
            if old(self).pages_within(old(slots)@.gens.len()) {
                assert(old(slots)@.free[old(slots)@.free.len() - 1] < old(slots)@.gens.len());
                assert forall|b: int, i: int| 0 <= b < NUM_BUCKETS && 0 <= i < self.pool(b).pages().len() implies (#[trigger] self.pool(b).pages()[i]).atlas.slot_index < slots@.gens.len() by {
                    if b != bucket {
                        assert(self.pool(b) == old(self).pool(b));
                    } else if i < pa.pages().len() - 1 {
                        assert(pa.pages()[i] == old(self).pool(b).pages()[i]);
                    }
                }
            }
        }
    }

    /// Recycle the least recently used page of bucket `bucket` (the first of
    /// equally old ones): its texture slot is retired and the page is
    /// replaced by a fresh one, made current. Returns the recycled page's id,
    /// whose glyphs are gone; with no page in the bucket only the fresh page
    /// is added.
    fn recycle_lru_in_bucket(&mut self, bucket: usize, slots: &mut TextureSlots) -> (r: Option<usize>)
        requires
            old(self).wf(),
            bucket < NUM_BUCKETS,
            old(slots).wf(),
            old(self).pages_within(old(slots)@.gens.len()),
            old(self).pool(bucket as int).pages().len() > 0 || old(slots)@.free.len() > 0,
        ensures
            final(self).wf(),
            final(slots).wf(),
            final(self).pages_within(final(slots)@.gens.len()),
            ({
                let pb = old(self).pool(bucket as int).pages();
                let lu = old(self).last_used();
                match coldest_upto(pb, lu, pb.len() as int) {
                    None => {
                        &&& r.is_none()
                        &&& final(slots)@ == old(slots)@.taken()
                        &&& old(self).added_page(&*final(self), bucket as int, pb, old(slots)@)
                        &&& final(self).last_used() == lu.insert(old(self).next_id(), old(self).frame_count())
                    },
                    Some(p) => {
                        let id = pb[p].id;
                        let pos = position_upto(pb, id, pb.len() as int)->Some_0;
                        let mid = old(slots)@.retired(pb[pos].atlas.slot_index as int);
                        &&& r == Some(id)
                        &&& final(slots)@ == mid.taken()
                        &&& old(self).added_page(&*final(self), bucket as int, pb.remove(pos), mid)
                        &&& final(self).last_used() == lu.remove(id).insert(old(self).next_id(), old(self).frame_count())
                    },
                }
            }),
    {
        assert(self.pool(bucket as int).wf());
        let ghost pb = self.pool(bucket as int).pages();
        proof {
            lemma_coldest_range(pb, self.page_last_used@, pb.len() as int);
        }
        let lru = self.buckets[bucket].coldest(&self.page_last_used);
        match lru {
            Some(id) => {
                proof {
                    let p = coldest_upto(pb, self.page_last_used@, pb.len() as int)->Some_0;
                    lemma_position_exists(pb, id, p, pb.len() as int);
                    lemma_position_range(pb, id, pb.len() as int);
                }
                let mut pool = PagePool::new(0);
                std::mem::swap(&mut pool, &mut self.buckets[bucket]);
                let removed = pool.remove_page(id);
                std::mem::swap(&mut pool, &mut self.buckets[bucket]);
                match removed {
                    Some(page) => {
                        let ghost pos = position_upto(pb, id, pb.len() as int)->Some_0;
                        assert(pb[pos].atlas.wf());
                        assert(old(self).pool(bucket as int).pages()[pos].atlas.slot_index < old(slots)@.gens.len());
                        let mut atlas = page.atlas;
                        slots.destroy_atlas(&mut atlas);
                        self.page_last_used.remove(&id);
                        proof {
                            let pm = self.pool(bucket as int);
                            assert(pm.pages() == pb.remove(pos));
                            assert forall|b: int| 0 <= b < NUM_BUCKETS implies (#[trigger] self.pool(b)).wf() && self.pool(b).cap() == cap_spec(b) && self.pool(b).pages().len() <= cap_spec(b) by {
                                if b != bucket {
                                    assert(self.pool(b) == old(self).pool(b));
                                } else {
                                    assert forall|i: int| 0 <= i < pm.pages().len() implies (#[trigger] pm.pages()[i]).atlas.wf() by {
                                        if i < pos {
                                            assert(pm.pages()[i] == pb[i]);
                                        } else {
                                            assert(pm.pages()[i] == pb[i + 1]);
                                        }
                                    }
                                }
                            }
                            assert forall|b: int, i: int| 0 <= b < NUM_BUCKETS && 0 <= i < self.pool(b).pages().len() implies (#[trigger] self.pool(b).pages()[i]).atlas.slot_index < slots@.gens.len() by {
                                if b != bucket {
                                    assert(self.pool(b) == old(self).pool(b));
                                } else if i < pos {
                                    assert(pm.pages()[i] == pb[i]);
                                } else {
                                    assert(pm.pages()[i] == pb[i + 1]);
                                }
                            }
                        }
                    },
                    None => {
                        assert(false);
                    },
                }
            },
            None => {},
        }
        self.alloc_page_in_bucket(bucket, slots);
        lru
    }

    /// Try to place a `w x h` glyph on a page of bucket `bucket`, the
    /// current page first. The page that takes it becomes current and is
    /// marked used.
    fn try_insert(&mut self, bucket: usize, w: u32, h: u32) -> (r: Option<GlyphPlacement>)
        requires
            old(self).wf(),
            bucket < NUM_BUCKETS,
        ensures
            final(self).wf(),
            old(self).tried(&*final(self), bucket as int, w as nat, h as nat, r),
            forall|n: nat| #[trigger] old(self).pages_within(n) ==> final(self).pages_within(n),
    {
        assert(self.pool(bucket as int).wf());
        let mut pool = PagePool::new(0);
        std::mem::swap(&mut pool, &mut self.buckets[bucket]);
        let ghost before = pool;
        let res = pool.try_insert(w, h);
        let placed = match res {
            Some((pos, rect)) => {
                let page = &pool.pages[pos];
                Some(GlyphPlacement {
                    page_id: page.id,
                    slot_index: page.atlas.slot_index,
                    generation: page.atlas.generation,
                    page_size: page.atlas.size_px,
                    rect,
                })
            },
            None => None,
        };
        std::mem::swap(&mut pool, &mut self.buckets[bucket]);
        match placed {
            Some(pl) => {
                self.page_last_used.insert(pl.page_id, self.frame);
                let ghost pos = res->Some_0.0;
                assert(pl == placement_at(before, pos as int, pl.rect));
            },
            None => {},
        }
        proof {
            assert forall|b: int| 0 <= b < NUM_BUCKETS implies (#[trigger] self.pool(b)).wf() && self.pool(b).cap() == cap_spec(b) && self.pool(b).pages().len() <= cap_spec(b) by {
                if b != bucket {
                    assert(self.pool(b) == old(self).pool(b));
                }
            }
            assert forall|n: nat| #[trigger] old(self).pages_within(n) implies self.pages_within(n) by {
                assert forall|b: int, i: int| 0 <= b < NUM_BUCKETS && 0 <= i < self.pool(b).pages().len() implies (#[trigger] self.pool(b).pages()[i]).atlas.slot_index < n by {
                    if b != bucket {
                        assert(self.pool(b) == old(self).pool(b));
                    } else {
                        assert(same_page(old(self).pool(b).pages()[i], self.pool(b).pages()[i]));
                    }
                }
            }
        }
        placed
    }

    /// The slow path of an upload to bucket `b`, from `self` to `fin`: no
    /// page had room (`m1`); a fresh page was added when the bucket was
    /// below its cap, else its least recently used page was recycled and
    /// reported as evicted (`m2`); then the glyph was tried once more.
    /// `s0` and `s_fin` are the texture slots before and after.
    pub open spec fn slow_upload(
        &self,
        m1: &GlyphPages,
        m2: &GlyphPages,
        fin: &GlyphPages,
        s0: SlotsState,
        s_fin: SlotsState,
        b: int,
        w: nat,
        h: nat,
        r: GlyphUpload,
    ) -> bool {
        let pb = m1.pool(b).pages();
        let lu = m1.last_used();
        &&& self.tried(m1, b, w, h, None)
        &&& m2.tried(fin, b, w, h, r.placement)
        &&& r.new_page == Some(new_page_of(m2.pool(b).pages().last()))
        &&& if pb.len() < m1.pool(b).cap() {
            &&& r.evicted.is_none()
            &&& m1.added_page(m2, b, pb, s0)
            &&& m2.last_used() == lu.insert(m1.next_id(), m1.frame_count())
            &&& s_fin == s0.taken()
        } else {
            let p = coldest_upto(pb, lu, pb.len() as int)->Some_0;
            let id = pb[p].id;
            let pos = position_upto(pb, id, pb.len() as int)->Some_0;
            let mid = s0.retired(pb[pos].atlas.slot_index as int);
            &&& r.evicted == Some(id)
            &&& m1.added_page(m2, b, pb.remove(pos), mid)
            &&& m2.last_used() == lu.remove(id).insert(m1.next_id(), m1.frame_count())
            &&& s_fin == mid.taken()
        }
    }

    /// Whether `upload` may be called for a glyph `h` tall: its bucket is at
    /// its cap (room is made by recycling), or a texture slot is free for a
    /// new page.
    pub fn can_upload(&self, slots: &TextureSlots, h: u32) -> (r: bool)
        requires
            self.wf(),
        ensures
            r == (self.pool(bucket_spec(h) as int).pages().len() >= cap_spec(bucket_spec(h) as int) || slots@.free.len() > 0),
    {
        let b = bucket_for_height(h);
        assert(self.pool(b as int).wf());
        self.buckets[b].is_full() || slots.free_count() > 0
    }

    /// The page added last to bucket `bucket`.
    fn newest_page(&self, bucket: usize) -> (r: NewPage)
        requires
            self.wf(),
            bucket < NUM_BUCKETS,
            self.pool(bucket as int).pages().len() > 0,
        ensures
            r == new_page_of(self.pool(bucket as int).pages().last()),
    {
        let pool = &self.buckets[bucket];
        let n = pool.len();
        let page = pool.page(n - 1);
        NewPage {
            page_id: page.id,
            slot_index: page.atlas.slot_index,
            generation: page.atlas.generation,
            page_size: page.atlas.size_px,
        }
    }

    /// Place a `w x h` glyph in the bucket for its height `h`. When no page
    /// of the bucket has room, a fresh page is added while the bucket is
    /// below its cap, or else its least recently used page is recycled (its
    /// glyphs are gone: `evicted`), and the glyph is tried once more; it
    /// fails only when it is larger than a page. A fresh page below the cap
    /// needs a free texture slot.
    pub fn upload(&mut self, slots: &mut TextureSlots, w: u32, h: u32) -> (r: GlyphUpload)
        requires
            old(self).wf(),
            old(slots).wf(),
            old(self).pages_within(old(slots)@.gens.len()),
            old(self).pool(bucket_spec(h) as int).pages().len() >= cap_spec(bucket_spec(h) as int) || old(slots)@.free.len() > 0,
        ensures
            final(self).wf(),
            final(slots).wf(),
            final(self).pages_within(final(slots)@.gens.len()),
            ({
                let b = bucket_spec(h) as int;
                ||| {
                    &&& r.evicted.is_none()
                    &&& r.new_page.is_none()
                    &&& r.placement is Some
                    &&& old(self).tried(&*final(self), b, w as nat, h as nat, r.placement)
                    &&& final(slots)@ == old(slots)@
                }
                ||| exists|m1: GlyphPages, m2: GlyphPages| #[trigger] old(self).slow_upload(&m1, &m2, &*final(self), old(slots)@, final(slots)@, b, w as nat, h as nat, r)
            }),
            w <= GLYPH_PAGE_SIZE && h <= GLYPH_PAGE_SIZE ==> r.placement is Some,
    {
        let bucket = bucket_for_height(h);
        let ghost s0 = slots@;
        match self.try_insert(bucket, w, h) {
            Some(pl) => {
                return GlyphUpload { placement: Some(pl), evicted: None, new_page: None };
            },
            None => {},
        }
        let ghost m1 = *self;
        assert(self.pool(bucket as int).wf());
        let evicted = if !self.buckets[bucket].is_full() {
            self.alloc_page_in_bucket(bucket, slots);
            None
        } else {
            proof {
                lemma_coldest_range(m1.pool(bucket as int).pages(), m1.last_used(), m1.pool(bucket as int).pages().len() as int);
            }
            self.recycle_lru_in_bucket(bucket, slots)
        };
        let ghost m2 = *self;
        let new_page = self.newest_page(bucket);
        let placement = self.try_insert(bucket, w, h);
        let r = GlyphUpload { placement, evicted, new_page: Some(new_page) };
        assert(old(self).slow_upload(&m1, &m2, &*self, s0, slots@, bucket as int, w as nat, h as nat, r));
        proof {
            if w <= GLYPH_PAGE_SIZE && h <= GLYPH_PAGE_SIZE && placement.is_none() {
                let pool = m2.pool(bucket as int);
                let pages = pool.pages();
                let n = pages.len() as int;
                let first = pool.current_pos();
                if first is Some {
                    lemma_position_range(pages, pool.current()->Some_0, n);
                }
                let k = lemma_order_reaches_last(n, first);
                let order = visit_order_spec(n, first);
                assert(refuses(pages[order[k] as int], self.pool(bucket as int).pages()[order[k] as int], w as nat, h as nat));
                assert(pages[order[k] as int] == pages.last());
                let pb = m1.pool(bucket as int).pages();
                let lu = m1.last_used();
                let made_from = if pb.len() < m1.pool(bucket as int).cap() {
                    s0
                } else {
                    let p = coldest_upto(pb, lu, pb.len() as int)->Some_0;
                    let pos = position_upto(pb, pb[p].id, pb.len() as int)->Some_0;
                    s0.retired(pb[pos].atlas.slot_index as int)
                };
                lemma_fresh_page_accepts(pages.last(), m1.next_id(), made_from, m1.kind(), w as nat, h as nat, self.pool(bucket as int).pages()[order[k] as int]);
            }
        }
        r
    }
}

/// A fresh page takes any glyph that fits in a page.
pub proof fn lemma_fresh_page_accepts(page: Page, id: usize, slots: SlotsState, kind: AllocatorKind, w: nat, h: nat, after: Page)
    requires
        fresh_page(page, id, slots, kind),
        w <= GLYPH_PAGE_SIZE,
        h <= GLYPH_PAGE_SIZE,
    ensures
        !refuses(page, after, w, h),
{
    match (page.atlas.allocator, after.atlas.allocator) {
        (crate::render::allocator::Allocator::Skyline(a), crate::render::allocator::Allocator::Skyline(b)) => {
            if w > 0 && h > 0 {
                let st = a@;
                assert(st.freed.len() == 0);
                assert(crate::render::allocator::skyline::first_fit(st.freed, w as int, h as int, 0) is None);
                reveal_with_fuel(crate::render::allocator::skyline::best_fit, 2);
                reveal_with_fuel(crate::render::allocator::skyline::max_height_upto, 2);
                assert(crate::render::allocator::skyline::best_fit(st.skyline, st.width as int, st.height as int, w as int, h as int, 1) is Some);
            }
        },
        _ => {},
    }
}

/// Every position, the last one included, comes up in the visit order.
pub proof fn lemma_order_reaches_last(n: int, first: Option<int>) -> (s: int)
    requires
        1 <= n <= usize::MAX,
        first matches Some(c) ==> 0 <= c < n,
    ensures
        0 <= s < n,
        visit_order_spec(n, first)[s] == n - 1,
{
    lemma_visit_order(n, first);
    match first {
        Some(c) => {
            if c == n - 1 {
                0
            } else {
                let rest = Seq::new((n - 1) as nat, |i: int| if i < c { i as usize } else { (i + 1) as usize });
                assert(visit_order_spec(n, first) == seq![c as usize] + rest);
                assert(visit_order_spec(n, first)[n - 1] == rest[n - 2]);
                n - 1
            }
        },
        None => n - 1,
    }
}

/// Once a position holds the id, longer prefixes keep finding it there.
pub proof fn lemma_position_stays(pages: Seq<Page>, id: usize, i: int, k: int)
    requires
        0 <= i < k,
        position_upto(pages, id, i + 1) == Some(i),
    ensures
        position_upto(pages, id, k) == Some(i),
    decreases k,
{
    if k > i + 1 {
        lemma_position_stays(pages, id, i, k - 1);
    }
}

} // verus!
