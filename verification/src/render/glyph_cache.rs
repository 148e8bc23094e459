//! Which glyphs are uploaded, with the handle to draw each and the glyph
//! page that holds it.

use vstd::prelude::*;

use std::collections::HashMap;
use vstd::std_specs::iter::IteratorSpec;

use super::glyph_atlas::GLYPH_PAGE_SIZE;
use super::texture::TextureHandle;

verus! {

broadcast use vstd::std_specs::hash::group_hash_axioms;

/// A glyph of `w x h` pixels needs no upload: it is empty, drawn with the
/// empty handle, or larger than a page, which no page can hold.
pub open spec fn skips_upload_spec(w: u32, h: u32) -> bool {
    w == 0 || h == 0 || w > GLYPH_PAGE_SIZE || h > GLYPH_PAGE_SIZE
}

/// Whether a `w x h` glyph is answered with the empty handle instead of
/// being looked up or uploaded.
pub fn skips_upload(w: u32, h: u32) -> (r: bool)
    ensures
        r == skips_upload_spec(w, h),
{
    w == 0 || h == 0 || w > GLYPH_PAGE_SIZE || h > GLYPH_PAGE_SIZE
}

/// The glyphs on the GPU, by cache key: each with its handle and the id of
/// the page that holds it.
pub struct GlyphCache {
    glyphs: HashMap<u128, (TextureHandle, usize)>,
}

impl View for GlyphCache {
    type V = Map<u128, (TextureHandle, usize)>;

    closed spec fn view(&self) -> Map<u128, (TextureHandle, usize)> {
        self.glyphs@
    }
}

/// `m` without the glyphs held by page `page`.
pub open spec fn without_page(m: Map<u128, (TextureHandle, usize)>, page: usize) -> Map<u128, (TextureHandle, usize)> {
    Map::new(|k: u128| m.contains_key(k) && m[k].1 != page, |k: u128| m[k])
}

impl GlyphCache {
    /// No glyph uploaded.
    pub fn new() -> (r: Self)
        ensures
            r@ == Map::<u128, (TextureHandle, usize)>::empty(),
    {
        GlyphCache { glyphs: HashMap::new() }
    }

    /// The handle of glyph `key`, if it is uploaded.
    pub fn lookup(&self, key: u128) -> (r: Option<TextureHandle>)
        ensures
            r == (if self@.contains_key(key) { Some(self@[key].0) } else { None }),
    {
        match self.glyphs.get(&key) {
            Some(entry) => Some(entry.0),
            None => None,
        }
    }

    /// The page holding glyph `key`, if it is uploaded.
    pub fn page_of(&self, key: u128) -> (r: Option<usize>)
        ensures
            r == (if self@.contains_key(key) { Some(self@[key].1) } else { None }),
    {
        match self.glyphs.get(&key) {
            Some(entry) => Some(entry.1),
            None => None,
        }
    }

    /// Record glyph `key` as uploaded to page `page`, drawn with `handle`.
    pub fn insert(&mut self, key: u128, handle: TextureHandle, page: usize)
        ensures
            final(self)@ == old(self)@.insert(key, (handle, page)),
    {
        self.glyphs.insert(key, (handle, page));
    }

    /// Forget every glyph on page `page`, whose space was handed to others.
    pub fn forget_page(&mut self, page: usize)
        ensures
            final(self)@ == without_page(old(self)@, page),
    {
        let ghost m = self.glyphs@;
        let ghost all = vstd::std_specs::hash::spec_hash_map_iter(&self.glyphs).remaining();
        let mut doomed: Vec<u128> = Vec::new();
        let ghost mut seen: Seq<(&u128, &(TextureHandle, usize))> = Seq::empty();
        for entry in it: self.glyphs.iter()
            invariant
                m == self.glyphs@,
                all == vstd::std_specs::hash::spec_hash_map_iter(&self.glyphs).remaining(),
                it.seq() == all,
                seen == all.take(it.index() as int),
                forall|i: int| 0 <= i < doomed@.len() ==> m.contains_key(#[trigger] doomed@[i]) && m[doomed@[i]].1 == page,
                forall|i: int| 0 <= i < seen.len() && (*seen[i].1).1 == page ==> doomed@.contains(*seen[i].0),
        {
            let ghost before = doomed@;
            let ghost prev = seen;
            proof {
                seen = seen.push(entry);
            }
            if (entry.1).1 == page {
                doomed.push(*entry.0);
            }
            proof {
                assert forall|i: int| 0 <= i < seen.len() && (*seen[i].1).1 == page implies doomed@.contains(*seen[i].0) by {
                    if i < prev.len() {
                        assert(seen[i] == prev[i]);
                        assert(before.contains(*prev[i].0));
                        let q = choose|q: int| 0 <= q < before.len() && before[q] == *prev[i].0;
                        assert(doomed@[q] == before[q]);
                    } else {
                        assert(doomed@.last() == *entry.0);
                    }
                }
            }
        }
        proof {
            assert(seen =~= all);
        }
        proof {
            assert forall|k: u128| m.contains_key(k) && m[k].1 == page implies doomed@.contains(k) by {
                assert(all.contains((&k, &m[k])));
                let i = choose|i: int| 0 <= i < all.len() && all[i] == (&k, &m[k]);
                assert(*all[i].0 == k);
            }
        }
        let n = doomed.len();
        let mut j: usize = 0;
        while j < n
            invariant
                n == doomed@.len(),
                j <= n,
                forall|i: int| 0 <= i < doomed@.len() ==> m.contains_key(#[trigger] doomed@[i]) && m[doomed@[i]].1 == page,
                forall|k: u128| m.contains_key(k) && m[k].1 == page ==> doomed@.contains(k),
                forall|k: u128| #[trigger] self.glyphs@.contains_key(k) <==> (m.contains_key(k) && !doomed@.take(j as int).contains(k)),
                forall|k: u128| #[trigger] self.glyphs@.contains_key(k) ==> self.glyphs@[k] == m[k],
            decreases n - j,
        {
            let k = doomed[j];
            self.glyphs.remove(&k);
            proof {
                let t0 = doomed@.take(j as int);
                let t1 = doomed@.take(j + 1);
                assert(t1 =~= t0.push(k));
                assert forall|x: u128| #[trigger] self.glyphs@.contains_key(x) <==> (m.contains_key(x) && !t1.contains(x)) by {
                    if t1.contains(x) && x != k {
                        let i = choose|i: int| 0 <= i < t1.len() && t1[i] == x;
                        assert(t0[i] == x);
                    }
                    if t0.contains(x) {
                        let i = choose|i: int| 0 <= i < t0.len() && t0[i] == x;
                        assert(t1[i] == x);
                    }
                    if x == k {
                        assert(t1[j as int] == x);
                    }
                }
            }
            j = j + 1;
        }
        proof {
            assert(doomed@.take(n as int) =~= doomed@);
            assert forall|k: u128| #[trigger] self.glyphs@.contains_key(k) <==> without_page(m, page).contains_key(k) by {
                if doomed@.contains(k) {
                    let i = choose|i: int| 0 <= i < doomed@.len() && doomed@[i] == k;
                    assert(m[doomed@[i]].1 == page);
                }
            }
            assert(self.glyphs@ =~= without_page(m, page));
        }
    }
}

} // verus!
