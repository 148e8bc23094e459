//! The integer decisions of drawing a frame: which batches get a depth
//! slice of their own and which slice, and where a batch's clip lies inside
//! the window.

use vstd::prelude::*;

use super::pipeline::pass::DepthUse;
use super::pipeline::registry::PipelineRegistry;
use super::pipeline::slot::PipelineId;

verus! {

/// The pipeline `id` is registered and asks for depth isolated per batch.
pub open spec fn isolating<P, C: Copy + PartialEq>(registry: PipelineRegistry<P, C>, id: PipelineId) -> bool {
    registry.requirements_at(id.0 as int) matches Some(r) && r.isolate_depth && r.depth != DepthUse::Unused
}

/// Indices, in order, of the first `k` batches whose pipeline isolates depth.
pub open spec fn isolated_upto<P, C: Copy + PartialEq>(registry: PipelineRegistry<P, C>, ids: Seq<PipelineId>, k: int) -> Seq<usize>
    decreases k,
{
    if k <= 0 {
        Seq::empty()
    } else {
        let prev = isolated_upto(registry, ids, k - 1);
        if isolating(registry, ids[k - 1]) {
            prev.push((k - 1) as usize)
        } else {
            prev
        }
    }
}

/// A batch gets a depth slice of its own exactly when its pipeline is
/// registered, uses depth, and asked for depth isolated per batch; the
/// chosen batches come in paint order, each once.
pub proof fn lemma_isolated_batches<P, C: Copy + PartialEq>(registry: PipelineRegistry<P, C>, ids: Seq<PipelineId>, k: int)
    requires
        0 <= k <= ids.len(),
        ids.len() <= usize::MAX,
    ensures
        forall|j: int| 0 <= j < isolated_upto(registry, ids, k).len() ==> {
            let i = #[trigger] isolated_upto(registry, ids, k)[j] as int;
            &&& 0 <= i < k
            &&& registry.requirements_at(ids[i].0 as int) matches Some(req) && req.isolate_depth && req.depth != DepthUse::Unused
        },
        forall|i: int| 0 <= i < k && (registry.requirements_at(#[trigger] ids[i].0 as int) matches Some(req) && req.isolate_depth
            && req.depth != DepthUse::Unused) ==> isolated_upto(registry, ids, k).contains(i as usize),
        forall|a: int, b: int| 0 <= a < b < isolated_upto(registry, ids, k).len()
            ==> #[trigger] isolated_upto(registry, ids, k)[a] < #[trigger] isolated_upto(registry, ids, k)[b],
    decreases k,
{
    if k > 0 {
        lemma_isolated_batches(registry, ids, k - 1);
        let prev = isolated_upto(registry, ids, k - 1);
        let cur = isolated_upto(registry, ids, k);
        if isolating(registry, ids[k - 1]) {
            assert(cur == prev.push((k - 1) as usize));
            assert(cur[prev.len() as int] == (k - 1) as usize);
            assert forall|i: int| 0 <= i < k && (registry.requirements_at(#[trigger] ids[i].0 as int) matches Some(req) && req.isolate_depth
                && req.depth != DepthUse::Unused) implies cur.contains(i as usize) by {
                if i < k - 1 {
                    let j = choose|j: int| 0 <= j < prev.len() && prev[j] == i as usize;
                    assert(cur[j] == prev[j]);
                }
            }
            assert forall|a: int, b: int| 0 <= a < b < cur.len() implies #[trigger] cur[a] < #[trigger] cur[b] by {
                assert(cur[a] == prev[a]);
                let pa = prev[a] as int;
                assert(0 <= pa < k - 1);
                if b < prev.len() {
                    assert(cur[b] == prev[b]);
                } else {
                    assert(cur[b] == (k - 1) as usize);
                }
            }
            assert forall|j: int| 0 <= j < cur.len() implies {
                let i = #[trigger] cur[j] as int;
                &&& 0 <= i < k
                &&& registry.requirements_at(ids[i].0 as int) matches Some(req) && req.isolate_depth && req.depth != DepthUse::Unused
            } by {
                if j < prev.len() {
                    assert(cur[j] == prev[j]);
                    let pj = prev[j] as int;
                    assert(0 <= pj < k - 1);
                } else {
                    assert(cur[j] == (k - 1) as usize);
                    assert(isolating(registry, ids[k - 1]));
                }
            }
        } else {
            assert forall|i: int| 0 <= i < k && (registry.requirements_at(#[trigger] ids[i].0 as int) matches Some(req) && req.isolate_depth
                && req.depth != DepthUse::Unused) implies cur.contains(i as usize) by {
                if i == k - 1 {
                    assert(isolating(registry, ids[k - 1]));
                }
            }
        }
    }
}

/// The indices of the batches (given by their pipeline ids) that get a
/// depth slice of their own.
pub fn isolated_batches<P, C: Copy + PartialEq>(registry: &PipelineRegistry<P, C>, batch_ids: &Vec<PipelineId>) -> (r: Vec<usize>)
    ensures
        r@ == isolated_upto(*registry, batch_ids@, batch_ids@.len() as int),
        forall|j: int| 0 <= j < r@.len() ==> {
            let i = #[trigger] r@[j] as int;
            &&& 0 <= i < batch_ids@.len()
            &&& registry.requirements_at(batch_ids@[i].0 as int) matches Some(req) && req.isolate_depth && req.depth != DepthUse::Unused
        },
        forall|i: int| 0 <= i < batch_ids@.len() && (registry.requirements_at(#[trigger] batch_ids@[i].0 as int) matches Some(req)
            && req.isolate_depth && req.depth != DepthUse::Unused) ==> r@.contains(i as usize),
        forall|a: int, b: int| 0 <= a < b < r@.len() ==> #[trigger] r@[a] < #[trigger] r@[b],
{
    proof {
        assert(batch_ids@.len() == batch_ids.len());
        lemma_isolated_batches(*registry, batch_ids@, batch_ids@.len() as int);
    }
    let mut out: Vec<usize> = Vec::new();
    let mut i: usize = 0;
    while i < batch_ids.len()
        invariant
            i <= batch_ids@.len(),
            out@ == isolated_upto(*registry, batch_ids@, i as int),
        decreases batch_ids@.len() - i,
    {
        let isolates = match registry.requirements_of(batch_ids[i]) {
            Some(r) => r.isolate_depth && r.depth != DepthUse::Unused,
            None => false,
        };
        if isolates {
            out.push(i);
        }
        i = i + 1;
    }
    out
}

/// Hands out depth slices to the isolated batches in paint order, the far
/// slice first: of `total` slices, the `m`-th batch drawn gets slice
/// `total - 1 - m`, so later-painted widgets sit nearer the camera.
pub struct DepthSlices {
    total: usize,
    seen: usize,
}

impl DepthSlices {
    pub closed spec fn total(&self) -> usize {
        self.total
    }

    pub closed spec fn seen(&self) -> usize {
        self.seen
    }

    /// `total` slices, none handed out.
    pub fn new(total: usize) -> (r: Self)
        ensures
            r.total() == total,
            r.seen() == 0,
    {
        DepthSlices { total, seen: 0 }
    }

    /// The slice of the next isolated batch.
    pub fn next(&mut self) -> (r: usize)
        requires
            old(self).seen() < old(self).total(),
        ensures
            r == old(self).total() - 1 - old(self).seen(),
            final(self).total() == old(self).total(),
            final(self).seen() == old(self).seen() + 1,
    {
        let k = self.total - 1 - self.seen;
        self.seen = self.seen + 1;
        k
    }
}

/// Successive slices strictly descend, so no two isolated batches share one.
pub proof fn lemma_slices_descend(total: int, a: int, b: int)
    requires
        0 <= a < b < total,
    ensures
        total - 1 - b < total - 1 - a,
        0 <= total - 1 - b,
{
}

/// Clamp a clip rect `(x, y, w, h)` to the `lw x lh` window: its left, top,
/// right and bottom edges.
pub fn clip_to_window(x: i32, y: i32, w: i32, h: i32, lw: i32, lh: i32) -> (r: (i32, i32, i32, i32))
    requires
        i32::MIN <= x + w <= i32::MAX,
        i32::MIN <= y + h <= i32::MAX,
        0 <= lw,
        0 <= lh,
    ensures
        r.0 == clamp(x as int, 0, lw as int),
        r.1 == clamp(y as int, 0, lh as int),
        r.2 == clamp(x + w, 0, lw as int),
        r.3 == clamp(y + h, 0, lh as int),
{
    (clamp_i32(x, 0, lw), clamp_i32(y, 0, lh), clamp_i32(x + w, 0, lw), clamp_i32(y + h, 0, lh))
}

/// `v` limited to `[lo, hi]`.
pub open spec fn clamp(v: int, lo: int, hi: int) -> int {
    if v < lo {
        lo
    } else if v > hi {
        hi
    } else {
        v
    }
}

fn clamp_i32(v: i32, lo: i32, hi: i32) -> (r: i32)
    requires
        lo <= hi,
    ensures
        r == clamp(v as int, lo as int, hi as int),
{
    if v < lo {
        lo
    } else if v > hi {
        hi
    } else {
        v
    }
}

/// Instances of pipeline `id` among the first `k` batches, given each
/// batch's pipeline and instance count.
pub open spec fn instances_upto(ids: Seq<PipelineId>, counts: Seq<u32>, id: PipelineId, k: int) -> int
    decreases k,
{
    if k <= 0 {
        0
    } else {
        instances_upto(ids, counts, id, k - 1) + if ids[k - 1] == id { counts[k - 1] as int } else { 0 }
    }
}

proof fn lemma_instances_monotone(ids: Seq<PipelineId>, counts: Seq<u32>, id: PipelineId, j: int, k: int)
    requires
        0 <= j <= k,
    ensures
        instances_upto(ids, counts, id, j) <= instances_upto(ids, counts, id, k),
    decreases k - j,
{
    if j < k {
        lemma_instances_monotone(ids, counts, id, j, k - 1);
    }
}

/// Total instances pipeline `id` draws this frame: the counts of its
/// batches summed.
pub fn instance_count(batch_ids: &Vec<PipelineId>, counts: &Vec<u32>, id: PipelineId) -> (r: u32)
    requires
        batch_ids@.len() == counts@.len(),
        instances_upto(batch_ids@, counts@, id, batch_ids@.len() as int) <= u32::MAX,
    ensures
        r == instances_upto(batch_ids@, counts@, id, batch_ids@.len() as int),
{
    let mut total: u32 = 0;
    let mut i: usize = 0;
    while i < batch_ids.len()
        invariant
            batch_ids@.len() == counts@.len(),
            i <= batch_ids@.len(),
            total == instances_upto(batch_ids@, counts@, id, i as int),
            instances_upto(batch_ids@, counts@, id, batch_ids@.len() as int) <= u32::MAX,
        decreases batch_ids@.len() - i,
    {
        proof {
            lemma_instances_monotone(batch_ids@, counts@, id, i + 1, batch_ids@.len() as int);
        }
        if batch_ids[i] == id {
            total = total + counts[i];
        }
        i = i + 1;
    }
    total
}

} // verus!
