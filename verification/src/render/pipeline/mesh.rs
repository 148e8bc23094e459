//! Mesh handles and the key hash used to name static geometry.

use vstd::prelude::*;
use vstd::string::StringSliceAdditionalSpecFns;

use std::collections::HashMap;

use crate::render::words::{cast_words, native_bytes};

verus! {

/// Stable reference to an uploaded mesh. Survives arena rebuilds: the slot
/// index is assigned once per key and never reassigned.
#[derive(Clone, Copy, Debug, PartialEq, Eq, Structural)]
pub struct MeshHandle(pub u32);

impl MeshHandle {
    /// The handle that names no mesh.
    pub fn invalid() -> (r: Self)
        ensures
            r == MeshHandle(u32::MAX),
    {
        MeshHandle(u32::MAX)
    }

    pub fn is_valid(self) -> (r: bool)
        ensures
            r == (self.0 != u32::MAX),
    {
        self.0 != u32::MAX
    }

    /// Arena slot. Sorting instances by this groups them into single draws.
    pub fn slot(self) -> (r: u32)
        ensures
            r == self.0,
    {
        self.0
    }
}

/// FNV-1a offset basis.
pub const FNV_OFFSET: u64 = 0xcbf2_9ce4_8422_2325;

/// Multiplier of each hashing step.
pub const FNV_PRIME: u64 = 0x1000_0000_01b3;

/// FNV-1a style 64-bit hash of a byte string (offset basis `FNV_OFFSET`,
/// multiplier `FNV_PRIME`).
pub open spec fn fnv1a_spec(bytes: Seq<u8>) -> u64
    decreases bytes.len(),
{
    if bytes.len() == 0 {
        FNV_OFFSET
    } else {
        let h = fnv1a_spec(bytes.drop_last());
        vstd::wrapping::u64_specs::wrapping_mul(h ^ (bytes.last() as u64), FNV_PRIME)
    }
}

/// The hash is a running state: byte strings that hash alike still hash
/// alike after the same suffix.
pub proof fn lemma_fnv1a_extends(a: Seq<u8>, b: Seq<u8>, t: Seq<u8>)
    requires
        fnv1a_spec(a) == fnv1a_spec(b),
    ensures
        fnv1a_spec(a + t) == fnv1a_spec(b + t),
    decreases t.len(),
{
    if t.len() == 0 {
        assert(a + t =~= a);
        assert(b + t =~= b);
    } else {
        lemma_fnv1a_extends(a, b, t.drop_last());
        assert((a + t).drop_last() =~= a + t.drop_last());
        assert((b + t).drop_last() =~= b + t.drop_last());
        assert((a + t).last() == t.last());
        assert((b + t).last() == t.last());
    }
}

/// The `fnv1a_spec` hash of the UTF-8 bytes of `s`.
pub fn fnv1a(s: &str) -> (r: u64)
    ensures
        r == fnv1a_spec(s.spec_bytes()),
{
    let bytes = s.as_bytes();
    let mut hash: u64 = FNV_OFFSET;
    let mut i: usize = 0;
    while i < bytes.len()
        invariant
            bytes@ == s.spec_bytes(),
            i <= bytes@.len(),
            hash == fnv1a_spec(bytes@.take(i as int)),
        decreases bytes@.len() - i,
    {
        assert(bytes@.take(i + 1).drop_last() == bytes@.take(i as int));
        hash = hash ^ (bytes[i] as u64);
        hash = hash.wrapping_mul(FNV_PRIME);
        i = i + 1;
    }
    assert(bytes@.take(i as int) == bytes@);
    hash
}

broadcast use vstd::std_specs::hash::group_hash_axioms;

/// Bytes of one mesh vertex on the GPU.
pub const VERTEX_BYTES: u64 = 48;

/// Bytes of one mesh index on the GPU.
pub const INDEX_BYTES: u64 = 4;

/// Where a mesh sits in the arena's shared buffers.
#[derive(Clone, Copy, Debug, PartialEq, Eq, Structural)]
pub struct Span {
    pub index_start: u32,
    pub index_count: u32,
    /// Added to every index at draw time, which is what lets one index
    /// buffer address many meshes.
    pub base_vertex: i32,
}

impl Span {
    /// What to write into the arena's index buffer for a mesh at this span:
    /// the byte offset of its first index and the bytes of its indices.
    pub fn index_write(&self, indices: &[u32]) -> (r: (u64, Vec<u8>))
        ensures
            r.0 == self.index_start * INDEX_BYTES,
            native_bytes(indices@, r.1@),
    {
        (self.index_start as u64 * INDEX_BYTES, cast_words(indices))
    }
}

/// The span of a mesh that is not uploaded.
pub open spec fn empty_span() -> Span {
    Span { index_start: 0, index_count: 0, base_vertex: 0 }
}

impl Default for Span {
    fn default() -> (r: Self)
        ensures
            r == empty_span(),
    {
        Span { index_start: 0, index_count: 0, base_vertex: 0 }
    }
}

/// One declared mesh: the key that owns its slot, the version its contents
/// were built from, where it was uploaded, and the frame it was last
/// declared in.
pub struct Stored<M> {
    pub key: u64,
    pub version: u64,
    pub mesh: M,
    pub span: Span,
    pub last_seen: u64,
}

/// The abstract state of a [`MeshArena`].
pub struct ArenaState<M> {
    pub keys: Map<u64, u32>,
    pub entries: Seq<Option<Stored<M>>>,
    pub dirty: bool,
    pub frame: u64,
    pub retire_after: u64,
}

/// The entry has gone untouched for more than `cutoff` frames at `now`.
pub open spec fn expired<M>(e: Option<Stored<M>>, now: u64, cutoff: u64) -> bool {
    match e {
        Some(s) => (if now >= s.last_seen { now - s.last_seen } else { 0 }) > cutoff,
        None => false,
    }
}

impl<M> ArenaState<M> {
    /// The state after forgetting `key`: its slot is emptied, not reused.
    pub open spec fn dropping(self, key: u64) -> Self {
        ArenaState {
            keys: self.keys.remove(key),
            entries: self.entries.update(self.keys[key] as int, None),
            dirty: true,
            ..self
        }
    }

    /// The state with the change flag cleared.
    pub open spec fn cleaned(self) -> Self {
        ArenaState { dirty: false, ..self }
    }

    /// `n` is this state after declaring `key` at `version` with `build`,
    /// and `r` the handle given back: a known key keeps its slot, a new key
    /// takes the next one; `build` runs (and the arena is marked for
    /// re-upload) exactly when the key had no entry or one of another
    /// version; every other slot is untouched.
    pub open spec fn declared<F: FnOnce() -> M>(self, n: Self, key: u64, version: u64, build: F, r: MeshHandle) -> bool {
        let known = self.keys.contains_key(key);
        let slot = if known { self.keys[key] as int } else { self.entries.len() as int };
        let fresh = !known || self.entries[slot]->Some_0.version != version;
        &&& r == MeshHandle(slot as u32)
        &&& n.keys == self.keys.insert(key, slot as u32)
        &&& n.entries.len() == if known { self.entries.len() } else { self.entries.len() + 1 }
        &&& forall|i: int| 0 <= i < self.entries.len() && i != slot ==> n.entries[i] == self.entries[i]
        &&& n.dirty == (self.dirty || fresh)
        &&& n.retire_after == self.retire_after
        &&& n.frame == self.frame
        &&& n.entries[slot] matches Some(s) && {
            &&& s.key == key
            &&& s.version == version
            &&& s.last_seen == self.frame
            &&& fresh ==> s.span == empty_span() && build.ensures((), s.mesh)
            &&& !fresh ==> s.span == self.entries[slot]->Some_0.span && s.mesh == self.entries[slot]->Some_0.mesh
        }
    }

    /// Every key owns exactly one occupied slot and every occupied slot is
    /// owned by its key.
    pub open spec fn wf(self) -> bool {
        &&& self.entries.len() <= u32::MAX
        &&& forall|k: u64| #[trigger] self.keys.contains_key(k) ==> {
            &&& self.keys[k] < self.entries.len()
            &&& self.entries[self.keys[k] as int] matches Some(s) && s.key == k
        }
        &&& forall|i: int| 0 <= i < self.entries.len() && (#[trigger] self.entries[i]) is Some ==> {
            &&& self.keys.contains_key(self.entries[i]->Some_0.key)
            &&& self.keys[self.entries[i]->Some_0.key] == i
        }
    }
}

/// Bytes of vertices of the first `k` meshes whose `(vertex, index)`
/// counts are given.
pub open spec fn vertex_bytes_upto(counts: Seq<Option<(u64, u64)>>, k: int) -> int
    decreases k,
{
    if k <= 0 {
        0
    } else {
        vertex_bytes_upto(counts, k - 1) + match counts[k - 1] {
            Some(c) => c.0 * VERTEX_BYTES,
            None => 0,
        }
    }
}

/// Bytes of indices of the first `k` meshes whose counts are given.
pub open spec fn index_bytes_upto(counts: Seq<Option<(u64, u64)>>, k: int) -> int
    decreases k,
{
    if k <= 0 {
        0
    } else {
        index_bytes_upto(counts, k - 1) + match counts[k - 1] {
            Some(c) => c.1 * INDEX_BYTES,
            None => 0,
        }
    }
}

/// The span of mesh `i` when the meshes are laid out back to back in slot
/// order.
pub open spec fn packed_span(counts: Seq<Option<(u64, u64)>>, i: int) -> Span {
    Span {
        index_start: (index_bytes_upto(counts, i) / INDEX_BYTES as int) as u32,
        index_count: counts[i]->Some_0.1 as u32,
        base_vertex: (vertex_bytes_upto(counts, i) / VERTEX_BYTES as int) as i32,
    }
}

/// `e` with its span replaced, when it holds a mesh.
pub open spec fn with_span<M>(e: Option<Stored<M>>, span: Span) -> Option<Stored<M>> {
    match e {
        Some(s) => Some(Stored { span, ..s }),
        None => None,
    }
}

/// The byte sums only grow along the slots.
pub proof fn lemma_bytes_monotone(counts: Seq<Option<(u64, u64)>>, j: int, k: int)
    requires
        0 <= j <= k <= counts.len(),
    ensures
        vertex_bytes_upto(counts, j) <= vertex_bytes_upto(counts, k),
        index_bytes_upto(counts, j) <= index_bytes_upto(counts, k),
    decreases k - j,
{
    if j < k {
        lemma_bytes_monotone(counts, j, k - 1);
    }
}

/// Packed meshes never overlap and all fit in the totals: the index bytes
/// and vertex bytes of slot `i` end where those of a later slot `j` may
/// start at the earliest, and the last one ends within the sums over all
/// slots. So rebuilding the arena uses exactly the bytes of the live meshes.
pub proof fn lemma_packed_disjoint(counts: Seq<Option<(u64, u64)>>, i: int, j: int)
    requires
        0 <= i < j <= counts.len(),
        counts[i] is Some,
    ensures
        index_bytes_upto(counts, i) + counts[i]->Some_0.1 * INDEX_BYTES <= index_bytes_upto(counts, j),
        vertex_bytes_upto(counts, i) + counts[i]->Some_0.0 * VERTEX_BYTES <= vertex_bytes_upto(counts, j),
        index_bytes_upto(counts, j) <= index_bytes_upto(counts, counts.len() as int),
        vertex_bytes_upto(counts, j) <= vertex_bytes_upto(counts, counts.len() as int),
{
    lemma_bytes_monotone(counts, i + 1, j);
    lemma_bytes_monotone(counts, j, counts.len() as int);
}

/// `runs` cuts `[0, slots.len())` into consecutive, non-empty, maximal runs
/// of equal mesh slots, in order.
pub open spec fn are_mesh_runs(slots: Seq<u32>, runs: Seq<(usize, usize)>) -> bool {
    &&& slots.len() == 0 ==> runs.len() == 0
    &&& slots.len() > 0 ==> runs.len() > 0 && runs[0].0 == 0 && runs.last().1 == slots.len()
    &&& forall|i: int| 0 <= i < runs.len() ==> (#[trigger] runs[i]).0 < runs[i].1 <= slots.len()
    &&& forall|i: int| 0 <= i < runs.len() - 1 ==> (#[trigger] runs[i]).1 == runs[i + 1].0
    &&& forall|i: int, k: int| 0 <= i < runs.len() && (#[trigger] runs[i]).0 <= k < runs[i].1 ==> #[trigger] slots[k] == slots[runs[i].0 as int]
    &&& forall|i: int| 0 <= i < runs.len() && (#[trigger] runs[i]).1 < slots.len() ==> slots[runs[i].1 as int] != slots[runs[i].0 as int]
}

/// The runs of consecutive instances drawing the same mesh slot: each run
/// becomes one indexed draw.
pub fn mesh_runs(slots: &Vec<u32>) -> (r: Vec<(usize, usize)>)
    ensures
        are_mesh_runs(slots@, r@),
{
    let n = slots.len();
    let mut runs: Vec<(usize, usize)> = Vec::new();
    let mut start: usize = 0;
    while start < n
        invariant
            n == slots@.len(),
            start <= n,
            start == 0 <==> runs@.len() == 0,
            runs@.len() > 0 ==> runs@[0].0 == 0 && runs@.last().1 == start,
            forall|i: int| 0 <= i < runs@.len() ==> (#[trigger] runs@[i]).0 < runs@[i].1 <= start,
            forall|i: int| 0 <= i < runs@.len() - 1 ==> (#[trigger] runs@[i]).1 == runs@[i + 1].0,
            forall|i: int, k: int| 0 <= i < runs@.len() && (#[trigger] runs@[i]).0 <= k < runs@[i].1 ==> #[trigger] slots@[k] == slots@[runs@[i].0 as int],
            forall|i: int| 0 <= i < runs@.len() && (#[trigger] runs@[i]).1 < n && runs@[i].1 < start ==> slots@[runs@[i].1 as int] != slots@[runs@[i].0 as int],
            runs@.len() > 0 && start < n ==> slots@[start as int] != slots@[runs@.last().0 as int],
        decreases n - start,
    {
        let slot = slots[start];
        let mut end = start + 1;
        while end < n && slots[end] == slot
            invariant
                n == slots@.len(),
                start < end <= n,
                slot == slots@[start as int],
                forall|k: int| start <= k < end ==> #[trigger] slots@[k] == slot,
            decreases n - end,
        {
            end = end + 1;
        }
        let ghost prev = runs@;
        runs.push((start, end));
        proof {
            assert forall|i: int, k: int| 0 <= i < runs@.len() && (#[trigger] runs@[i]).0 <= k < runs@[i].1 implies #[trigger] slots@[k] == slots@[runs@[i].0 as int] by {
                if i < prev.len() {
                    assert(runs@[i] == prev[i]);
                }
            }
            assert forall|i: int| 0 <= i < runs@.len() && (#[trigger] runs@[i]).1 < n && runs@[i].1 < end implies slots@[runs@[i].1 as int] != slots@[runs@[i].0 as int] by {
                if i < prev.len() {
                    assert(runs@[i] == prev[i]);
                    if prev[i].1 == start {
                        assert(i == prev.len() - 1);
                    }
                }
            }
        }
        start = end;
    }
    runs
}

/// Meshes are declared during `prepare` (CPU only) and uploaded once during
/// `frame`. Re-uploading rebuilds the whole arena rather than appending, so
/// changing a mesh cannot leak arena space.
pub struct MeshArena<M> {
    keys: HashMap<u64, u32>,
    entries: Vec<Option<Stored<M>>>,
    dirty: bool,
    frame: u64,
    /// Frames a mesh may go untouched before it is dropped from the arena.
    pub retire_after: u64,
}

impl<M> View for MeshArena<M> {
    type V = ArenaState<M>;

    closed spec fn view(&self) -> ArenaState<M> {
        ArenaState {
            keys: self.keys@,
            entries: self.entries@,
            dirty: self.dirty,
            frame: self.frame,
            retire_after: self.retire_after,
        }
    }
}

impl<M> MeshArena<M> {
    pub open spec fn wf(&self) -> bool {
        self@.wf()
    }

    pub fn new() -> (r: Self)
        ensures
            r.wf(),
            r@.keys == Map::<u64, u32>::empty(),
            r@.entries == Seq::<Option<Stored<M>>>::empty(),
            !r@.dirty,
            r@.frame == 0,
            r@.retire_after == 240,
    {
        MeshArena { keys: HashMap::new(), entries: Vec::new(), dirty: false, frame: 0, retire_after: 240 }
    }

    /// Declare a mesh. `build` runs only when `version` differs from the last
    /// upload for `key`, so calling this every frame is free. A new key gets
    /// the next unused slot; a known key keeps its slot.
    pub fn declare<F: FnOnce() -> M>(&mut self, key: u64, version: u64, build: F) -> (r: MeshHandle)
        requires
            old(self).wf(),
            old(self)@.keys.contains_key(key) || old(self)@.entries.len() < u32::MAX,
            build.requires(()),
        ensures
            final(self).wf(),
            r.0 < u32::MAX,
            old(self)@.declared(final(self)@, key, version, build, r),
    {
        let next = self.entries.len() as u32;
        let slot = match self.keys.get(&key) {
            Some(s) => *s,
            None => {
                self.keys.insert(key, next);
                self.entries.push(None);
                next
            },
        };
        let ghost mid = self.entries@;
        let s = slot as usize;
        assert(s < self.entries@.len());

        let needs_upload = match &self.entries[s] {
            Some(stored) => stored.version != version,
            None => true,
        };

        if needs_upload {
            let mesh = build();
            let stored = Stored { key, version, mesh, span: Span { index_start: 0, index_count: 0, base_vertex: 0 }, last_seen: self.frame };
            self.entries.set(s, Some(stored));
            self.dirty = true;
        } else {
            let mut old_entry: Option<Stored<M>> = None;
            std::mem::swap(&mut old_entry, &mut self.entries[s]);
            match old_entry {
                Some(stored) => {
                    let updated = Stored { last_seen: self.frame, ..stored };
                    self.entries.set(s, Some(updated));
                },
                None => {},
            }
        }
        proof {
            let o = old(self)@;
            let n = self@;
            assert(n.keys =~= o.keys.insert(key, slot));
            assert forall|k: u64| #[trigger] n.keys.contains_key(k) implies {
                &&& n.keys[k] < n.entries.len()
                &&& n.entries[n.keys[k] as int] matches Some(e) && e.key == k
            } by {
                if k != key {
                    assert(o.keys.contains_key(k));
                    assert(o.keys[k] != slot) by {
                        if o.keys.contains_key(key) {
                            assert(o.entries[o.keys[k] as int]->Some_0.key == k);
                        }
                    }
                }
            }
            assert forall|i: int| 0 <= i < n.entries.len() && (#[trigger] n.entries[i]) is Some implies {
                &&& n.keys.contains_key(n.entries[i]->Some_0.key)
                &&& n.keys[n.entries[i]->Some_0.key] == i
            } by {
                if i != slot {
                    assert(n.entries[i] == o.entries[i]);
                    assert(o.entries[i] is Some);
                    assert(o.keys[o.entries[i]->Some_0.key] == i);
                    assert(o.entries[i]->Some_0.key != key) by {
                        if o.entries[i]->Some_0.key == key {
                            assert(o.keys.contains_key(key));
                        }
                    }
                }
            }
        }
        MeshHandle(slot)
    }

    /// Convenience for static geometry named by a string.
    pub fn declare_named<F: FnOnce() -> M>(&mut self, name: &str, version: u64, build: F) -> (r: MeshHandle)
        requires
            old(self).wf(),
            old(self)@.keys.contains_key(fnv1a_spec(name.spec_bytes())) || old(self)@.entries.len() < u32::MAX,
            build.requires(()),
        ensures
            final(self).wf(),
            r.0 < u32::MAX,
            old(self)@.declared(final(self)@, fnv1a_spec(name.spec_bytes()), version, build, r),
    {
        let key = fnv1a(name);
        self.declare(key, version, build)
    }

    /// Forget the mesh declared under `key`; its slot is not reused.
    pub fn drop_mesh(&mut self, key: u64)
        requires
            old(self).wf(),
        ensures
            final(self).wf(),
            final(self)@.retire_after == old(self)@.retire_after,
            final(self)@.frame == old(self)@.frame,
            !old(self)@.keys.contains_key(key) ==> final(self)@ == old(self)@,
            old(self)@.keys.contains_key(key) ==> final(self)@ == old(self)@.dropping(key),
    {
        if let Some(slot) = self.keys.remove(&key) {
            let s = slot as usize;
            if s < self.entries.len() {
                self.entries.set(s, None);
                self.dirty = true;
            }
            proof {
                let o = old(self)@;
                let n = self@;
                assert forall|k: u64| #[trigger] n.keys.contains_key(k) implies {
                    &&& n.keys[k] < n.entries.len()
                    &&& n.entries[n.keys[k] as int] matches Some(e) && e.key == k
                } by {
                    assert(o.keys.contains_key(k));
                    assert(o.entries[o.keys[k] as int]->Some_0.key == k);
                }
            }
        } else {
            assert(self@.keys =~= old(self)@.keys);
        }
    }

    /// Where the mesh of `handle` sits in the buffers, if it is uploaded.
    pub fn span(&self, handle: MeshHandle) -> (r: Option<Span>)
        requires
            self.wf(),
        ensures
            r == (if handle.0 < self@.entries.len() {
                match self@.entries[handle.0 as int] {
                    Some(s) => if s.span.index_count > 0 { Some(s.span) } else { None },
                    None => None,
                }
            } else {
                None
            }),
    {
        let i = handle.0 as usize;
        if i >= self.entries.len() {
            return None;
        }
        match &self.entries[i] {
            Some(stored) => if stored.span.index_count > 0 {
                Some(stored.span)
            } else {
                None
            },
            None => None,
        }
    }

    /// The mesh in slot `slot`, if any.
    pub fn mesh(&self, slot: usize) -> (r: Option<&M>)
        requires
            self.wf(),
        ensures
            r == (if slot < self@.entries.len() {
                match self@.entries[slot as int] {
                    Some(s) => Some(&s.mesh),
                    None => None,
                }
            } else {
                None
            }),
    {
        if slot >= self.entries.len() {
            return None;
        }
        match &self.entries[slot] {
            Some(stored) => Some(&stored.mesh),
            None => None,
        }
    }

    /// Whether anything changed since the last upload.
    pub fn is_dirty(&self) -> (r: bool)
        ensures
            r == self@.dirty,
    {
        self.dirty
    }

    /// Number of slots ever handed out.
    pub fn slot_count(&self) -> (r: usize)
        ensures
            r == self@.entries.len(),
    {
        self.entries.len()
    }

    /// Start a new frame: bump the frame counter and drop every mesh that
    /// went undeclared for more than `retire_after` frames.
    pub fn advance_frame(&mut self)
        requires
            old(self).wf(),
        ensures
            final(self).wf(),
            final(self)@.retire_after == old(self)@.retire_after,
            ({
                let o = old(self)@;
                let n = final(self)@;
                let now = vstd::wrapping::u64_specs::wrapping_add(o.frame, 1);
                let cutoff = o.retire_after;
                &&& n.frame == now
                &&& n.entries.len() == o.entries.len()
                &&& forall|i: int| 0 <= i < o.entries.len() ==> #[trigger] n.entries[i] == if expired(o.entries[i], now, cutoff) {
                    None
                } else {
                    o.entries[i]
                }
                &&& forall|k: u64| #[trigger] n.keys.contains_key(k) <==> o.keys.contains_key(k) && !expired(o.entries[o.keys[k] as int], now, cutoff)
                &&& forall|k: u64| #[trigger] n.keys.contains_key(k) ==> n.keys[k] == o.keys[k]
                &&& n.dirty == (o.dirty || exists|i: int| 0 <= i < o.entries.len() && expired(#[trigger] o.entries[i], now, cutoff))
            }),
    {
        self.frame = self.frame.wrapping_add(1);
        self.retire();
    }

    /// Drop every mesh that went undeclared for more than `retire_after`
    /// frames.
    fn retire(&mut self)
        requires
            old(self).wf(),
        ensures
            final(self).wf(),
            final(self)@.retire_after == old(self)@.retire_after,
            ({
                let o = old(self)@;
                let n = final(self)@;
                let now = o.frame;
                let cutoff = o.retire_after;
                &&& n.frame == now
                &&& n.entries.len() == o.entries.len()
                &&& forall|i: int| 0 <= i < o.entries.len() ==> #[trigger] n.entries[i] == if expired(o.entries[i], now, cutoff) {
                    None
                } else {
                    o.entries[i]
                }
                &&& forall|k: u64| #[trigger] n.keys.contains_key(k) <==> o.keys.contains_key(k) && !expired(o.entries[o.keys[k] as int], now, cutoff)
                &&& forall|k: u64| #[trigger] n.keys.contains_key(k) ==> n.keys[k] == o.keys[k]
                &&& n.dirty == (o.dirty || exists|i: int| 0 <= i < o.entries.len() && expired(#[trigger] o.entries[i], now, cutoff))
            }),
    {
        let cutoff = self.retire_after;
        let now = self.frame;
        let n = self.entries.len();
        let ghost o = self@;
        let mut slot: usize = 0;
        while slot < n
            invariant
                o.wf(),
                n == o.entries.len(),
                slot <= n,
                cutoff == o.retire_after,
                self@.retire_after == o.retire_after,
                now == o.frame,
                self@.frame == o.frame,
                self@.entries.len() == n,
                forall|i: int| 0 <= i < slot ==> #[trigger] self@.entries[i] == if expired(o.entries[i], now, cutoff) {
                    None
                } else {
                    o.entries[i]
                },
                forall|i: int| slot <= i < n ==> #[trigger] self@.entries[i] == o.entries[i],
                forall|k: u64| #[trigger] self@.keys.contains_key(k) <==> o.keys.contains_key(k) && !(o.keys[k] < slot && expired(o.entries[o.keys[k] as int], now, cutoff)),
                forall|k: u64| #[trigger] self@.keys.contains_key(k) ==> self@.keys[k] == o.keys[k],
                self@.dirty == (o.dirty || exists|i: int| 0 <= i < slot && expired(#[trigger] o.entries[i], now, cutoff)),
            decreases n - slot,
        {
            let (is_old, key) = match &self.entries[slot] {
                Some(stored) => (now.saturating_sub(stored.last_seen) > cutoff, stored.key),
                None => (false, 0),
            };
            assert(is_old == expired(o.entries[slot as int], now, cutoff));
            if is_old {
                let ghost before = self@.keys;
                self.entries.set(slot, None);
                self.keys.remove(&key);
                self.dirty = true;
                proof {
                    let e = o.entries[slot as int]->Some_0;
                    assert forall|k: u64| #[trigger] self@.keys.contains_key(k) implies self@.keys[k] == o.keys[k] by {
                        assert(before.contains_key(k));
                    }
                    assert(o.keys[e.key] == slot);
                    assert forall|k: u64| #[trigger] self@.keys.contains_key(k) <==> o.keys.contains_key(k) && !(o.keys[k] < slot + 1 && expired(o.entries[o.keys[k] as int], now, cutoff)) by {
                        if o.keys.contains_key(k) && k != e.key {
                            assert(o.keys[k] != slot) by {
                                assert(o.entries[o.keys[k] as int]->Some_0.key == k);
                            }
                        }
                    }
                }
            } else {
                proof {
                    assert forall|k: u64| #[trigger] self@.keys.contains_key(k) <==> o.keys.contains_key(k) && !(o.keys[k] < slot + 1 && expired(o.entries[o.keys[k] as int], now, cutoff)) by {
                        if o.keys.contains_key(k) && o.keys[k] == slot {
                            assert(!expired(o.entries[o.keys[k] as int], now, cutoff));
                        }
                    }
                }
            }
            slot = slot + 1;
        }
        proof {
            let s = self@;
            assert forall|k: u64| #[trigger] s.keys.contains_key(k) implies {
                &&& s.keys[k] < s.entries.len()
                &&& s.entries[s.keys[k] as int] matches Some(e) && e.key == k
            } by {
                assert(o.keys.contains_key(k));
                assert(!expired(o.entries[o.keys[k] as int], now, cutoff));
            }
            assert forall|i: int| 0 <= i < s.entries.len() && (#[trigger] s.entries[i]) is Some implies {
                &&& s.keys.contains_key(s.entries[i]->Some_0.key)
                &&& s.keys[s.entries[i]->Some_0.key] == i
            } by {
                assert(o.entries[i] is Some);
                assert(!expired(o.entries[i], now, cutoff));
                let k = o.entries[i]->Some_0.key;
                assert(o.keys.contains_key(k) && o.keys[k] == i);
                assert(s.keys.contains_key(k));
            }
        }
    }

    /// Lay the live meshes out back to back in slot order, given the
    /// `(vertex, index)` counts of each slot's mesh (`None` for an empty
    /// slot), and return the bytes of vertices and of indices to upload.
    /// When either is zero nothing is uploaded: every span is cleared and
    /// the result is `None`.
    pub fn pack_spans(&mut self, counts: &Vec<Option<(u64, u64)>>) -> (r: Option<(u64, u64)>)
        requires
            old(self).wf(),
            counts@.len() == old(self)@.entries.len(),
            forall|i: int| 0 <= i < counts@.len() ==> ((#[trigger] counts@[i]) is Some <==> old(self)@.entries[i] is Some),
            vertex_bytes_upto(counts@, counts@.len() as int) <= u64::MAX,
            index_bytes_upto(counts@, counts@.len() as int) <= u64::MAX,
        ensures
            final(self).wf(),
            ({
                let o = old(self)@;
                let n = final(self)@;
                let vb = vertex_bytes_upto(counts@, counts@.len() as int);
                let ib = index_bytes_upto(counts@, counts@.len() as int);
                let empty = vb == 0 || ib == 0;
                &&& n.keys == o.keys
                &&& n.dirty == o.dirty
                &&& n.frame == o.frame
                &&& n.retire_after == o.retire_after
                &&& n.entries.len() == o.entries.len()
                &&& r == (if empty { None } else { Some((vb as u64, ib as u64)) })
                &&& forall|i: int| 0 <= i < o.entries.len() ==> #[trigger] n.entries[i] == with_span(
                    o.entries[i],
                    if empty { empty_span() } else { packed_span(counts@, i) },
                )
            }),
    {
        let n = self.entries.len();
        let ghost o = self@;
        let ghost cs = counts@;
        let mut vertex_bytes: u64 = 0;
        let mut index_bytes: u64 = 0;
        let mut i: usize = 0;
        while i < n
            invariant
                n == cs.len(),
                cs == counts@,
                i <= n,
                vertex_bytes == vertex_bytes_upto(cs, i as int),
                index_bytes == index_bytes_upto(cs, i as int),
                vertex_bytes_upto(cs, n as int) <= u64::MAX,
                index_bytes_upto(cs, n as int) <= u64::MAX,
            decreases n - i,
        {
            proof {
                lemma_bytes_monotone(cs, i + 1, n as int);
            }
            match counts[i] {
                Some(c) => {
                    vertex_bytes = vertex_bytes + c.0 * VERTEX_BYTES;
                    index_bytes = index_bytes + c.1 * INDEX_BYTES;
                },
                None => {},
            }
            i = i + 1;
        }
        let empty = vertex_bytes == 0 || index_bytes == 0;
        let mut vertex_offset: u64 = 0;
        let mut index_offset: u64 = 0;
        let mut j: usize = 0;
        while j < n
            invariant
                o.wf(),
                n == cs.len(),
                n == o.entries.len(),
                cs == counts@,
                forall|i: int| 0 <= i < cs.len() ==> ((#[trigger] cs[i]) is Some <==> o.entries[i] is Some),
                j <= n,
                empty == (vertex_bytes_upto(cs, n as int) == 0 || index_bytes_upto(cs, n as int) == 0),
                vertex_offset == vertex_bytes_upto(cs, j as int),
                index_offset == index_bytes_upto(cs, j as int),
                vertex_bytes_upto(cs, n as int) <= u64::MAX,
                index_bytes_upto(cs, n as int) <= u64::MAX,
                self@.keys == o.keys,
                self@.dirty == o.dirty,
                self@.frame == o.frame,
                self@.retire_after == o.retire_after,
                self@.entries.len() == n,
                forall|i: int| 0 <= i < j ==> #[trigger] self@.entries[i] == with_span(
                    o.entries[i],
                    if empty { empty_span() } else { packed_span(cs, i) },
                ),
                forall|i: int| j <= i < n ==> #[trigger] self@.entries[i] == o.entries[i],
            decreases n - j,
        {
            proof {
                lemma_bytes_monotone(cs, j + 1, n as int);
            }
            let mut entry: Option<Stored<M>> = None;
            std::mem::swap(&mut entry, &mut self.entries[j]);
            match entry {
                Some(stored) => {
                    let c = match counts[j] {
                        Some(c) => c,
                        None => (0, 0),
                    };
                    let span = if empty {
                        Span { index_start: 0, index_count: 0, base_vertex: 0 }
                    } else {
                        Span {
                            index_start: (index_offset / INDEX_BYTES) as u32,
                            index_count: c.1 as u32,
                            base_vertex: (vertex_offset / VERTEX_BYTES) as i32,
                        }
                    };
                    self.entries.set(j, Some(Stored { span, ..stored }));
                    vertex_offset = vertex_offset + c.0 * VERTEX_BYTES;
                    index_offset = index_offset + c.1 * INDEX_BYTES;
                },
                None => {
                    self.entries.set(j, None);
                },
            }
            j = j + 1;
        }
        proof {
            let s = self@;
            assert forall|k: u64| #[trigger] s.keys.contains_key(k) implies {
                &&& s.keys[k] < s.entries.len()
                &&& s.entries[s.keys[k] as int] matches Some(e) && e.key == k
            } by {
                assert(o.entries[o.keys[k] as int]->Some_0.key == k);
            }
            assert forall|i: int| 0 <= i < s.entries.len() && (#[trigger] s.entries[i]) is Some implies {
                &&& s.keys.contains_key(s.entries[i]->Some_0.key)
                &&& s.keys[s.entries[i]->Some_0.key] == i
            } by {
                assert(o.entries[i] is Some);
            }
        }
        if empty {
            None
        } else {
            Some((vertex_bytes, index_bytes))
        }
    }

    /// Whether anything changed since the last upload; clears the flag.
    pub fn take_dirty(&mut self) -> (r: bool)
        requires
            old(self).wf(),
        ensures
            final(self).wf(),
            final(self)@.retire_after == old(self)@.retire_after,
            r == old(self)@.dirty,
            final(self)@ == old(self)@.cleaned(),
    {
        let d = self.dirty;
        self.dirty = false;
        d
    }
}

/// A handle taken for a key stays the key's handle however many other keys
/// are declared afterwards, and keys never share a slot.
pub proof fn lemma_handles_stable<M>(s: ArenaState<M>, t: ArenaState<M>, key: u64, other: u64, slot: u32)
    requires
        s.wf(),
        t.wf(),
        s.keys.contains_key(key),
        key != other,
        t.keys == s.keys.insert(other, slot),
    ensures
        t.keys.contains_key(key),
        t.keys[key] == s.keys[key],
        t.keys[other] != t.keys[key],
{
    assert(t.keys.contains_key(key));
    assert(t.keys.contains_key(other));
    assert(t.entries[t.keys[key] as int]->Some_0.key == key);
    assert(t.entries[t.keys[other] as int]->Some_0.key == other);
}

/// Keys with live entries name pairwise distinct slots, and every such slot
/// is a valid handle.
pub proof fn lemma_live_slots_distinct<M>(s: ArenaState<M>, k1: u64, k2: u64)
    requires
        s.wf(),
        s.keys.contains_key(k1),
        s.keys.contains_key(k2),
    ensures
        s.keys[k1] < u32::MAX,
        (s.keys[k1] == s.keys[k2]) <==> (k1 == k2),
{
    assert(s.entries[s.keys[k1] as int]->Some_0.key == k1);
    assert(s.entries[s.keys[k2] as int]->Some_0.key == k2);
}

/// Dropping a key forgets its version: the next declaration of the key
/// builds its mesh again, whatever the version, in a slot of its own, and
/// marks the arena for re-upload.
pub proof fn lemma_drop_then_declare_rebuilds<M, F: FnOnce() -> M>(
    s: ArenaState<M>,
    key: u64,
    version: u64,
    build: F,
    t: ArenaState<M>,
    r: MeshHandle,
)
    requires
        s.wf(),
        s.keys.contains_key(key),
        s.dropping(key).declared(t, key, version, build, r),
    ensures
        r.0 == s.entries.len(),
        t.dirty,
        t.entries[r.0 as int] matches Some(e) && e.key == key && e.version == version && e.span == empty_span() && build.ensures((), e.mesh),
{
}

} // verus!
