//! Slot and generation bookkeeping of the bindless texture array.
//!
//! Each slot of the array is either live (a texture or atlas is bound to it)
//! or on the free list. Handles carry the slot's generation at the time they
//! were made; unloading bumps the generation, so stale handles are refused.

use vstd::prelude::*;

use super::{Atlas, TextureHandle};
use crate::model::Size;
use crate::render::allocator::AllocatorKind;
use crate::render::words::{cast_words, native_bytes};
use crate::render::pack::{pack_slot_gen, slot_gen_parts, slot_gen_word, unpack_slot_gen};

verus! {

/// The abstract state of a [`TextureSlots`].
pub struct SlotsState {
    /// Whether a texture is bound to each slot.
    pub live: Seq<bool>,
    /// The current generation of each slot.
    pub gens: Seq<u32>,
    /// Free slots; the last one is handed out next.
    pub free: Seq<usize>,
}

impl SlotsState {
    pub open spec fn wf(self) -> bool {
        &&& self.live.len() == self.gens.len()
        &&& self.gens.len() <= usize::MAX
        &&& forall|i: int| 0 <= i < self.free.len() ==> #[trigger] self.free[i] < self.gens.len()
    }

    /// The slot a handle names, if it is in range and of the slot's current
    /// generation.
    pub open spec fn current_slot(self, handle: TextureHandle) -> Option<int> {
        let (idx, generation) = slot_gen_parts(handle.slot_gen as int);
        if idx < self.gens.len() && self.gens[idx] == generation {
            Some(idx)
        } else {
            None
        }
    }

    /// The state after the slot handed out next becomes live.
    pub open spec fn taken(self) -> SlotsState {
        let idx = self.free.last() as int;
        SlotsState { live: self.live.update(idx, true), free: self.free.drop_last(), ..self }
    }

    /// The state after slot `idx` is retired: no longer live, a new
    /// generation, back on the free list.
    pub open spec fn retired(self, idx: int) -> SlotsState {
        SlotsState {
            live: self.live.update(idx, false),
            gens: self.gens.update(idx, vstd::wrapping::u32_specs::wrapping_add(self.gens[idx], 1)),
            free: self.free.push(idx as usize),
        }
    }
}

/// Which slots of the texture array are in use, at which generation, and
/// which are free.
pub struct TextureSlots {
    live: Vec<bool>,
    gens: Vec<u32>,
    free: Vec<usize>,
}

impl View for TextureSlots {
    type V = SlotsState;

    closed spec fn view(&self) -> SlotsState {
        SlotsState { live: self.live@, gens: self.gens@, free: self.free@ }
    }
}

impl TextureSlots {
    pub open spec fn wf(&self) -> bool {
        self@.wf()
    }

    /// `n` free slots at generation 0, handed out lowest first.
    pub fn new(n: usize) -> (r: Self)
        ensures
            r.wf(),
            r@.live == Seq::new(n as nat, |i: int| false),
            r@.gens == Seq::new(n as nat, |i: int| 0u32),
            r@.free == Seq::new(n as nat, |i: int| (n - 1 - i) as usize),
    {
        let mut live: Vec<bool> = Vec::new();
        let mut gens: Vec<u32> = Vec::new();
        let mut free: Vec<usize> = Vec::new();
        let mut i: usize = 0;
        while i < n
            invariant
                i <= n,
                live@ == Seq::new(i as nat, |k: int| false),
                gens@ == Seq::new(i as nat, |k: int| 0u32),
                free@ == Seq::new(i as nat, |k: int| (n - 1 - k) as usize),
            decreases n - i,
        {
            live.push(false);
            gens.push(0);
            free.push(n - 1 - i);
            i = i + 1;
        }
        let r = TextureSlots { live, gens, free };
        assert(r@.wf());
        r
    }

    /// Number of slots.
    pub fn len(&self) -> (r: usize)
        requires
            self.wf(),
        ensures
            r == self@.gens.len(),
    {
        self.gens.len()
    }

    /// Number of free slots.
    pub fn free_count(&self) -> (r: usize)
        ensures
            r == self@.free.len(),
    {
        self.free.len()
    }

    /// The current generation of slot `idx`, as the shader must see it.
    pub fn generation(&self, idx: usize) -> (r: u32)
        requires
            self.wf(),
            idx < self@.gens.len(),
        ensures
            r == self@.gens[idx as int],
    {
        self.gens[idx]
    }

    /// What to write into the shader's generation buffer for slot `idx`: the
    /// byte offset of the slot's word and the bytes of its generation.
    pub fn generation_write(&self, idx: usize) -> (r: (u64, Vec<u8>))
        requires
            self.wf(),
            idx < self@.gens.len(),
            4 * idx <= u64::MAX,
        ensures
            r.0 == 4 * idx,
            native_bytes(seq![self@.gens[idx as int]], r.1@),
    {
        let mut words: Vec<u32> = Vec::new();
        words.push(self.gens[idx]);
        assert(words@ == seq![self@.gens[idx as int]]);
        let bytes = cast_words(words.as_slice());
        (idx as u64 * 4, bytes)
    }

    /// Whether a texture is bound to slot `idx`.
    pub fn is_live(&self, idx: usize) -> (r: bool)
        requires
            self.wf(),
            idx < self@.gens.len(),
        ensures
            r == self@.live[idx as int],
    {
        self.live[idx]
    }

    /// Take the next free slot for a whole `width x height` image and return
    /// its handle (full UV scale, zero offset), or `None` when every slot is
    /// in use.
    pub fn load(&mut self, width: u32, height: u32) -> (r: Option<TextureHandle>)
        requires
            old(self).wf(),
        ensures
            final(self).wf(),
            old(self)@.free.len() == 0 ==> r.is_none() && final(self)@ == old(self)@,
            old(self)@.free.len() > 0 ==> {
                let idx = old(self)@.free.last() as int;
                &&& r == Some(TextureHandle {
                    slot_gen: slot_gen_word(idx, old(self)@.gens[idx] as int) as u32,
                    scale_packed: 0xFFFF_FFFF,
                    offset_packed: 0,
                    size_px: Size { width, height },
                })
                &&& final(self)@ == old(self)@.taken()
            },
    {
        let idx = match self.free.pop() {
            Some(idx) => idx,
            None => return None,
        };
        assert(old(self)@.free[old(self)@.free.len() - 1] < old(self)@.gens.len());
        self.live.set(idx, true);
        let slot_gen = pack_slot_gen(idx, self.gens[idx]);
        Some(TextureHandle {
            slot_gen,
            // The packed UV scale (1, 1) and offset (0, 0).
            scale_packed: 0xFFFF_FFFF,
            offset_packed: 0,
            size_px: Size { width, height },
        })
    }

    /// The slot whose contents `handle` may overwrite: in range, of the
    /// slot's current generation, and live.
    pub fn writable_slot(&self, handle: TextureHandle) -> (r: Option<usize>)
        requires
            self.wf(),
        ensures
            r == (match self@.current_slot(handle) {
                Some(idx) => if self@.live[idx] { Some(idx as usize) } else { None },
                None => None,
            }),
    {
        let (idx, generation) = unpack_slot_gen(handle.slot_gen);
        if idx >= self.gens.len() {
            return None;
        }
        if self.gens[idx] != generation {
            return None;
        }
        if !self.live[idx] {
            return None;
        }
        Some(idx)
    }

    /// Release the slot `handle` names. Refused (`false`) for a handle out of
    /// range or of an older generation.
    pub fn unload(&mut self, handle: TextureHandle) -> (r: bool)
        requires
            old(self).wf(),
        ensures
            final(self).wf(),
            match old(self)@.current_slot(handle) {
                Some(idx) => r && final(self)@ == old(self)@.retired(idx),
                None => !r && final(self)@ == old(self)@,
            },
    {
        let (idx, generation) = unpack_slot_gen(handle.slot_gen);
        if idx >= self.gens.len() {
            return false;
        }
        if self.gens[idx] != generation {
            return false;
        }
        self.retire(idx);
        true
    }

    fn retire(&mut self, idx: usize)
        requires
            old(self).wf(),
            idx < old(self)@.gens.len(),
        ensures
            final(self).wf(),
            final(self)@ == old(self)@.retired(idx as int),
    {
        self.live.set(idx, false);
        let g = self.gens[idx].wrapping_add(1);
        self.gens.set(idx, g);
        self.free.push(idx);
        assert forall|i: int| 0 <= i < self.free@.len() implies #[trigger] self.free@[i] < self.gens@.len() by {
            if i < old(self).free@.len() {
                assert(self.free@[i] == old(self)@.free[i]);
                assert(old(self)@.free[i] < old(self)@.gens.len());
            }
        }
    }

    /// Take the next free slot for a `width x height` atlas packed by
    /// `kind`, or `None` when every slot is in use.
    pub fn create_atlas(&mut self, width: u32, height: u32, kind: AllocatorKind) -> (r: Option<Atlas>)
        requires
            old(self).wf(),
        ensures
            final(self).wf(),
            old(self)@.free.len() == 0 ==> r.is_none() && final(self)@ == old(self)@,
            old(self)@.free.len() > 0 ==> {
                let idx = old(self)@.free.last() as int;
                &&& final(self)@ == old(self)@.taken()
                &&& r matches Some(atlas) && {
                    &&& atlas.wf()
                    &&& atlas.slot_index == idx
                    &&& atlas.generation == old(self)@.gens[idx]
                    &&& atlas.size_px == (Size { width, height })
                    &&& atlas.allocator.kind() == kind
                    &&& atlas.allocator.extent() == (width as nat, height as nat)
                    &&& atlas.allocator.is_fresh()
                }
            },
    {
        let idx = match self.free.pop() {
            Some(idx) => idx,
            None => return None,
        };
        assert(old(self)@.free[old(self)@.free.len() - 1] < old(self)@.gens.len());
        self.live.set(idx, true);
        Some(Atlas::new(idx, self.gens[idx], Size::new(width, height), kind))
    }

    /// Retire the slot of `atlas` and empty the atlas: zero size, reset
    /// allocator, the slot's new generation.
    pub fn destroy_atlas(&mut self, atlas: &mut Atlas)
        requires
            old(self).wf(),
            old(atlas).wf(),
            old(atlas).slot_index < old(self)@.gens.len(),
        ensures
            final(self).wf(),
            final(self)@ == old(self)@.retired(old(atlas).slot_index as int),
            final(atlas).wf(),
            final(atlas).slot_index == old(atlas).slot_index,
            final(atlas).generation == final(self)@.gens[old(atlas).slot_index as int],
            final(atlas).size_px == (Size { width: 0, height: 0 }),
            final(atlas).allocator.kind() == old(atlas).allocator.kind(),
            final(atlas).allocator.extent() == old(atlas).allocator.extent(),
            final(atlas).allocator.is_fresh(),
    {
        let idx = atlas.slot_index;
        self.retire(idx);
        atlas.size_px = Size::new(0, 0);
        atlas.allocator.reset();
        atlas.generation = self.gens[idx];
    }
}

/// Once a slot is released, every handle that named it is refused: the
/// generation it carries is no longer the slot's.
pub proof fn lemma_unload_rejects_stale(s: SlotsState, handle: TextureHandle, idx: int)
    requires
        s.wf(),
        s.current_slot(handle) == Some(idx),
    ensures
        s.retired(idx).current_slot(handle).is_none(),
{
}

/// One step of the slot bookkeeping in which no generation wraps around: a
/// load takes the next free slot, or an unload retires a slot whose
/// generation is below `u32::MAX`.
pub open spec fn slot_step(s: SlotsState, t: SlotsState) -> bool {
    ||| s.free.len() > 0 && t == s.taken()
    ||| exists|j: int| 0 <= j < s.gens.len() && s.gens[j] < u32::MAX && t == #[trigger] s.retired(j)
}

/// Through any run of such steps every slot keeps its place and its
/// generation never goes down.
pub proof fn lemma_generations_grow(trace: Seq<SlotsState>, idx: int)
    requires
        trace.len() > 0,
        0 <= idx < trace[0].gens.len(),
        forall|i: int| 0 <= i < trace.len() - 1 ==> slot_step(#[trigger] trace[i], trace[i + 1]),
    ensures
        trace.last().gens.len() == trace[0].gens.len(),
        trace.last().gens[idx] >= trace[0].gens[idx],
    decreases trace.len(),
{
    if trace.len() > 1 {
        let p = trace.drop_last();
        assert forall|i: int| 0 <= i < p.len() - 1 implies slot_step(#[trigger] p[i], p[i + 1]) by {
            assert(p[i] == trace[i] && p[i + 1] == trace[i + 1]);
            assert(slot_step(trace[i], trace[i + 1]));
        }
        lemma_generations_grow(p, idx);
        let a = trace[trace.len() - 2];
        let b = trace.last();
        assert(a == p.last());
        assert(slot_step(a, b));
        if !(a.free.len() > 0 && b == a.taken()) {
            let j = choose|j: int| 0 <= j < a.gens.len() && a.gens[j] < u32::MAX && b == #[trigger] a.retired(j);
            assert(b.gens == a.gens.update(j, (a.gens[j] + 1) as u32));
        }
    }
}

/// A handle made before its slot was last released stays refused through
/// any later run of loads and unloads in which no generation wraps around.
pub proof fn lemma_stale_stays_stale(trace: Seq<SlotsState>, handle: TextureHandle)
    requires
        trace.len() > 0,
        forall|i: int| 0 <= i < trace.len() - 1 ==> slot_step(#[trigger] trace[i], trace[i + 1]),
        0 <= slot_gen_parts(handle.slot_gen as int).0 < trace[0].gens.len(),
        slot_gen_parts(handle.slot_gen as int).1 < trace[0].gens[slot_gen_parts(handle.slot_gen as int).0],
    ensures
        trace.last().current_slot(handle).is_none(),
{
    lemma_generations_grow(trace, slot_gen_parts(handle.slot_gen as int).0);
}

} // verus!
