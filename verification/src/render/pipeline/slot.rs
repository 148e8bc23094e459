//! Registry handing each pipeline type a stable slot index.

use vstd::prelude::*;

use std::collections::BTreeMap;

verus! {

broadcast use {vstd::std_specs::btree::group_btree_axioms, vstd::laws_cmp::group_laws_cmp};

/// Index space of pipeline slots: each key (the hash of a pipeline type's
/// name) gets the next index the first time it is asked for, and the same
/// index ever after. Indices start at 1; 0 is left for "unassigned".
pub struct SlotRegistry {
    keys: BTreeMap<u64, u32>,
    next_index: u64,
}

/// The abstract state of a [`SlotRegistry`].
pub struct RegistryState {
    pub keys: Map<u64, u32>,
    pub next_index: nat,
}

impl RegistryState {
    /// Every assigned index is below the next one, at least 1, and no two
    /// keys share one.
    pub open spec fn wf(self) -> bool {
        &&& 1 <= self.next_index <= u32::MAX + 1
        &&& forall|k: u64| #[trigger] self.keys.contains_key(k) ==> 1 <= self.keys[k] < self.next_index
        &&& forall|k1: u64, k2: u64|
            #[trigger] self.keys.contains_key(k1) && #[trigger] self.keys.contains_key(k2) && k1 != k2
                ==> self.keys[k1] != self.keys[k2]
    }
}

impl View for SlotRegistry {
    type V = RegistryState;

    closed spec fn view(&self) -> RegistryState {
        RegistryState { keys: self.keys@, next_index: self.next_index as nat }
    }
}

impl SlotRegistry {
    pub open spec fn wf(&self) -> bool {
        self@.wf()
    }

    pub fn new() -> (r: Self)
        ensures
            r.wf(),
            r@.keys == Map::<u64, u32>::empty(),
            r@.next_index == 1,
    {
        SlotRegistry { keys: BTreeMap::new(), next_index: 1 }
    }

    /// The index of `key`, assigning the next free one on first use.
    /// Whether `slot_for(key)` can answer: the key has its index, or a new
    /// index is left to give it.
    pub fn has_room_for(&self, key: u64) -> (r: bool)
        requires
            self.wf(),
        ensures
            r == (self@.keys.contains_key(key) || self@.next_index <= u32::MAX),
    {
        self.keys.contains_key(&key) || self.next_index <= 0xFFFF_FFFF
    }

    pub fn slot_for(&mut self, key: u64) -> (r: u32)
        requires
            old(self).wf(),
            old(self)@.keys.contains_key(key) || old(self)@.next_index <= u32::MAX,
        ensures
            final(self).wf(),
            old(self)@.keys.contains_key(key) ==> r == old(self)@.keys[key] && final(self)@ == old(self)@,
            !old(self)@.keys.contains_key(key) ==> {
                &&& r == old(self)@.next_index
                &&& final(self)@ == RegistryState {
                    keys: old(self)@.keys.insert(key, r),
                    next_index: old(self)@.next_index + 1,
                }
            },
    {
        match self.keys.get(&key) {
            Some(v) => *v,
            None => {
                let v = self.next_index as u32;
                self.next_index = self.next_index + 1;
                self.keys.insert(key, v);
                proof {
                    let o = old(self)@;
                    let n = self@;
                    assert forall|k: u64| #[trigger] n.keys.contains_key(k) implies 1 <= n.keys[k] < n.next_index by {
                        if k != key {
                            assert(o.keys.contains_key(k));
                        }
                    }
                    assert forall|k1: u64, k2: u64|
                        #[trigger] n.keys.contains_key(k1) && #[trigger] n.keys.contains_key(k2) && k1 != k2
                        implies n.keys[k1] != n.keys[k2] by {
                        if k1 != key && k2 != key {
                            assert(o.keys.contains_key(k1) && o.keys.contains_key(k2));
                        } else if k1 == key {
                            assert(o.keys.contains_key(k2));
                        } else {
                            assert(o.keys.contains_key(k1));
                        }
                    }
                }
                v
            },
        }
    }
}

/// Asking for a key twice gives the same index; two different keys never
/// get the same index.
pub proof fn lemma_slots_stable_and_distinct(s: RegistryState, k1: u64, k2: u64)
    requires
        s.wf(),
        s.keys.contains_key(k1),
        s.keys.contains_key(k2),
    ensures
        (s.keys[k1] == s.keys[k2]) <==> (k1 == k2),
{
}

/// Which slot allocator the process has committed to: none yet, the
/// built-in one, or a foreign one (identified by its address).
#[derive(Clone, Copy, Debug, PartialEq, Eq, Structural)]
pub enum SlotAllocState {
    Uninitialized,
    Local,
    Foreign(usize),
}

/// Configure a foreign slot allocator. Succeeds (`true`) only while no
/// allocator has been committed to; otherwise nothing changes.
pub fn set_slot_alloc(state: &mut SlotAllocState, f: usize) -> (r: bool)
    ensures
        r == (*old(state) == SlotAllocState::Uninitialized),
        r ==> *final(state) == SlotAllocState::Foreign(f),
        !r ==> *final(state) == *old(state),
{
    match *state {
        SlotAllocState::Uninitialized => {
            *state = SlotAllocState::Foreign(f);
            true
        },
        _ => false,
    }
}

/// The built-in slot allocator asked for `key`: the key's index when it has
/// one, else the next index (from 1 upward, in order of first request),
/// else 0 once every index has been handed out.
pub fn slot_alloc(registry: &mut SlotRegistry, key: u64) -> (r: u32)
    requires
        old(registry).wf(),
    ensures
        final(registry).wf(),
        (r != 0) == (old(registry)@.keys.contains_key(key) || old(registry)@.next_index <= u32::MAX),
        r != 0 ==> final(registry)@.keys.contains_key(key) && final(registry)@.keys[key] == r,
        old(registry)@.keys.contains_key(key) ==> r == old(registry)@.keys[key] && final(registry)@ == old(registry)@,
        !old(registry)@.keys.contains_key(key) && old(registry)@.next_index <= u32::MAX ==> {
            &&& r == old(registry)@.next_index
            &&& final(registry)@ == RegistryState {
                keys: old(registry)@.keys.insert(key, r),
                next_index: old(registry)@.next_index + 1,
            }
        },
        r == 0 ==> final(registry)@ == old(registry)@,
{
    if !registry.has_room_for(key) {
        return 0;
    }
    registry.slot_for(key)
}

/// Which allocator a slot request goes to: the one committed to, or the
/// built-in one when none was chosen yet, which then stays committed so a
/// foreign allocator can no longer be installed.
pub fn commit_allocator(state: &mut SlotAllocState) -> (r: SlotAllocState)
    ensures
        *old(state) == SlotAllocState::Uninitialized ==> *final(state) == SlotAllocState::Local,
        *old(state) != SlotAllocState::Uninitialized ==> *final(state) == *old(state),
        r == *final(state),
{
    if let SlotAllocState::Uninitialized = *state {
        *state = SlotAllocState::Local;
    }
    *state
}

/// Identifies the pipeline that draws an instance.
#[derive(Clone, Copy, Debug, PartialEq, Eq, Structural)]
pub struct PipelineId(pub u32);

impl PipelineId {
    /// Settle the id of a pipeline type from its memo cell and a freshly
    /// allocated candidate index: the first candidate recorded wins, so
    /// every caller sees the same id. Returns the memo's new value and the
    /// id (its index minus one).
    pub fn settle(memo: u32, candidate: u32) -> (r: (u32, PipelineId))
        requires
            candidate != 0,
        ensures
            memo == 0 ==> r == (candidate, PipelineId((candidate - 1) as u32)),
            memo != 0 ==> r == (memo, PipelineId((memo - 1) as u32)),
    {
        if memo == 0 {
            (candidate, PipelineId(candidate - 1))
        } else {
            (memo, PipelineId(memo - 1))
        }
    }

    /// Position of this pipeline in a registry.
    pub fn index(self) -> (r: usize)
        ensures
            r == self.0,
    {
        self.0 as usize
    }
}

} // verus!
