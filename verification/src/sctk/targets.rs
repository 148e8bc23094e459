//! The event loop's map from surfaces to render targets: where a platform
//! event is delivered, what a destroyed surface detaches, and the pixel size
//! a surface is rendered at.

use vstd::prelude::*;

use std::collections::HashMap;
use vstd::std_specs::iter::IteratorSpec;

use super::SurfaceId;
use crate::model::Size;

verus! {

broadcast use vstd::std_specs::hash::group_hash_axioms;

/// The size in physical pixels of a surface of logical size `size` at
/// integer scale `scale` (at least 1).
pub open spec fn physical_spec(size: Size, scale: i32) -> (int, int) {
    let s: int = if scale >= 1 { scale as int } else { 1 };
    (size.width * s, size.height * s)
}

/// The physical pixel size of a surface of logical size `size` at scale
/// factor `scale`; scales below 1 count as 1.
pub fn physical_size(size: Size, scale: i32) -> (r: Size)
    requires
        physical_spec(size, scale).0 <= u32::MAX,
        physical_spec(size, scale).1 <= u32::MAX,
    ensures
        r.width == physical_spec(size, scale).0,
        r.height == physical_spec(size, scale).1,
{
    let s: u32 = if scale >= 1 { scale as u32 } else { 1 };
    Size { width: size.width * s, height: size.height * s }
}

/// `delivered` is the targets of the surfaces `ks` in that order, where
/// `ks` names every surface of `targets` exactly once.
pub open spec fn delivers_once<T>(targets: Map<u32, T>, ks: Seq<u32>, delivered: Seq<T>) -> bool {
    &&& ks.no_duplicates()
    &&& ks.to_set() == targets.dom()
    &&& delivered == ks.map_values(|k: u32| targets[k])
}

/// Which render target each surface draws to.
pub struct TargetMap<T> {
    targets: HashMap<u32, T>,
}

impl<T: Copy> TargetMap<T> {
    pub closed spec fn targets(&self) -> Map<u32, T> {
        self.targets@
    }

    /// No surface is attached.
    pub fn new() -> (r: Self)
        ensures
            r.targets() == Map::<u32, T>::empty(),
    {
        TargetMap { targets: HashMap::new() }
    }

    /// Surface `sid` draws to `target` from now on.
    pub fn attach(&mut self, sid: SurfaceId, target: T)
        ensures
            final(self).targets() == old(self).targets().insert(sid.0, target),
    {
        self.targets.insert(sid.0, target);
    }

    /// The target of surface `sid`.
    pub fn target_of(&self, sid: SurfaceId) -> (r: Option<T>)
        ensures
            r == (if self.targets().contains_key(sid.0) { Some(self.targets()[sid.0]) } else { None }),
    {
        match self.targets.get(&sid.0) {
            Some(t) => Some(*t),
            None => None,
        }
    }

    /// Whether no surface is attached.
    pub fn is_empty(&self) -> (r: bool)
        ensures
            r == (self.targets().dom().len() == 0),
    {
        self.targets.len() == 0
    }

    /// Surface `sid` was destroyed: its target, if it had one, is returned
    /// to be detached; `true` when no surface is left, which ends the loop.
    pub fn surface_destroyed(&mut self, sid: SurfaceId) -> (r: (Option<T>, bool))
        ensures
            final(self).targets() == old(self).targets().remove(sid.0),
            r.0 == (if old(self).targets().contains_key(sid.0) { Some(old(self).targets()[sid.0]) } else { None }),
            r.1 == (final(self).targets().dom().len() == 0),
    {
        let detached = self.targets.remove(&sid.0);
        if detached.is_none() {
            assert(self.targets@ =~= old(self).targets().remove(sid.0));
        }
        let empty = self.targets.len() == 0;
        (detached, empty)
    }

    /// The targets an event goes to: the target of its surface when it
    /// names one (none when that surface has no target), every target when
    /// it names none.
    pub fn route(&self, sid: Option<SurfaceId>) -> (r: Vec<T>)
        ensures
            match sid {
                Some(s) => r@ == (if self.targets().contains_key(s.0) { seq![self.targets()[s.0]] } else { Seq::<T>::empty() }),
                None => {
                    &&& r@.len() == self.targets().dom().len()
                    &&& forall|k: u32| #[trigger] self.targets().contains_key(k) ==> r@.contains(self.targets()[k])
                    &&& forall|i: int| 0 <= i < r@.len() ==> self.targets().values().contains(#[trigger] r@[i])
                    &&& exists|ks: Seq<u32>| #[trigger] delivers_once(self.targets(), ks, r@)
                },
            },
    {
        match sid {
            Some(s) => match self.targets.get(&s.0) {
                Some(t) => {
                    let mut v: Vec<T> = Vec::new();
                    v.push(*t);
                    v
                },
                None => Vec::new(),
            },
            None => {
                let ghost m = self.targets@;
                let ghost all = vstd::std_specs::hash::spec_hash_map_iter(&self.targets).remaining();
                let mut out: Vec<T> = Vec::new();
                for entry in it: self.targets.iter()
                    invariant
                        m == self.targets@,
                        all == vstd::std_specs::hash::spec_hash_map_iter(&self.targets).remaining(),
                        it.seq() == all,
                        out@.len() == it.index(),
                        forall|i: int| 0 <= i < out@.len() ==> #[trigger] out@[i] == *all[i].1,
                {
                    out.push(*entry.1);
                }
                proof {
                    assert(out@.len() == all.len());
                    assert forall|k: u32| #[trigger] m.contains_key(k) implies out@.contains(m[k]) by {
                        assert(all.contains((&k, &m[k])));
                        let i = choose|i: int| 0 <= i < all.len() && all[i] == (&k, &m[k]);
                        assert(out@[i] == m[k]);
                    }
                    assert forall|i: int| 0 <= i < out@.len() implies m.values().contains(#[trigger] out@[i]) by {
                        let k = *all[i].0;
                        assert(m.contains_key(k) && m[k] == *all[i].1);
                    }
                    let ks = all.map_values(|p: (&u32, &T)| *p.0);
                    assert forall|i: int, j: int| 0 <= i < ks.len() && 0 <= j < ks.len() && i != j implies ks[i] != ks[j] by {
                        assert(m.contains_key(*all[i].0) && m[*all[i].0] == *all[i].1);
                        assert(m.contains_key(*all[j].0) && m[*all[j].0] == *all[j].1);
                        if ks[i] == ks[j] {
                            assert(all[i] == all[j]);
                        }
                    }
                    assert forall|k: u32| ks.to_set().contains(k) <==> m.dom().contains(k) by {
                        if m.contains_key(k) {
                            assert(all.contains((&k, &m[k])));
                            let i = choose|i: int| 0 <= i < all.len() && all[i] == (&k, &m[k]);
                            assert(ks[i] == k);
                        }
                        if ks.to_set().contains(k) {
                            let i = choose|i: int| 0 <= i < ks.len() && ks[i] == k;
                            assert(m.contains_key(*all[i].0));
                        }
                    }
                    assert(ks.to_set() =~= m.dom());
                    assert(out@ =~= ks.map_values(|k: u32| m[k]));
                    assert(delivers_once(m, ks, out@));
                }
                out
            },
        }
    }
}

} // verus!
