//! Bookkeeping of the app's Wayland surfaces: which exist, under which
//! protocol id, with which role, size and output, whether the compositor
//! configured them, and which one has keyboard focus. Configure events and
//! input are routed through it.

use vstd::prelude::*;

use std::collections::HashMap;
use vstd::std_specs::iter::IteratorSpec;

use super::SurfaceId;
use crate::model::Size;

verus! {

broadcast use vstd::std_specs::hash::group_hash_axioms;

/// The shell role of a surface.
#[derive(Clone, Copy, Debug, PartialEq, Eq, Structural)]
pub enum SurfaceRole {
    Layer,
    Xdg,
    Lock,
}

/// One surface: configured yet, its `wl_surface` protocol id, current
/// size, role, and the protocol id of its output when it is bound to one.
#[derive(Clone, Copy, Debug, PartialEq, Eq, Structural)]
pub struct SurfaceRecord {
    pub configured: bool,
    pub wl_id: u32,
    pub size: Size,
    pub role: SurfaceRole,
    pub output: Option<u32>,
}

/// What a configure did: the surface it reached and its new size when the
/// size changed.
#[derive(Clone, Copy, Debug, PartialEq, Eq, Structural)]
pub struct Configured {
    pub surface: SurfaceId,
    pub resized: Option<Size>,
}

/// A kind of pointer event.
#[derive(Clone, Copy, Debug, PartialEq, Eq, Structural)]
pub enum PointerKind {
    Enter,
    Leave,
    Motion,
    Press,
    Release,
    Axis,
}

/// The abstract state of a [`SurfaceTable`].
pub struct SurfacesState {
    pub surfaces: Map<u32, SurfaceRecord>,
    pub by_wl: Map<u32, SurfaceId>,
    pub focus: Option<SurfaceId>,
}

impl SurfacesState {
    /// The record reached from protocol id `wl`, if both lookups succeed.
    pub open spec fn lookup(self, wl: u32) -> Option<(SurfaceId, SurfaceRecord)> {
        if self.by_wl.contains_key(wl) && self.surfaces.contains_key(self.by_wl[wl].0) {
            Some((self.by_wl[wl], self.surfaces[self.by_wl[wl].0]))
        } else {
            None
        }
    }
}

/// Some lock surface among `surfaces` sits on `wl_surface` `w`.
pub open spec fn is_lock_wl(surfaces: Map<u32, SurfaceRecord>, w: u32) -> bool {
    exists|k: u32| #[trigger] surfaces.contains_key(k) && surfaces[k].role == SurfaceRole::Lock && surfaces[k].wl_id == w
}

/// Surfaces by id, the id of each `wl_surface`, and the keyboard focus.
pub struct SurfaceTable {
    surfaces: HashMap<u32, SurfaceRecord>,
    by_surface_id: HashMap<u32, SurfaceId>,
    kbd_focus: Option<SurfaceId>,
}

impl View for SurfaceTable {
    type V = SurfacesState;

    closed spec fn view(&self) -> SurfacesState {
        SurfacesState { surfaces: self.surfaces@, by_wl: self.by_surface_id@, focus: self.kbd_focus }
    }
}

/// Two optional outputs are the same: both absent, or the same protocol id.
pub open spec fn same_output_spec(a: Option<u32>, b: Option<u32>) -> bool {
    a == b
}

impl SurfaceTable {
    /// No surfaces, no focus.
    pub fn new() -> (r: Self)
        ensures
            r@.surfaces == Map::<u32, SurfaceRecord>::empty(),
            r@.by_wl == Map::<u32, SurfaceId>::empty(),
            r@.focus.is_none(),
    {
        SurfaceTable { surfaces: HashMap::new(), by_surface_id: HashMap::new(), kbd_focus: None }
    }

    /// Record a new, not yet configured surface `sid` on `wl_surface`
    /// `wl_id`.
    pub fn insert(&mut self, sid: SurfaceId, wl_id: u32, size: Size, role: SurfaceRole, output: Option<u32>)
        ensures
            final(self)@.surfaces == old(self)@.surfaces.insert(
                sid.0,
                SurfaceRecord { configured: false, wl_id, size, role, output },
            ),
            final(self)@.by_wl == old(self)@.by_wl.insert(wl_id, sid),
            final(self)@.focus == old(self)@.focus,
    {
        self.by_surface_id.insert(wl_id, sid);
        self.surfaces.insert(sid.0, SurfaceRecord { configured: false, wl_id, size, role, output });
    }

    /// The record of surface `sid`.
    pub fn get(&self, sid: SurfaceId) -> (r: Option<SurfaceRecord>)
        ensures
            r == (if self@.surfaces.contains_key(sid.0) { Some(self@.surfaces[sid.0]) } else { None }),
    {
        match self.surfaces.get(&sid.0) {
            Some(rec) => Some(*rec),
            None => None,
        }
    }

    /// Whether surface `sid` exists and the compositor configured it, so
    /// that it may be drawn.
    pub fn is_configured(&self, sid: SurfaceId) -> (r: bool)
        ensures
            r == (self@.surfaces.contains_key(sid.0) && self@.surfaces[sid.0].configured),
    {
        match self.surfaces.get(&sid.0) {
            Some(rec) => rec.configured,
            None => false,
        }
    }

    /// The surface with keyboard focus.
    pub fn focused(&self) -> (r: Option<SurfaceId>)
        ensures
            r == self@.focus,
    {
        self.kbd_focus
    }

    /// The keyboard entered `wl_surface` `wl_id`.
    pub fn focus_enter(&mut self, wl_id: u32)
        ensures
            final(self)@ == (SurfacesState { focus: Some(SurfaceId(wl_id)), ..old(self)@ }),
    {
        self.kbd_focus = Some(SurfaceId(wl_id));
    }

    /// The keyboard left.
    pub fn focus_leave(&mut self)
        ensures
            final(self)@ == (SurfacesState { focus: None, ..old(self)@ }),
    {
        self.kbd_focus = None;
    }

    /// Forget the surface known by `sid`: its entry and its record, and the
    /// focus when it had it.
    pub fn remove_surface_by_surface_id(&mut self, sid: SurfaceId)
        ensures
            !old(self)@.by_wl.contains_key(sid.0) ==> final(self)@ == old(self)@,
            old(self)@.by_wl.contains_key(sid.0) ==> {
                let s = old(self)@.by_wl[sid.0];
                &&& final(self)@.by_wl == old(self)@.by_wl.remove(sid.0)
                &&& final(self)@.surfaces == old(self)@.surfaces.remove(s.0)
                &&& final(self)@.focus == (if old(self)@.focus == Some(s) { None } else { old(self)@.focus })
            },
    {
        match self.by_surface_id.remove(&sid.0) {
            Some(s) => {
                self.surfaces.remove(&s.0);
                if self.kbd_focus == Some(s) {
                    self.kbd_focus = None;
                }
            },
            None => {
                assert(self@.by_wl =~= old(self)@.by_wl);
            },
        }
    }

    /// A configure for `wl_surface` `wl_id`, with the size the compositor
    /// asked for when it asked for one: the surface is marked configured
    /// and takes the size when it differs. `None` for an unknown surface.
    pub fn configure(&mut self, wl_id: u32, new_size: Option<Size>) -> (r: Option<Configured>)
        ensures
            match old(self)@.lookup(wl_id) {
                None => r.is_none() && final(self)@ == old(self)@,
                Some((sid, rec)) => {
                    let resized = match new_size {
                        Some(n) => if n != rec.size { Some(n) } else { None },
                        None => None,
                    };
                    &&& r == Some(Configured { surface: sid, resized })
                    &&& final(self)@.surfaces == old(self)@.surfaces.insert(
                        sid.0,
                        SurfaceRecord {
                            configured: true,
                            size: match resized { Some(n) => n, None => rec.size },
                            ..rec
                        },
                    )
                    &&& final(self)@.by_wl == old(self)@.by_wl
                    &&& final(self)@.focus == old(self)@.focus
                },
            },
    {
        let sid = match self.by_surface_id.get(&wl_id) {
            Some(s) => *s,
            None => return None,
        };
        let rec = match self.surfaces.get(&sid.0) {
            Some(r) => *r,
            None => return None,
        };
        let resized = match new_size {
            Some(n) => if n != rec.size {
                Some(n)
            } else {
                None
            },
            None => None,
        };
        let size = match resized {
            Some(n) => n,
            None => rec.size,
        };
        self.surfaces.insert(sid.0, SurfaceRecord { configured: true, size, ..rec });
        Some(Configured { surface: sid, resized })
    }

    /// The surface a pointer event over `wl_surface` `wl_id` goes to:
    /// motion to that surface, buttons and scrolling to the surface with
    /// keyboard focus, enter and leave nowhere; nothing for an unknown
    /// surface.
    pub fn pointer_target(&self, wl_id: u32, kind: PointerKind) -> (r: Option<SurfaceId>)
        ensures
            r == (if !self@.by_wl.contains_key(wl_id) {
                None
            } else {
                match kind {
                    PointerKind::Motion => Some(self@.by_wl[wl_id]),
                    PointerKind::Press | PointerKind::Release | PointerKind::Axis => self@.focus,
                    PointerKind::Enter | PointerKind::Leave => None,
                }
            }),
    {
        let sid = match self.by_surface_id.get(&wl_id) {
            Some(s) => *s,
            None => return None,
        };
        match kind {
            PointerKind::Motion => Some(sid),
            PointerKind::Press | PointerKind::Release | PointerKind::Axis => self.kbd_focus,
            PointerKind::Enter | PointerKind::Leave => None,
        }
    }

    /// The session lock finished: every lock surface is forgotten, with its
    /// entry, and the focus when a lock surface had it.
    pub fn finish_lock(&mut self)
        ensures
            forall|k: u32| #[trigger] final(self)@.surfaces.contains_key(k) <==> old(self)@.surfaces.contains_key(k) && old(self)@.surfaces[k].role != SurfaceRole::Lock,
            forall|k: u32| #[trigger] final(self)@.surfaces.contains_key(k) ==> final(self)@.surfaces[k] == old(self)@.surfaces[k],
            forall|w: u32| #[trigger] final(self)@.by_wl.contains_key(w) <==> old(self)@.by_wl.contains_key(w) && !is_lock_wl(old(self)@.surfaces, w),
            forall|w: u32| #[trigger] final(self)@.by_wl.contains_key(w) ==> final(self)@.by_wl[w] == old(self)@.by_wl[w],
            final(self)@.focus == (match old(self)@.focus {
                Some(f) => if old(self)@.surfaces.contains_key(f.0) && old(self)@.surfaces[f.0].role == SurfaceRole::Lock {
                    None
                } else {
                    Some(f)
                },
                None => None,
            }),
    {
        let ghost m = self.surfaces@;
        let ghost all = vstd::std_specs::hash::spec_hash_map_iter(&self.surfaces).remaining();
        let ghost mut seen: Seq<(&u32, &SurfaceRecord)> = Seq::empty();
        let mut locks: Vec<(u32, u32)> = Vec::new();
        for entry in it: self.surfaces.iter()
            invariant
                m == self.surfaces@,
                all == vstd::std_specs::hash::spec_hash_map_iter(&self.surfaces).remaining(),
                it.seq() == all,
                seen == all.take(it.index() as int),
                forall|j: int| 0 <= j < locks@.len() ==> m.contains_key(#[trigger] locks@[j].0) && m[locks@[j].0].role == SurfaceRole::Lock && m[locks@[j].0].wl_id == locks@[j].1,
                forall|i: int| 0 <= i < seen.len() && (#[trigger] seen[i]).1.role == SurfaceRole::Lock ==> exists|j: int| 0 <= j < locks@.len() && locks@[j].0 == *seen[i].0,
        {
            let ghost prev = seen;
            let ghost prev_locks = locks@;
            proof {
                seen = seen.push(entry);
            }
            let (k, rec) = entry;
            if rec.role == SurfaceRole::Lock {
                locks.push((*k, rec.wl_id));
            }
            proof {
                assert(m.contains_key(*all[prev.len() as int].0) && m[*all[prev.len() as int].0] == *all[prev.len() as int].1);
                assert forall|i: int| 0 <= i < seen.len() && (#[trigger] seen[i]).1.role == SurfaceRole::Lock implies exists|j: int| 0 <= j < locks@.len() && locks@[j].0 == *seen[i].0 by {
                    if i < prev.len() {
                        assert(seen[i] == prev[i]);
                        let j = choose|j: int| 0 <= j < prev_locks.len() && prev_locks[j].0 == *prev[i].0;
                        assert(locks@[j] == prev_locks[j]);
                    } else {
                        assert(locks@[locks@.len() - 1].0 == *seen[i].0);
                    }
                }
            }
        }
        proof {
            assert(seen == all);
        }
        let ghost focus0 = self.kbd_focus;
        let mut j: usize = 0;
        while j < locks.len()
            invariant
                j <= locks@.len(),
                forall|t: int| 0 <= t < locks@.len() ==> m.contains_key(#[trigger] locks@[t].0) && m[locks@[t].0].role == SurfaceRole::Lock && m[locks@[t].0].wl_id == locks@[t].1,
                forall|k: u32| #[trigger] m.contains_key(k) && m[k].role == SurfaceRole::Lock ==> exists|t: int| 0 <= t < locks@.len() && locks@[t].0 == k,
                forall|k: u32| #[trigger] self.surfaces@.contains_key(k) <==> m.contains_key(k) && !(exists|t: int| 0 <= t < j && locks@[t].0 == k),
                forall|k: u32| #[trigger] self.surfaces@.contains_key(k) ==> self.surfaces@[k] == m[k],
                forall|w: u32| #[trigger] self.by_surface_id@.contains_key(w) <==> old(self)@.by_wl.contains_key(w) && !(exists|t: int| 0 <= t < j && locks@[t].1 == w),
                forall|w: u32| #[trigger] self.by_surface_id@.contains_key(w) ==> self.by_surface_id@[w] == old(self)@.by_wl[w],
                self.kbd_focus == (match focus0 {
                    Some(f) => if exists|t: int| 0 <= t < j && locks@[t].0 == f.0 { None } else { Some(f) },
                    None => None,
                }),
                focus0 == old(self)@.focus,
                m == old(self)@.surfaces,
            decreases locks@.len() - j,
        {
            let (k, w) = locks[j];
            let ghost s_before = self.surfaces@;
            let ghost b_before = self.by_surface_id@;
            self.surfaces.remove(&k);
            self.by_surface_id.remove(&w);
            if self.kbd_focus == Some(SurfaceId(k)) {
                self.kbd_focus = None;
            }
            proof {
                assert forall|x: u32| #[trigger] self.surfaces@.contains_key(x) <==> m.contains_key(x) && !(exists|t: int| 0 <= t < j + 1 && locks@[t].0 == x) by {
                    if x == k {
                        assert(locks@[j as int].0 == x);
                    } else if m.contains_key(x) && (exists|t: int| 0 <= t < j + 1 && locks@[t].0 == x) {
                        let t = choose|t: int| 0 <= t < j + 1 && locks@[t].0 == x;
                        assert(t < j);
                    }
                }
                assert forall|x: u32| #[trigger] self.surfaces@.contains_key(x) implies self.surfaces@[x] == m[x] by {
                    assert(s_before.contains_key(x));
                }
                assert forall|x: u32| #[trigger] self.by_surface_id@.contains_key(x) <==> old(self)@.by_wl.contains_key(x) && !(exists|t: int| 0 <= t < j + 1 && locks@[t].1 == x) by {
                    if x == w {
                        assert(locks@[j as int].1 == x);
                    } else if old(self)@.by_wl.contains_key(x) && (exists|t: int| 0 <= t < j + 1 && locks@[t].1 == x) {
                        let t = choose|t: int| 0 <= t < j + 1 && locks@[t].1 == x;
                        assert(t < j);
                    }
                }
                assert forall|x: u32| #[trigger] self.by_surface_id@.contains_key(x) implies self.by_surface_id@[x] == old(self)@.by_wl[x] by {
                    assert(b_before.contains_key(x));
                }
                match focus0 {
                    Some(f) => {
                        if exists|t: int| 0 <= t < j + 1 && locks@[t].0 == f.0 {
                            if !(exists|t: int| 0 <= t < j && locks@[t].0 == f.0) {
                                let t = choose|t: int| 0 <= t < j + 1 && locks@[t].0 == f.0;
                                assert(t == j);
                            }
                        } else {
                            assert(locks@[j as int].0 != f.0);
                        }
                    },
                    None => {},
                }
            }
            j = j + 1;
        }
        proof {
            assert forall|k: u32| #[trigger] m.contains_key(k) && m[k].role == SurfaceRole::Lock implies exists|t: int| 0 <= t < locks@.len() && locks@[t].0 == k by {
                assert(all.contains((&k, &m[k])));
                let i = choose|i: int| 0 <= i < all.len() && all[i] == (&k, &m[k]);
                assert(seen[i].1.role == SurfaceRole::Lock);
            }
            assert forall|w: u32| #[trigger] self.by_surface_id@.contains_key(w) <==> old(self)@.by_wl.contains_key(w) && !is_lock_wl(old(self)@.surfaces, w) by {
                if exists|t: int| 0 <= t < locks@.len() && locks@[t].1 == w {
                    let t = choose|t: int| 0 <= t < locks@.len() && locks@[t].1 == w;
                    assert(m.contains_key(locks@[t].0));
                }
                if is_lock_wl(m, w) {
                    let k = choose|k: u32| #[trigger] m.contains_key(k) && m[k].role == SurfaceRole::Lock && m[k].wl_id == w;
                    let t = choose|t: int| 0 <= t < locks@.len() && locks@[t].0 == k;
                    assert(locks@[t].1 == w);
                }
            }
            match focus0 {
                Some(f) => {
                    if exists|t: int| 0 <= t < locks@.len() && locks@[t].0 == f.0 {
                        let t = choose|t: int| 0 <= t < locks@.len() && locks@[t].0 == f.0;
                        assert(m.contains_key(locks@[t].0));
                    }
                },
                None => {},
            }
        }
    }

    /// Whether a layer surface is already on `output` (both unbound, or the
    /// same output).
    pub fn has_layer_on(&self, output: Option<u32>) -> (r: bool)
        ensures
            r == exists|k: u32| #[trigger] self@.surfaces.contains_key(k) && self@.surfaces[k].role == SurfaceRole::Layer && same_output_spec(self@.surfaces[k].output, output),
    {
        self.any_on(SurfaceRole::Layer, output)
    }

    /// Whether a lock surface is already on output `out_id`.
    pub fn has_lock_on(&self, out_id: u32) -> (r: bool)
        ensures
            r == exists|k: u32| #[trigger] self@.surfaces.contains_key(k) && self@.surfaces[k].role == SurfaceRole::Lock && self@.surfaces[k].output == Some(out_id),
    {
        self.any_on(SurfaceRole::Lock, Some(out_id))
    }

    fn any_on(&self, role: SurfaceRole, output: Option<u32>) -> (r: bool)
        ensures
            r == exists|k: u32| #[trigger] self@.surfaces.contains_key(k) && self@.surfaces[k].role == role && self@.surfaces[k].output == output,
    {
        let mut found = false;
        let ghost m = self.surfaces@;
        let ghost all = vstd::std_specs::hash::spec_hash_map_iter(&self.surfaces).remaining();
        let ghost mut seen: Seq<(&u32, &SurfaceRecord)> = Seq::empty();
        for entry in it: self.surfaces.iter()
            invariant
                m == self.surfaces@,
                all == vstd::std_specs::hash::spec_hash_map_iter(&self.surfaces).remaining(),
                it.seq() == all,
                seen == all.take(it.index() as int),
                found == exists|i: int| 0 <= i < seen.len() && (#[trigger] seen[i]).1.role == role && seen[i].1.output == output,
        {
            let rec = entry.1;
            let ghost prev = seen;
            let ghost was = found;
            proof {
                seen = seen.push(entry);
            }
            if rec.role == role && rec.output == output {
                found = true;
            }
            proof {
                if was {
                    let i = choose|i: int| 0 <= i < prev.len() && (#[trigger] prev[i]).1.role == role && prev[i].1.output == output;
                    assert(seen[i] == prev[i]);
                }
                assert(seen[seen.len() - 1] == entry);
                assert forall|i: int| 0 <= i < prev.len() implies #[trigger] seen[i] == prev[i] by {}
            }
        }
        proof {
            assert(seen == all);
            if found {
                let i = choose|i: int| 0 <= i < seen.len() && (#[trigger] seen[i]).1.role == role && seen[i].1.output == output;
                let k = *all[i].0;
                assert(m.contains_key(k) && m[k] == *all[i].1);
            }
            if exists|k: u32| #[trigger] m.contains_key(k) && m[k].role == role && m[k].output == output {
                let k = choose|k: u32| #[trigger] m.contains_key(k) && m[k].role == role && m[k].output == output;
                assert(all.contains((&k, &m[k])));
                let i = choose|i: int| 0 <= i < all.len() && all[i] == (&k, &m[k]);
                assert(seen[i].1.role == role);
            }
        }
        found
    }
}

} // verus!
