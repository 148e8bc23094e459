//! The registry of render pipelines: one slot per pipeline type, the merged
//! requirements of everything registered, and the pass configuration that
//! every pipeline is built against.

use vstd::prelude::*;
use vstd::std_specs::cmp::PartialEqSpec;

use super::pass::{merged, no_requirements, resolved, PassConfig, PassConflict, PassRequirements, SampleSupport};
use super::slot::PipelineId;

verus! {

/// `a` satisfies everything `b` asks of the pass.
pub open spec fn covers_spec(a: PassRequirements, b: PassRequirements) -> bool {
    merged(a, b) == Ok::<PassRequirements, PassConflict>(a)
}

/// A registered pipeline with what it asked of the pass and its name.
pub struct Entry<P> {
    pub pipeline: P,
    pub requirements: PassRequirements,
    pub name: &'static str,
}

/// What has to happen before a pipeline can be put in its slot.
#[derive(Clone, Copy, Debug, PartialEq, Eq, Structural)]
pub enum SlotPlan {
    /// The slot already holds a pipeline: nothing to build.
    Present,
    /// Build the pipeline against the current pass configuration; when
    /// `reload_existing`, the pass widened and every pipeline already
    /// registered must be rebuilt against it first.
    Build { reload_existing: bool },
}

/// The two configurations describe the same pass: same depth attachment,
/// same sample count and colour formats that compare equal.
pub open spec fn same_config<C: PartialEq>(a: PassConfig<C>, b: PassConfig<C>) -> bool {
    &&& a.color_format.eq_spec(&b.color_format)
    &&& a.depth_format == b.depth_format
    &&& a.depth_read_only == b.depth_read_only
    &&& a.sample_count == b.sample_count
}

/// Compare two pass configurations field by field.
pub fn configs_equal<C: PartialEq>(a: &PassConfig<C>, b: &PassConfig<C>) -> (r: bool)
    ensures
        C::obeys_eq_spec() ==> r == same_config(*a, *b),
{
    a.color_format == b.color_format && a.depth_format == b.depth_format && a.depth_read_only
        == b.depth_read_only && a.sample_count == b.sample_count
}

/// The pass was re-resolved to `next`: a different pass is taken with a
/// new generation, the same pass (colour formats comparing equal) keeps
/// the old one and its generation.
pub open spec fn rebuilt<C: PartialEq>(
    old_config: Option<PassConfig<C>>,
    old_generation: u32,
    new_config: Option<PassConfig<C>>,
    new_generation: u32,
    next: PassConfig<C>,
) -> bool {
    let same = old_config matches Some(prev) && same_config(prev, next);
    &&& (new_config == Some(next) && new_generation == vstd::wrapping::u32_specs::wrapping_add(old_generation, 1))
        || (old_config is Some && new_config == old_config && new_generation == old_generation)
    &&& C::obeys_eq_spec() ==> (new_generation == old_generation <==> same)
}

/// Position of the first occurrence of `x` in `s` at or after `i` (the
/// length of `s` when there is none).
pub open spec fn first_from(s: Seq<PipelineId>, x: PipelineId, i: int) -> int
    decreases s.len() - i,
{
    if i < 0 || i >= s.len() {
        s.len() as int
    } else if s[i] == x {
        i
    } else {
        first_from(s, x, i + 1)
    }
}

/// Position of the first occurrence of `x` in `s`.
pub open spec fn first_index(s: Seq<PipelineId>, x: PipelineId) -> int {
    first_from(s, x, 0)
}

/// An occurrence at `t` bounds the first one from `i`.
proof fn lemma_first_from_at_most(s: Seq<PipelineId>, x: PipelineId, i: int, t: int)
    requires
        0 <= i <= t < s.len(),
        s[t] == x,
    ensures
        first_from(s, x, i) <= t,
    decreases t - i,
{
    if s[i] != x {
        lemma_first_from_at_most(s, x, i + 1, t);
    }
}

/// With no occurrence in `[i, k)`, the first one from `i` is at `k`.
proof fn lemma_first_from_exact(s: Seq<PipelineId>, x: PipelineId, i: int, k: int)
    requires
        0 <= i <= k < s.len(),
        s[k] == x,
        forall|t: int| i <= t < k ==> s[t] != x,
    ensures
        first_from(s, x, i) == k,
    decreases k - i,
{
    if i < k {
        lemma_first_from_exact(s, x, i + 1, k);
    }
}

/// Widening the pass keeps covering what it covered: once `m` covers a
/// pipeline, so does `m` merged with anything that does not conflict.
pub proof fn lemma_widening_keeps_cover(m: PassRequirements, r: PassRequirements)
    requires
        merged(m, r) is Ok,
    ensures
        forall|e: PassRequirements| covers_spec(m, e) ==> #[trigger] covers_spec(merged(m, r)->Ok_0, e),
        covers_spec(merged(m, r)->Ok_0, r),
{
}

/// The entry at `j`, not yet among the collected ids, comes after all of
/// them in first-appearance order.
proof fn lemma_first_index_new(s: Seq<PipelineId>, j: int, ids: Seq<PipelineId>)
    requires
        0 <= j < s.len(),
        !ids.contains(s[j]),
        forall|t: int| 0 <= t < j ==> ids.contains(#[trigger] s[t]),
        forall|k: int| 0 <= k < ids.len() ==> s.take(j).contains(#[trigger] ids[k]),
    ensures
        first_index(s, s[j]) == j,
        forall|k: int| 0 <= k < ids.len() ==> first_index(s, #[trigger] ids[k]) < j,
{
    assert forall|t: int| 0 <= t < j implies s[t] != s[j] by {
        assert(ids.contains(s[t]));
    }
    lemma_first_from_exact(s, s[j], 0, j);
    assert forall|k: int| 0 <= k < ids.len() implies first_index(s, #[trigger] ids[k]) < j by {
        let t = choose|t: int| 0 <= t < s.take(j).len() && s.take(j)[t] == ids[k];
        assert(s[t] == ids[k]);
        lemma_first_from_at_most(s, ids[k], 0, t);
    }
}

/// Pipelines by slot, the requirements merged over every pipeline ever
/// registered, and the resolved pass with a generation that changes
/// whenever the pass does.
pub struct PipelineRegistry<P, C> {
    slots: Vec<Option<Entry<P>>>,
    merged: PassRequirements,
    config: Option<PassConfig<C>>,
    generation: u32,
}

impl<P, C: Copy + PartialEq> PipelineRegistry<P, C> {
    pub closed spec fn slots(&self) -> Seq<Option<Entry<P>>> {
        self.slots@
    }

    pub closed spec fn merged_requirements(&self) -> PassRequirements {
        self.merged
    }

    pub closed spec fn config(&self) -> Option<PassConfig<C>> {
        self.config
    }

    pub closed spec fn generation_spec(&self) -> u32 {
        self.generation
    }

    /// The requirements of the pipeline in slot `i`, if there is one.
    pub open spec fn requirements_at(&self, i: int) -> Option<PassRequirements> {
        if 0 <= i < self.slots().len() {
            match self.slots()[i] {
                Some(e) => Some(e.requirements),
                None => None,
            }
        } else {
            None
        }
    }

    /// The pass satisfies every registered pipeline.
    pub open spec fn wf(&self) -> bool {
        forall|i: int| #[trigger] self.requirements_at(i) matches Some(r) ==> covers_spec(self.merged_requirements(), r)
    }

    /// No slots, no requirements, no pass yet.
    pub fn new() -> (r: Self)
        ensures
            r.wf(),
            r.slots().len() == 0,
            r.merged_requirements() == no_requirements(),
            r.config().is_none(),
            r.generation_spec() == 0,
    {
        PipelineRegistry { slots: Vec::new(), merged: PassRequirements::none(), config: None, generation: 0 }
    }

    /// The resolved pass every pipeline was built against; `None` before
    /// the first registration.
    pub fn pass_config(&self) -> (r: Option<PassConfig<C>>)
        ensures
            r == self.config(),
    {
        self.config
    }

    /// Changes whenever the pass configuration does; attachments compare
    /// against it to know when to recreate.
    pub fn generation(&self) -> (r: u32)
        ensures
            r == self.generation_spec(),
    {
        self.generation
    }

    /// The requirements merged over every pipeline registered so far.
    pub fn merged(&self) -> (r: PassRequirements)
        ensures
            r == self.merged_requirements(),
    {
        self.merged
    }

    /// The name the pipeline of `id` was registered under.
    pub fn name_of(&self, id: PipelineId) -> (r: Option<&'static str>)
        ensures
            r == (if (id.0 as int) < self.slots().len() {
                match self.slots()[id.0 as int] {
                    Some(e) => Some(e.name),
                    None => None,
                }
            } else {
                None
            }),
    {
        let i = id.index();
        if i >= self.slots.len() {
            return None;
        }
        match &self.slots[i] {
            Some(e) => Some(e.name),
            None => None,
        }
    }

    /// Number of slots.
    pub fn slot_count(&self) -> (r: usize)
        ensures
            r == self.slots().len(),
    {
        self.slots.len()
    }

    /// What the pipeline with id `id` asked of the pass, if it is registered.
    pub fn requirements_of(&self, id: PipelineId) -> (r: Option<PassRequirements>)
        ensures
            r == self.requirements_at(id.0 as int),
    {
        let i = id.index();
        if i >= self.slots.len() {
            return None;
        }
        match &self.slots[i] {
            Some(e) => Some(e.requirements),
            None => None,
        }
    }

    /// The pipeline registered under `id`, to reload or draw with.
    pub fn get_mut(&mut self, id: PipelineId) -> (r: Option<&mut P>)
        requires
            old(self).wf(),
        ensures
            match r {
                Some(p) => {
                    &&& (id.0 as int) < old(self).slots().len()
                    &&& old(self).slots()[id.0 as int] matches Some(e) && {
                        &&& *p == e.pipeline
                        &&& final(self).slots() == old(self).slots().update(
                            id.0 as int,
                            Some(Entry { pipeline: *final(p), ..e }),
                        )
                    }
                },
                None => {
                    &&& old(self).requirements_at(id.0 as int).is_none()
                    &&& final(self).slots() == old(self).slots()
                },
            },
            forall|i: int| #[trigger] final(self).requirements_at(i) == old(self).requirements_at(i),
            final(self).merged_requirements() == old(self).merged_requirements(),
            final(self).config() == old(self).config(),
            final(self).generation_spec() == old(self).generation_spec(),
    {
        let i = id.index();
        if i >= self.slots.len() {
            return None;
        }
        match &mut self.slots[i] {
            Some(e) => Some(&mut e.pipeline),
            None => None,
        }
    }

    /// Whether a pipeline is registered under `id`.
    pub fn contains(&self, id: PipelineId) -> (r: bool)
        ensures
            r == self.requirements_at(id.0 as int).is_some(),
    {
        let i = id.index();
        i < self.slots.len() && self.slots[i].is_some()
    }

    /// The conflict registering a pipeline with `requirements` under `id`
    /// would hit, if any: none when the slot is taken, else the merged
    /// requirements' conflict with `requirements`.
    pub fn conflict_with(&self, id: PipelineId, requirements: PassRequirements) -> (r: Option<PassConflict>)
        ensures
            r == (if self.requirements_at(id.0 as int).is_some() {
                None
            } else {
                match merged(self.merged_requirements(), requirements) {
                    Ok(_) => None,
                    Err(e) => Some(e),
                }
            }),
    {
        if self.contains(id) {
            return None;
        }
        match self.merged.merge(requirements) {
            Ok(_) => None,
            Err(e) => Some(e),
        }
    }

    /// Make sure a pass is resolved: with none yet, resolve it. Returns
    /// whether it did.
    pub fn ensure_config(&mut self, color_format: C, support: Option<SampleSupport>) -> (r: bool)
        requires
            old(self).wf(),
        ensures
            final(self).wf(),
            final(self).slots() == old(self).slots(),
            final(self).merged_requirements() == old(self).merged_requirements(),
            r == old(self).config().is_none(),
            !r ==> final(self).config() == old(self).config() && final(self).generation_spec() == old(self).generation_spec(),
            r ==> rebuilt(
                old(self).config(),
                old(self).generation_spec(),
                final(self).config(),
                final(self).generation_spec(),
                resolved(old(self).merged_requirements(), color_format, support),
            ),
    {
        if self.config.is_none() {
            self.rebuild_config(color_format, support);
            true
        } else {
            false
        }
    }

    /// Get the slot of `id` ready for a pipeline with `requirements`. A
    /// taken slot needs nothing. Otherwise, when the merged requirements do
    /// not already cover `requirements`, they are widened and the pass is
    /// re-resolved, which invalidates every pipeline already built
    /// (`reload_existing`); when they do, the pass is resolved only if there
    /// is none yet. The slot vector grows to hold `id`.
    pub fn prepare_slot(
        &mut self,
        id: PipelineId,
        requirements: PassRequirements,
        color_format: C,
        support: Option<SampleSupport>,
    ) -> (r: SlotPlan)
        requires
            old(self).wf(),
            (id.0 as int) < usize::MAX,
            old(self).requirements_at(id.0 as int) is Some || merged(old(self).merged_requirements(), requirements) is Ok,
        ensures
            final(self).wf(),
            final(self).slots().len() == if (id.0 as int) < old(self).slots().len() {
                old(self).slots().len() as int
            } else {
                id.0 + 1
            },
            forall|i: int| 0 <= i < final(self).slots().len() ==> #[trigger] final(self).slots()[i] == if i < old(self).slots().len() {
                old(self).slots()[i]
            } else {
                None
            },
            old(self).requirements_at(id.0 as int) is Some ==> {
                &&& r == SlotPlan::Present
                &&& final(self).merged_requirements() == old(self).merged_requirements()
                &&& final(self).config() == old(self).config()
                &&& final(self).generation_spec() == old(self).generation_spec()
            },
            old(self).requirements_at(id.0 as int) is None ==> {
                let covered = covers_spec(old(self).merged_requirements(), requirements);
                let m = if covered { old(self).merged_requirements() } else { merged(old(self).merged_requirements(), requirements)->Ok_0 };
                &&& r == (SlotPlan::Build { reload_existing: !covered })
                &&& final(self).merged_requirements() == m
                &&& covers_spec(m, requirements)
                &&& if !covered || old(self).config() is None {
                    rebuilt(
                        old(self).config(),
                        old(self).generation_spec(),
                        final(self).config(),
                        final(self).generation_spec(),
                        resolved(m, color_format, support),
                    )
                } else {
                    final(self).config() == old(self).config() && final(self).generation_spec() == old(self).generation_spec()
                }
            },
    {
        let idx = id.index();
        let ghost before = self.slots@;
        while self.slots.len() <= idx
            invariant
                idx == id.0 as int,
                idx < usize::MAX,
                before.len() <= self.slots@.len() <= if idx < before.len() { before.len() as int } else { idx + 1 },
                forall|i: int| 0 <= i < self.slots@.len() ==> #[trigger] self.slots@[i] == if i < before.len() {
                    before[i]
                } else {
                    None
                },
                self.merged == old(self).merged_requirements(),
                self.config == old(self).config(),
                self.generation == old(self).generation_spec(),
                before == old(self).slots(),
            decreases idx + 1 - self.slots@.len(),
        {
            self.slots.push(None);
        }
        assert(forall|i: int| #[trigger] self.requirements_at(i) == old(self).requirements_at(i));
        if self.slots[idx].is_some() {
            return SlotPlan::Present;
        }
        if !self.merged.covers(requirements) {
            let widened = match self.merged.merge(requirements) {
                Ok(m) => m,
                Err(_) => {
                    assert(false);
                    self.merged
                },
            };
            let ghost prev = self.merged;
            self.merged = widened;
            proof {
                lemma_widening_keeps_cover(prev, requirements);
                assert forall|i: int| #[trigger] self.requirements_at(i) is Some implies covers_spec(self.merged, self.requirements_at(i)->Some_0) by {
                    assert(old(self).requirements_at(i) == self.requirements_at(i));
                }
            }
            self.rebuild_config(color_format, support);
            SlotPlan::Build { reload_existing: true }
        } else {
            if self.config.is_none() {
                self.rebuild_config(color_format, support);
            }
            SlotPlan::Build { reload_existing: false }
        }
    }

    /// Put `pipeline` in the empty slot of `id`; the pass must already
    /// cover `requirements`.
    pub fn install(&mut self, id: PipelineId, pipeline: P, requirements: PassRequirements, name: &'static str)
        requires
            old(self).wf(),
            (id.0 as int) < old(self).slots().len(),
            old(self).slots()[id.0 as int] is None,
            covers_spec(old(self).merged_requirements(), requirements),
        ensures
            final(self).wf(),
            final(self).slots() == old(self).slots().update(id.0 as int, Some(Entry { pipeline, requirements, name })),
            final(self).merged_requirements() == old(self).merged_requirements(),
            final(self).config() == old(self).config(),
            final(self).generation_spec() == old(self).generation_spec(),
    {
        self.slots.set(id.index(), Some(Entry { pipeline, requirements, name }));
        assert forall|i: int| #[trigger] self.requirements_at(i) is Some implies covers_spec(self.merged, self.requirements_at(i)->Some_0) by {
            if i != id.0 as int {
                assert(old(self).requirements_at(i) == self.requirements_at(i));
            }
        }
    }

    /// Take the pipeline of `id` out. The merged requirements deliberately
    /// stay as they are: narrowing the pass would invalidate every
    /// remaining pipeline for nothing.
    pub fn remove(&mut self, id: PipelineId) -> (r: Option<P>)
        requires
            old(self).wf(),
        ensures
            final(self).wf(),
            final(self).merged_requirements() == old(self).merged_requirements(),
            final(self).config() == old(self).config(),
            final(self).generation_spec() == old(self).generation_spec(),
            old(self).requirements_at(id.0 as int) is None ==> r.is_none() && final(self).slots() == old(self).slots(),
            old(self).requirements_at(id.0 as int) is Some ==> {
                &&& r == Some(old(self).slots()[id.0 as int]->Some_0.pipeline)
                &&& final(self).slots() == old(self).slots().update(id.0 as int, None)
            },
    {
        let i = id.index();
        if i >= self.slots.len() {
            return None;
        }
        let mut taken: Option<Entry<P>> = None;
        std::mem::swap(&mut taken, &mut self.slots[i]);
        assert forall|k: int| #[trigger] self.requirements_at(k) is Some implies covers_spec(self.merged, self.requirements_at(k)->Some_0) by {
            if k != i {
                assert(old(self).requirements_at(k) == self.requirements_at(k));
            }
        }
        match taken {
            Some(e) => Some(e.pipeline),
            None => None,
        }
    }

    /// The ids of `batch_ids` in order of first appearance, each once.
    pub fn active_ids(batch_ids: &Vec<PipelineId>) -> (r: Vec<PipelineId>)
        ensures
            r@.no_duplicates(),
            forall|k: int| 0 <= k < r@.len() ==> batch_ids@.contains(#[trigger] r@[k]),
            forall|j: int| 0 <= j < batch_ids@.len() ==> r@.contains(#[trigger] batch_ids@[j]),
            forall|a: int, b: int| 0 <= a < b < r@.len() ==> first_index(batch_ids@, #[trigger] r@[a]) < first_index(batch_ids@, #[trigger] r@[b]),
    {
        let mut ids: Vec<PipelineId> = Vec::new();
        let mut j: usize = 0;
        while j < batch_ids.len()
            invariant
                j <= batch_ids@.len(),
                ids@.no_duplicates(),
                forall|k: int| 0 <= k < ids@.len() ==> batch_ids@.take(j as int).contains(#[trigger] ids@[k]),
                forall|t: int| 0 <= t < j ==> ids@.contains(#[trigger] batch_ids@[t]),
                forall|a: int, b: int| 0 <= a < b < ids@.len() ==> first_index(batch_ids@, #[trigger] ids@[a]) < first_index(batch_ids@, #[trigger] ids@[b]),
            decreases batch_ids@.len() - j,
        {
            let id = batch_ids[j];
            let mut seen = false;
            let mut k: usize = 0;
            while k < ids.len()
                invariant
                    k <= ids@.len(),
                    seen == exists|t: int| 0 <= t < k && ids@[t] == id,
                decreases ids@.len() - k,
            {
                if ids[k] == id {
                    seen = true;
                }
                k = k + 1;
            }
            let ghost prev = ids@;
            if !seen {
                proof {
                    lemma_first_index_new(batch_ids@, j as int, ids@);
                }
                ids.push(id);
            }
            proof {
                if seen {
                    let t = choose|t: int| 0 <= t < prev.len() && prev[t] == id;
                    assert(ids@[t] == id);
                } else {
                    assert(ids@[ids@.len() - 1] == id);
                }
                assert forall|t: int| 0 <= t < j implies ids@.contains(#[trigger] batch_ids@[t]) by {
                    assert(prev.contains(batch_ids@[t]));
                    let w = choose|w: int| 0 <= w < prev.len() && prev[w] == batch_ids@[t];
                    assert(ids@[w] == batch_ids@[t]);
                }
                assert forall|k: int| 0 <= k < ids@.len() implies batch_ids@.take(j + 1).contains(#[trigger] ids@[k]) by {
                    if !seen && k == ids@.len() - 1 {
                        assert(batch_ids@.take(j + 1)[j as int] == id);
                    } else {
                        let t = choose|t: int| 0 <= t < j && batch_ids@.take(j as int)[t] == ids@[k];
                        assert(batch_ids@.take(j + 1)[t] == ids@[k]);
                    }
                }
            }
            j = j + 1;
        }
        proof {
            assert(batch_ids@.take(j as int) == batch_ids@);
        }
        ids
    }

    /// Resolve the pass from the merged requirements; a different pass
    /// bumps the generation.
    fn rebuild_config(&mut self, color_format: C, support: Option<SampleSupport>)
        requires
            old(self).wf(),
        ensures
            final(self).wf(),
            final(self).slots() == old(self).slots(),
            final(self).merged_requirements() == old(self).merged_requirements(),
            rebuilt(
                old(self).config(),
                old(self).generation_spec(),
                final(self).config(),
                final(self).generation_spec(),
                resolved(old(self).merged_requirements(), color_format, support),
            ),
    {
        let next = self.merged.resolve(color_format, support);
        let changed = match &self.config {
            Some(prev) => !configs_equal(prev, &next),
            None => true,
        };
        if changed {
            self.config = Some(next);
            self.generation = self.generation.wrapping_add(1);
        }
        assert(forall|i: int| #[trigger] self.requirements_at(i) == old(self).requirements_at(i));
    }
}

} // verus!
