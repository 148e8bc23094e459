use ui::render::pipeline::mesh::{fnv1a, MeshHandle};
use ui::render::pipeline::pass::{
    DepthFormat, DepthUse, PassConflict, PassRequirements, SampleCounts, SampleSupport,
};
use ui::render::pipeline::registry::{PipelineRegistry, SlotPlan};
use ui::render::pipeline::slot::{commit_allocator, set_slot_alloc, slot_alloc, PipelineId, SlotAllocState, SlotRegistry};

/// The id a registry settles on for the pipeline type named `name`, given
/// the type's memo cell.
fn id_of(reg: &mut SlotRegistry, memo: &mut u32, name: &str) -> PipelineId {
    if *memo != 0 {
        return PipelineId(*memo - 1);
    }
    let candidate = reg.slot_for(fnv1a(name));
    let (m, id) = PipelineId::settle(*memo, candidate);
    *memo = m;
    id
}

#[test]
fn distinct_types_get_distinct_slots() {
    let mut reg = SlotRegistry::new();
    let a = reg.slot_for(fnv1a("pipeline::tests::A"));
    let b = reg.slot_for(fnv1a("pipeline::tests::B"));
    assert!(a != b);
}

#[test]
fn id_is_stable_across_calls() {
    let mut reg = SlotRegistry::new();
    let (mut memo_a, mut memo_b) = (0u32, 0u32);
    let a1 = id_of(&mut reg, &mut memo_a, "pipeline::tests::A");
    let a2 = id_of(&mut reg, &mut memo_a, "pipeline::tests::A");
    let b = id_of(&mut reg, &mut memo_b, "pipeline::tests::B");
    assert_eq!(a1, a2);
    assert_ne!(a1, b);
}

#[test]
fn registry_indices_start_at_one_and_repeat_per_key() {
    let mut reg = SlotRegistry::new();
    assert_eq!(reg.slot_for(7), 1);
    assert_eq!(reg.slot_for(9), 2);
    assert_eq!(reg.slot_for(7), 1);
    assert_eq!(reg.slot_for(11), 3);
}

#[test]
fn settle_keeps_the_first_candidate() {
    assert_eq!(PipelineId::settle(0, 5), (5, PipelineId(4)));
    assert_eq!(PipelineId::settle(3, 5), (3, PipelineId(2)));
    assert_eq!(PipelineId(4).index(), 4);
}

#[test]
fn foreign_allocator_only_before_first_use() {
    let mut state = SlotAllocState::Uninitialized;
    assert!(set_slot_alloc(&mut state, 0x1000));
    assert_eq!(state, SlotAllocState::Foreign(0x1000));
    assert!(!set_slot_alloc(&mut state, 0x2000));
    assert_eq!(commit_allocator(&mut state), SlotAllocState::Foreign(0x1000));

    let mut fresh = SlotAllocState::Uninitialized;
    assert_eq!(commit_allocator(&mut fresh), SlotAllocState::Local);
    assert!(!set_slot_alloc(&mut fresh, 0x1000));
    assert_eq!(fresh, SlotAllocState::Local);
}

#[test]
fn fnv1a_matches_reference_values() {
    assert_eq!(fnv1a(""), 0xcbf2_9ce4_8422_2325);
    assert_eq!(fnv1a("a"), 0xaf74_d84c_8601_ec8c);
    assert_eq!(fnv1a("foobar"), 0xf8ac_2471_f739_67e8);
}

#[test]
fn mesh_handles() {
    let h = MeshHandle(3);
    assert!(h.is_valid());
    assert_eq!(h.slot(), 3);
    assert!(!MeshHandle::invalid().is_valid());
    assert_eq!(MeshHandle::invalid().slot(), u32::MAX);
}

fn req(depth: DepthUse) -> PassRequirements {
    PassRequirements::none().with_depth(depth)
}

#[test]
fn merge_takes_the_strongest_requirement() {
    let a = req(DepthUse::Read).with_sample_count(4);
    let b = req(DepthUse::Unused).with_stencil().with_sample_count(2);
    let m = a.merge(b).unwrap();
    assert_eq!(m.depth, DepthUse::Read);
    assert!(m.stencil);
    assert_eq!(m.sample_count, 4);
}

#[test]
fn read_and_write_merge_to_write() {
    let m = req(DepthUse::Read).merge(req(DepthUse::Write)).unwrap();
    assert_eq!(m.depth, DepthUse::Write);
}

#[test]
fn merge_is_order_independent() {
    let a = PassRequirements::depth();
    let b = req(DepthUse::Read).with_stencil().with_sample_count(8);
    assert_eq!(a.merge(b), b.merge(a));
}

#[test]
fn conflicting_depth_formats_are_reported() {
    let mut a = PassRequirements::depth();
    a.depth_format = Some(DepthFormat::Depth32Float);
    let mut b = PassRequirements::depth();
    b.depth_format = Some(DepthFormat::Depth24Plus);
    assert_eq!(
        a.merge(b),
        Err(PassConflict::DepthFormat(DepthFormat::Depth32Float, DepthFormat::Depth24Plus))
    );
    let mut c = PassRequirements::none();
    c.depth_format = Some(DepthFormat::Depth32Float);
    assert_eq!(a.merge(c).unwrap().depth_format, Some(DepthFormat::Depth32Float));
    assert_eq!(
        PassConflict::DepthFormat(DepthFormat::Stencil8, DepthFormat::Depth16Unorm).message(),
        "two pipelines require incompatible depth formats (Stencil8 and Depth16Unorm); \
         leave `depth_format: None` on one of them to accept the engine's choice"
    );
}

#[test]
fn covers_is_the_rebuild_predicate() {
    let depth = PassRequirements::depth();
    let none = PassRequirements::none();
    assert!(depth.covers(none));
    assert!(!none.covers(depth));
    assert!(depth.covers(depth));
    assert!(!depth.covers(none.with_sample_count(4)));
}

#[test]
fn depth_is_read_only_until_something_writes() {
    let read = req(DepthUse::Read).resolve(0u8, None);
    assert!(read.depth_read_only);
    assert_eq!(read.depth_format, Some(DepthFormat::Depth32Float));
    let write = PassRequirements::depth().resolve(0u8, None);
    assert!(!write.depth_read_only);
    assert!(write.has_depth());
}

#[test]
fn resolve_picks_formats_and_sample_counts() {
    let none = PassRequirements::none().resolve(7u8, None);
    assert_eq!(none.color_format, 7);
    assert_eq!(none.depth_format, None);
    assert!(!none.has_depth());
    assert_eq!(none.sample_count, 1);

    let stencil = PassRequirements::none().with_stencil().resolve(0u8, None);
    assert_eq!(stencil.depth_format, Some(DepthFormat::Depth24PlusStencil8));

    let all = SampleCounts { x2: true, x4: true, x8: true };
    let no8 = SampleCounts { x2: true, x4: true, x8: false };
    let want8 = PassRequirements::none().with_sample_count(8);
    assert_eq!(want8.resolve(0u8, Some(SampleSupport { color: all, depth: None })).sample_count, 8);
    let r = want8.resolve(0u8, Some(SampleSupport { color: all, depth: Some(no8) }));
    assert_eq!(r.sample_count, 4);
    assert!(r.is_multisampled());
    let want6 = PassRequirements::none().with_sample_count(6);
    assert_eq!(want6.resolve(0u8, Some(SampleSupport { color: all, depth: None })).sample_count, 4);
    // No adapter to ask: stay at 1x.
    assert_eq!(want8.resolve(0u8, None).sample_count, 1);
    // "Don't care".
    assert_eq!(PassRequirements::none().with_sample_count(1).resolve(0u8, Some(SampleSupport { color: all, depth: None })).sample_count, 1);
}

#[test]
fn pipelines_default_to_needing_nothing() {
    let n = PassRequirements::none();
    assert_eq!(n.depth, DepthUse::Unused);
    assert_eq!(DepthUse::default(), DepthUse::Unused);
    assert_eq!(n.merge(PassRequirements::depth()), Ok(PassRequirements::depth()));
}

fn none_sampling() -> Option<SampleSupport> {
    None
}

#[test]
fn registering_widens_the_pass_and_bumps_the_generation() {
    let mut reg: PipelineRegistry<&'static str, u32> = PipelineRegistry::new();
    assert!(reg.pass_config().is_none());
    let ui = PipelineId(0);
    let plan = reg.prepare_slot(ui, PassRequirements::none(), 7, none_sampling());
    assert_eq!(plan, SlotPlan::Build { reload_existing: false });
    reg.install(ui, "ui", PassRequirements::none(), "ui");
    assert_eq!(reg.generation(), 1);
    let cfg = reg.pass_config().unwrap();
    assert_eq!(cfg.depth_format, None);
    assert_eq!(cfg.color_format, 7);

    let scene = PipelineId(2);
    let plan = reg.prepare_slot(scene, PassRequirements::depth(), 7, none_sampling());
    assert_eq!(plan, SlotPlan::Build { reload_existing: true });
    assert_eq!(reg.slot_count(), 3);
    reg.install(scene, "scene", PassRequirements::depth(), "scene");
    assert_eq!(reg.generation(), 2);
    assert_eq!(reg.pass_config().unwrap().depth_format, Some(DepthFormat::Depth32Float));
    assert!(!reg.pass_config().unwrap().depth_read_only);

    // Registering again needs nothing.
    assert_eq!(reg.prepare_slot(scene, PassRequirements::depth(), 7, none_sampling()), SlotPlan::Present);
    assert_eq!(reg.generation(), 2);
    assert_eq!(reg.requirements_of(scene), Some(PassRequirements::depth()));
    assert!(reg.contains(ui));
    assert!(!reg.contains(PipelineId(1)));
}

#[test]
fn removing_does_not_narrow_the_pass() {
    let mut reg: PipelineRegistry<&'static str, u32> = PipelineRegistry::new();
    let scene = PipelineId(0);
    reg.prepare_slot(scene, PassRequirements::depth(), 1, none_sampling());
    reg.install(scene, "scene", PassRequirements::depth(), "scene");
    assert_eq!(reg.remove(scene), Some("scene"));
    assert_eq!(reg.remove(scene), None);
    assert!(reg.pass_config().unwrap().depth_format.is_some());
    // A covered pipeline needs no reload.
    let ui = PipelineId(1);
    assert_eq!(reg.prepare_slot(ui, PassRequirements::none(), 1, none_sampling()), SlotPlan::Build { reload_existing: false });
}

#[test]
fn a_conflicting_depth_format_is_reported_before_registering() {
    let mut reg: PipelineRegistry<&'static str, u32> = PipelineRegistry::new();
    let a = PassRequirements { depth_format: Some(DepthFormat::Depth32Float), ..PassRequirements::depth() };
    let b = PassRequirements { depth_format: Some(DepthFormat::Depth24Plus), ..PassRequirements::depth() };
    reg.prepare_slot(PipelineId(0), a, 1, none_sampling());
    reg.install(PipelineId(0), "a", a, "a");
    assert_eq!(reg.conflict_with(PipelineId(1), b), Some(PassConflict::DepthFormat(DepthFormat::Depth32Float, DepthFormat::Depth24Plus)));
    assert_eq!(reg.conflict_with(PipelineId(0), b), None);
}

#[test]
fn an_unchanged_pass_keeps_its_generation() {
    let mut reg: PipelineRegistry<&'static str, u32> = PipelineRegistry::new();
    assert!(reg.ensure_config(3, none_sampling()));
    assert_eq!(reg.generation(), 1);
    assert!(!reg.ensure_config(3, none_sampling()));
    assert_eq!(reg.generation(), 1);
}

#[test]
fn pipeline_can_be_reached_to_reload() {
    let mut reg: PipelineRegistry<u32, u32> = PipelineRegistry::new();
    reg.prepare_slot(PipelineId(0), PassRequirements::none(), 1, none_sampling());
    reg.install(PipelineId(0), 10, PassRequirements::none(), "counter");
    *reg.get_mut(PipelineId(0)).unwrap() += 1;
    assert!(reg.get_mut(PipelineId(5)).is_none());
    assert_eq!(reg.remove(PipelineId(0)), Some(11));
}

#[test]
fn active_ids_keep_first_appearance_order() {
    let ids = vec![PipelineId(3), PipelineId(1), PipelineId(3), PipelineId(0), PipelineId(1)];
    let active = PipelineRegistry::<u32, u32>::active_ids(&ids);
    assert_eq!(active, vec![PipelineId(3), PipelineId(1), PipelineId(0)]);
    assert!(PipelineRegistry::<u32, u32>::active_ids(&Vec::new()).is_empty());
}

#[test]
fn slot_alloc_hands_out_stable_indices_from_one() {
    let mut reg = SlotRegistry::new();
    assert_eq!(slot_alloc(&mut reg, 40), 1);
    assert_eq!(slot_alloc(&mut reg, 41), 2);
    assert_eq!(slot_alloc(&mut reg, 40), 1);
    assert_eq!(slot_alloc(&mut reg, 42), 3);
}
