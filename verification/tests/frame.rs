use ui::render::attachment::{AttachmentPlan, Attachments};
use ui::render::frame::{clip_to_window, instance_count, isolated_batches, DepthSlices};
use ui::render::pack::{pack_shape_bytes, unpack_shape_bytes};
use ui::render::pipeline::pass::{DepthFormat, PassConfig, PassRequirements};
use ui::render::pipeline::registry::PipelineRegistry;
use ui::render::pipeline::slot::PipelineId;
use ui::theme::{surface_tone, SurfaceTone};

fn config(depth: Option<DepthFormat>, read_only: bool, samples: u32) -> PassConfig<u32> {
    PassConfig { color_format: 1, depth_format: depth, depth_read_only: read_only, sample_count: samples }
}

#[test]
fn attachments_are_recreated_only_on_change() {
    let mut a: Attachments<u32> = Attachments::new();
    let cfg = config(Some(DepthFormat::Depth32Float), true, 1);
    let plan = a.ensure((0, 600), cfg, 1);
    assert_eq!(plan, Some(AttachmentPlan { depth: Some(DepthFormat::Depth32Float), depth_sampled: true, msaa: false }));
    // Zero sides count as 1, so the same request is idempotent.
    assert_eq!(a.ensure((0, 600), cfg, 1), None);
    assert_eq!(a.ensure((1, 600), cfg, 1), None);
    // A new generation recreates.
    assert!(a.ensure((1, 600), cfg, 2).is_some());
    // Multisampled depth cannot be sampled.
    let msaa = config(Some(DepthFormat::Depth24Plus), true, 4);
    assert_eq!(a.ensure((1, 600), msaa, 2), Some(AttachmentPlan { depth: Some(DepthFormat::Depth24Plus), depth_sampled: false, msaa: true }));
    // Written depth cannot be sampled either; no depth at all needs nothing.
    assert_eq!(a.ensure((8, 8), config(Some(DepthFormat::Depth32Float), false, 1), 2).unwrap().depth_sampled, false);
    assert_eq!(a.ensure((8, 8), config(None, true, 1), 2), Some(AttachmentPlan { depth: None, depth_sampled: false, msaa: false }));
}

#[test]
fn isolated_batches_take_descending_slices() {
    let mut reg: PipelineRegistry<(), u32> = PipelineRegistry::new();
    let scene = PipelineId(0);
    let ui = PipelineId(1);
    reg.prepare_slot(scene, PassRequirements::depth(), 1, None);
    reg.install(scene, (), PassRequirements::depth(), "scene");
    reg.prepare_slot(ui, PassRequirements::none(), 1, None);
    reg.install(ui, (), PassRequirements::none(), "ui");
    let batches = vec![ui, scene, ui, scene, PipelineId(9)];
    let isolated = isolated_batches(&reg, &batches);
    assert_eq!(isolated, vec![1, 3]);
    let mut slices = DepthSlices::new(isolated.len());
    assert_eq!(slices.next(), 1);
    assert_eq!(slices.next(), 0);
}

#[test]
fn clips_are_clamped_to_the_window() {
    assert_eq!(clip_to_window(-10, 5, 50, 500, 100, 200), (0, 5, 40, 200));
    assert_eq!(clip_to_window(120, -50, 10, 10, 100, 200), (100, 0, 100, 0));
}

#[test]
fn the_surface_ramp_wraps_every_six_steps() {
    assert_eq!(surface_tone(0), SurfaceTone::Surface);
    assert_eq!(surface_tone(1), SurfaceTone::ContainerLow);
    assert_eq!(surface_tone(4), SurfaceTone::ContainerHighest);
    assert_eq!(surface_tone(5), SurfaceTone::ContainerLowest);
    assert_eq!(surface_tone(6), SurfaceTone::Surface);
    assert_eq!(surface_tone(255), SurfaceTone::ContainerHigh);
}

#[test]
fn a_pipeline_counts_only_its_own_instances() {
    let ids = vec![PipelineId(1), PipelineId(2), PipelineId(1)];
    let counts = vec![5, 7, 11];
    assert_eq!(instance_count(&ids, &counts, PipelineId(1)), 16);
    assert_eq!(instance_count(&ids, &counts, PipelineId(2)), 7);
    assert_eq!(instance_count(&ids, &counts, PipelineId(3)), 0);
}

#[test]
fn shape_bytes_pack_low_to_high_and_back() {
    let w = pack_shape_bytes(12, 8, 3, 0b101);
    assert_eq!(w, 12 | (8 << 8) | (3 << 16) | (0b101 << 24));
    assert_eq!(unpack_shape_bytes(w), (12, 8, 3, 0b101));
    assert_eq!(pack_shape_bytes(0, 0, 0, 0), 0);
}

#[test]
fn adjacent_elevations_never_share_a_tone() {
    for level in 1..=11u8 {
        assert_ne!(surface_tone(level - 1), surface_tone(level));
    }
}

#[test]
fn the_first_five_elevations_reach_every_claimed_tone() {
    let seen: Vec<SurfaceTone> = (0..5u8).map(surface_tone).collect();
    for tone in [
        SurfaceTone::Surface,
        SurfaceTone::ContainerLow,
        SurfaceTone::Container,
        SurfaceTone::ContainerHigh,
        SurfaceTone::ContainerHighest,
    ] {
        assert!(seen.contains(&tone));
    }
}
