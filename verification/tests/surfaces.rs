use ui::model::Size;
use ui::sctk::emit::Emit;
use ui::sctk::surfaces::{Configured, PointerKind, SurfaceRole, SurfaceTable};
use ui::sctk::targets::{physical_size, TargetMap};
use ui::sctk::SurfaceId;

fn table() -> SurfaceTable {
    let mut t = SurfaceTable::new();
    t.insert(SurfaceId(3), 3, Size::new(100, 30), SurfaceRole::Layer, Some(40));
    t.insert(SurfaceId(4), 4, Size::new(100, 30), SurfaceRole::Layer, None);
    t.insert(SurfaceId(7), 7, Size::new(0, 0), SurfaceRole::Lock, Some(41));
    t
}

#[test]
fn configure_marks_the_surface_and_reports_a_new_size() {
    let mut t = table();
    assert!(!t.is_configured(SurfaceId(3)));
    let c = t.configure(3, Some(Size::new(200, 30)));
    assert_eq!(c, Some(Configured { surface: SurfaceId(3), resized: Some(Size::new(200, 30)) }));
    assert!(t.is_configured(SurfaceId(3)));
    assert_eq!(t.get(SurfaceId(3)).unwrap().size, Size::new(200, 30));
    // The same size again is no resize.
    let c = t.configure(3, Some(Size::new(200, 30)));
    assert_eq!(c, Some(Configured { surface: SurfaceId(3), resized: None }));
    // No size asked for: configured, size kept.
    let c = t.configure(4, None);
    assert_eq!(c, Some(Configured { surface: SurfaceId(4), resized: None }));
    assert_eq!(t.get(SurfaceId(4)).unwrap().size, Size::new(100, 30));
    assert_eq!(t.configure(99, Some(Size::new(1, 1))), None);
}

#[test]
fn outputs_already_covered_are_found() {
    let t = table();
    assert!(t.has_layer_on(Some(40)));
    assert!(t.has_layer_on(None));
    assert!(!t.has_layer_on(Some(41)));
    assert!(t.has_lock_on(41));
    assert!(!t.has_lock_on(40));
}

#[test]
fn pointer_and_keys_follow_focus() {
    let mut t = table();
    assert_eq!(t.pointer_target(3, PointerKind::Motion), Some(SurfaceId(3)));
    assert_eq!(t.pointer_target(3, PointerKind::Press), None);
    t.focus_enter(4);
    assert_eq!(t.focused(), Some(SurfaceId(4)));
    assert_eq!(t.pointer_target(3, PointerKind::Press), Some(SurfaceId(4)));
    assert_eq!(t.pointer_target(3, PointerKind::Axis), Some(SurfaceId(4)));
    assert_eq!(t.pointer_target(3, PointerKind::Enter), None);
    assert_eq!(t.pointer_target(99, PointerKind::Motion), None);
    t.focus_leave();
    assert_eq!(t.focused(), None);
}

#[test]
fn removing_a_surface_drops_its_focus() {
    let mut t = table();
    t.focus_enter(3);
    t.remove_surface_by_surface_id(SurfaceId(3));
    assert!(t.get(SurfaceId(3)).is_none());
    assert_eq!(t.focused(), None);
    t.remove_surface_by_surface_id(SurfaceId(3));
    assert!(t.get(SurfaceId(4)).is_some());
}

#[test]
fn a_finished_lock_forgets_only_lock_surfaces() {
    let mut t = table();
    t.focus_enter(7);
    t.finish_lock();
    assert!(t.get(SurfaceId(7)).is_none());
    assert!(t.get(SurfaceId(3)).is_some());
    assert!(t.get(SurfaceId(4)).is_some());
    assert_eq!(t.focused(), None);
    assert_eq!(t.configure(7, None), None);
}

#[test]
fn physical_size_scales_by_at_least_one() {
    assert_eq!(physical_size(Size::new(100, 30), 2), Size::new(200, 60));
    assert_eq!(physical_size(Size::new(100, 30), 0), Size::new(100, 30));
    assert_eq!(physical_size(Size::new(100, 30), -3), Size::new(100, 30));
}

#[test]
fn events_reach_their_surface_or_every_target() {
    let mut m: TargetMap<u64> = TargetMap::new();
    m.attach(SurfaceId(3), 30);
    m.attach(SurfaceId(4), 40);
    assert_eq!(m.route(Some(SurfaceId(3))), vec![30]);
    assert!(m.route(Some(SurfaceId(9))).is_empty());
    let mut all = m.route(None);
    all.sort();
    assert_eq!(all, vec![30, 40]);
    assert_eq!(m.target_of(SurfaceId(4)), Some(40));
}

#[test]
fn the_last_destroyed_surface_ends_the_loop() {
    let mut m: TargetMap<u64> = TargetMap::new();
    m.attach(SurfaceId(3), 30);
    m.attach(SurfaceId(4), 40);
    assert_eq!(m.surface_destroyed(SurfaceId(3)), (Some(30), false));
    assert_eq!(m.surface_destroyed(SurfaceId(3)), (None, false));
    assert_eq!(m.surface_destroyed(SurfaceId(4)), (Some(40), true));
    assert!(m.is_empty());
}

#[test]
fn emitted_messages_keep_their_order() {
    assert!(Emit::<u8>::none().into_vec().is_empty());
    assert_eq!(Emit::one(4u8).into_vec(), vec![4]);
    assert_eq!(Emit::many(vec![1u8, 2, 3]).into_vec(), vec![1, 2, 3]);
}
