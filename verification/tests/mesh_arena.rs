use ui::render::capacity::{grown_capacity, next_power_of_two};
use ui::render::pipeline::mesh::{fnv1a, mesh_runs, MeshArena, MeshHandle, Span};

/// Stand-in for a mesh: its vertex and index counts.
type Counts = (u64, u64);

fn cube() -> Counts {
    (24, 36)
}

fn sphere() -> Counts {
    (117, 576)
}

/// Handles must survive another widget uploading in the same frame, or a
/// handle taken in `prepare` is stale by `paint`.
#[test]
fn handles_are_stable_across_later_declarations() {
    let mut arena: MeshArena<Counts> = MeshArena::new();
    let a = arena.declare_named("cube", 1, cube);
    let b = arena.declare_named("sphere", 1, sphere);
    let a_again = arena.declare_named("cube", 1, cube);
    assert_eq!(a, a_again);
    assert_ne!(a, b);
}

#[test]
fn declare_rebuilds_only_on_version_change() {
    let mut arena: MeshArena<Counts> = MeshArena::new();
    arena.declare_named("cube", 1, cube);
    arena.take_dirty();

    arena.declare_named("cube", 1, || panic!("must not rebuild at the same version"));
    assert!(!arena.is_dirty());

    arena.declare_named("cube", 2, cube);
    assert!(arena.is_dirty());
}

#[test]
fn named_declaration_hashes_the_name() {
    let mut arena: MeshArena<Counts> = MeshArena::new();
    let by_name = arena.declare_named("cube", 1, cube);
    let by_key = arena.declare(fnv1a("cube"), 1, || panic!("same key and version"));
    assert_eq!(by_name, by_key);
    assert_eq!(by_name, MeshHandle(0));
}

#[test]
fn new_keys_take_the_next_slot_and_dropped_slots_are_not_reused() {
    let mut arena: MeshArena<Counts> = MeshArena::new();
    assert_eq!(arena.declare(10, 1, cube), MeshHandle(0));
    assert_eq!(arena.declare(20, 1, sphere), MeshHandle(1));
    arena.take_dirty();
    arena.drop_mesh(10);
    assert!(arena.is_dirty());
    assert!(arena.mesh(0).is_none());
    assert_eq!(arena.declare(10, 1, cube), MeshHandle(2));
    assert_eq!(arena.slot_count(), 3);
}

#[test]
fn dropping_an_unknown_key_changes_nothing() {
    let mut arena: MeshArena<Counts> = MeshArena::new();
    arena.declare(1, 1, cube);
    arena.take_dirty();
    arena.drop_mesh(99);
    assert!(!arena.is_dirty());
    assert_eq!(arena.mesh(0), Some(&cube()));
}

#[test]
fn meshes_untouched_past_the_limit_retire() {
    let mut arena: MeshArena<Counts> = MeshArena::new();
    arena.retire_after = 2;
    arena.declare(1, 1, cube);
    arena.declare(2, 1, sphere);
    arena.take_dirty();
    for _ in 0..2 {
        arena.advance_frame();
        arena.declare(2, 1, || panic!("kept alive at the same version"));
    }
    // Key 1 was last declared at frame 0; at frame 3 it is 3 frames old.
    arena.advance_frame();
    assert!(arena.mesh(0).is_none());
    assert_eq!(arena.mesh(1), Some(&sphere()));
    assert!(arena.is_dirty());
    // The retired key gets a fresh slot when declared again.
    assert_eq!(arena.declare(1, 1, cube), MeshHandle(2));
}

#[test]
fn spans_pack_live_meshes_back_to_back() {
    let mut arena: MeshArena<Counts> = MeshArena::new();
    let a = arena.declare(1, 1, cube);
    arena.declare(2, 1, sphere);
    let c = arena.declare(3, 1, || (4, 6));
    arena.drop_mesh(2);
    let counts: Vec<Option<(u64, u64)>> = (0..arena.slot_count()).map(|i| arena.mesh(i).copied()).collect();
    assert_eq!(counts, vec![Some((24, 36)), None, Some((4, 6))]);
    let totals = arena.pack_spans(&counts);
    assert_eq!(totals, Some(((24 + 4) * 48, (36 + 6) * 4)));
    assert_eq!(arena.span(a), Some(Span { index_start: 0, index_count: 36, base_vertex: 0 }));
    assert_eq!(arena.span(MeshHandle(1)), None);
    assert_eq!(arena.span(c), Some(Span { index_start: 36, index_count: 6, base_vertex: 24 }));
}

#[test]
fn empty_geometry_clears_every_span() {
    let mut arena: MeshArena<Counts> = MeshArena::new();
    let a = arena.declare(1, 1, || (3, 0));
    let counts = vec![Some((3, 0))];
    assert_eq!(arena.pack_spans(&counts), None);
    assert_eq!(arena.span(a), None);
    assert!(!arena.span(MeshHandle::invalid()).is_some());
}

#[test]
fn next_power_of_two_rounds_up() {
    assert_eq!(next_power_of_two(0), 1);
    assert_eq!(next_power_of_two(1), 1);
    assert_eq!(next_power_of_two(3), 4);
    assert_eq!(next_power_of_two(4), 4);
    assert_eq!(next_power_of_two(5), 8);
    assert_eq!(next_power_of_two(1000), 1024);
    assert_eq!(next_power_of_two(1 << 63), 1 << 63);
}

#[test]
fn buffers_grow_only_when_too_small_or_missing() {
    assert_eq!(grown_capacity(256, 200, true), None);
    assert_eq!(grown_capacity(256, 256, true), None);
    assert_eq!(grown_capacity(256, 257, true), Some(512));
    assert_eq!(grown_capacity(256, 100, false), Some(128));
    assert_eq!(grown_capacity(0, 0, false), Some(1));
}

#[test]
fn instances_sharing_a_mesh_draw_together() {
    assert!(mesh_runs(&vec![]).is_empty());
    assert_eq!(mesh_runs(&vec![4]), vec![(0, 1)]);
    assert_eq!(mesh_runs(&vec![2, 2, 2, 5, 2, 2]), vec![(0, 3), (3, 4), (4, 6)]);
}

#[test]
fn index_write_places_indices_at_the_span_start() {
    let span = Span { index_start: 3, index_count: 2, base_vertex: 0 };
    let (offset, bytes) = span.index_write(&[7, 0x0102_0304]);
    assert_eq!(offset, 12);
    let mut expected = 7u32.to_ne_bytes().to_vec();
    expected.extend_from_slice(&0x0102_0304u32.to_ne_bytes());
    assert_eq!(bytes, expected);
}

#[test]
fn dropped_key_is_rebuilt_even_at_its_old_version() {
    let mut arena: MeshArena<Counts> = MeshArena::new();
    arena.declare(5, 3, cube);
    arena.drop_mesh(5);
    arena.take_dirty();
    let mut built = false;
    let h = arena.declare(5, 3, || {
        built = true;
        sphere()
    });
    assert!(built);
    assert!(arena.is_dirty());
    assert_eq!(h, MeshHandle(1));
    assert_eq!(arena.mesh(1), Some(&sphere()));
}

#[test]
fn fnv1a_continues_from_the_prefix_hash() {
    let h = fnv1a("cube");
    let extended = (h ^ (b'x' as u64)).wrapping_mul(0x1000_0000_01b3);
    assert_eq!(fnv1a("cubex"), extended);
}
