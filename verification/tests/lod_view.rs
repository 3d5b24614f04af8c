use std::collections::HashSet;
use tsumiki::blocks::{BlockDef, BlockRegistry, KnownBlocks};
use tsumiki::chunk::{BlockId, Chunk, Rgb};
use tsumiki::geometry::{IVec3, UVec3};
use tsumiki::lod_view::{
    cell_size, chunk_span, clear_lod_chunks, despawn_stale_lod_chunks, inner_bound,
    insert_lod_chunk, is_wanted, is_wanted_with_hysteresis, mesh_lod_chunks, outer_bound,
    request_lod_chunks, wanted_lod_chunks, LodAction, LodDistance, LodHeights, LodStore, MAX_LOD,
};
use tsumiki::packed::LodPos;
use tsumiki::session::VIEW_DISTANCE_CHUNKS;

const AIR: BlockId = BlockId(0);
const STONE: BlockId = BlockId(1);
/// Chunk layers of each level in a world of 256 blocks.
const HEIGHTS: LodHeights = [8, 4, 2, 1, 1, 1];

fn lod(level: u8, x: i32, y: i32, z: i32) -> LodPos {
    LodPos { level, pos: IVec3::new(x, y, z) }
}

fn center_distance(at: LodPos, camera: (f32, f32)) -> f32 {
    let span = chunk_span(at.level) as f32;
    let dx = camera.0 - (at.pos.x as f32 + 0.5) * span;
    let dz = camera.1 - (at.pos.z as f32 + 0.5) * span;
    (dx * dx + dz * dz).sqrt()
}

fn measure(camera: (f32, f32)) -> impl Fn(LodPos) -> LodDistance + Copy {
    move |at| {
        let d = center_distance(at, camera);
        LodDistance { floor: d.floor() as i32, ceil: d.ceil() as i32, order: d.to_bits() }
    }
}

fn wanted(camera: (f32, f32), vd_blocks: i32) -> Vec<LodPos> {
    wanted_lod_chunks(
        camera.0.floor() as i32,
        camera.1.floor() as i32,
        measure(camera),
        vd_blocks,
        &HEIGHTS,
    )
}

fn default_vd_blocks() -> i32 {
    VIEW_DISTANCE_CHUNKS * 32
}

fn registry() -> BlockRegistry {
    let def = |opaque: bool| BlockDef {
        name: String::new(),
        opaque,
        solid: opaque,
        targetable: opaque,
        interactive: false,
        color_top: Rgb::new(0, 0, 0),
        color_side: Rgb::new(0, 0, 0),
        color_bottom: Rgb::new(0, 0, 0),
        light_emission: Rgb::new(0, 0, 0),
        tool: None,
        harvest_tier: None,
    };
    BlockRegistry {
        defs: vec![def(false), def(true)],
        known: KnownBlocks {
            torch: BlockId(90),
            log: BlockId(91),
            water: BlockId(92),
            grass: BlockId(93),
            dirt: BlockId(94),
            farmland: BlockId(95),
            wheat_young: BlockId(96),
            miner: BlockId(97),
        },
    }
}

#[test]
fn bands_cover_the_full_radial_range_without_gaps() {
    for vd_chunks in [4, 8, 12, 24] {
        let vd_blocks = vd_chunks * 32;
        let horizon = outer_bound(MAX_LOD, vd_blocks);
        let samples = 500;
        for i in 0..=samples {
            let dist =
                vd_blocks as f32 + (horizon - vd_blocks) as f32 * (i as f32 / samples as f32);
            let covered = (1..=MAX_LOD).any(|level| {
                dist >= inner_bound(level, vd_blocks) as f32
                    && dist <= outer_bound(level, vd_blocks) as f32
            });
            assert!(
                covered,
                "distance {dist} not covered by any band (vd_blocks={vd_blocks})"
            );
        }
    }
}

#[test]
fn consecutive_bands_overlap_by_exactly_one_chunk_span() {
    let vd_blocks = default_vd_blocks();
    for level in 2..=MAX_LOD {
        let overlap = outer_bound(level - 1, vd_blocks) - inner_bound(level, vd_blocks);
        assert_eq!(overlap, chunk_span(level));
    }
    assert_eq!(vd_blocks - inner_bound(1, vd_blocks), chunk_span(1));
}

#[test]
fn wanted_counts_are_bounded_per_level() {
    let vd_blocks = default_vd_blocks();
    let wanted = wanted((0.0, 0.0), vd_blocks);
    for level in 1..=MAX_LOD {
        let count = wanted.iter().filter(|p| p.level == level).count();
        assert!(count > 0, "level {level} wants nothing");
        let side = (2 * outer_bound(level, vd_blocks) / chunk_span(level) + 4) as i64;
        let bound = side * side * i64::from(HEIGHTS[level as usize]);
        assert!(
            (count as i64) <= bound,
            "level {level}: {count} exceeds sanity bound {bound}"
        );
    }
}

#[test]
fn wanted_lod_chunks_is_deterministic() {
    let vd_blocks = default_vd_blocks();
    assert_eq!(wanted((123.0, -45.0), vd_blocks), wanted((123.0, -45.0), vd_blocks));
}

#[test]
fn moving_camera_by_one_chunk_changes_the_set_incrementally() {
    let vd_blocks = default_vd_blocks();
    let before: HashSet<LodPos> = wanted((500.0, 500.0), vd_blocks).into_iter().collect();
    let after: HashSet<LodPos> = wanted((532.0, 500.0), vd_blocks).into_iter().collect();
    let intersection = before.intersection(&after).count();
    let union = before.union(&after).count();
    assert!(
        (intersection as f32 / union as f32) > 0.8,
        "intersection={intersection} union={union}"
    );
}

#[test]
fn chunk_outside_world_height_is_never_wanted() {
    let vd_blocks = default_vd_blocks();
    let above = lod(1, 0, HEIGHTS[1], 0);
    assert!(!is_wanted(above, measure((0.0, 0.0))(above), vd_blocks, &HEIGHTS));
}

#[test]
fn chunk_at_camera_center_is_not_wanted_at_any_level() {
    let vd_blocks = default_vd_blocks();
    for level in 1..=MAX_LOD {
        let at = lod(level, 0, 0, 0);
        assert!(!is_wanted(at, measure((0.0, 0.0))(at), vd_blocks, &HEIGHTS));
    }
}

#[test]
fn insert_lod_chunk_replaces_data_and_marks_for_remesh() {
    let mut store = LodStore::new();
    let key = lod(1, 0, 0, 0);
    insert_lod_chunk(&mut store, key, Chunk::filled(AIR));
    store.meshed.insert(key);
    insert_lod_chunk(&mut store, key, Chunk::filled(STONE));
    assert!(!store.meshed.contains(key));
    assert_eq!(store.chunks.get(key).unwrap().get(UVec3::splat(0)), STONE);
}

#[test]
fn insert_lod_chunk_dirties_already_meshed_same_level_neighbor() {
    let mut store = LodStore::new();
    let center = lod(1, 0, 0, 0);
    let neighbor = lod(1, 1, 0, 0);
    let elsewhere = lod(2, 1, 0, 0);
    insert_lod_chunk(&mut store, neighbor, Chunk::filled(AIR));
    store.meshed.insert(neighbor);
    store.meshed.insert(elsewhere);
    insert_lod_chunk(&mut store, center, Chunk::filled(STONE));
    assert!(
        !store.meshed.contains(neighbor),
        "a newly-arrived chunk must dirty an already-meshed same-level neighbor"
    );
    assert!(store.meshed.contains(elsewhere), "another level is not touched");
}

#[test]
fn spans_double_with_each_level() {
    assert_eq!((0..=5).map(cell_size).collect::<Vec<_>>(), vec![1, 2, 4, 8, 16, 32]);
    assert_eq!(chunk_span(5), 1024);
    assert_eq!(outer_bound(3, 256), 2048);
    assert_eq!(inner_bound(3, 256), 1024 - 256);
}

#[test]
fn hysteresis_keeps_what_is_wanted_and_a_margin() {
    let vd = 256;
    let at = lod(1, 0, 0, 0);
    let d = |v: i32| LodDistance { floor: v, ceil: v, order: v as u32 };
    assert!(is_wanted(at, d(512), vd, &HEIGHTS));
    assert!(!is_wanted(at, d(513), vd, &HEIGHTS));
    assert!(is_wanted_with_hysteresis(at, d(576), vd, &HEIGHTS));
    assert!(!is_wanted_with_hysteresis(at, d(577), vd, &HEIGHTS));
    assert!(is_wanted_with_hysteresis(at, d(128), vd, &HEIGHTS));
    assert!(!is_wanted_with_hysteresis(at, d(127), vd, &HEIGHTS));
}

#[test]
fn requests_are_nearest_first_bounded_and_not_repeated() {
    let mut store = LodStore::new();
    let vd = default_vd_blocks();
    let camera = (0.0, 0.0);
    let first = request_lod_chunks(&mut store, 0, 0, measure(camera), vd, &HEIGHTS);
    let count: usize = first.iter().map(|r| r.positions.len()).sum();
    assert_eq!(count, 128);
    let levels: Vec<u8> = first.iter().map(|r| r.level).collect();
    let mut ascending = levels.clone();
    ascending.sort();
    ascending.dedup();
    assert_eq!(levels, ascending);
    for r in &first {
        let far: Vec<f32> = r
            .positions
            .iter()
            .map(|p| center_distance(LodPos { level: r.level, pos: *p }, camera))
            .collect();
        assert!(far.windows(2).all(|w| w[0] <= w[1]));
    }
    let second = request_lod_chunks(&mut store, 0, 0, measure(camera), vd, &HEIGHTS);
    for r in &second {
        for p in &r.positions {
            assert!(!first.iter().any(|f| f.level == r.level && f.positions.contains(p)));
        }
    }
    assert_eq!(store.requested.to_vec().len(), 256);
}

#[test]
fn meshing_spends_only_its_budget_nearest_first() {
    let registry = registry();
    let mut store = LodStore::new();
    for x in 0..5 {
        insert_lod_chunk(&mut store, lod(1, x, 0, 0), Chunk::filled(STONE));
    }
    insert_lod_chunk(&mut store, lod(1, 9, 0, 0), Chunk::filled(AIR));
    let plan = mesh_lod_chunks(&mut store, &registry, measure((0.0, 0.0)), 2);
    assert_eq!(plan.meshed, vec![lod(1, 0, 0, 0), lod(1, 1, 0, 0)]);
    assert_eq!(plan.left, 0);
    assert!(plan.actions.iter().all(|a| matches!(a, LodAction::Spawn { .. })));
    store.entities.insert(lod(1, 0, 0, 0), 5);
    let rest = mesh_lod_chunks(&mut store, &registry, measure((0.0, 0.0)), 10);
    assert_eq!(rest.meshed.len(), 4);
    assert_eq!(rest.left, 6);
    assert_eq!(rest.actions.len(), 3, "an all-air chunk asks for nothing");

    insert_lod_chunk(&mut store, lod(1, 0, 0, 0), Chunk::filled(AIR));
    let again = mesh_lod_chunks(&mut store, &registry, measure((0.0, 0.0)), 10);
    assert_eq!(again.meshed, vec![lod(1, 0, 0, 0), lod(1, 1, 0, 0)]);
    assert!(matches!(again.actions[0], LodAction::Despawn { entity: 5, .. }));
    let none = mesh_lod_chunks(&mut store, &registry, measure((0.0, 0.0)), 0);
    assert!(none.meshed.is_empty());
}

#[test]
fn stale_chunks_leave_with_their_entities() {
    let mut store = LodStore::new();
    let near = lod(1, 0, 0, 0);
    let right = lod(1, 5, 0, 0);
    let odd = lod(9, 5, 0, 0);
    for at in [near, right, odd] {
        insert_lod_chunk(&mut store, at, Chunk::filled(AIR));
        store.entities.insert(at, u64::from(at.level));
    }
    let d = move |at: LodPos| {
        let v = at.pos.x * 64 + 32;
        LodDistance { floor: v, ceil: v, order: v as u32 }
    };
    let removed = despawn_stale_lod_chunks(&mut store, d, 256, &HEIGHTS);
    assert_eq!(removed.positions.len(), 2);
    assert!(removed.positions.contains(&near) && removed.positions.contains(&odd));
    assert!(store.chunks.contains_key(right));
    let all = clear_lod_chunks(&mut store);
    assert_eq!(all.positions, vec![right]);
    assert!(store.chunks.keys().is_empty());
}

#[test]
fn bands_reach_as_far_as_the_numbers_go() {
    let far = i32::MAX / 32;
    assert_eq!(outer_bound(5, far), far * 32);
    assert_eq!(inner_bound(5, far), far * 16 - 1024);
    assert_eq!(outer_bound(0, i32::MAX), i32::MAX);
    let at = lod(5, 0, 0, 0);
    let d = |n: i32| LodDistance { floor: n, ceil: n, order: 0 };
    assert!(!is_wanted(at, d(i32::MAX), far, &HEIGHTS));
    assert!(is_wanted_with_hysteresis(at, d(i32::MAX), far, &HEIGHTS));
}

#[test]
fn a_trembling_camera_keeps_what_it_wants() {
    let vd = default_vd_blocks();
    for at in wanted((8.0, 8.0), vd) {
        let margin = chunk_span(at.level) as f32 - 2.0;
        for camera in [(8.0 + margin, 8.0), (8.0 - margin, 8.0), (8.0, 8.0 + margin)] {
            assert!(is_wanted_with_hysteresis(at, measure(camera)(at), vd, &HEIGHTS));
        }
    }
}
