use tsumiki::blocks::{BlockDef, BlockRegistry, KnownBlocks};
use tsumiki::chunk::{BlockId, Chunk, LightChunk, LightValue, Rgb};
use tsumiki::geometry::{floor_div, split_block_pos, IVec3, UVec3};
use tsumiki::icons::light_at;
use tsumiki::mesh::{light_uv, Face};
use tsumiki::view::{
    any_chunk_ready, block_at, build_ready_chunk, clear_chunks, despawn_far_chunks, forget_chunk,
    insert_light_chunk, is_chunk_loaded, is_ready_to_mesh, mesh_ready_chunks, set_block,
    ChunkStore, MeshAction,
};

const AIR: BlockId = BlockId(0);
const STONE: BlockId = BlockId(1);
const HEIGHT: i32 = 4;

fn at(x: i32, y: i32, z: i32) -> IVec3 {
    IVec3::new(x, y, z)
}

fn registry() -> BlockRegistry {
    let def = |name: &str, opaque: bool| BlockDef {
        name: name.to_string(),
        opaque,
        solid: opaque,
        targetable: opaque,
        interactive: false,
        color_top: Rgb::new(1, 2, 3),
        color_side: Rgb::new(4, 5, 6),
        color_bottom: Rgb::new(7, 8, 9),
        light_emission: Rgb::new(0, 0, 0),
        tool: None,
        harvest_tier: None,
    };
    BlockRegistry {
        defs: vec![def("air", false), def("stone", true)],
        known: KnownBlocks {
            torch: BlockId(50),
            log: BlockId(51),
            water: BlockId(52),
            grass: BlockId(53),
            dirt: BlockId(54),
            farmland: BlockId(55),
            wheat_young: BlockId(56),
            miner: BlockId(57),
        },
    }
}

fn store_with_chunk_at(pos: IVec3) -> ChunkStore {
    let mut store = ChunkStore::new(HEIGHT);
    store.chunks.insert(pos, Chunk::filled(AIR));
    store
}

fn sorted(mut v: Vec<IVec3>) -> Vec<(i32, i32, i32)> {
    let mut out: Vec<(i32, i32, i32)> = v.drain(..).map(|p| (p.x, p.y, p.z)).collect();
    out.sort();
    out
}

#[test]
fn interior_edit_dirties_only_its_own_chunk() {
    let mut store = store_with_chunk_at(at(0, 0, 0));
    let dirtied = set_block(&mut store, at(5, 5, 5), STONE);
    assert_eq!(dirtied, vec![at(0, 0, 0)]);
    assert_eq!(store.dirty.to_vec(), vec![at(0, 0, 0)]);
    assert_eq!(block_at(&store, at(5, 5, 5)), Some(STONE));
}

#[test]
fn edit_at_min_x_border_also_dirties_neg_x_neighbor() {
    let mut store = store_with_chunk_at(at(0, 0, 0));
    let dirtied = set_block(&mut store, at(0, 5, 5), STONE);
    assert_eq!(dirtied.len(), 2);
    assert!(dirtied.contains(&at(0, 0, 0)));
    assert!(dirtied.contains(&at(-1, 0, 0)));
}

#[test]
fn edit_at_max_x_border_also_dirties_pos_x_neighbor() {
    let mut store = store_with_chunk_at(at(0, 0, 0));
    let dirtied = set_block(&mut store, at(31, 5, 5), STONE);
    assert_eq!(dirtied.len(), 2);
    assert!(dirtied.contains(&at(0, 0, 0)));
    assert!(dirtied.contains(&at(1, 0, 0)));
}

#[test]
fn corner_edit_dirties_all_three_adjacent_chunks() {
    let mut store = store_with_chunk_at(at(0, 0, 0));
    let dirtied = set_block(&mut store, at(0, 0, 31), STONE);
    assert_eq!(dirtied.len(), 4, "self + 3 adjacent chunks: {dirtied:?}");
    assert!(dirtied.contains(&at(0, 0, 0)));
    assert!(dirtied.contains(&at(-1, 0, 0)));
    assert!(dirtied.contains(&at(0, -1, 0)));
    assert!(dirtied.contains(&at(0, 0, 1)));
}

#[test]
fn edit_on_unloaded_chunk_is_a_no_op() {
    let mut store = ChunkStore::new(HEIGHT);
    let dirtied = set_block(&mut store, at(5, 5, 5), STONE);
    assert!(dirtied.is_empty());
    assert!(store.dirty.is_empty());
}

#[test]
fn block_at_outside_vertical_bounds_is_always_air() {
    let store = ChunkStore::new(HEIGHT);
    let above_world = at(0, HEIGHT * 32 + 10, 0);
    assert_eq!(block_at(&store, above_world), Some(AIR));
    assert!(is_chunk_loaded(&store, above_world));
}

#[test]
fn block_at_in_unloaded_chunk_is_none() {
    let store = ChunkStore::new(HEIGHT);
    assert_eq!(block_at(&store, at(5, 5, 5)), None);
    assert!(!is_chunk_loaded(&store, at(5, 5, 5)));
}

#[test]
fn forgetting_a_chunk_clears_the_requested_set_so_it_can_be_re_requested() {
    let pos = at(3, 0, 3);
    let mut store = store_with_chunk_at(pos);
    store.requested.insert(pos);
    store.meshed.insert(pos);
    store.dirty.insert(pos);
    store.light.insert(pos, LightChunk::filled(LightValue::sky()));

    forget_chunk(&mut store, pos);

    assert!(!store.chunks.contains_key(pos));
    assert!(
        !store.requested.contains(pos),
        "a chunk walked back into view must be re-requestable"
    );
    assert!(!store.meshed.contains(pos));
    assert!(!store.dirty.contains(pos));
    assert!(!store.light.contains_key(pos));
}

#[test]
fn arriving_light_invalidates_center_and_loaded_neighbor_meshes() {
    let mut store = store_with_chunk_at(at(0, 0, 0));
    store.chunks.insert(at(1, 0, 0), Chunk::filled(STONE));
    store.meshed.insert(at(0, 0, 0));
    store.meshed.insert(at(1, 0, 0));
    insert_light_chunk(&mut store, at(0, 0, 0), LightChunk::filled(LightValue::sky()));
    assert_eq!(sorted(store.dirty.to_vec()), vec![(0, 0, 0), (1, 0, 0)]);
}

#[test]
fn light_that_changes_nothing_or_belongs_nowhere_is_dropped() {
    let mut store = store_with_chunk_at(at(0, 0, 0));
    insert_light_chunk(&mut store, at(9, 0, 9), LightChunk::filled(LightValue::sky()));
    assert!(!store.light.contains_key(at(9, 0, 9)));
    store.light.insert(at(0, 0, 0), LightChunk::filled(LightValue::sky()));
    insert_light_chunk(&mut store, at(0, 0, 0), LightChunk::filled(LightValue::sky()));
    assert!(store.dirty.is_empty());
    insert_light_chunk(&mut store, at(0, 0, 0), LightChunk::filled(LightValue::dark()));
    assert_eq!(store.dirty.to_vec(), vec![at(0, 0, 0)]);
}

#[test]
fn ready_chunk_waits_for_light_in_all_loaded_neighbors() {
    let zero = at(0, 0, 0);
    let mut store = store_with_chunk_at(zero);
    for face in Face::all() {
        let offset = face.normal();
        if (0..HEIGHT).contains(&offset.y) {
            store.chunks.insert(offset, Chunk::filled(AIR));
            store.light.insert(offset, LightChunk::filled(LightValue::sky()));
        }
    }
    assert!(!is_ready_to_mesh(&store, zero));
    store.light.insert(zero, LightChunk::filled(LightValue::sky()));
    assert!(is_ready_to_mesh(&store, zero));
    store.light.remove(at(1, 0, 0));
    assert!(!is_ready_to_mesh(&store, zero));
}

#[test]
fn highest_world_layer_receives_open_sky_on_its_upper_face() {
    let pos = at(0, HEIGHT - 1, 0);
    let mut store = ChunkStore::new(HEIGHT);
    let mut chunk = Chunk::filled(AIR);
    chunk.set(UVec3::new(16, 31, 16), STONE);
    store.chunks.insert(pos, chunk);
    store.light.insert(pos, LightChunk::filled(LightValue::dark()));
    let build = build_ready_chunk(&store, pos, &registry()).unwrap();
    for (normal, uv) in build.normals.iter().zip(&build.light_uvs) {
        if *normal == Face::PosY.normal() {
            assert_eq!(*uv, light_uv(LightValue::sky()));
        } else {
            assert_eq!(*uv, light_uv(LightValue::dark()));
        }
    }
}

fn ready_store(side: i32) -> ChunkStore {
    let mut store = ChunkStore::new(1);
    for x in -side - 1..=side + 1 {
        for z in -side - 1..=side + 1 {
            store.chunks.insert(at(x, 0, z), Chunk::filled(STONE));
            store.light.insert(at(x, 0, z), LightChunk::filled(LightValue::sky()));
        }
    }
    store
}

#[test]
fn a_frame_meshes_the_nearest_chunks_within_its_budget() {
    let registry = registry();
    let mut store = ready_store(2);
    assert!(any_chunk_ready(&store));
    let plan = mesh_ready_chunks(&mut store, &registry, at(0, 0, 0));
    assert_eq!(plan.remeshed.len(), 0);
    assert_eq!(plan.fresh.len(), 12);
    assert_eq!(plan.left, 0);
    assert_eq!(plan.fresh[0], at(0, 0, 0));
    let far = |p: &IVec3| p.x * p.x + p.z * p.z;
    for pair in plan.fresh.windows(2) {
        assert!(far(&pair[0]) <= far(&pair[1]));
    }
    assert!(plan.fresh.iter().all(|p| far(p) <= 4));
    assert_eq!(plan.actions.len(), 12);
    assert!(plan.actions.iter().all(|a| matches!(a, MeshAction::Spawn { .. })));

    let second = mesh_ready_chunks(&mut store, &registry, at(0, 0, 0));
    assert_eq!(second.fresh.len(), 12);
    let third = mesh_ready_chunks(&mut store, &registry, at(0, 0, 0));
    assert_eq!(third.fresh.len(), 1);
    assert_eq!(third.left, 11);
    assert!(!any_chunk_ready(&store));
}

#[test]
fn changed_chunks_come_first_and_reuse_or_drop_their_entity() {
    let registry = registry();
    let mut store = ready_store(1);
    let _ = mesh_ready_chunks(&mut store, &registry, at(0, 0, 0));
    store.entities.insert(at(0, 0, 0), 7);
    set_block(&mut store, at(3, 3, 3), AIR);
    let plan = mesh_ready_chunks(&mut store, &registry, at(0, 0, 0));
    assert_eq!(plan.remeshed, vec![at(0, 0, 0)]);
    match &plan.actions[0] {
        MeshAction::Replace { pos, entity, mesh } => {
            assert_eq!(*pos, at(0, 0, 0));
            assert_eq!(*entity, 7);
            assert!(!mesh.is_empty());
        }
        other => panic!("unexpected {other:?}"),
    }
    store.chunks.insert(at(0, 0, 0), Chunk::filled(AIR));
    store.dirty.insert(at(0, 0, 0));
    let plan = mesh_ready_chunks(&mut store, &registry, at(0, 0, 0));
    assert!(matches!(plan.actions[0], MeshAction::Despawn { entity: 7, .. }));
    assert!(!store.entities.contains_key(at(0, 0, 0)));
}

#[test]
fn a_changed_chunk_that_is_not_loaded_stays_marked() {
    let mut store = ready_store(0);
    set_block(&mut store, at(0, 5, 5), AIR);
    assert!(store.dirty.contains(at(-1, 0, 0)));
    let mut lonely = store_with_chunk_at(at(0, 0, 0));
    set_block(&mut lonely, at(0, 5, 5), STONE);
    let plan = mesh_ready_chunks(&mut lonely, &registry(), at(0, 0, 0));
    assert!(plan.remeshed.is_empty());
    assert!(lonely.dirty.contains(at(0, 0, 0)));
}

#[test]
fn far_chunks_are_forgotten_with_their_entities() {
    let mut store = ChunkStore::new(2);
    for x in 0..12 {
        store.chunks.insert(at(x, 0, 0), Chunk::filled(AIR));
        store.requested.insert(at(x, 0, 0));
    }
    store.entities.insert(at(11, 0, 0), 111);
    store.entities.insert(at(3, 0, 0), 33);
    let removed = despawn_far_chunks(&mut store, at(0, 0, 0), 4);
    assert_eq!(
        sorted(removed.positions),
        (7..12).map(|x| (x, 0, 0)).collect::<Vec<_>>()
    );
    assert_eq!(removed.entities, vec![111]);
    assert!(store.chunks.contains_key(at(6, 0, 0)));
    assert!(!store.requested.contains(at(7, 0, 0)));
    let all = clear_chunks(&mut store);
    assert_eq!(all.entities, vec![33]);
    assert!(store.chunks.keys().is_empty());
}

#[test]
fn entity_samples_follow_negative_chunk_boundaries() {
    let mut store = ChunkStore::new(HEIGHT);
    let warm = LightValue::new(Rgb::new(12, 9, 5), 0);
    let mut west = LightChunk::filled(LightValue::dark());
    west.set(UVec3::new(31, 4, 0), warm);
    store.light.insert(at(-1, 0, 0), west);
    store.light.insert(at(0, 0, 0), LightChunk::filled(LightValue::sky()));
    let sample = |x: f32, y: f32, z: f32| {
        light_at(&store, at(x.floor() as i32, y.floor() as i32, z.floor() as i32))
    };
    assert_eq!(sample(-0.1, 4.2, 0.5), warm);
    assert_eq!(sample(0.1, 4.2, 0.5), LightValue::sky());
    assert_eq!(sample(32.1, 4.2, 0.5), LightValue::dark());
}

#[test]
fn positions_split_with_negative_coordinates() {
    assert_eq!(split_block_pos(at(-1, 32, 65)), (at(-1, 1, 2), UVec3::new(31, 0, 1)));
    assert_eq!(split_block_pos(at(-32, -33, 0)), (at(-1, -2, 0), UVec3::new(0, 31, 0)));
    assert_eq!(floor_div(i32::MIN, 1), i32::MIN);
    assert_eq!(floor_div(-7, 2), -4);
    assert_eq!(floor_div(7, 2), 3);
}

#[test]
fn a_read_gives_back_the_last_edit_and_leaves_the_rest() {
    let mut store = store_with_chunk_at(at(-1, 0, -1));
    set_block(&mut store, at(-1, 0, -1), STONE);
    assert_eq!(block_at(&store, at(-1, 0, -1)), Some(STONE));
    assert_eq!(block_at(&store, at(-2, 0, -1)), Some(AIR));
    set_block(&mut store, at(-1, 0, -1), AIR);
    assert_eq!(block_at(&store, at(-1, 0, -1)), Some(AIR));
}
