use tsumiki::blocks::{BlockDef, BlockRegistry, KnownBlocks};
use tsumiki::chunk::{BlockId, Chunk, LightChunk, LightValue, Rgb};
use tsumiki::geometry::{IVec3, UVec3};
use tsumiki::greedy::FaceKey;
use tsumiki::mesh::{
    build_chunk_mesh, build_chunk_mesh_lit, face_color, face_corners, face_sample_positions,
    face_tile, light_uv, merge_mask_into, Face, LightUv, MeshBuild, TextureUv, VertexColor,
    POSITION_SCALE,
};

const AIR: BlockId = BlockId(0);
const STONE: BlockId = BlockId(1);
const DIRT: BlockId = BlockId(2);
const GRASS: BlockId = BlockId(3);
const TORCH: BlockId = BlockId(4);
const LOG: BlockId = BlockId(5);
const WATER: BlockId = BlockId(6);
const FURNACE: BlockId = BlockId(7);
const PLANKS: BlockId = BlockId(8);

fn block(name: &str, opaque: bool) -> BlockDef {
    let seed = name.len() as u8;
    BlockDef {
        name: name.to_string(),
        opaque,
        solid: opaque,
        targetable: name != "air" && name != "water",
        interactive: name == "furnace",
        color_top: Rgb::new(seed, 1, 2),
        color_side: Rgb::new(seed, 3, 4),
        color_bottom: Rgb::new(seed, 5, 6),
        light_emission: if name == "torch" {
            Rgb::new(14, 11, 7)
        } else {
            Rgb::new(0, 0, 0)
        },
        tool: None,
        harvest_tier: None,
    }
}

fn registry() -> BlockRegistry {
    let names = [
        ("air", false),
        ("stone", true),
        ("dirt", true),
        ("grass", true),
        ("torch", false),
        ("log", true),
        ("water", false),
        ("furnace", true),
        ("planks", true),
    ];
    BlockRegistry {
        defs: names.iter().map(|(n, o)| block(n, *o)).collect(),
        known: KnownBlocks {
            torch: TORCH,
            log: LOG,
            water: WATER,
            grass: GRASS,
            dirt: DIRT,
            farmland: BlockId(100),
            wheat_young: BlockId(101),
            miner: BlockId(102),
        },
    }
}

fn all_faces() -> [Face; 6] {
    Face::all()
}

fn quads(mesh: &MeshBuild, face: Face) -> usize {
    mesh.normals.iter().filter(|n| **n == face.normal()).count() / 4
}

#[test]
fn single_block_emits_six_unmerged_quads() {
    let registry = registry();
    let mut chunk = Chunk::filled(AIR);
    chunk.set(UVec3::new(16, 16, 16), STONE);

    let mesh = build_chunk_mesh(&chunk, [None; 6], &registry);

    assert_eq!(mesh.positions.len(), 24);
    assert_eq!(mesh.indices.len(), 36);
    let sum = mesh
        .normals
        .iter()
        .fold((0, 0, 0), |acc, n| (acc.0 + n.x, acc.1 + n.y, acc.2 + n.z));
    assert_eq!(sum, (0, 0, 0));
    for face in all_faces() {
        assert!(
            mesh.normals.contains(&face.normal()),
            "missing face with normal {:?}",
            face.normal()
        );
    }
}

#[test]
fn fully_filled_chunk_merges_each_face_into_one_quad() {
    let registry = registry();
    let chunk = Chunk::filled(STONE);
    let mesh = build_chunk_mesh(&chunk, [None; 6], &registry);
    assert_eq!(mesh.positions.len(), 24);
    assert_eq!(mesh.indices.len(), 36);
}

#[test]
fn fully_enclosed_chunk_produces_empty_mesh() {
    let registry = registry();
    let chunk = Chunk::filled(STONE);
    let neighbor = Chunk::filled(STONE);
    let mesh = build_chunk_mesh(&chunk, [Some(&neighbor); 6], &registry);
    assert!(mesh.is_empty());
    assert!(mesh.positions.is_empty());
}

#[test]
fn adjacent_same_type_blocks_cull_shared_face_and_merge_outer_faces() {
    let registry = registry();
    let mut chunk = Chunk::filled(AIR);
    chunk.set(UVec3::new(16, 16, 16), STONE);
    chunk.set(UVec3::new(17, 16, 16), STONE);

    let mesh = build_chunk_mesh(&chunk, [None; 6], &registry);

    assert_eq!(mesh.positions.len(), 24, "expected 6 merged quads");
    assert_eq!(mesh.indices.len(), 36);
    let count = |face: Face| mesh.normals.iter().filter(|n| **n == face.normal()).count();
    assert_eq!(count(Face::NegX), 4, "one merged NegX quad (4 vertices)");
    assert_eq!(count(Face::PosX), 4, "one merged PosX quad (4 vertices)");
}

#[test]
fn slab_top_face_is_a_single_quad() {
    let registry = registry();
    let mut chunk = Chunk::filled(AIR);
    for x in 0..32u32 {
        for z in 0..32u32 {
            chunk.set(UVec3::new(x, 0, z), STONE);
        }
    }
    let mesh = build_chunk_mesh(&chunk, [None; 6], &registry);
    assert_eq!(quads(&mesh, Face::PosY), 1, "the 32x32 top face must merge to one quad");
    let top: Vec<IVec3> = mesh
        .positions
        .iter()
        .zip(mesh.normals.iter())
        .filter(|(_, n)| **n == Face::PosY.normal())
        .map(|(p, _)| *p)
        .collect();
    let s = POSITION_SCALE;
    for expected in [
        IVec3::new(0, s, 0),
        IVec3::new(32 * s, s, 0),
        IVec3::new(32 * s, s, 32 * s),
        IVec3::new(0, s, 32 * s),
    ] {
        assert!(top.contains(&expected), "missing corner {expected:?} in {top:?}");
    }
}

#[test]
fn quad_winding_matches_normal_via_right_hand_rule() {
    let registry = registry();
    let mut chunk = Chunk::filled(AIR);
    chunk.set(UVec3::new(16, 16, 16), STONE);
    let mesh = build_chunk_mesh(&chunk, [None; 6], &registry);
    for (quad, v) in mesh.positions.chunks(4).enumerate() {
        let a = (v[1].x - v[0].x, v[1].y - v[0].y, v[1].z - v[0].z);
        let b = (v[2].x - v[0].x, v[2].y - v[0].y, v[2].z - v[0].z);
        let cross = (
            a.1 * b.2 - a.2 * b.1,
            a.2 * b.0 - a.0 * b.2,
            a.0 * b.1 - a.1 * b.0,
        );
        let area = POSITION_SCALE * POSITION_SCALE;
        let n = mesh.normals[quad * 4];
        assert_eq!(cross, (area * n.x, area * n.y, area * n.z), "quad {quad}");
    }
}

#[test]
fn different_block_types_do_not_merge() {
    let registry = registry();
    let mut chunk = Chunk::filled(AIR);
    chunk.set(UVec3::new(16, 16, 16), STONE);
    chunk.set(UVec3::new(17, 16, 16), DIRT);
    let mesh = build_chunk_mesh(&chunk, [None; 6], &registry);
    assert_eq!(quads(&mesh, Face::PosY), 2, "different block ids must not merge");
}

#[test]
fn light_boundaries_split_greedy_faces_without_fragmenting_uniform_light() {
    let registry = registry();
    let mut chunk = Chunk::filled(AIR);
    chunk.set(UVec3::new(16, 16, 16), STONE);
    chunk.set(UVec3::new(17, 16, 16), STONE);
    let mut light = LightChunk::filled(LightValue::sky());
    let uniform = build_chunk_mesh_lit(&chunk, [None; 6], &registry, Some(&light), [None; 6]);
    assert_eq!(uniform.indices.len() / 6, 6);
    let warm = LightValue::new(Rgb::new(12, 9, 5), 0);
    light.set(UVec3::new(17, 17, 16), warm);
    let split = build_chunk_mesh_lit(&chunk, [None; 6], &registry, Some(&light), [None; 6]);
    assert_eq!(split.indices.len() / 6, 7, "only the changed top face splits");
    let top: Vec<LightUv> = split
        .normals
        .iter()
        .zip(&split.light_uvs)
        .filter(|(n, _)| **n == Face::PosY.normal())
        .map(|(_, uv)| *uv)
        .collect();
    assert!(top.contains(&light_uv(LightValue::sky())));
    assert!(top.contains(&light_uv(warm)));
}

#[test]
fn unlit_cave_faces_have_no_sky_or_rgb_light() {
    let registry = registry();
    let mut chunk = Chunk::filled(AIR);
    chunk.set(UVec3::splat(16), STONE);
    let dark = LightChunk::filled(LightValue::dark());
    let mesh = build_chunk_mesh_lit(&chunk, [None; 6], &registry, Some(&dark), [None; 6]);
    assert!(!mesh.is_empty());
    assert!(mesh.light_uvs.iter().all(|uv| *uv == LightUv { rgb: 0, sky: 0 }));
}

#[test]
fn face_light_samples_the_adjacent_chunk_across_a_border() {
    let registry = registry();
    let mut chunk = Chunk::filled(AIR);
    chunk.set(UVec3::new(31, 16, 16), STONE);
    let dark = LightChunk::filled(LightValue::dark());
    let mut neighbor = LightChunk::filled(LightValue::dark());
    let torch = LightValue::new(Rgb::new(14, 11, 7), 0);
    neighbor.set(UVec3::new(0, 16, 16), torch);
    let mesh = build_chunk_mesh_lit(
        &chunk,
        [None; 6],
        &registry,
        Some(&dark),
        [None, Some(&neighbor), None, None, None, None],
    );
    for (normal, uv) in mesh.normals.iter().zip(&mesh.light_uvs) {
        let expected = if *normal == Face::PosX.normal() {
            light_uv(torch)
        } else {
            LightUv { rgb: 0, sky: 0 }
        };
        assert_eq!(*uv, expected);
    }
}

#[test]
fn torch_geometry_is_narrow_upright_and_self_lit() {
    let registry = registry();
    let mut chunk = Chunk::filled(AIR);
    chunk.set(UVec3::new(16, 16, 16), TORCH);
    let dark = LightChunk::filled(LightValue::dark());
    let mesh = build_chunk_mesh_lit(&chunk, [None; 6], &registry, Some(&dark), [None; 6]);
    assert_eq!(mesh.indices.len() / 6, 12, "shaft and glowing head");
    for p in &mesh.positions {
        let at = |v: i32| v as f32 / POSITION_SCALE as f32;
        assert!((16.39..16.61).contains(&at(p.x)));
        assert!((16.0..16.83).contains(&at(p.y)));
        assert!((16.39..16.61).contains(&at(p.z)));
    }
    let expected = light_uv(LightValue::new(registry.get(TORCH).light_emission, 0));
    assert!(mesh.light_uvs.iter().all(|uv| *uv == expected));
}

#[test]
fn textured_faces_select_the_matching_atlas_face_without_double_tinting() {
    let registry = registry();
    let mut chunk = Chunk::filled(AIR);
    chunk.set(UVec3::splat(16), FURNACE);
    let light = LightChunk::filled(LightValue::sky());
    let mesh = build_chunk_mesh_lit(&chunk, [None; 6], &registry, Some(&light), [None; 6]);
    for (index, face) in all_faces().into_iter().enumerate() {
        assert_eq!(mesh.normals[index * 4], face.normal());
        let tile = i32::from(FURNACE.0) * 6 + index as i32;
        for uv in &mesh.texture_uvs[index * 4..index * 4 + 4] {
            assert_eq!(*uv, TextureUv { tile, mode: 0 });
        }
    }
    assert!(mesh.colors.iter().all(|c| *c == VertexColor::White));
}

#[test]
fn textured_greedy_slab_keeps_one_tile_id_across_its_full_block_span() {
    let registry = registry();
    let mut chunk = Chunk::filled(AIR);
    for x in 0..32u32 {
        for z in 0..32u32 {
            chunk.set(UVec3::new(x, 0, z), PLANKS);
        }
    }
    let light = LightChunk::filled(LightValue::sky());
    let mesh = build_chunk_mesh_lit(&chunk, [None; 6], &registry, Some(&light), [None; 6]);
    let top: Vec<usize> = mesh
        .normals
        .iter()
        .enumerate()
        .filter(|(_, n)| **n == Face::PosY.normal())
        .map(|(i, _)| i)
        .collect();
    assert_eq!(top.len(), 4, "a textured 32x32 surface stays one greedy quad");
    for i in top {
        assert_eq!(
            mesh.texture_uvs[i],
            TextureUv { tile: face_tile(PLANKS, Face::PosY), mode: 0 }
        );
        assert!([0, 32 * POSITION_SCALE].contains(&mesh.positions[i].x));
        assert!([0, 32 * POSITION_SCALE].contains(&mesh.positions[i].z));
    }
    assert_eq!(mesh.indices.len(), 36);
}

#[test]
fn distant_lod_meshes_keep_average_colors_with_atlas_sampling_disabled() {
    let registry = registry();
    let mut chunk = Chunk::filled(AIR);
    chunk.set(UVec3::splat(16), GRASS);
    let mesh = build_chunk_mesh(&chunk, [None; 6], &registry);
    assert!(mesh.texture_uvs.iter().all(|uv| *uv == TextureUv { tile: -1, mode: 0 }));
    for (index, face) in all_faces().into_iter().enumerate() {
        assert_eq!(
            mesh.colors[index * 4],
            VertexColor::Srgb(face_color(registry.get(GRASS), face))
        );
    }
}

#[test]
fn torch_uses_separate_wood_and_flame_tiles_with_shape_mapping() {
    let registry = registry();
    let mut chunk = Chunk::filled(AIR);
    chunk.set(UVec3::splat(16), TORCH);
    let light = LightChunk::filled(LightValue::dark());
    let mesh = build_chunk_mesh_lit(&chunk, [None; 6], &registry, Some(&light), [None; 6]);
    assert_eq!(mesh.texture_uvs.len(), 48);
    for (index, face) in all_faces().into_iter().enumerate() {
        assert_eq!(
            mesh.texture_uvs[index * 4],
            TextureUv { tile: face_tile(LOG, face), mode: 1 }
        );
        assert_eq!(
            mesh.texture_uvs[24 + index * 4],
            TextureUv { tile: face_tile(TORCH, face), mode: 2 }
        );
    }
    assert!(mesh.colors.iter().all(|c| *c == VertexColor::White));
}

#[test]
fn torch_corners_are_those_of_its_two_boxes() {
    let registry = registry();
    let mut chunk = Chunk::filled(AIR);
    chunk.set(UVec3::new(1, 2, 3), TORCH);
    let mesh = build_chunk_mesh(&chunk, [None; 6], &registry);
    let shaft = &mesh.positions[..24];
    let head = &mesh.positions[24..];
    assert_eq!(shaft.iter().map(|p| p.x).min(), Some(143));
    assert_eq!(shaft.iter().map(|p| p.x).max(), Some(157));
    assert_eq!(shaft.iter().map(|p| p.y).min(), Some(200));
    assert_eq!(shaft.iter().map(|p| p.y).max(), Some(262));
    assert_eq!(shaft.iter().map(|p| p.z).min(), Some(343));
    assert_eq!(head.iter().map(|p| p.y).min(), Some(258));
    assert_eq!(head.iter().map(|p| p.y).max(), Some(282));
    assert_eq!(head.iter().map(|p| p.z).max(), Some(360));
    assert_eq!(mesh.colors[0], VertexColor::Srgb(Rgb::new(112, 72, 34)));
    assert_eq!(mesh.colors[24], VertexColor::Srgb(Rgb::new(255, 222, 122)));
}

#[test]
fn face_order_is_the_order_of_neighbors() {
    for (n, face) in all_faces().into_iter().enumerate() {
        assert_eq!(face.neighbor_index(), n);
    }
    let (own, front) = face_sample_positions(Face::NegX, 0, 4, 5);
    assert_eq!(own, IVec3::new(0, 4, 5));
    assert_eq!(front, IVec3::new(-1, 4, 5));
    let corners = face_corners(Face::PosZ, 2, 0, 1, 0, 1);
    assert_eq!(corners[0], IVec3::new(0, 0, 3));
    assert_eq!(corners[2], IVec3::new(1, 1, 3));
}

#[test]
fn an_absent_neighbor_is_air_and_a_present_one_hides_the_border() {
    let registry = registry();
    let mut chunk = Chunk::filled(AIR);
    chunk.set(UVec3::new(0, 5, 5), STONE);
    let mut west = Chunk::filled(AIR);
    west.set(UVec3::new(31, 5, 5), STONE);
    let open = build_chunk_mesh(&chunk, [None; 6], &registry);
    assert_eq!(quads(&open, Face::NegX), 1);
    let hidden = build_chunk_mesh(
        &chunk,
        [Some(&west), None, None, None, None, None],
        &registry,
    );
    assert_eq!(quads(&hidden, Face::NegX), 0);
    assert_eq!(quads(&hidden, Face::PosX), 1);
}

#[test]
fn l_shape_is_tiled_without_overlap() {
    let registry = registry();
    let mut chunk = Chunk::filled(AIR);
    for (x, z) in [(0, 0), (1, 0), (2, 0), (0, 1), (0, 2)] {
        chunk.set(UVec3::new(x, 0, z), STONE);
    }
    let mesh = build_chunk_mesh(&chunk, [None; 6], &registry);
    assert_eq!(quads(&mesh, Face::PosY), 2);
    let mut area = 0;
    for q in 0..mesh.positions.len() / 4 {
        if mesh.normals[q * 4] == Face::PosY.normal() {
            let v = &mesh.positions[q * 4..q * 4 + 4];
            let width = v.iter().map(|p| p.x).max().unwrap() - v.iter().map(|p| p.x).min().unwrap();
            let depth = v.iter().map(|p| p.z).max().unwrap() - v.iter().map(|p| p.z).min().unwrap();
            area += width * depth;
        }
    }
    assert_eq!(area, 5 * POSITION_SCALE * POSITION_SCALE);
}

#[test]
fn light_levels_pack_in_base_sixteen() {
    let uv = light_uv(LightValue::new(Rgb::new(12, 9, 5), 7));
    assert_eq!(uv, LightUv { rgb: 12 + 9 * 16 + 5 * 256, sky: 7 });
}

#[test]
fn a_registry_knows_a_chunk_of_its_own_blocks() {
    let registry = registry();
    let mut chunk = Chunk::filled(STONE);
    assert!(registry.knows_chunk(&chunk));
    chunk.set(UVec3::new(31, 0, 31), BlockId(9));
    assert!(!registry.knows_chunk(&chunk));
    chunk.set(UVec3::new(31, 0, 31), PLANKS);
    assert!(registry.knows_chunk(&chunk));
}

#[test]
fn a_small_mask_merges_row_by_row() {
    let registry = registry();
    let key = FaceKey { block: STONE, light: LightValue::sky(), textured: true };
    let mut mask = vec![Some(key), Some(key), Some(key), None];
    let mut build = MeshBuild::new();
    merge_mask_into(&mut mask, 2, Face::PosY, 0, &registry, &mut build);
    assert_eq!(mask, vec![None; 4]);
    let corners = [
        (0, 1, 0), (0, 1, 1), (2, 1, 1), (2, 1, 0),
        (0, 1, 1), (0, 1, 2), (1, 1, 2), (1, 1, 1),
    ];
    let points: Vec<IVec3> = corners
        .iter()
        .map(|(x, y, z)| IVec3::new(x * POSITION_SCALE, y * POSITION_SCALE, z * POSITION_SCALE))
        .collect();
    assert_eq!(build.positions, points);
    assert_eq!(build.indices, vec![0, 1, 2, 0, 2, 3, 4, 5, 6, 4, 6, 7]);

    merge_mask_into(&mut vec![Some(key)], 1, Face::NegX, -3, &registry, &mut build);
    assert_eq!(build.positions[..8], points[..]);
    assert_eq!(build.positions[8], IVec3::new(-3 * POSITION_SCALE, 0, 0));
    merge_mask_into(&mut vec![], 0, Face::NegX, 0, &registry, &mut build);
    assert_eq!(build.positions.len(), 12);
}

#[test]
fn a_large_mask_merges_whole() {
    let registry = registry();
    let key = FaceKey { block: STONE, light: LightValue::sky(), textured: false };
    let mut mask = vec![Some(key); 40 * 40];
    let mut build = MeshBuild::new();
    merge_mask_into(&mut mask, 40, Face::PosZ, 99, &registry, &mut build);
    assert_eq!(build.positions.len(), 4);
    assert_eq!(build.positions[2], IVec3::new(4000, 4000, 10000));
}

#[test]
fn corners_lie_on_any_layer() {
    let corners = face_corners(Face::NegX, i32::MIN, 1, 2, 3, 4);
    assert!(corners.iter().all(|c| c.x == i32::MIN));
    let corners = face_corners(Face::PosX, i32::MAX - 1, 1, 2, 3, 4);
    assert!(corners.iter().all(|c| c.x == i32::MAX));
}
