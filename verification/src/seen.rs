//! What a chunk's mesh shows, told by the blocks, the light and the quads
//! alone.

use crate::chunk::{BlockId, Chunk, LightChunk, LightValue, Rgb};
use crate::geometry::{IVec3, UVec3};
use crate::greedy::{greedy, law_greedy_tiles, FaceKey, Rect};
use crate::mesh::{
    corners_of, face_cell, face_of, law_faces_covered_once, rect_quad, scan_position, torch,
    torch_side, Face, MeshSource, Quad, VertexColor,
};
use vstd::prelude::*;

verus! {

/// Whether the block at a place of the chunk hides what is behind it.
pub open spec fn is_opaque(source: MeshSource, block: BlockId) -> bool {
    source.registry.defs@[block.0 as int].opaque
}

/// The block of a chunk at a place.
pub open spec fn block_in(chunk: Chunk, x: int, y: int, z: int) -> BlockId {
    chunk.block(UVec3 { x: x as u32, y: y as u32, z: z as u32 })
}

/// The block of a neighbouring chunk at a place; air where there is none.
pub open spec fn block_over_there(chunk: Option<&Chunk>, x: int, y: int, z: int) -> BlockId {
    match chunk {
        Some(c) => block_in(*c, x, y, z),
        None => BlockId(0),
    }
}

/// The block that a side of a cell looks at: the next one in the chunk, or
/// the first one of the chunk beyond.
pub open spec fn block_in_front(source: MeshSource, x: int, y: int, z: int, side: Face) -> BlockId {
    match side {
        Face::NegX => if x > 0 {
            block_in(*source.chunk, x - 1, y, z)
        } else {
            block_over_there(source.neighbors@[0], 31, y, z)
        },
        Face::PosX => if x < 31 {
            block_in(*source.chunk, x + 1, y, z)
        } else {
            block_over_there(source.neighbors@[1], 0, y, z)
        },
        Face::NegY => if y > 0 {
            block_in(*source.chunk, x, y - 1, z)
        } else {
            block_over_there(source.neighbors@[2], x, 31, z)
        },
        Face::PosY => if y < 31 {
            block_in(*source.chunk, x, y + 1, z)
        } else {
            block_over_there(source.neighbors@[3], x, 0, z)
        },
        Face::NegZ => if z > 0 {
            block_in(*source.chunk, x, y, z - 1)
        } else {
            block_over_there(source.neighbors@[4], x, y, 31)
        },
        Face::PosZ => if z < 31 {
            block_in(*source.chunk, x, y, z + 1)
        } else {
            block_over_there(source.neighbors@[5], x, y, 0)
        },
    }
}

/// The light of a chunk at a place.
pub open spec fn light_in(chunk: LightChunk, x: int, y: int, z: int) -> LightValue {
    chunk.light(UVec3 { x: x as u32, y: y as u32, z: z as u32 })
}

/// The light of a neighbouring chunk at a place; darkness where it is absent.
pub open spec fn light_over_there(chunk: Option<&LightChunk>, x: int, y: int, z: int) -> LightValue {
    match chunk {
        Some(c) => light_in(*c, x, y, z),
        None => LightValue { rgb: Rgb { r: 0, g: 0, b: 0 }, sky: 0 },
    }
}

/// The light that falls on a side of a cell: that of the cell it looks at.
/// Without any light data it is full daylight.
pub open spec fn light_in_front(source: MeshSource, x: int, y: int, z: int, side: Face) -> LightValue {
    match source.light {
        None => LightValue { rgb: Rgb { r: 0, g: 0, b: 0 }, sky: 15 },
        Some(own) => match side {
            Face::NegX => if x > 0 {
                light_in(*own, x - 1, y, z)
            } else {
                light_over_there(source.light_neighbors@[0], 31, y, z)
            },
            Face::PosX => if x < 31 {
                light_in(*own, x + 1, y, z)
            } else {
                light_over_there(source.light_neighbors@[1], 0, y, z)
            },
            Face::NegY => if y > 0 {
                light_in(*own, x, y - 1, z)
            } else {
                light_over_there(source.light_neighbors@[2], x, 31, z)
            },
            Face::PosY => if y < 31 {
                light_in(*own, x, y + 1, z)
            } else {
                light_over_there(source.light_neighbors@[3], x, 0, z)
            },
            Face::NegZ => if z > 0 {
                light_in(*own, x, y, z - 1)
            } else {
                light_over_there(source.light_neighbors@[4], x, y, 31)
            },
            Face::PosZ => if z < 31 {
                light_in(*own, x, y, z + 1)
            } else {
                light_over_there(source.light_neighbors@[5], x, y, 0)
            },
        },
    }
}

/// Whether the way from one coordinate to another, in hundredths of a block,
/// goes past the whole of a block.
pub open spec fn spans(a: int, b: int, v: int) -> bool {
    (a <= 100 * v && 100 * (v + 1) <= b) || (b <= 100 * v && 100 * (v + 1) <= a)
}

/// Whether a quad shows a side of a cell: it faces the same way, lies in the
/// side's plane, and reaches over the whole side.
pub open spec fn shows_side(q: Quad, x: int, y: int, z: int, side: Face) -> bool {
    let a = q.corners[0];
    let b = q.corners[2];
    match side {
        Face::NegX => {
            &&& q.normal == (IVec3 { x: (-1) as i32, y: 0, z: 0 })
            &&& forall|k: int| 0 <= k < 4 ==> (#[trigger] q.corners[k]).x == 100 * x
            &&& spans(a.y as int, b.y as int, y)
            &&& spans(a.z as int, b.z as int, z)
        },
        Face::PosX => {
            &&& q.normal == (IVec3 { x: 1, y: 0, z: 0 })
            &&& forall|k: int| 0 <= k < 4 ==> (#[trigger] q.corners[k]).x == 100 * (x + 1)
            &&& spans(a.y as int, b.y as int, y)
            &&& spans(a.z as int, b.z as int, z)
        },
        Face::NegY => {
            &&& q.normal == (IVec3 { x: 0, y: (-1) as i32, z: 0 })
            &&& forall|k: int| 0 <= k < 4 ==> (#[trigger] q.corners[k]).y == 100 * y
            &&& spans(a.x as int, b.x as int, x)
            &&& spans(a.z as int, b.z as int, z)
        },
        Face::PosY => {
            &&& q.normal == (IVec3 { x: 0, y: 1, z: 0 })
            &&& forall|k: int| 0 <= k < 4 ==> (#[trigger] q.corners[k]).y == 100 * (y + 1)
            &&& spans(a.x as int, b.x as int, x)
            &&& spans(a.z as int, b.z as int, z)
        },
        Face::NegZ => {
            &&& q.normal == (IVec3 { x: 0, y: 0, z: (-1) as i32 })
            &&& forall|k: int| 0 <= k < 4 ==> (#[trigger] q.corners[k]).z == 100 * z
            &&& spans(a.x as int, b.x as int, x)
            &&& spans(a.y as int, b.y as int, y)
        },
        Face::PosZ => {
            &&& q.normal == (IVec3 { x: 0, y: 0, z: 1 })
            &&& forall|k: int| 0 <= k < 4 ==> (#[trigger] q.corners[k]).z == 100 * (z + 1)
            &&& spans(a.x as int, b.x as int, x)
            &&& spans(a.y as int, b.y as int, y)
        },
    }
}

/// Whether a quad carries a light: the colour levels in base 16, red lowest,
/// and the daylight.
pub open spec fn carries_light(q: Quad, light: LightValue) -> bool {
    &&& q.light.rgb == light.rgb.r + 16 * light.rgb.g + 256 * light.rgb.b
    &&& q.light.sky == light.sky
}

/// Whether a quad is painted as a block's side is: with light data by its own
/// tile of the atlas, six to a block in the order of the sides, and else by
/// the block's colour on that side.
pub open spec fn painted_as(source: MeshSource, q: Quad, block: BlockId, side: Face) -> bool {
    let def = source.registry.defs@[block.0 as int];
    if source.light is Some {
        &&& q.color == VertexColor::White
        &&& q.texture.mode == 0
        &&& q.texture.tile == 6 * block.0 + match side {
            Face::NegX => 0int,
            Face::PosX => 1,
            Face::NegY => 2,
            Face::PosY => 3,
            Face::NegZ => 4,
            Face::PosZ => 5,
        }
    } else {
        &&& q.texture.tile == -1
        &&& q.texture.mode == 0
        &&& q.color == VertexColor::Srgb(
            match side {
                Face::PosY => def.color_top,
                Face::NegY => def.color_bottom,
                _ => def.color_side,
            },
        )
    }
}

/// The mask coordinates of a cell seen from a side, and its layer.
spec fn in_mask(x: int, y: int, z: int, side: Face) -> (int, int, int) {
    match side {
        Face::NegX | Face::PosX => (x, y, z),
        Face::NegY | Face::PosY => (y, x, z),
        Face::NegZ | Face::PosZ => (z, x, y),
    }
}

/// A side of a block is drawn exactly where it can be seen: the block is
/// opaque, and what it looks at, in this chunk or the next, is not, whatever
/// it is. Then exactly one quad of the mesh shows it, lit by the cell it
/// looks at and painted as that side of that block. A side that cannot be seen
/// is shown by none.
pub proof fn law_every_seen_side_is_drawn(source: MeshSource, x: int, y: int, z: int, side: Face)
    requires
        0 <= x < 32,
        0 <= y < 32,
        0 <= z < 32,
        !is_opaque(source, BlockId(0)),
    ensures
        ({
            let own = block_in(*source.chunk, x, y, z);
            let quads = source.quads();
            if is_opaque(source, own) && !is_opaque(source, block_in_front(source, x, y, z, side)) {
                exists|q: int|
                    {
                        &&& 0 <= q < quads.len()
                        &&& #[trigger] shows_side(quads[q], x, y, z, side)
                        &&& carries_light(quads[q], light_in_front(source, x, y, z, side))
                        &&& painted_as(source, quads[q], own, side)
                        &&& forall|p: int|
                            0 <= p < quads.len() && #[trigger] shows_side(quads[p], x, y, z, side)
                                ==> p == q
                    }
            } else {
                forall|q: int|
                    0 <= q < quads.len() ==> !#[trigger] shows_side(quads[q], x, y, z, side)
            }
        }),
{
    let own = block_in(*source.chunk, x, y, z);
    let quads = source.quads();
    if source.chunk.all_air() {
        assert(source.chunk.block(UVec3 { x: x as u32, y: y as u32, z: z as u32 }).is_air());
    } else {
        lemma_visible(source, x, y, z, side);
        lemma_cubes_show(source, x, y, z, side, 192);
        lemma_torches_show_none(source, x, y, z, side, 32768);
        let (layer, i, j) = in_mask(x, y, z, side);
        assert(side.number() * 32 + layer < 192);
        let key = match source.visible(side, layer, i, j) {
            Some(key) => key,
            None => arbitrary(),
        };
        let test = shows(x, y, z, side);
        let good = looks(source, key, side);
        assert(never(source.torch_quads(32768), test)) by {
            assert forall|q: int| 0 <= q < source.torch_quads(32768).len() implies !test(
                #[trigger] source.torch_quads(32768)[q],
            ) by {
                assert(!shows_side(source.torch_quads(32768)[q], x, y, z, side));
            }
        }
        lemma_concat(source.cube_quads(192), source.torch_quads(32768), test, good);
        assert(quads == source.cube_quads(192) + source.torch_quads(32768));
        if source.visible(side, layer, i, j) is Some {
            let q = choose|q: int|
                {
                    &&& 0 <= q < quads.len()
                    &&& test(#[trigger] quads[q])
                    &&& good(quads[q])
                    &&& forall|p: int| 0 <= p < quads.len() && test(#[trigger] quads[p]) ==> p == q
                };
            assert(shows_side(quads[q], x, y, z, side));
            assert forall|p: int|
                0 <= p < quads.len() && #[trigger] shows_side(quads[p], x, y, z, side) implies p == q by {
                assert(test(quads[p]));
            }
        } else {
            assert forall|q: int| 0 <= q < quads.len() implies !#[trigger] shows_side(
                quads[q],
                x,
                y,
                z,
                side,
            ) by {
                assert(!test(quads[q]));
            }
        }
    }
}

proof fn lemma_visible(source: MeshSource, x: int, y: int, z: int, side: Face)
    requires
        0 <= x < 32,
        0 <= y < 32,
        0 <= z < 32,
    ensures
        ({
            let (layer, i, j) = in_mask(x, y, z, side);
            let own = block_in(*source.chunk, x, y, z);
            source.visible(side, layer, i, j) == if is_opaque(source, own) && !is_opaque(
                source,
                block_in_front(source, x, y, z, side),
            ) {
                Some(
                    FaceKey {
                        block: own,
                        light: light_in_front(source, x, y, z, side),
                        textured: source.light is Some,
                    },
                )
            } else {
                None
            }
        }),
{
    let (layer, i, j) = in_mask(x, y, z, side);
    let cell = face_cell(side, layer, i, j);
    assert(cell == (IVec3 { x: x as i32, y: y as i32, z: z as i32 }));
    assert(cell.local_of() == (UVec3 { x: x as u32, y: y as u32, z: z as u32 }));
    let front = cell.shifted(side.spec_normal());
    assert(source.block_at(cell) == block_in(*source.chunk, x, y, z));
    match side {
        Face::NegX => {
            assert(front.local_of() == (UVec3 {
                x: if x > 0 { (x - 1) as u32 } else { 31 },
                y: y as u32,
                z: z as u32,
            }));
        },
        Face::PosX => {
            assert(front.local_of() == (UVec3 {
                x: if x < 31 { (x + 1) as u32 } else { 0 },
                y: y as u32,
                z: z as u32,
            }));
        },
        Face::NegY => {
            assert(front.local_of() == (UVec3 {
                x: x as u32,
                y: if y > 0 { (y - 1) as u32 } else { 31 },
                z: z as u32,
            }));
        },
        Face::PosY => {
            assert(front.local_of() == (UVec3 {
                x: x as u32,
                y: if y < 31 { (y + 1) as u32 } else { 0 },
                z: z as u32,
            }));
        },
        Face::NegZ => {
            assert(front.local_of() == (UVec3 {
                x: x as u32,
                y: y as u32,
                z: if z > 0 { (z - 1) as u32 } else { 31 },
            }));
        },
        Face::PosZ => {
            assert(front.local_of() == (UVec3 {
                x: x as u32,
                y: y as u32,
                z: if z < 31 { (z + 1) as u32 } else { 0 },
            }));
        },
    }
    assert(source.block_at(front) == block_in_front(source, x, y, z, side));
    assert(source.light_at(front) == light_in_front(source, x, y, z, side));
}

/// Whether exactly one of the quads passes a test, and passes another one too.
spec fn once(quads: Seq<Quad>, shows: spec_fn(Quad) -> bool, good: spec_fn(Quad) -> bool) -> bool {
    exists|q: int|
        {
            &&& 0 <= q < quads.len()
            &&& shows(#[trigger] quads[q])
            &&& good(quads[q])
            &&& forall|p: int| 0 <= p < quads.len() && shows(#[trigger] quads[p]) ==> p == q
        }
}

/// Whether none of the quads passes a test.
spec fn never(quads: Seq<Quad>, shows: spec_fn(Quad) -> bool) -> bool {
    forall|q: int| 0 <= q < quads.len() ==> !shows(#[trigger] quads[q])
}

proof fn lemma_concat(
    a: Seq<Quad>,
    b: Seq<Quad>,
    shows: spec_fn(Quad) -> bool,
    good: spec_fn(Quad) -> bool,
)
    ensures
        never(a, shows) && never(b, shows) ==> never(a + b, shows),
        once(a, shows, good) && never(b, shows) ==> once(a + b, shows, good),
        never(a, shows) && once(b, shows, good) ==> once(a + b, shows, good),
{
    let c = a + b;
    if once(a, shows, good) && never(b, shows) {
        let q = choose|q: int|
            {
                &&& 0 <= q < a.len()
                &&& shows(#[trigger] a[q])
                &&& good(a[q])
                &&& forall|p: int| 0 <= p < a.len() && shows(#[trigger] a[p]) ==> p == q
            };
        assert(c[q] == a[q]);
        assert forall|p: int| 0 <= p < c.len() && shows(#[trigger] c[p]) implies p == q by {
            if p >= a.len() {
                assert(c[p] == b[p - a.len()]);
            } else {
                assert(c[p] == a[p]);
            }
        }
    }
    if never(a, shows) && once(b, shows, good) {
        let q = choose|q: int|
            {
                &&& 0 <= q < b.len()
                &&& shows(#[trigger] b[q])
                &&& good(b[q])
                &&& forall|p: int| 0 <= p < b.len() && shows(#[trigger] b[p]) ==> p == q
            };
        assert(c[a.len() + q] == b[q]);
        assert forall|p: int| 0 <= p < c.len() && shows(#[trigger] c[p]) implies p == a.len() + q by {
            if p >= a.len() {
                assert(c[p] == b[p - a.len()]);
            } else {
                assert(c[p] == a[p]);
            }
        }
    }
}

/// The test whether a quad shows a side.
spec fn shows(x: int, y: int, z: int, side: Face) -> spec_fn(Quad) -> bool {
    |q: Quad| shows_side(q, x, y, z, side)
}

/// The test whether a quad is lit and painted as a face is.
spec fn looks(source: MeshSource, key: FaceKey, side: Face) -> spec_fn(Quad) -> bool {
    |q: Quad|
        carries_light(q, key.light) && (key.textured == (source.light is Some) ==> painted_as(
            source,
            q,
            key.block,
            side,
        ))
}

/// A rectangle's quad shows a side exactly where the rectangle is on the
/// side's layer and covers its cell.
proof fn lemma_rect_shows(
    source: MeshSource,
    face: Face,
    layer: int,
    r: Rect,
    x: int,
    y: int,
    z: int,
    side: Face,
)
    requires
        r.in_mask(32),
        0 <= layer < 32,
        0 <= x < 32,
        0 <= y < 32,
        0 <= z < 32,
    ensures
        ({
            let q = rect_quad(*source.registry, face, layer, r);
            let (l, i, j) = in_mask(x, y, z, side);
            shows_side(q, x, y, z, side) == (face == side && layer == l && r.covers(i, j))
        }),
{
    let q = rect_quad(*source.registry, face, layer, r);
    let c = corners_of(face, layer, r.i as int, r.i + r.w, r.j as int, r.j + r.h);
    assert(q.corners.len() == 4);
    assert(q.corners[0] == crate::mesh::grid_point(c[0]));
    assert(q.corners[1] == crate::mesh::grid_point(c[1]));
    assert(q.corners[2] == crate::mesh::grid_point(c[2]));
    assert(q.corners[3] == crate::mesh::grid_point(c[3]));
    assert(q.normal == face.spec_normal());
    if face == side {
        let (l, i, j) = in_mask(x, y, z, side);
        if shows_side(q, x, y, z, side) {
            assert(layer == l);
            assert(r.covers(i, j));
        }
        if layer == l && r.covers(i, j) {
            assert forall|k: int| 0 <= k < 4 implies q.corners[k] == crate::mesh::grid_point(c[k]) by {}
            assert(shows_side(q, x, y, z, side));
        }
    }
}

proof fn lemma_layer_shows(
    source: MeshSource,
    face: Face,
    layer: int,
    x: int,
    y: int,
    z: int,
    side: Face,
)
    requires
        0 <= layer < 32,
        0 <= x < 32,
        0 <= y < 32,
        0 <= z < 32,
    ensures
        ({
            let quads = source.layer_quads(face, layer);
            let (l, i, j) = in_mask(x, y, z, side);
            match source.visible(side, l, i, j) {
                Some(key) => if face == side && layer == l {
                    once(quads, shows(x, y, z, side), looks(source, key, side))
                } else {
                    never(quads, shows(x, y, z, side))
                },
                None => never(quads, shows(x, y, z, side)),
            }
        }),
{
    let mask = source.mask(face, layer);
    let rects = greedy(mask, 32, 0);
    let quads = source.layer_quads(face, layer);
    let (l, i, j) = in_mask(x, y, z, side);
    law_greedy_tiles(mask, 32);
    assert(quads.len() == rects.len());
    let test = shows(x, y, z, side);
    assert forall|q: int| 0 <= q < quads.len() implies #[trigger] quads[q] == rect_quad(
        *source.registry,
        face,
        layer,
        rects[q],
    ) && test(quads[q]) == (face == side && layer == l && rects[q].covers(i, j)) by {
        assert(rects[q].in_mask(32));
        lemma_rect_shows(source, face, layer, rects[q], x, y, z, side);
    }
    if face == side && layer == l {
        law_faces_covered_once(source, face, layer, i, j);
        match source.visible(side, l, i, j) {
            Some(key) => {
                let q = choose|q: int|
                    {
                        &&& 0 <= q < rects.len()
                        &&& (#[trigger] rects[q]).covers(i, j)
                        &&& rects[q].key == key
                        &&& forall|p: int|
                            0 <= p < rects.len() && (#[trigger] rects[p]).covers(i, j) ==> p == q
                    };
                assert(quads[q] == rect_quad(*source.registry, face, layer, rects[q]));
                assert(test(quads[q]));
                assert(looks(source, key, side)(quads[q]));
            },
            None => {},
        }
    }
}

proof fn lemma_cubes_show(source: MeshSource, x: int, y: int, z: int, side: Face, n: int)
    requires
        0 <= n <= 192,
        0 <= x < 32,
        0 <= y < 32,
        0 <= z < 32,
    ensures
        ({
            let quads = source.cube_quads(n);
            let (l, i, j) = in_mask(x, y, z, side);
            match source.visible(side, l, i, j) {
                Some(key) => if side.number() * 32 + l < n {
                    once(quads, shows(x, y, z, side), looks(source, key, side))
                } else {
                    never(quads, shows(x, y, z, side))
                },
                None => never(quads, shows(x, y, z, side)),
            }
        }),
    decreases n,
{
    let (l, i, j) = in_mask(x, y, z, side);
    if n > 0 {
        lemma_cubes_show(source, x, y, z, side, n - 1);
        let face = face_of((n - 1) / 32);
        let layer = (n - 1) % 32;
        lemma_layer_shows(source, face, layer, x, y, z, side);
        assert(face == side && layer == l <==> side.number() * 32 + l == n - 1);
        let key = match source.visible(side, l, i, j) {
            Some(key) => key,
            None => arbitrary(),
        };
        lemma_concat(
            source.cube_quads(n - 1),
            source.layer_quads(face, layer),
            shows(x, y, z, side),
            looks(source, key, side),
        );
    }
}

/// A torch is too narrow to show the whole side of a cell.
proof fn lemma_torches_show_none(source: MeshSource, x: int, y: int, z: int, side: Face, n: int)
    requires
        0 <= n <= 32768,
    ensures
        forall|q: int|
            0 <= q < source.torch_quads(n).len() ==> !#[trigger] shows_side(
                source.torch_quads(n)[q],
                x,
                y,
                z,
                side,
            ),
    decreases n,
{
    if n > 0 {
        lemma_torches_show_none(source, x, y, z, side, n - 1);
        let pos = scan_position(n - 1);
        let quads = source.torch_quads(n);
        let first = source.torch_quads(n - 1);
        if source.chunk.block(pos) == source.registry.known.torch {
            let rest = torch(*source.registry, pos, source.light is Some);
            assert(quads == first + rest);
            assert forall|q: int| 0 <= q < quads.len() implies !#[trigger] shows_side(
                quads[q],
                x,
                y,
                z,
                side,
            ) by {
                if q >= first.len() {
                    let k = q - first.len();
                    assert(quads[q] == rest[k]);
                    lemma_torch_side_is_narrow(source, pos, k >= 6, face_of(k % 6));
                } else {
                    assert(quads[q] == first[q]);
                }
            }
        }
    }
}

proof fn lemma_torch_side_is_narrow(source: MeshSource, pos: UVec3, head: bool, face: Face)
    requires
        pos.in_chunk(),
    ensures
        ({
            let q = torch_side(*source.registry, pos, source.light is Some, head, face);
            let a = q.corners[0];
            let b = q.corners[2];
            &&& -100 < a.x - b.x < 100
            &&& -100 < a.y - b.y < 100
            &&& -100 < a.z - b.z < 100
        }),
{
    let c = corners_of(face, 0, 0, 1, 0, 1);
    let q = torch_side(*source.registry, pos, source.light is Some, head, face);
    assert(q.corners[0] == crate::mesh::torch_point(pos, head, c[0]));
    assert(q.corners[2] == crate::mesh::torch_point(pos, head, c[2]));
}

/// Whether a quad is a side of a box, in hundredths of a block: it faces the
/// same way, lies in the side's plane, and reaches from corner to corner.
pub open spec fn is_box_side(
    q: Quad,
    low: (int, int, int),
    high: (int, int, int),
    side: Face,
) -> bool {
    let a = q.corners[0];
    let b = q.corners[2];
    let along_x = (a.x == low.0 && b.x == high.0) || (a.x == high.0 && b.x == low.0);
    let along_y = (a.y == low.1 && b.y == high.1) || (a.y == high.1 && b.y == low.1);
    let along_z = (a.z == low.2 && b.z == high.2) || (a.z == high.2 && b.z == low.2);
    match side {
        Face::NegX => {
            &&& q.normal == (IVec3 { x: (-1) as i32, y: 0, z: 0 })
            &&& forall|k: int| 0 <= k < 4 ==> (#[trigger] q.corners[k]).x == low.0
            &&& along_y && along_z
        },
        Face::PosX => {
            &&& q.normal == (IVec3 { x: 1, y: 0, z: 0 })
            &&& forall|k: int| 0 <= k < 4 ==> (#[trigger] q.corners[k]).x == high.0
            &&& along_y && along_z
        },
        Face::NegY => {
            &&& q.normal == (IVec3 { x: 0, y: (-1) as i32, z: 0 })
            &&& forall|k: int| 0 <= k < 4 ==> (#[trigger] q.corners[k]).y == low.1
            &&& along_x && along_z
        },
        Face::PosY => {
            &&& q.normal == (IVec3 { x: 0, y: 1, z: 0 })
            &&& forall|k: int| 0 <= k < 4 ==> (#[trigger] q.corners[k]).y == high.1
            &&& along_x && along_z
        },
        Face::NegZ => {
            &&& q.normal == (IVec3 { x: 0, y: 0, z: (-1) as i32 })
            &&& forall|k: int| 0 <= k < 4 ==> (#[trigger] q.corners[k]).z == low.2
            &&& along_x && along_y
        },
        Face::PosZ => {
            &&& q.normal == (IVec3 { x: 0, y: 0, z: 1 })
            &&& forall|k: int| 0 <= k < 4 ==> (#[trigger] q.corners[k]).z == high.2
            &&& along_x && along_y
        },
    }
}

/// Whether a quad is a side of the shaft of a torch in a cell: 14 hundredths
/// wide, in the middle of the cell, from its floor 62 hundredths up.
pub open spec fn is_shaft_side(q: Quad, x: int, y: int, z: int, side: Face) -> bool {
    is_box_side(
        q,
        (100 * x + 43, 100 * y, 100 * z + 43),
        (100 * x + 57, 100 * y + 62, 100 * z + 57),
        side,
    )
}

/// Whether a quad is a side of the head of a torch in a cell: 20 hundredths
/// wide, from 58 to 82 hundredths up.
pub open spec fn is_head_side(q: Quad, x: int, y: int, z: int, side: Face) -> bool {
    is_box_side(
        q,
        (100 * x + 40, 100 * y + 58, 100 * z + 40),
        (100 * x + 60, 100 * y + 82, 100 * z + 60),
        side,
    )
}

/// Whether a quad of a torch is painted as its shaft, with the tile of logs,
/// or as its head, with its own tile; without light data each has a colour.
pub open spec fn painted_as_torch(source: MeshSource, q: Quad, head: bool, side: Face) -> bool {
    let known = source.registry.known;
    if source.light is Some {
        &&& q.color == VertexColor::White
        &&& q.texture.mode == (if head {
            2int
        } else {
            1
        })
        &&& q.texture.tile == 6 * (if head {
            known.torch.0
        } else {
            known.log.0
        }) + match side {
            Face::NegX => 0int,
            Face::PosX => 1,
            Face::NegY => 2,
            Face::PosY => 3,
            Face::NegZ => 4,
            Face::PosZ => 5,
        }
    } else {
        &&& q.texture.tile == -1
        &&& q.color == VertexColor::Srgb(
            if head {
                Rgb { r: 255, g: 222, b: 122 }
            } else {
                Rgb { r: 112, g: 72, b: 34 }
            },
        )
    }
}

/// Where a chunk holds a torch, and nowhere else, its mesh has each side of a
/// torch's shaft and of its head once, lit by the torch's own glow.
pub proof fn law_every_torch_is_drawn(
    source: MeshSource,
    x: int,
    y: int,
    z: int,
    side: Face,
    head: bool,
)
    requires
        0 <= x < 32,
        0 <= y < 32,
        0 <= z < 32,
        source.registry.known.torch != BlockId(0),
    ensures
        ({
            let known = source.registry.known;
            let glow = source.registry.defs@[known.torch.0 as int].light_emission;
            let quads = source.quads();
            let is_side = |q: Quad|
                if head {
                    is_head_side(q, x, y, z, side)
                } else {
                    is_shaft_side(q, x, y, z, side)
                };
            if block_in(*source.chunk, x, y, z) == known.torch {
                exists|q: int|
                    {
                        &&& 0 <= q < quads.len()
                        &&& is_side(#[trigger] quads[q])
                        &&& carries_light(quads[q], LightValue { rgb: glow, sky: 0 })
                        &&& painted_as_torch(source, quads[q], head, side)
                        &&& forall|p: int|
                            0 <= p < quads.len() && is_side(#[trigger] quads[p]) ==> p == q
                    }
            } else {
                forall|q: int| 0 <= q < quads.len() ==> !is_side(#[trigger] quads[q])
            }
        }),
{
    let cell = UVec3 { x: x as u32, y: y as u32, z: z as u32 };
    let is_side = |q: Quad|
        if head {
            is_head_side(q, x, y, z, side)
        } else {
            is_shaft_side(q, x, y, z, side)
        };
    if source.chunk.all_air() {
        assert(source.chunk.block(cell).is_air());
    } else {
        lemma_torch_shows(source, x, y, z, side, head, 32768);
        lemma_cubes_are_no_torches(source, x, y, z, side, head, 192);
        let good = torch_looks(source, head, side);
        lemma_concat(
            source.cube_quads(192),
            source.torch_quads(32768),
            torch_test(x, y, z, side, head),
            good,
        );
        reveal(torch_test);
        reveal(torch_looks);
        assert(torch_test(x, y, z, side, head) =~= is_side);
        assert(source.quads() == source.cube_quads(192) + source.torch_quads(32768));
    }
}

#[verifier::opaque]
spec fn torch_test(x: int, y: int, z: int, side: Face, head: bool) -> spec_fn(Quad) -> bool {
    |q: Quad|
        if head {
            is_head_side(q, x, y, z, side)
        } else {
            is_shaft_side(q, x, y, z, side)
        }
}

#[verifier::opaque]
spec fn torch_looks(source: MeshSource, head: bool, side: Face) -> spec_fn(Quad) -> bool {
    let known = source.registry.known;
    let glow = source.registry.defs@[known.torch.0 as int].light_emission;
    |q: Quad|
        carries_light(q, LightValue { rgb: glow, sky: 0 }) && painted_as_torch(source, q, head, side)
}

/// One side of a torch is a given side of a given torch only if it is that.
proof fn lemma_torch_side(
    source: MeshSource,
    pos: UVec3,
    k: int,
    x: int,
    y: int,
    z: int,
    side: Face,
    head: bool,
)
    requires
        pos.in_chunk(),
        0 <= k < 12,
        0 <= x < 32,
        0 <= y < 32,
        0 <= z < 32,
    ensures
        ({
            let q = torch(*source.registry, pos, source.light is Some)[k];
            let same = pos.x == x && pos.y == y && pos.z == z && (k >= 6) == head && k % 6
                == side.number();
            &&& torch_test(x, y, z, side, head)(q) == same
            &&& same ==> torch_looks(source, head, side)(q)
        }),
{
    reveal(torch_test);
    reveal(torch_looks);
    let face = face_of(k % 6);
    let c = corners_of(face, 0, 0, 1, 0, 1);
    let q = torch_side(*source.registry, pos, source.light is Some, k >= 6, face);
    assert(torch(*source.registry, pos, source.light is Some)[k] == q);
    assert(q.corners.len() == 4);
    assert(q.corners[0] == crate::mesh::torch_point(pos, k >= 6, c[0]));
    assert(q.corners[1] == crate::mesh::torch_point(pos, k >= 6, c[1]));
    assert(q.corners[2] == crate::mesh::torch_point(pos, k >= 6, c[2]));
    assert(q.corners[3] == crate::mesh::torch_point(pos, k >= 6, c[3]));
    assert(face == side <==> k % 6 == side.number());
}

proof fn lemma_torch_shows(
    source: MeshSource,
    x: int,
    y: int,
    z: int,
    side: Face,
    head: bool,
    n: int,
)
    requires
        0 <= n <= 32768,
        0 <= x < 32,
        0 <= y < 32,
        0 <= z < 32,
    ensures
        ({
            let quads = source.torch_quads(n);
            let test = torch_test(x, y, z, side, head);
            if block_in(*source.chunk, x, y, z) == source.registry.known.torch && x + 32 * y + 1024
                * z < n {
                once(quads, test, torch_looks(source, head, side))
            } else {
                never(quads, test)
            }
        }),
    decreases n,
{
    if n > 0 {
        lemma_torch_shows(source, x, y, z, side, head, n - 1);
        let pos = scan_position(n - 1);
        let test = torch_test(x, y, z, side, head);
        let good = torch_looks(source, head, side);
        lemma_scan(n - 1, x, y, z);
        if source.chunk.block(pos) == source.registry.known.torch {
            let rest = torch(*source.registry, pos, source.light is Some);
            lemma_one_torch(source, pos, x, y, z, side, head);
            lemma_concat(source.torch_quads(n - 1), rest, test, good);
        }
    }
}

proof fn lemma_scan(n: int, x: int, y: int, z: int)
    requires
        0 <= n < 32768,
        0 <= x < 32,
        0 <= y < 32,
        0 <= z < 32,
    ensures
        scan_position(n).in_chunk(),
        scan_position(n) == (UVec3 { x: x as u32, y: y as u32, z: z as u32 }) <==> x + 32 * y + 1024
            * z == n,
{
}

proof fn lemma_one_torch(
    source: MeshSource,
    pos: UVec3,
    x: int,
    y: int,
    z: int,
    side: Face,
    head: bool,
)
    requires
        pos.in_chunk(),
        0 <= x < 32,
        0 <= y < 32,
        0 <= z < 32,
    ensures
        ({
            let quads = torch(*source.registry, pos, source.light is Some);
            let test = torch_test(x, y, z, side, head);
            if pos == (UVec3 { x: x as u32, y: y as u32, z: z as u32 }) {
                once(quads, test, torch_looks(source, head, side))
            } else {
                never(quads, test)
            }
        }),
{
    let quads = torch(*source.registry, pos, source.light is Some);
    let test = torch_test(x, y, z, side, head);
    let good = torch_looks(source, head, side);
    let here = pos == (UVec3 { x: x as u32, y: y as u32, z: z as u32 });
    assert forall|k: int| 0 <= k < 12 implies test(#[trigger] quads[k]) == (here && (k >= 6) == head
        && k % 6 == side.number()) && (test(quads[k]) ==> good(quads[k])) by {
        lemma_torch_side(source, pos, k, x, y, z, side, head);
    }
    if here {
        let k = side.number() + if head {
            6int
        } else {
            0
        };
        assert(test(quads[k]) && good(quads[k]));
    }
}

/// The corners of a rectangle lie on the grid, those of a torch do not.
proof fn lemma_rect_is_no_torch(
    source: MeshSource,
    face: Face,
    layer: int,
    r: Rect,
    x: int,
    y: int,
    z: int,
    side: Face,
    head: bool,
)
    requires
        r.in_mask(32),
        0 <= layer < 32,
    ensures
        !torch_test(x, y, z, side, head)(rect_quad(*source.registry, face, layer, r)),
{
    reveal(torch_test);
    let q = rect_quad(*source.registry, face, layer, r);
    let c = corners_of(face, layer, r.i as int, r.i + r.w, r.j as int, r.j + r.h);
    assert(q.corners.len() == 4);
    assert(q.corners[0] == crate::mesh::grid_point(c[0]));
    assert(q.corners[0].x % 100 == 0 && q.corners[0].y % 100 == 0 && q.corners[0].z % 100 == 0);
}

proof fn lemma_cubes_are_no_torches(
    source: MeshSource,
    x: int,
    y: int,
    z: int,
    side: Face,
    head: bool,
    n: int,
)
    requires
        0 <= n <= 192,
    ensures
        never(source.cube_quads(n), torch_test(x, y, z, side, head)),
    decreases n,
{
    if n > 0 {
        lemma_cubes_are_no_torches(source, x, y, z, side, head, n - 1);
        let face = face_of((n - 1) / 32);
        let layer = (n - 1) % 32;
        let quads = source.layer_quads(face, layer);
        let rects = greedy(source.mask(face, layer), 32, 0);
        law_greedy_tiles(source.mask(face, layer), 32);
        let test = torch_test(x, y, z, side, head);
        assert forall|k: int| 0 <= k < quads.len() implies !test(#[trigger] quads[k]) by {
            assert(rects[k].in_mask(32));
            assert(quads[k] == rect_quad(*source.registry, face, layer, rects[k]));
            lemma_rect_is_no_torch(source, face, layer, rects[k], x, y, z, side, head);
        }
        lemma_concat(source.cube_quads(n - 1), quads, test, test);
    }
}

} // verus!
