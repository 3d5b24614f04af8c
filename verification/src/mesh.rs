//! Greedy meshing of chunks into vertex buffers.
//!
//! Coordinates are integers: positions count hundredths of a block, normals
//! are unit vectors along an axis.

use crate::blocks::{BlockDef, BlockRegistry};
use crate::chunk::{BlockId, Chunk, LightChunk, LightValue, Rgb};
use crate::geometry::{IVec3, UVec3};
use crate::greedy::{greedy, merge_mask, FaceKey, Rect};
use vstd::prelude::*;

verus! {

/// Position units per block.
pub const POSITION_SCALE: i32 = 100;

/// Face directions, also the order of the neighbours of a chunk:
/// `[-X, +X, -Y, +Y, -Z, +Z]`.
#[derive(Clone, Copy, Debug, PartialEq, Eq, Structural)]
pub enum Face {
    NegX,
    PosX,
    NegY,
    PosY,
    NegZ,
    PosZ,
}

/// The face directions by index.
pub open spec fn face_of(n: int) -> Face {
    if n == 0 {
        Face::NegX
    } else if n == 1 {
        Face::PosX
    } else if n == 2 {
        Face::NegY
    } else if n == 3 {
        Face::PosY
    } else if n == 4 {
        Face::NegZ
    } else {
        Face::PosZ
    }
}

impl Face {
    /// All face directions, in order.
    pub fn all() -> (faces: [Face; 6])
        ensures
            forall|n: int| 0 <= n < 6 ==> #[trigger] faces@[n] == face_of(n),
    {
        [Face::NegX, Face::PosX, Face::NegY, Face::PosY, Face::NegZ, Face::PosZ]
    }

    /// The place of the direction in the order.
    pub open spec fn number(self) -> int {
        match self {
            Face::NegX => 0,
            Face::PosX => 1,
            Face::NegY => 2,
            Face::PosY => 3,
            Face::NegZ => 4,
            Face::PosZ => 5,
        }
    }

    /// The outward unit vector.
    pub open spec fn spec_normal(self) -> IVec3 {
        match self {
            Face::NegX => IVec3 { x: (-1) as i32, y: 0, z: 0 },
            Face::PosX => IVec3 { x: 1, y: 0, z: 0 },
            Face::NegY => IVec3 { x: 0, y: (-1) as i32, z: 0 },
            Face::PosY => IVec3 { x: 0, y: 1, z: 0 },
            Face::NegZ => IVec3 { x: 0, y: 0, z: (-1) as i32 },
            Face::PosZ => IVec3 { x: 0, y: 0, z: 1 },
        }
    }

    /// The outward unit vector.
    pub fn normal(self) -> (n: IVec3)
        ensures
            n == self.spec_normal(),
    {
        match self {
            Face::NegX => IVec3 { x: -1, y: 0, z: 0 },
            Face::PosX => IVec3 { x: 1, y: 0, z: 0 },
            Face::NegY => IVec3 { x: 0, y: -1, z: 0 },
            Face::PosY => IVec3 { x: 0, y: 1, z: 0 },
            Face::NegZ => IVec3 { x: 0, y: 0, z: -1 },
            Face::PosZ => IVec3 { x: 0, y: 0, z: 1 },
        }
    }

    /// Index, in an array of neighbours, of the chunk beyond this face.
    pub fn neighbor_index(self) -> (n: usize)
        ensures
            n == self.number(),
            n < 6,
    {
        match self {
            Face::NegX => 0,
            Face::PosX => 1,
            Face::NegY => 2,
            Face::PosY => 3,
            Face::NegZ => 4,
            Face::PosZ => 5,
        }
    }
}

/// Numbering the faces and listing them by number undo each other.
pub proof fn law_face_order(face: Face, n: int)
    requires
        0 <= n < 6,
    ensures
        face_of(face.number()) == face,
        0 <= face.number() < 6,
        face_of(n).number() == n,
{
}

/// Colour of a vertex.
#[derive(Clone, Copy, Debug, PartialEq, Eq, Structural)]
pub enum VertexColor {
    /// Full white, which leaves the texture as it is.
    White,
    /// An sRGB colour.
    Srgb(Rgb),
}

/// Light of a vertex.
#[derive(Clone, Copy, Debug, PartialEq, Eq, Structural)]
pub struct LightUv {
    /// The colour levels in base 16, red lowest.
    pub rgb: u32,
    /// Daylight in fifteenths.
    pub sky: u8,
}

/// Texture of a vertex.
#[derive(Clone, Copy, Debug, PartialEq, Eq, Structural)]
pub struct TextureUv {
    /// Atlas tile; negative where the vertex colour alone counts.
    pub tile: i32,
    /// How the tile is laid onto the shape: 0 for cubes, 1 for a torch's
    /// shaft, 2 for its head.
    pub mode: i32,
}

/// One rectangle of a mesh.
pub struct Quad {
    pub corners: Seq<IVec3>,
    pub normal: IVec3,
    pub color: VertexColor,
    pub light: LightUv,
    pub texture: TextureUv,
}

/// Vertex buffers of one chunk. Every four vertices form a quad, which six
/// indices draw as two triangles.
#[derive(Debug)]
pub struct MeshBuild {
    pub positions: Vec<IVec3>,
    pub normals: Vec<IVec3>,
    pub colors: Vec<VertexColor>,
    pub light_uvs: Vec<LightUv>,
    pub texture_uvs: Vec<TextureUv>,
    pub indices: Vec<u32>,
}

/// The vertex of its quad that the `n`th index of a quad draws: the
/// triangles are `0, 1, 2` and `0, 2, 3`.
pub open spec fn triangle_corner(n: int) -> int {
    if n == 1 {
        1
    } else if n == 2 || n == 4 {
        2
    } else if n == 5 {
        3
    } else {
        0
    }
}

/// Whether the four vertices of each quad have the same value.
pub open spec fn per_quad<T>(s: Seq<T>) -> bool {
    forall|v: int| 0 <= v < s.len() ==> #[trigger] s[v] == s[v - v % 4]
}

/// Whether the indices draw the two triangles of one quad after the other.
pub open spec fn draws_quads(indices: Seq<u32>) -> bool {
    forall|n: int|
        0 <= n < indices.len() ==> #[trigger] indices[n] == 4 * (n / 6) + triangle_corner(n % 6)
}

proof fn lemma_per_quad_extends<T>(s: Seq<T>, x: T)
    requires
        per_quad(s),
        s.len() % 4 == 0,
    ensures
        per_quad(s + Seq::new(4, |n: int| x)),
{
    let t = s + Seq::new(4, |n: int| x);
    assert forall|v: int| 0 <= v < t.len() implies #[trigger] t[v] == t[v - v % 4] by {
        if v < s.len() {
            assert(s[v] == s[v - v % 4]);
        } else {
            assert(v - v % 4 == s.len());
        }
    }
}

proof fn lemma_draws_extends(s: Seq<u32>, base: int, t: Seq<u32>)
    requires
        draws_quads(s),
        s.len() % 6 == 0,
        base == 4 * (s.len() / 6),
        t.len() == s.len() + 6,
        forall|n: int| 0 <= n < s.len() ==> t[n] == s[n],
        forall|k: int| 0 <= k < 6 ==> #[trigger] t[s.len() + k] == base + triangle_corner(k),
    ensures
        draws_quads(t),
{
    assert forall|n: int| 0 <= n < t.len() implies #[trigger] t[n] == 4 * (n / 6) + triangle_corner(
        n % 6,
    ) by {
        if n < s.len() {
            assert(s[n] == 4 * (n / 6) + triangle_corner(n % 6));
        } else {
            let k = n - s.len();
            assert(t[s.len() + k] == base + triangle_corner(k));
            assert(n / 6 == s.len() / 6 && n % 6 == k);
        }
    }
}

impl View for MeshBuild {
    type V = Seq<Quad>;

    open spec fn view(&self) -> Seq<Quad> {
        Seq::new(
            self.positions@.len() / 4,
            |q: int|
                Quad {
                    corners: self.positions@.subrange(4 * q, 4 * q + 4),
                    normal: self.normals@[4 * q],
                    color: self.colors@[4 * q],
                    light: self.light_uvs@[4 * q],
                    texture: self.texture_uvs@[4 * q],
                },
        )
    }
}

impl MeshBuild {
    /// Whether the buffers fit together: whole quads, one entry per vertex in
    /// each buffer, the same attributes at the four corners of a quad, and
    /// the indices of both triangles of each quad.
    pub open spec fn wf(self) -> bool {
        let vertices = self.positions@.len();
        &&& vertices % 4 == 0
        &&& self.normals@.len() == vertices
        &&& self.colors@.len() == vertices
        &&& self.light_uvs@.len() == vertices
        &&& self.texture_uvs@.len() == vertices
        &&& 4 * self.indices@.len() == 6 * vertices
        &&& per_quad(self.normals@)
        &&& per_quad(self.colors@)
        &&& per_quad(self.light_uvs@)
        &&& per_quad(self.texture_uvs@)
        &&& draws_quads(self.indices@)
    }

    /// Whether every buffer of a mesh starts with this mesh's.
    pub open spec fn starts(self, longer: MeshBuild) -> bool {
        &&& self.positions@.is_prefix_of(longer.positions@)
        &&& self.normals@.is_prefix_of(longer.normals@)
        &&& self.colors@.is_prefix_of(longer.colors@)
        &&& self.light_uvs@.is_prefix_of(longer.light_uvs@)
        &&& self.texture_uvs@.is_prefix_of(longer.texture_uvs@)
        &&& self.indices@.is_prefix_of(longer.indices@)
    }

    /// An empty mesh.
    pub fn new() -> (m: MeshBuild)
        ensures
            m.wf(),
            m@ == Seq::<Quad>::empty(),
    {
        let m = MeshBuild {
            positions: Vec::new(),
            normals: Vec::new(),
            colors: Vec::new(),
            light_uvs: Vec::new(),
            texture_uvs: Vec::new(),
            indices: Vec::new(),
        };
        assert(m@ =~= Seq::<Quad>::empty());
        m
    }

    /// Whether there is nothing to draw.
    pub fn is_empty(&self) -> (b: bool)
        ensures
            b == (self.indices@.len() == 0),
            self.wf() ==> b == (self@.len() == 0),
    {
        self.indices.is_empty()
    }

    /// Appends one quad.
    fn push_quad(
        &mut self,
        corners: [IVec3; 4],
        normal: IVec3,
        color: VertexColor,
        light: LightUv,
        texture: TextureUv,
    )
        requires
            old(self).wf(),
            old(self)@.len() < 0x4000_0000,
        ensures
            final(self).wf(),
            final(self)@ == old(self)@.push(
                Quad { corners: corners@, normal, color, light, texture },
            ),
            old(self).starts(*final(self)),
    {
        let ghost before = *self;
        let base: u32 = self.positions.len() as u32;
        push_four(&mut self.normals, normal);
        push_four(&mut self.colors, color);
        push_four(&mut self.light_uvs, light);
        push_four(&mut self.texture_uvs, texture);
        self.positions.push(corners[0]);
        self.positions.push(corners[1]);
        self.positions.push(corners[2]);
        self.positions.push(corners[3]);
        assert(self.positions@ =~= before.positions@ + corners@);
        self.indices.push(base);
        self.indices.push(base + 1);
        self.indices.push(base + 2);
        self.indices.push(base);
        self.indices.push(base + 2);
        self.indices.push(base + 3);
        proof {
            lemma_per_quad_extends(before.normals@, normal);
            lemma_per_quad_extends(before.colors@, color);
            lemma_per_quad_extends(before.light_uvs@, light);
            lemma_per_quad_extends(before.texture_uvs@, texture);
            lemma_draws_extends(before.indices@, base as int, self.indices@);
        }
        assert(self@ =~= before@.push(Quad { corners: corners@, normal, color, light, texture })) by {
            assert forall|q: int| 0 <= q < before@.len() implies #[trigger] self@[q] == before@[q] by {
                assert(self.positions@.subrange(4 * q, 4 * q + 4) =~= before.positions@.subrange(
                    4 * q,
                    4 * q + 4,
                ));
            }
            let q = before@.len() as int;
            assert(self.positions@.subrange(4 * q, 4 * q + 4) =~= corners@);
        }
    }
}

/// Appends a value four times.
fn push_four<T: Copy>(v: &mut Vec<T>, x: T)
    ensures
        final(v)@ == old(v)@ + Seq::new(4, |n: int| x),
{
    v.push(x);
    v.push(x);
    v.push(x);
    v.push(x);
    assert(v@ =~= old(v)@ + Seq::new(4, |n: int| x));
}

/// Whether a position lies in the chunk or one step beyond one of its six
/// sides.
pub open spec fn reachable(p: IVec3) -> bool {
    let x = 0 <= p.x < 32;
    let y = 0 <= p.y < 32;
    let z = 0 <= p.z < 32;
    ||| x && y && z
    ||| (p.x == -1 || p.x == 32) && y && z
    ||| x && (p.y == -1 || p.y == 32) && z
    ||| x && y && (p.z == -1 || p.z == 32)
}

/// The side of the chunk that a position lies beyond, if any.
pub open spec fn beyond(p: IVec3) -> Option<Face> {
    if p.x < 0 {
        Some(Face::NegX)
    } else if p.x >= 32 {
        Some(Face::PosX)
    } else if p.y < 0 {
        Some(Face::NegY)
    } else if p.y >= 32 {
        Some(Face::PosY)
    } else if p.z < 0 {
        Some(Face::NegZ)
    } else if p.z >= 32 {
        Some(Face::PosZ)
    } else {
        None
    }
}

/// Executable form of [`beyond`].
fn side_beyond(p: IVec3) -> (side: Option<Face>)
    ensures
        side == beyond(p),
{
    if p.x < 0 {
        Some(Face::NegX)
    } else if p.x >= 32 {
        Some(Face::PosX)
    } else if p.y < 0 {
        Some(Face::NegY)
    } else if p.y >= 32 {
        Some(Face::PosY)
    } else if p.z < 0 {
        Some(Face::NegZ)
    } else if p.z >= 32 {
        Some(Face::PosZ)
    } else {
        None
    }
}

/// Wraps a coordinate that is at most one step outside into the chunk.
fn wrap_coord(v: i32) -> (w: u32)
    requires
        -1 <= v <= 32,
    ensures
        w == (v as int) % 32,
        w < 32,
{
    if v < 0 {
        31
    } else if v >= 32 {
        0
    } else {
        v as u32
    }
}

/// The position in the chunk it belongs to.
fn wrap(p: IVec3) -> (local: UVec3)
    requires
        reachable(p),
    ensures
        local == p.local_of(),
        local.in_chunk(),
{
    UVec3 { x: wrap_coord(p.x), y: wrap_coord(p.y), z: wrap_coord(p.z) }
}

/// The cell that owns the face at `layer` and mask coordinates `(i, j)`: X
/// faces use `(y, z)`, Y faces `(x, z)`, Z faces `(x, y)`.
pub open spec fn face_cell(face: Face, layer: int, i: int, j: int) -> IVec3 {
    match face {
        Face::NegX | Face::PosX => IVec3 { x: layer as i32, y: i as i32, z: j as i32 },
        Face::NegY | Face::PosY => IVec3 { x: i as i32, y: layer as i32, z: j as i32 },
        Face::NegZ | Face::PosZ => IVec3 { x: i as i32, y: j as i32, z: layer as i32 },
    }
}

/// The cell that owns a face, and the cell that the face looks at.
pub fn face_sample_positions(face: Face, layer: i32, i: i32, j: i32) -> (r: (IVec3, IVec3))
    requires
        0 <= layer < 32,
        0 <= i < 32,
        0 <= j < 32,
    ensures
        r.0 == face_cell(face, layer as int, i as int, j as int),
        r.1 == r.0.shifted(face.spec_normal()),
        reachable(r.0),
        beyond(r.0) is None,
        reachable(r.1),
{
    match face {
        Face::NegX => (IVec3::new(layer, i, j), IVec3::new(layer - 1, i, j)),
        Face::PosX => (IVec3::new(layer, i, j), IVec3::new(layer + 1, i, j)),
        Face::NegY => (IVec3::new(i, layer, j), IVec3::new(i, layer - 1, j)),
        Face::PosY => (IVec3::new(i, layer, j), IVec3::new(i, layer + 1, j)),
        Face::NegZ => (IVec3::new(i, j, layer), IVec3::new(i, j, layer - 1)),
        Face::PosZ => (IVec3::new(i, j, layer), IVec3::new(i, j, layer + 1)),
    }
}

/// Everything that a mesh is built from.
#[derive(Clone, Copy)]
pub struct MeshSource<'a> {
    pub chunk: &'a Chunk,
    /// The chunks beyond the six sides, in the order of the faces.
    pub neighbors: [Option<&'a Chunk>; 6],
    pub registry: &'a BlockRegistry,
    /// The light of the chunk; without it the mesh is flat and in daylight.
    pub light: Option<&'a LightChunk>,
    pub light_neighbors: [Option<&'a LightChunk>; 6],
}

impl<'a> MeshSource<'a> {
    /// The block at a reachable position; air where the neighbour that it
    /// belongs to is absent.
    pub open spec fn block_at(self, p: IVec3) -> BlockId {
        match beyond(p) {
            None => self.chunk.block(p.local_of()),
            Some(side) => match self.neighbors@[side.number()] {
                Some(neighbor) => neighbor.block(p.local_of()),
                None => BlockId(0),
            },
        }
    }

    /// The light at a reachable position: daylight where the chunk has no
    /// light data, darkness where only the neighbour's is absent.
    pub open spec fn light_at(self, p: IVec3) -> LightValue {
        match self.light {
            None => crate::chunk::daylight(),
            Some(light) => match beyond(p) {
                None => light.light(p.local_of()),
                Some(side) => match self.light_neighbors@[side.number()] {
                    Some(neighbor) => neighbor.light(p.local_of()),
                    None => crate::chunk::darkness(),
                },
            },
        }
    }

    /// Whether every block that meshing looks at is registered.
    pub open spec fn registered(self) -> bool {
        forall|p: IVec3| reachable(p) ==> self.registry.has(#[trigger] self.block_at(p))
    }

    pub open spec fn opaque(self, p: IVec3) -> bool {
        self.registry.def(self.block_at(p)).opaque
    }

    /// The key of the face at `layer` and mask coordinates `(i, j)`, where
    /// one is visible: its own block is opaque and the block that it looks
    /// at is not. The light is that of the cell it looks at.
    pub open spec fn visible(self, face: Face, layer: int, i: int, j: int) -> Option<FaceKey> {
        let own = face_cell(face, layer, i, j);
        let front = own.shifted(face.spec_normal());
        if self.opaque(own) && !self.opaque(front) {
            Some(
                FaceKey {
                    block: self.block_at(own),
                    light: self.light_at(front),
                    textured: self.light is Some,
                },
            )
        } else {
            None
        }
    }

    /// The visible faces of a layer.
    pub open spec fn mask(self, face: Face, layer: int) -> Seq<Option<FaceKey>> {
        Seq::new(1024, |n: int| self.visible(face, layer, n % 32, n / 32))
    }

    /// The quads of a layer: its visible faces, greedily merged.
    pub open spec fn layer_quads(self, face: Face, layer: int) -> Seq<Quad> {
        merged_quads(*self.registry, face, layer, self.mask(face, layer), 32)
    }

    /// The quads of the first `n` layers, the layers of each face direction
    /// from 0 to 31, the directions in their order.
    pub open spec fn cube_quads(self, n: int) -> Seq<Quad>
        decreases n,
    {
        if n <= 0 {
            Seq::empty()
        } else {
            self.cube_quads(n - 1) + self.layer_quads(face_of((n - 1) / 32), (n - 1) % 32)
        }
    }

    /// The quads of the torches among the first `n` cells, counted by x,
    /// then y, then z.
    pub open spec fn torch_quads(self, n: int) -> Seq<Quad>
        decreases n,
    {
        if n <= 0 {
            Seq::empty()
        } else {
            let pos = scan_position(n - 1);
            if self.chunk.block(pos) == self.registry.known.torch {
                self.torch_quads(n - 1) + torch(*self.registry, pos, self.light is Some)
            } else {
                self.torch_quads(n - 1)
            }
        }
    }

    /// All quads of the mesh.
    pub open spec fn quads(self) -> Seq<Quad> {
        if self.chunk.all_air() {
            Seq::empty()
        } else {
            self.cube_quads(192) + self.torch_quads(32768)
        }
    }

    /// The block at a reachable position.
    pub fn sample_block(&self, pos: IVec3) -> (block: BlockId)
        requires
            reachable(pos),
        ensures
            block == self.block_at(pos),
    {
        let local = wrap(pos);
        match side_beyond(pos) {
            None => self.chunk.get(local),
            Some(side) => match self.neighbors[side.neighbor_index()] {
                Some(neighbor) => neighbor.get(local),
                None => BlockId::air(),
            },
        }
    }

    /// The light at a reachable position.
    pub fn sample_light(&self, pos: IVec3) -> (light: LightValue)
        requires
            reachable(pos),
        ensures
            light == self.light_at(pos),
    {
        let local = wrap(pos);
        match self.light {
            None => LightValue::sky(),
            Some(own) => match side_beyond(pos) {
                None => own.get(local),
                Some(side) => match self.light_neighbors[side.neighbor_index()] {
                    Some(neighbor) => neighbor.get(local),
                    None => LightValue::dark(),
                },
            },
        }
    }
}

/// The position of the `n`th cell, counted by x, then y, then z.
pub open spec fn scan_position(n: int) -> UVec3 {
    UVec3 { x: (n % 32) as u32, y: ((n / 32) % 32) as u32, z: (n / 1024) as u32 }
}

/// The atlas tile of a block's face.
pub open spec fn tile_of(block: BlockId, face: Face) -> int {
    block.0 * 6 + face.number()
}

/// The atlas tile of a block's face.
pub fn face_tile(block: BlockId, face: Face) -> (tile: i32)
    ensures
        tile == tile_of(block, face),
{
    block.0 as i32 * 6 + face.neighbor_index() as i32
}

/// Distinct pairs of a block and a face have distinct tiles.
pub proof fn law_tiles_distinct(a: BlockId, f: Face, b: BlockId, g: Face)
    requires
        tile_of(a, f) == tile_of(b, g),
    ensures
        a == b,
        f == g,
{
}

pub open spec fn spec_light_uv(value: LightValue) -> LightUv {
    LightUv {
        rgb: (value.rgb.r + value.rgb.g * 16 + value.rgb.b * 256) as u32,
        sky: value.sky,
    }
}

/// A light value as a vertex carries it.
pub fn light_uv(value: LightValue) -> (uv: LightUv)
    ensures
        uv == spec_light_uv(value),
{
    LightUv {
        rgb: value.rgb.r as u32 + value.rgb.g as u32 * 16 + value.rgb.b as u32 * 256,
        sky: value.sky,
    }
}

/// Light values with levels up to 15 stay apart when a vertex carries them.
pub proof fn law_light_uv_distinct(a: LightValue, b: LightValue)
    requires
        a.rgb.r < 16,
        a.rgb.g < 16,
        a.rgb.b < 16,
        b.rgb.r < 16,
        b.rgb.g < 16,
        b.rgb.b < 16,
        spec_light_uv(a) == spec_light_uv(b),
    ensures
        a == b,
{
}

pub open spec fn spec_face_color(def: BlockDef, face: Face) -> Rgb {
    match face {
        Face::PosY => def.color_top,
        Face::NegY => def.color_bottom,
        Face::NegX | Face::PosX | Face::NegZ | Face::PosZ => def.color_side,
    }
}

/// The average colour of a block's face.
pub fn face_color(def: &BlockDef, face: Face) -> (color: Rgb)
    ensures
        color == spec_face_color(*def, face),
{
    match face {
        Face::PosY => def.color_top,
        Face::NegY => def.color_bottom,
        Face::NegX | Face::PosX | Face::NegZ | Face::PosZ => def.color_side,
    }
}

/// The texture of a face: its tile where textures are used, else none.
pub open spec fn texture_of(textured: bool, block: BlockId, face: Face, mode: i32) -> TextureUv {
    if textured {
        TextureUv { tile: tile_of(block, face) as i32, mode }
    } else {
        TextureUv { tile: (-1) as i32, mode: 0 }
    }
}

fn texture(textured: bool, block: BlockId, face: Face, mode: i32) -> (uv: TextureUv)
    ensures
        uv == texture_of(textured, block, face, mode),
{
    if textured {
        TextureUv { tile: face_tile(block, face), mode }
    } else {
        TextureUv { tile: -1, mode: 0 }
    }
}

/// The corners of the rectangle `[i0, i1] x [j0, j1]` on the given face of
/// layer `layer`, in grid coordinates.
pub open spec fn corners_of(face: Face, layer: int, i0: int, i1: int, j0: int, j1: int) -> Seq<
    (int, int, int),
> {
    match face {
        Face::NegX => seq![(layer, i0, j0), (layer, i0, j1), (layer, i1, j1), (layer, i1, j0)],
        Face::PosX => seq![
            (layer + 1, i0, j0),
            (layer + 1, i1, j0),
            (layer + 1, i1, j1),
            (layer + 1, i0, j1),
        ],
        Face::NegY => seq![(i0, layer, j0), (i1, layer, j0), (i1, layer, j1), (i0, layer, j1)],
        Face::PosY => seq![
            (i0, layer + 1, j0),
            (i0, layer + 1, j1),
            (i1, layer + 1, j1),
            (i1, layer + 1, j0),
        ],
        Face::NegZ => seq![(i0, j0, layer), (i0, j1, layer), (i1, j1, layer), (i1, j0, layer)],
        Face::PosZ => seq![
            (i0, j0, layer + 1),
            (i1, j0, layer + 1),
            (i1, j1, layer + 1),
            (i0, j1, layer + 1),
        ],
    }
}

/// The corners of a rectangle on a face, wound so that
/// `(v1 - v0) x (v2 - v0)` points along the face's normal.
pub fn face_corners(face: Face, layer: i32, i0: i32, i1: i32, j0: i32, j1: i32) -> (r: [IVec3; 4])
    requires
        layer < i32::MAX,
    ensures
        forall|k: int|
            0 <= k < 4 ==> {
                let c = #[trigger] corners_of(face, layer as int, i0 as int, i1 as int, j0 as int, j1 as int)[k];
                r@[k].x == c.0 && r@[k].y == c.1 && r@[k].z == c.2
            },
{
    match face {
        Face::NegX => [
            IVec3::new(layer, i0, j0),
            IVec3::new(layer, i0, j1),
            IVec3::new(layer, i1, j1),
            IVec3::new(layer, i1, j0),
        ],
        Face::PosX => [
            IVec3::new(layer + 1, i0, j0),
            IVec3::new(layer + 1, i1, j0),
            IVec3::new(layer + 1, i1, j1),
            IVec3::new(layer + 1, i0, j1),
        ],
        Face::NegY => [
            IVec3::new(i0, layer, j0),
            IVec3::new(i1, layer, j0),
            IVec3::new(i1, layer, j1),
            IVec3::new(i0, layer, j1),
        ],
        Face::PosY => [
            IVec3::new(i0, layer + 1, j0),
            IVec3::new(i0, layer + 1, j1),
            IVec3::new(i1, layer + 1, j1),
            IVec3::new(i1, layer + 1, j0),
        ],
        Face::NegZ => [
            IVec3::new(i0, j0, layer),
            IVec3::new(i0, j1, layer),
            IVec3::new(i1, j1, layer),
            IVec3::new(i1, j0, layer),
        ],
        Face::PosZ => [
            IVec3::new(i0, j0, layer + 1),
            IVec3::new(i1, j0, layer + 1),
            IVec3::new(i1, j1, layer + 1),
            IVec3::new(i0, j1, layer + 1),
        ],
    }
}

/// The corners of a rectangle are wound counter-clockwise as seen from
/// outside: the cross product of its edges is its area times the normal.
pub proof fn law_winding(face: Face, layer: int, i0: int, i1: int, j0: int, j1: int)
    requires
        i0 < i1,
        j0 < j1,
    ensures
        ({
            let c = corners_of(face, layer, i0, i1, j0, j1);
            let a = (c[1].0 - c[0].0, c[1].1 - c[0].1, c[1].2 - c[0].2);
            let b = (c[2].0 - c[0].0, c[2].1 - c[0].1, c[2].2 - c[0].2);
            let area = (i1 - i0) * (j1 - j0);
            let n = face.spec_normal();
            &&& area > 0
            &&& a.1 * b.2 - a.2 * b.1 == area * n.x
            &&& a.2 * b.0 - a.0 * b.2 == area * n.y
            &&& a.0 * b.1 - a.1 * b.0 == area * n.z
        }),
{
    let c = corners_of(face, layer, i0, i1, j0, j1);
    let a = (c[1].0 - c[0].0, c[1].1 - c[0].1, c[1].2 - c[0].2);
    let b = (c[2].0 - c[0].0, c[2].1 - c[0].1, c[2].2 - c[0].2);
    let p = i1 - i0;
    let q = j1 - j0;
    let n = face.spec_normal();
    assert(p * q > 0 && p * q == q * p) by (nonlinear_arith)
        requires
            p > 0,
            q > 0,
    ;
    lemma_zero_product(a.1, b.2);
    lemma_zero_product(a.2, b.1);
    lemma_zero_product(a.2, b.0);
    lemma_zero_product(a.0, b.2);
    lemma_zero_product(a.0, b.1);
    lemma_zero_product(a.1, b.0);
    lemma_unit_product(p * q, n.x as int);
    lemma_unit_product(p * q, n.y as int);
    lemma_unit_product(p * q, n.z as int);
}

proof fn lemma_zero_product(x: int, y: int)
    ensures
        x == 0 || y == 0 ==> x * y == 0,
{
    assert(x == 0 || y == 0 ==> x * y == 0) by (nonlinear_arith);
}

proof fn lemma_unit_product(x: int, y: int)
    ensures
        y == 0 ==> x * y == 0,
        y == 1 ==> x * y == x,
        y == -1 ==> x * y == -x,
{
    assert(y == 0 ==> x * y == 0) by (nonlinear_arith);
    assert(y == 1 ==> x * y == x) by (nonlinear_arith);
    assert(y == -1 ==> x * y == -x) by (nonlinear_arith);
}

/// Whether a grid coordinate can be a vertex's.
pub open spec fn fits_grid(c: int) -> bool {
    i32::MIN <= c * 100 <= i32::MAX
}

/// A grid point as a vertex position.
pub open spec fn grid_point(c: (int, int, int)) -> IVec3 {
    IVec3 { x: (c.0 * 100) as i32, y: (c.1 * 100) as i32, z: (c.2 * 100) as i32 }
}

/// The colour of a cube's face: white where it is textured, else the
/// block's average colour.
pub open spec fn cube_color(registry: BlockRegistry, face: Face, key: FaceKey) -> VertexColor {
    if key.textured {
        VertexColor::White
    } else {
        VertexColor::Srgb(spec_face_color(registry.def(key.block), face))
    }
}

/// The quad that a rectangle of a layer becomes.
pub open spec fn rect_quad(registry: BlockRegistry, face: Face, layer: int, r: Rect) -> Quad {
    Quad {
        corners: corners_of(
            face,
            layer,
            r.i as int,
            r.i + r.w,
            r.j as int,
            r.j + r.h,
        ).map_values(|c: (int, int, int)| grid_point(c)),
        normal: face.spec_normal(),
        color: cube_color(registry, face, r.key),
        light: spec_light_uv(r.key.light),
        texture: texture_of(r.key.textured, r.key.block, face, 0),
    }
}

/// The quads that a mask of `size` by `size` cells becomes: its faces, greedily
/// merged.
pub open spec fn merged_quads(
    registry: BlockRegistry,
    face: Face,
    layer: int,
    mask: Seq<Option<FaceKey>>,
    size: int,
) -> Seq<Quad> {
    greedy(mask, size, 0).map_values(|r: Rect| rect_quad(registry, face, layer, r))
}

/// Merges a mask of `size` by `size` cells into rectangles of equal faces,
/// appends a quad for each of them, and empties the mask.
pub fn merge_mask_into(
    mask: &mut Vec<Option<FaceKey>>,
    size: i32,
    face: Face,
    layer: i32,
    registry: &BlockRegistry,
    build: &mut MeshBuild,
)
    requires
        0 <= size,
        old(mask)@.len() == size * size,
        fits_grid(size as int),
        fits_grid(layer as int),
        fits_grid(layer + 1),
        forall|c: int|
            0 <= c < old(mask)@.len() && (#[trigger] old(mask)@[c]) is Some ==> registry.has(
                old(mask)@[c]->0.block,
            ),
        old(build).wf(),
        old(build)@.len() + size * size <= 0x4000_0000,
    ensures
        final(mask)@.len() == size * size,
        forall|c: int| 0 <= c < size * size ==> (#[trigger] final(mask)@[c]) is None,
        final(build).wf(),
        final(build)@ == old(build)@ + merged_quads(
            *registry,
            face,
            layer as int,
            old(mask)@,
            size as int,
        ),
        final(build)@.len() <= old(build)@.len() + size * size,
        old(build).starts(*final(build)),
{
    let ghost first = *build;
    let ghost filled = mask@;
    let rects = merge_mask(mask, size);
    let ghost quads = merged_quads(*registry, face, layer as int, filled, size as int);
    proof {
        crate::greedy::law_greedy_tiles(filled, size as int);
    }
    let mut n: usize = 0;
    while n < rects.len()
        invariant
            0 <= size,
            filled.len() == size * size,
            fits_grid(size as int),
            fits_grid(layer as int),
            fits_grid(layer + 1),
            forall|c: int|
                0 <= c < filled.len() && (#[trigger] filled[c]) is Some ==> registry.has(
                    filled[c]->0.block,
                ),
            n <= rects@.len() <= size * size,
            rects@ == greedy(filled, size as int, 0),
            crate::greedy::tiles(filled, size as int, 0, rects@),
            quads == merged_quads(*registry, face, layer as int, filled, size as int),
            first@.len() + size * size <= 0x4000_0000,
            build.wf(),
            build@ =~= first@ + quads.take(n as int),
            first.starts(*build),
        decreases rects@.len() - n,
    {
        let r = rects[n];
        proof {
            let i = r.i as int;
            let j = r.j as int;
            assert(rects@[n as int].in_mask(size as int));
            assert(rects@[n as int].covers(i, j));
            assert(crate::greedy::cell(filled, size as int, i, j) == Some(r.key));
            crate::greedy::lemma_place(i, j, size as int);
            assert(filled[j * size + i] is Some);
        }
        emit_quad(build, registry, face, layer, r);
        n += 1;
    }
    assert(quads.take(quads.len() as int) =~= quads);
}

/// Emits the quad of one rectangle of a layer.
fn emit_quad(build: &mut MeshBuild, registry: &BlockRegistry, face: Face, layer: i32, r: Rect)
    requires
        old(build).wf(),
        old(build)@.len() < 0x4000_0000,
        fits_grid(layer as int),
        fits_grid(layer + 1),
        fits_grid(r.i as int),
        fits_grid(r.i + r.w),
        fits_grid(r.j as int),
        fits_grid(r.j + r.h),
        registry.has(r.key.block),
    ensures
        final(build).wf(),
        old(build).starts(*final(build)),
        final(build)@ == old(build)@.push(rect_quad(*registry, face, layer as int, r)),
{
    let color = if r.key.textured {
        VertexColor::White
    } else {
        VertexColor::Srgb(face_color(registry.get(r.key.block), face))
    };
    let c = face_corners(face, layer, r.i, r.i + r.w, r.j, r.j + r.h);
    let ghost points = corners_of(
        face,
        layer as int,
        r.i as int,
        r.i + r.w,
        r.j as int,
        r.j + r.h,
    );
    assert(points[0] == points[0] && points[1] == points[1] && points[2] == points[2] && points[3]
        == points[3]);
    let corners = [scaled(c[0]), scaled(c[1]), scaled(c[2]), scaled(c[3])];
    assert(corners@ =~= rect_quad(*registry, face, layer as int, r).corners);
    build.push_quad(
        corners,
        face.normal(),
        color,
        light_uv(r.key.light),
        texture(r.key.textured, r.key.block, face, 0),
    );
}

/// A grid point as a vertex position.
fn scaled(c: IVec3) -> (p: IVec3)
    requires
        fits_grid(c.x as int),
        fits_grid(c.y as int),
        fits_grid(c.z as int),
    ensures
        p == grid_point((c.x as int, c.y as int, c.z as int)),
{
    IVec3 { x: c.x * POSITION_SCALE, y: c.y * POSITION_SCALE, z: c.z * POSITION_SCALE }
}

/// The low corner of a torch's shaft or head inside its block.
pub open spec fn torch_low(head: bool) -> (int, int, int) {
    if head {
        (40, 58, 40)
    } else {
        (43, 0, 43)
    }
}

/// The high corner of a torch's shaft or head inside its block.
pub open spec fn torch_high(head: bool) -> (int, int, int) {
    if head {
        (60, 82, 60)
    } else {
        (57, 62, 57)
    }
}

/// A corner of a torch's shaft or head, from the same corner of a unit cube.
pub open spec fn torch_point(pos: UVec3, head: bool, unit: (int, int, int)) -> IVec3 {
    let lo = torch_low(head);
    let hi = torch_high(head);
    IVec3 {
        x: (pos.x * 100 + if unit.0 == 0 { lo.0 } else { hi.0 }) as i32,
        y: (pos.y * 100 + if unit.1 == 0 { lo.1 } else { hi.1 }) as i32,
        z: (pos.z * 100 + if unit.2 == 0 { lo.2 } else { hi.2 }) as i32,
    }
}

/// One side of a torch's shaft or head. The torch lights itself with its own
/// emission.
pub open spec fn torch_side(
    registry: BlockRegistry,
    pos: UVec3,
    textured: bool,
    head: bool,
    face: Face,
) -> Quad {
    Quad {
        corners: corners_of(face, 0, 0, 1, 0, 1).map_values(
            |c: (int, int, int)| torch_point(pos, head, c),
        ),
        normal: face.spec_normal(),
        color: if textured {
            VertexColor::White
        } else if head {
            VertexColor::Srgb(Rgb { r: 255, g: 222, b: 122 })
        } else {
            VertexColor::Srgb(Rgb { r: 112, g: 72, b: 34 })
        },
        light: spec_light_uv(
            LightValue { rgb: registry.def(registry.known.torch).light_emission, sky: 0 },
        ),
        texture: texture_of(
            textured,
            if head {
                registry.known.torch
            } else {
                registry.known.log
            },
            face,
            if head {
                2
            } else {
                1
            },
        ),
    }
}

/// The quads of a torch: the six sides of its shaft, then those of its head.
pub open spec fn torch(registry: BlockRegistry, pos: UVec3, textured: bool) -> Seq<Quad> {
    Seq::new(12, |n: int| torch_side(registry, pos, textured, n >= 6, face_of(n % 6)))
}

/// Executable form of [`torch_point`].
fn torch_corner(pos: UVec3, head: bool, unit: IVec3) -> (p: IVec3)
    requires
        pos.in_chunk(),
    ensures
        p == torch_point(pos, head, (unit.x as int, unit.y as int, unit.z as int)),
{
    let wide: bool = head;
    let (lo, hi): (i32, i32) = if wide { (40, 60) } else { (43, 57) };
    let (bottom, top): (i32, i32) = if wide { (58, 82) } else { (0, 62) };
    IVec3 {
        x: pos.x as i32 * 100 + if unit.x == 0 { lo } else { hi },
        y: pos.y as i32 * 100 + if unit.y == 0 { bottom } else { top },
        z: pos.z as i32 * 100 + if unit.z == 0 { lo } else { hi },
    }
}

/// Emits the narrow geometry of a torch.
fn emit_torch(build: &mut MeshBuild, pos: UVec3, registry: &BlockRegistry, textured: bool)
    requires
        old(build).wf(),
        old(build)@.len() < 0x0800_0000,
        pos.in_chunk(),
        registry.has(registry.known.torch),
    ensures
        final(build).wf(),
        final(build)@ == old(build)@ + torch(*registry, pos, textured),
{
    let ghost before = build@;
    let emission = registry.get(registry.known.torch).light_emission;
    let light = light_uv(LightValue::new(emission, 0));
    let faces = Face::all();
    let mut n: usize = 0;
    while n < 12
        invariant
            n <= 12,
            build.wf(),
            before.len() < 0x0800_0000,
            build@ =~= before + torch(*registry, pos, textured).take(n as int),
            pos.in_chunk(),
            light == spec_light_uv(
                LightValue { rgb: registry.def(registry.known.torch).light_emission, sky: 0 },
            ),
            forall|k: int| 0 <= k < 6 ==> #[trigger] faces@[k] == face_of(k),
        decreases 12 - n,
    {
        let head: bool = n >= 6;
        let face = faces[n % 6];
        let color = if textured {
            VertexColor::White
        } else if head {
            VertexColor::Srgb(Rgb { r: 255, g: 222, b: 122 })
        } else {
            VertexColor::Srgb(Rgb { r: 112, g: 72, b: 34 })
        };
        let c = face_corners(face, 0, 0, 1, 0, 1);
        let ghost points = corners_of(face, 0, 0, 1, 0, 1);
        assert(points[0] == points[0] && points[1] == points[1] && points[2] == points[2]
            && points[3] == points[3]);
        let corners = [
            torch_corner(pos, head, c[0]),
            torch_corner(pos, head, c[1]),
            torch_corner(pos, head, c[2]),
            torch_corner(pos, head, c[3]),
        ];
        assert(corners@ =~= torch_side(*registry, pos, textured, head, face).corners);
        let block = if head { registry.known.torch } else { registry.known.log };
        let mode: i32 = if head { 2 } else { 1 };
        build.push_quad(corners, face.normal(), color, light, texture(textured, block, face, mode));
        n += 1;
    }
    assert(torch(*registry, pos, textured).take(12) =~= torch(*registry, pos, textured));
}

/// A source without light data.
pub open spec fn unlit<'a>(
    chunk: &'a Chunk,
    neighbors: [Option<&'a Chunk>; 6],
    registry: &'a BlockRegistry,
) -> MeshSource<'a> {
    MeshSource {
        chunk,
        neighbors,
        registry,
        light: None,
        light_neighbors: [None, None, None, None, None, None],
    }
}

/// Builds the mesh of a chunk without light data: average colours, daylight.
///
/// Neighbours are in the order `[-X, +X, -Y, +Y, -Z, +Z]`; an absent one is
/// taken as air, so the faces on that border are emitted.
pub fn build_chunk_mesh(
    chunk: &Chunk,
    neighbors: [Option<&Chunk>; 6],
    registry: &BlockRegistry,
) -> (mesh: MeshBuild)
    requires
        chunk.all_air() || unlit(chunk, neighbors, registry).registered(),
    ensures
        mesh.wf(),
        mesh@ == unlit(chunk, neighbors, registry).quads(),
{
    build_chunk_mesh_lit(chunk, neighbors, registry, None, [None, None, None, None, None, None])
}

/// Builds the mesh of a chunk. With light data each face is lit by the cell
/// that it looks at, and textured; without it the mesh is flat.
pub fn build_chunk_mesh_lit(
    chunk: &Chunk,
    neighbors: [Option<&Chunk>; 6],
    registry: &BlockRegistry,
    light: Option<&LightChunk>,
    light_neighbors: [Option<&LightChunk>; 6],
) -> (mesh: MeshBuild)
    requires
        chunk.all_air() || (MeshSource { chunk, neighbors, registry, light, light_neighbors }).registered(),
    ensures
        mesh.wf(),
        mesh@ == (MeshSource { chunk, neighbors, registry, light, light_neighbors }).quads(),
{
    let mut build = MeshBuild::new();
    if chunk.is_all_air() {
        return build;
    }
    let source = MeshSource { chunk, neighbors, registry, light, light_neighbors };
    let faces = Face::all();
    let mut mask: Vec<Option<FaceKey>> = vec![None; 1024];
    let mut n: usize = 0;
    while n < 192
        invariant
            n <= 192,
            build.wf(),
            build@ == source.cube_quads(n as int),
            build@.len() <= 1024 * n,
            source.registered(),
            mask@.len() == 1024,
            forall|k: int| 0 <= k < 6 ==> #[trigger] faces@[k] == face_of(k),
        decreases 192 - n,
    {
        let face = faces[n / 32];
        let layer: i32 = (n % 32) as i32;
        fill_mask(&source, face, layer, &mut mask);
        emit_layer(&source, face, layer, &mut mask, &mut build);
        n += 1;
    }
    emit_torches(&source, &mut build);
    build
}

/// Writes the visible faces of a layer into the mask.
fn fill_mask(source: &MeshSource, face: Face, layer: i32, mask: &mut Vec<Option<FaceKey>>)
    requires
        0 <= layer < 32,
        source.registered(),
        old(mask)@.len() == 1024,
    ensures
        final(mask)@ == source.mask(face, layer as int),
{
    let mut n: usize = 0;
    while n < 1024
        invariant
            0 <= layer < 32,
            n <= 1024,
            source.registered(),
            mask@.len() == 1024,
            forall|c: int|
                0 <= c < n ==> #[trigger] mask@[c] == source.visible(face, layer as int, c % 32, c / 32),
        decreases 1024 - n,
    {
        let (own, front) = face_sample_positions(face, layer, (n % 32) as i32, (n / 32) as i32);
        let block = source.sample_block(own);
        let front_block = source.sample_block(front);
        let entry = if source.registry.get(block).opaque && !source.registry.get(front_block).opaque {
            Some(
                FaceKey { block, light: source.sample_light(front), textured: source.light.is_some() },
            )
        } else {
            None
        };
        mask.set(n, entry);
        n += 1;
    }
    assert(mask@ =~= source.mask(face, layer as int));
}

/// Merges a layer's mask and emits its quads.
fn emit_layer(
    source: &MeshSource,
    face: Face,
    layer: i32,
    mask: &mut Vec<Option<FaceKey>>,
    build: &mut MeshBuild,
)
    requires
        0 <= layer < 32,
        source.registered(),
        old(mask)@ == source.mask(face, layer as int),
        old(build).wf(),
        old(build)@.len() < 0x0800_0000,
    ensures
        final(mask)@.len() == 1024,
        final(build).wf(),
        final(build)@ == old(build)@ + source.layer_quads(face, layer as int),
        final(build)@.len() <= old(build)@.len() + 1024,
{
    proof {
        assert forall|c: int| 0 <= c < mask@.len() && (#[trigger] mask@[c]) is Some implies source.registry.has(
            mask@[c]->0.block,
        ) by {
            assert(mask@[c] == source.visible(face, layer as int, c % 32, c / 32));
            let own = face_cell(face, layer as int, c % 32, c / 32);
            assert(reachable(own));
        }
    }
    merge_mask_into(mask, 32, face, layer, source.registry, build);
}

/// Emits the torches of the chunk: they are not opaque, so the cubes' masks
/// leave them out.
fn emit_torches(source: &MeshSource, build: &mut MeshBuild)
    requires
        source.registered(),
        old(build).wf(),
        old(build)@.len() <= 196608,
    ensures
        final(build).wf(),
        final(build)@ == old(build)@ + source.torch_quads(32768),
{
    let ghost before = build@;
    let textured: bool = source.light.is_some();
    let mut n: u32 = 0;
    assert(build@ =~= before + source.torch_quads(0));
    while n < 32768
        invariant
            n <= 32768,
            source.registered(),
            textured == (source.light is Some),
            before.len() <= 196608,
            build.wf(),
            build@ == before + source.torch_quads(n as int),
            source.torch_quads(n as int).len() <= 12 * n,
        decreases 32768 - n,
    {
        let pos = UVec3 { x: n % 32, y: (n / 32) % 32, z: n / 1024 };
        assert(pos == scan_position(n as int));
        if source.chunk.get(pos) == source.registry.known.torch {
            proof {
                let p = IVec3 { x: pos.x as i32, y: pos.y as i32, z: pos.z as i32 };
                assert(reachable(p) && beyond(p) is None);
                assert(p.local_of() == pos);
                assert(source.registry.has(source.block_at(p)));
            }
            emit_torch(build, pos, source.registry, textured);
            assert(build@ =~= before + source.torch_quads(n + 1));
        }
        n += 1;
    }
}

/// Every visible face of a layer lies in exactly one of the layer's
/// rectangles, which has the face's block and light; a face that is not
/// visible lies in none.
pub proof fn law_faces_covered_once(source: MeshSource, face: Face, layer: int, i: int, j: int)
    requires
        0 <= i < 32,
        0 <= j < 32,
    ensures
        ({
            let rects = greedy(source.mask(face, layer), 32, 0);
            &&& source.layer_quads(face, layer).len() == rects.len()
            &&& match source.visible(face, layer, i, j) {
                Some(key) => exists|q: int|
                    {
                        &&& 0 <= q < rects.len()
                        &&& (#[trigger] rects[q]).covers(i, j)
                        &&& rects[q].key == key
                        &&& forall|p: int|
                            0 <= p < rects.len() && (#[trigger] rects[p]).covers(i, j) ==> p == q
                    },
                None => forall|q: int|
                    0 <= q < rects.len() ==> !(#[trigger] rects[q]).covers(i, j),
            }
        }),
{
    let mask = source.mask(face, layer);
    let rects = greedy(mask, 32, 0);
    crate::greedy::law_greedy_tiles(mask, 32);
    assert((j * 32 + i) % 32 == i && (j * 32 + i) / 32 == j);
    assert(crate::greedy::cell(mask, 32, i, j) == source.visible(face, layer, i, j));
    if source.visible(face, layer, i, j) is Some {
        let q = choose|q: int| 0 <= q < rects.len() && (#[trigger] rects[q]).covers(i, j);
        assert(rects[q].covers(i, j));
        assert forall|p: int| 0 <= p < rects.len() && (#[trigger] rects[p]).covers(i, j) implies p
            == q by {
            assert(rects[p].covers(i, j) && rects[q].covers(i, j));
        }
    }
}

/// A layer without visible faces has no quads.
pub proof fn law_hidden_layer_is_empty(source: MeshSource, face: Face, layer: int)
    requires
        forall|i: int, j: int|
            0 <= i < 32 && 0 <= j < 32 ==> (#[trigger] source.visible(face, layer, i, j)) is None,
    ensures
        source.layer_quads(face, layer).len() == 0,
{
    let mask = source.mask(face, layer);
    let rects = greedy(mask, 32, 0);
    crate::greedy::law_greedy_tiles(mask, 32);
    if rects.len() > 0 {
        let r = rects[0];
        assert(r.in_mask(32));
        assert(rects[0].covers(r.i as int, r.j as int));
        assert(crate::greedy::cell(mask, 32, r.i as int, r.j as int) is Some);
        assert((r.j * 32 + r.i) % 32 == r.i && (r.j * 32 + r.i) / 32 == r.j as int);
    }
}

/// A mesh depends on nothing but the blocks and the light that it looks at:
/// those of the chunk and of the cells one step beyond its sides.
pub proof fn law_mesh_depends_on(a: MeshSource, b: MeshSource)
    requires
        a.registry == b.registry,
        a.light is Some == b.light is Some,
        forall|p: IVec3| reachable(p) ==> #[trigger] a.block_at(p) == b.block_at(p),
        forall|p: IVec3| reachable(p) ==> #[trigger] a.light_at(p) == b.light_at(p),
    ensures
        a.quads() == b.quads(),
{
    assert forall|l: UVec3| l.in_chunk() implies #[trigger] a.chunk.block(l) == b.chunk.block(l) by {
        let p = IVec3 { x: l.x as i32, y: l.y as i32, z: l.z as i32 };
        assert(reachable(p) && beyond(p) is None && p.local_of() == l);
        assert(a.block_at(p) == b.block_at(p));
    }
    assert(a.chunk.all_air() == b.chunk.all_air()) by {
        if a.chunk.all_air() {
            assert forall|l: UVec3| l.in_chunk() implies (#[trigger] b.chunk.block(l)).is_air() by {
                assert(a.chunk.block(l).is_air());
            }
        }
        if b.chunk.all_air() {
            assert forall|l: UVec3| l.in_chunk() implies (#[trigger] a.chunk.block(l)).is_air() by {
                assert(b.chunk.block(l).is_air());
            }
        }
    }
    lemma_same_cubes(a, b, 192);
    lemma_same_torches(a, b, 32768);
}

proof fn lemma_same_cubes(a: MeshSource, b: MeshSource, n: int)
    requires
        a.registry == b.registry,
        a.light is Some == b.light is Some,
        forall|p: IVec3| reachable(p) ==> #[trigger] a.block_at(p) == b.block_at(p),
        forall|p: IVec3| reachable(p) ==> #[trigger] a.light_at(p) == b.light_at(p),
        n <= 192,
    ensures
        a.cube_quads(n) == b.cube_quads(n),
    decreases n,
{
    if n > 0 {
        lemma_same_cubes(a, b, n - 1);
        let face = face_of((n - 1) / 32);
        let layer = (n - 1) % 32;
        assert forall|i: int, j: int| 0 <= i < 32 && 0 <= j < 32 implies #[trigger] a.visible(
            face,
            layer,
            i,
            j,
        ) == b.visible(face, layer, i, j) by {
            let own = face_cell(face, layer, i, j);
            let front = own.shifted(face.spec_normal());
            assert(reachable(own) && reachable(front));
            assert(a.block_at(own) == b.block_at(own));
            assert(a.block_at(front) == b.block_at(front));
            assert(a.light_at(front) == b.light_at(front));
        }
        assert(a.mask(face, layer) =~= b.mask(face, layer));
    }
}

proof fn lemma_same_torches(a: MeshSource, b: MeshSource, n: int)
    requires
        a.registry == b.registry,
        a.light is Some == b.light is Some,
        forall|l: UVec3| l.in_chunk() ==> #[trigger] a.chunk.block(l) == b.chunk.block(l),
        n <= 32768,
    ensures
        a.torch_quads(n) == b.torch_quads(n),
    decreases n,
{
    if n > 0 {
        lemma_same_torches(a, b, n - 1);
        assert(scan_position(n - 1).in_chunk());
        assert(a.chunk.block(scan_position(n - 1)) == b.chunk.block(scan_position(n - 1)));
    }
}

/// Each quad is drawn as two triangles that share the diagonal from its first
/// corner to its third and turn the same way.
pub proof fn law_quads_are_two_triangles(indices: Seq<u32>, q: int)
    requires
        draws_quads(indices),
        0 <= q,
        6 * q + 5 < indices.len(),
    ensures
        indices.subrange(6 * q, 6 * q + 3) == seq![
            (4 * q) as u32,
            (4 * q + 1) as u32,
            (4 * q + 2) as u32,
        ],
        indices.subrange(6 * q + 3, 6 * q + 6) == seq![
            (4 * q) as u32,
            (4 * q + 2) as u32,
            (4 * q + 3) as u32,
        ],
{
    assert(indices[6 * q] == 4 * q + 0);
    assert(indices[6 * q + 1] == 4 * q + 1);
    assert(indices[6 * q + 2] == 4 * q + 2);
    assert(indices[6 * q + 3] == 4 * q + 0);
    assert(indices[6 * q + 4] == 4 * q + 2);
    assert(indices[6 * q + 5] == 4 * q + 3);
    assert(indices.subrange(6 * q, 6 * q + 3) =~= seq![
        (4 * q) as u32,
        (4 * q + 1) as u32,
        (4 * q + 2) as u32,
    ]);
    assert(indices.subrange(6 * q + 3, 6 * q + 6) =~= seq![
        (4 * q) as u32,
        (4 * q + 2) as u32,
        (4 * q + 3) as u32,
    ]);
}

} // verus!
