//! Integer vectors and the division of world space into chunks.

use vstd::prelude::*;

verus! {

/// Edge length of a chunk, in blocks (and of a level-of-detail chunk, in
/// cells).
pub const CHUNK_SIZE: i32 = 32;

/// A position or offset with integer coordinates.
#[derive(Clone, Copy, Debug, PartialEq, Eq, Structural, Hash)]
pub struct IVec3 {
    pub x: i32,
    pub y: i32,
    pub z: i32,
}

/// A position inside a chunk.
#[derive(Clone, Copy, Debug, PartialEq, Eq, Structural, Hash)]
pub struct UVec3 {
    pub x: u32,
    pub y: u32,
    pub z: u32,
}

/// Euclidean quotient of a coordinate by the chunk edge: the chunk that the
/// coordinate lies in.
pub open spec fn chunk_coord(v: int) -> int {
    v / 32
}

/// Euclidean remainder of a coordinate by the chunk edge: where in its chunk
/// the coordinate lies.
pub open spec fn local_coord(v: int) -> int {
    v % 32
}

impl IVec3 {
    pub fn new(x: i32, y: i32, z: i32) -> (v: IVec3)
        ensures
            v == (IVec3 { x, y, z }),
    {
        IVec3 { x, y, z }
    }

    pub fn splat(v: i32) -> (r: IVec3)
        ensures
            r == (IVec3 { x: v, y: v, z: v }),
    {
        IVec3 { x: v, y: v, z: v }
    }

    /// Whether the componentwise sum with `d` stays representable.
    pub open spec fn can_shift(self, d: IVec3) -> bool {
        &&& i32::MIN <= self.x + d.x <= i32::MAX
        &&& i32::MIN <= self.y + d.y <= i32::MAX
        &&& i32::MIN <= self.z + d.z <= i32::MAX
    }

    /// The componentwise sum, meaningful where `can_shift` holds.
    pub open spec fn shifted(self, d: IVec3) -> IVec3 {
        IVec3 {
            x: (self.x + d.x) as i32,
            y: (self.y + d.y) as i32,
            z: (self.z + d.z) as i32,
        }
    }

    /// The componentwise sum.
    pub fn shift(self, d: IVec3) -> (r: IVec3)
        requires
            self.can_shift(d),
        ensures
            r == self.shifted(d),
    {
        IVec3 { x: self.x + d.x, y: self.y + d.y, z: self.z + d.z }
    }

    /// The chunk that a block position lies in.
    pub open spec fn chunk_of(self) -> IVec3 {
        IVec3 {
            x: chunk_coord(self.x as int) as i32,
            y: chunk_coord(self.y as int) as i32,
            z: chunk_coord(self.z as int) as i32,
        }
    }

    /// Where in its chunk a block position lies.
    pub open spec fn local_of(self) -> UVec3 {
        UVec3 {
            x: local_coord(self.x as int) as u32,
            y: local_coord(self.y as int) as u32,
            z: local_coord(self.z as int) as u32,
        }
    }
}

impl UVec3 {
    pub fn new(x: u32, y: u32, z: u32) -> (v: UVec3)
        ensures
            v == (UVec3 { x, y, z }),
    {
        UVec3 { x, y, z }
    }

    pub fn splat(v: u32) -> (r: UVec3)
        ensures
            r == (UVec3 { x: v, y: v, z: v }),
    {
        UVec3 { x: v, y: v, z: v }
    }

    /// Whether the position lies inside a chunk.
    pub open spec fn in_chunk(self) -> bool {
        self.x < 32 && self.y < 32 && self.z < 32
    }
}

/// Rounds the quotient by a positive divisor towards negative infinity.
pub fn floor_div(v: i32, d: i32) -> (q: i32)
    requires
        d > 0,
    ensures
        q == (v as int) / (d as int),
{
    let wide: i64 = v as i64;
    let by: i64 = d as i64;
    if wide >= 0 {
        proof {
            vstd::arithmetic::div_mod::lemma_div_is_ordered_by_denominator(v as int, 1, d as int);
            vstd::arithmetic::div_mod::lemma_div_pos_is_pos(v as int, d as int);
        }
        (wide / by) as i32
    } else {
        // The quotient of a negative `v` is the mirror image of the
        // quotient of `-v - 1`, which is not negative.
        let mirrored: i64 = (-(wide + 1)) / by;
        proof {
            let m: int = -(v as int + 1);
            let di: int = d as int;
            vstd::arithmetic::div_mod::lemma_fundamental_div_mod(m, di);
            vstd::arithmetic::div_mod::lemma_mod_bound(m, di);
            vstd::arithmetic::div_mod::lemma_div_is_ordered_by_denominator(m, 1, di);
            vstd::arithmetic::div_mod::lemma_div_pos_is_pos(m, di);
            let qm: int = m / di;
            let rm: int = m % di;
            assert(v as int == di * (-qm - 1) + (di - 1 - rm)) by (nonlinear_arith)
                requires
                    m == di * qm + rm,
                    m == -(v as int + 1),
            ;
            vstd::arithmetic::div_mod::lemma_fundamental_div_mod_converse(
                v as int,
                di,
                -qm - 1,
                di - 1 - rm,
            );
        }
        (-mirrored - 1) as i32
    }
}

/// Splits a block position into its chunk and its place in that chunk.
pub fn split_block_pos(pos: IVec3) -> (r: (IVec3, UVec3))
    ensures
        r.0 == pos.chunk_of(),
        r.1 == pos.local_of(),
        r.1.in_chunk(),
{
    let cx: i32 = floor_div(pos.x, CHUNK_SIZE);
    let cy: i32 = floor_div(pos.y, CHUNK_SIZE);
    let cz: i32 = floor_div(pos.z, CHUNK_SIZE);
    (
        IVec3 { x: cx, y: cy, z: cz },
        UVec3 {
            x: (pos.x - cx * 32) as u32,
            y: (pos.y - cy * 32) as u32,
            z: (pos.z - cz * 32) as u32,
        },
    )
}

/// A block position is determined by its chunk and its place in the chunk:
/// the chunk's corner plus the local offset gives it back.
pub proof fn law_split_recombines(pos: IVec3)
    ensures
        pos.chunk_of().x * 32 + pos.local_of().x == pos.x,
        pos.chunk_of().y * 32 + pos.local_of().y == pos.y,
        pos.chunk_of().z * 32 + pos.local_of().z == pos.z,
        pos.local_of().in_chunk(),
{
}

} // verus!
