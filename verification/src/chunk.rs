//! Blocks and light of one chunk.

use crate::geometry::UVec3;
use vstd::prelude::*;

verus! {

/// Number of cells in a chunk.
pub const CHUNK_VOLUME: usize = 32768;

/// Numeric id of a block kind.
#[derive(Clone, Copy, Debug, PartialEq, Eq, Structural, Hash)]
pub struct BlockId(pub u16);

impl BlockId {
    /// The id of empty space.
    pub fn air() -> (id: BlockId)
        ensures
            id == BlockId(0),
    {
        BlockId(0)
    }

    pub open spec fn spec_is_air(self) -> bool {
        self.0 == 0
    }

    /// Whether this is the id of empty space.
    #[verifier::when_used_as_spec(spec_is_air)]
    pub fn is_air(self) -> (b: bool)
        ensures
            b == self.spec_is_air(),
    {
        self.0 == 0
    }
}

/// Where in a chunk's buffer a position is stored.
pub open spec fn cell_index(pos: UVec3) -> int {
    pos.x + 32 * (pos.z + 32 * pos.y)
}

/// Executable form of [`cell_index`].
fn index_of(pos: UVec3) -> (i: usize)
    requires
        pos.in_chunk(),
    ensures
        i == cell_index(pos),
        i < CHUNK_VOLUME,
{
    pos.x as usize + 32 * (pos.z as usize + 32 * pos.y as usize)
}

/// The blocks of one chunk.
#[derive(Debug)]
pub struct Chunk {
    blocks: Vec<BlockId>,
}

impl Clone for Chunk {
    fn clone(&self) -> (copy: Chunk)
        ensures
            forall|p: UVec3| p.in_chunk() ==> #[trigger] copy.block(p) == self.block(p),
    {
        proof {
            use_type_invariant(self);
        }
        Chunk { blocks: self.blocks.clone() }
    }
}

impl Chunk {
    #[verifier::type_invariant]
    closed spec fn full(self) -> bool {
        self.blocks@.len() == CHUNK_VOLUME
    }

    /// The block at a position.
    pub closed spec fn block(self, pos: UVec3) -> BlockId {
        self.blocks@[cell_index(pos)]
    }

    /// A chunk that holds `block` everywhere.
    pub fn filled(block: BlockId) -> (chunk: Chunk)
        ensures
            forall|p: UVec3| p.in_chunk() ==> #[trigger] chunk.block(p) == block,
    {
        let blocks: Vec<BlockId> = vec![block; CHUNK_VOLUME];
        Chunk { blocks }
    }

    /// The block at `pos`.
    pub fn get(&self, pos: UVec3) -> (block: BlockId)
        requires
            pos.in_chunk(),
        ensures
            block == self.block(pos),
    {
        proof {
            use_type_invariant(self);
        }
        self.blocks[index_of(pos)]
    }

    /// Puts `block` at `pos`.
    pub fn set(&mut self, pos: UVec3, block: BlockId)
        requires
            pos.in_chunk(),
        ensures
            final(self).block(pos) == block,
            forall|p: UVec3| p.in_chunk() && p != pos ==> #[trigger] final(self).block(p) == old(self).block(p),
    {
        proof {
            use_type_invariant(&*self);
        }
        let i: usize = index_of(pos);
        self.blocks[i] = block;
    }
}

impl Chunk {
    /// Whether the chunk is empty space throughout.
    pub open spec fn all_air(self) -> bool {
        forall|p: UVec3| p.in_chunk() ==> (#[trigger] self.block(p)).is_air()
    }

    /// Whether the chunk is empty space throughout.
    pub fn is_all_air(&self) -> (b: bool)
        ensures
            b == self.all_air(),
    {
        proof {
            use_type_invariant(self);
        }
        let mut n: usize = 0;
        while n < CHUNK_VOLUME
            invariant
                self.blocks@.len() == CHUNK_VOLUME,
                n <= CHUNK_VOLUME,
                forall|m: int| 0 <= m < n ==> (#[trigger] self.blocks@[m]).is_air(),
            decreases CHUNK_VOLUME - n,
        {
            if !self.blocks[n].is_air() {
                proof {
                    let p = position_of(n as int);
                    assert(cell_index(p) == n);
                    assert(!self.block(p).is_air());
                }
                return false;
            }
            n += 1;
        }
        true
    }
}

/// The position that is stored at an index.
pub open spec fn position_of(n: int) -> UVec3 {
    UVec3 { x: (n % 32) as u32, y: (n / 1024) as u32, z: ((n / 32) % 32) as u32 }
}

/// One byte per colour channel.
#[derive(Clone, Copy, Debug, PartialEq, Eq, Structural, Hash)]
pub struct Rgb {
    pub r: u8,
    pub g: u8,
    pub b: u8,
}

impl Rgb {
    pub fn new(r: u8, g: u8, b: u8) -> (c: Rgb)
        ensures
            c == (Rgb { r, g, b }),
    {
        Rgb { r, g, b }
    }
}

/// Light that reaches a cell: a level for each colour and one for daylight,
/// each from 0 (none) to 15.
#[derive(Clone, Copy, Debug, PartialEq, Eq, Structural, Hash)]
pub struct LightValue {
    pub rgb: Rgb,
    pub sky: u8,
}

/// No light at all.
pub open spec fn darkness() -> LightValue {
    LightValue { rgb: Rgb { r: 0, g: 0, b: 0 }, sky: 0 }
}

/// Full daylight and no other light.
pub open spec fn daylight() -> LightValue {
    LightValue { rgb: Rgb { r: 0, g: 0, b: 0 }, sky: 15 }
}

impl LightValue {
    pub fn new(rgb: Rgb, sky: u8) -> (v: LightValue)
        ensures
            v == (LightValue { rgb, sky }),
    {
        LightValue { rgb, sky }
    }

    /// No light at all.
    pub fn dark() -> (v: LightValue)
        ensures
            v == darkness(),
    {
        LightValue { rgb: Rgb { r: 0, g: 0, b: 0 }, sky: 0 }
    }

    /// Full daylight and no other light.
    pub fn sky() -> (v: LightValue)
        ensures
            v == daylight(),
    {
        LightValue { rgb: Rgb { r: 0, g: 0, b: 0 }, sky: 15 }
    }
}

/// The light of one chunk.
#[derive(Debug)]
pub struct LightChunk {
    cells: Vec<LightValue>,
}

impl Clone for LightChunk {
    fn clone(&self) -> (copy: LightChunk)
        ensures
            forall|p: UVec3| p.in_chunk() ==> #[trigger] copy.light(p) == self.light(p),
    {
        proof {
            use_type_invariant(self);
        }
        LightChunk { cells: self.cells.clone() }
    }
}

impl LightChunk {
    #[verifier::type_invariant]
    closed spec fn full(self) -> bool {
        self.cells@.len() == CHUNK_VOLUME
    }

    /// The light at a position.
    pub closed spec fn light(self, pos: UVec3) -> LightValue {
        self.cells@[cell_index(pos)]
    }

    /// Whether two chunks are lit alike.
    pub open spec fn lit_as(self, other: LightChunk) -> bool {
        forall|p: UVec3| p.in_chunk() ==> #[trigger] self.light(p) == other.light(p)
    }

    /// Whether two chunks are lit alike.
    pub fn same_light(&self, other: &LightChunk) -> (b: bool)
        ensures
            b == self.lit_as(*other),
    {
        proof {
            use_type_invariant(self);
            use_type_invariant(other);
        }
        let mut n: usize = 0;
        while n < CHUNK_VOLUME
            invariant
                self.cells@.len() == CHUNK_VOLUME,
                other.cells@.len() == CHUNK_VOLUME,
                n <= CHUNK_VOLUME,
                forall|m: int| 0 <= m < n ==> self.cells@[m] == other.cells@[m],
            decreases CHUNK_VOLUME - n,
        {
            if self.cells[n] != other.cells[n] {
                proof {
                    let p = position_of(n as int);
                    assert(cell_index(p) == n);
                    assert(self.light(p) != other.light(p));
                }
                return false;
            }
            n += 1;
        }
        true
    }

    /// A chunk with the same light everywhere.
    pub fn filled(value: LightValue) -> (chunk: LightChunk)
        ensures
            forall|p: UVec3| p.in_chunk() ==> #[trigger] chunk.light(p) == value,
    {
        let cells: Vec<LightValue> = vec![value; CHUNK_VOLUME];
        LightChunk { cells }
    }

    /// The light at `pos`.
    pub fn get(&self, pos: UVec3) -> (value: LightValue)
        requires
            pos.in_chunk(),
        ensures
            value == self.light(pos),
    {
        proof {
            use_type_invariant(self);
        }
        self.cells[index_of(pos)]
    }

    /// Puts `value` at `pos`.
    pub fn set(&mut self, pos: UVec3, value: LightValue)
        requires
            pos.in_chunk(),
        ensures
            final(self).light(pos) == value,
            forall|p: UVec3|
                p.in_chunk() && p != pos ==> #[trigger] final(self).light(p) == old(self).light(p),
    {
        proof {
            use_type_invariant(&*self);
        }
        let i: usize = index_of(pos);
        self.cells[i] = value;
    }
}

/// A chunk is empty throughout when every one of its blocks is of the kind
/// with number zero, and two chunks are lit alike when no position differs in
/// its light.
pub proof fn law_empty_means_kind_zero(c: Chunk, a: LightChunk, b: LightChunk)
    ensures
        c.all_air() <==> forall|p: UVec3|
            p.x < 32 && p.y < 32 && p.z < 32 ==> (#[trigger] c.block(p)).0 == 0,
        a.lit_as(b) <==> forall|p: UVec3|
            p.x < 32 && p.y < 32 && p.z < 32 ==> #[trigger] a.light(p) == b.light(p),
{
    if c.all_air() {
        assert forall|p: UVec3| p.x < 32 && p.y < 32 && p.z < 32 implies (#[trigger] c.block(p)).0
            == 0 by {
            assert(c.block(p).is_air());
        }
    }
}

} // verus!
