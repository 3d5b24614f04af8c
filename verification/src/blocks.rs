//! What the client knows about each kind of block.

use crate::chunk::{BlockId, Chunk, Rgb};
use crate::geometry::UVec3;
use crate::item::{ToolKind, ToolTier};
use vstd::prelude::*;

verus! {

/// Properties of one kind of block.
#[derive(Debug)]
pub struct BlockDef {
    pub name: String,
    /// Hides the faces of the blocks behind it.
    pub opaque: bool,
    /// Stops a walking player.
    pub solid: bool,
    /// Can be looked at, to be mined or used.
    pub targetable: bool,
    /// Opens something when used, such as a chest.
    pub interactive: bool,
    pub color_top: Rgb,
    pub color_side: Rgb,
    pub color_bottom: Rgb,
    pub light_emission: Rgb,
    /// The kind of tool that is made for it.
    pub tool: Option<ToolKind>,
    /// The least tool that gets anything out of it.
    pub harvest_tier: Option<ToolTier>,
}

/// The ids that particular rules speak of.
#[derive(Clone, Copy, Debug, PartialEq, Eq, Structural)]
pub struct KnownBlocks {
    pub torch: BlockId,
    pub log: BlockId,
    pub water: BlockId,
    pub grass: BlockId,
    pub dirt: BlockId,
    pub farmland: BlockId,
    pub wheat_young: BlockId,
    pub miner: BlockId,
}

/// All kinds of blocks, indexed by id.
#[derive(Debug)]
pub struct BlockRegistry {
    pub defs: Vec<BlockDef>,
    pub known: KnownBlocks,
}

impl BlockRegistry {
    /// Whether `id` names a kind of block.
    pub open spec fn has(self, id: BlockId) -> bool {
        id.0 < self.defs@.len()
    }

    /// The properties of the kind that `id` names.
    pub open spec fn def(self, id: BlockId) -> BlockDef {
        self.defs@[id.0 as int]
    }

    /// The properties of the kind that `id` names.
    pub fn get(&self, id: BlockId) -> (def: &BlockDef)
        requires
            self.has(id),
        ensures
            *def == self.def(id),
    {
        &self.defs[id.0 as usize]
    }

    /// Whether `id` names a kind of block.
    pub fn contains(&self, id: BlockId) -> (b: bool)
        ensures
            b == self.has(id),
    {
        (id.0 as usize) < self.defs.len()
    }

    /// Whether every block of a chunk is of a known kind.
    pub open spec fn knows(self, chunk: Chunk) -> bool {
        forall|p: UVec3| p.in_chunk() ==> self.has(#[trigger] chunk.block(p))
    }

    /// Whether every block of a chunk is of a known kind.
    pub fn knows_chunk(&self, chunk: &Chunk) -> (b: bool)
        ensures
            b == self.knows(*chunk),
    {
        let mut n: u32 = 0;
        while n < 32768
            invariant
                n <= 32768,
                forall|p: UVec3|
                    p.in_chunk() && p.x + 32 * (p.y + 32 * p.z) < n ==> self.has(
                        #[trigger] chunk.block(p),
                    ),
            decreases 32768 - n,
        {
            let pos = UVec3 { x: n % 32, y: (n / 32) % 32, z: n / 1024 };
            if !self.contains(chunk.get(pos)) {
                return false;
            }
            assert forall|p: UVec3| p.in_chunk() && p.x + 32 * (p.y + 32 * p.z) < n + 1 implies self.has(
                #[trigger] chunk.block(p),
            ) by {
                if p.x + 32 * (p.y + 32 * p.z) == n {
                    assert(p == pos);
                }
            }
            n += 1;
        }
        true
    }
}

} // verus!
