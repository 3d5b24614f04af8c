//! The client's cache of chunks and what is to be meshed next.

use crate::blocks::BlockRegistry;
use crate::chunk::{BlockId, Chunk, LightChunk, LightValue};
use crate::geometry::{split_block_pos, IVec3, UVec3};
use crate::mesh::{beyond, build_chunk_mesh_lit, law_mesh_depends_on, reachable, Face, MeshBuild, MeshSource, Quad};
use crate::nearest::{is_nearest, nearest, square};
use crate::packed::{PackedMap, PackedSet};
use vstd::prelude::*;

verus! {

/// Chunks meshed per frame.
pub const MESH_BUDGET_PER_FRAME: usize = 12;

/// How much farther than the view distance a chunk is kept, in chunks.
pub const DESPAWN_MARGIN_CHUNKS: i32 = 2;

/// Chunks received from the server and the state of their meshes.
#[derive(Debug)]
pub struct ChunkStore {
    /// Light received for each chunk, independently of its blocks.
    pub light: PackedMap<IVec3, LightChunk>,
    /// Every chunk that the server has sent.
    pub chunks: PackedMap<IVec3, Chunk>,
    /// Positions already asked for.
    pub requested: PackedSet<IVec3>,
    /// Positions already meshed, whether or not anything is visible there.
    pub meshed: PackedSet<IVec3>,
    /// The spawned entity of each visible mesh.
    pub entities: PackedMap<IVec3, u64>,
    /// Chunks that changed since they were meshed.
    pub dirty: PackedSet<IVec3>,
    /// Number of chunk layers in the world, the lowest being layer 0.
    pub height_chunks: i32,
    /// The light above the highest layer.
    pub open_sky: LightChunk,
}

impl ChunkStore {
    /// An empty store for a world with the given number of chunk layers.
    pub fn new(height_chunks: i32) -> (store: ChunkStore)
        ensures
            store.wf(),
            store.is_clear(),
            store.height_chunks == height_chunks,
    {
        ChunkStore {
            light: PackedMap::new(),
            chunks: PackedMap::new(),
            requested: PackedSet::new(),
            meshed: PackedSet::new(),
            entities: PackedMap::new(),
            dirty: PackedSet::new(),
            height_chunks,
            open_sky: LightChunk::filled(LightValue::sky()),
        }
    }

    /// Whether the light above the world is full daylight.
    pub open spec fn wf(self) -> bool {
        forall|p: UVec3|
            p.in_chunk() ==> #[trigger] self.open_sky.light(p) == crate::chunk::daylight()
    }

    /// Whether nothing is stored.
    pub open spec fn is_clear(self) -> bool {
        &&& self.light@ == Map::<IVec3, LightChunk>::empty()
        &&& self.chunks@ == Map::<IVec3, Chunk>::empty()
        &&& self.requested@ == Set::<IVec3>::empty()
        &&& self.meshed@ == Set::<IVec3>::empty()
        &&& self.entities@ == Map::<IVec3, u64>::empty()
        &&& self.dirty@ == Set::<IVec3>::empty()
    }

    /// Whether two stores are for the same world.
    pub open spec fn same_world(self, other: ChunkStore) -> bool {
        self.height_chunks == other.height_chunks && self.open_sky == other.open_sky
    }

    /// Whether a chunk layer is part of the world.
    pub open spec fn layer_exists(self, y: int) -> bool {
        0 <= y < self.height_chunks
    }

    /// The block at a position: air above and below the world, unknown where
    /// the chunk has not been loaded.
    pub open spec fn block(self, pos: IVec3) -> Option<BlockId> {
        if !self.layer_exists(pos.chunk_of().y as int) {
            Some(BlockId(0))
        } else if self.chunks@.contains_key(pos.chunk_of()) {
            Some(self.chunks@[pos.chunk_of()].block(pos.local_of()))
        } else {
            None
        }
    }

    /// Whether a chunk's neighbour on one side has arrived, with its light.
    /// Positions above and below the world count as arrived.
    pub open spec fn neighbor_arrived(self, pos: IVec3, side: Face) -> bool {
        let d = side.spec_normal();
        ||| !self.layer_exists(pos.y + d.y)
        ||| pos.can_shift(d) && self.chunks@.contains_key(pos.shifted(d))
            && self.light@.contains_key(pos.shifted(d))
    }

    /// Whether a chunk can be meshed: it and its neighbours have arrived,
    /// with their light.
    pub open spec fn ready(self, pos: IVec3) -> bool {
        &&& self.chunks@.contains_key(pos)
        &&& self.light@.contains_key(pos)
        &&& forall|side: Face| #[trigger] self.neighbor_arrived(pos, side)
    }

    /// The neighbouring chunk to mesh against, if there is one.
    pub open spec fn neighbor(&self, pos: IVec3, side: Face) -> Option<&Chunk> {
        let d = side.spec_normal();
        if self.layer_exists(pos.y + d.y) && pos.can_shift(d) && self.chunks@.contains_key(
            pos.shifted(d),
        ) {
            Some(&self.chunks@[pos.shifted(d)])
        } else {
            None
        }
    }

    /// The neighbouring light to mesh against: open sky above the world.
    pub open spec fn neighbor_light(&self, pos: IVec3, side: Face) -> Option<&LightChunk> {
        let d = side.spec_normal();
        if pos.y + d.y >= self.height_chunks {
            Some(&self.open_sky)
        } else if pos.can_shift(d) && self.light@.contains_key(pos.shifted(d)) {
            Some(&self.light@[pos.shifted(d)])
        } else {
            None
        }
    }

    /// What the mesh of a loaded chunk is built from.
    pub open spec fn source<'a>(&'a self, pos: IVec3, registry: &'a BlockRegistry) -> MeshSource<'a> {
        MeshSource {
            chunk: &self.chunks@[pos],
            neighbors: [
                self.neighbor(pos, Face::NegX),
                self.neighbor(pos, Face::PosX),
                self.neighbor(pos, Face::NegY),
                self.neighbor(pos, Face::PosY),
                self.neighbor(pos, Face::NegZ),
                self.neighbor(pos, Face::PosZ),
            ],
            registry,
            light: if self.light@.contains_key(pos) {
                Some(&self.light@[pos])
            } else {
                None
            },
            light_neighbors: [
                self.neighbor_light(pos, Face::NegX),
                self.neighbor_light(pos, Face::PosX),
                self.neighbor_light(pos, Face::NegY),
                self.neighbor_light(pos, Face::PosY),
                self.neighbor_light(pos, Face::NegZ),
                self.neighbor_light(pos, Face::PosZ),
            ],
        }
    }

    /// Whether every block in the store is registered, and air is.
    pub open spec fn registered(self, registry: BlockRegistry) -> bool {
        &&& registry.has(BlockId(0))
        &&& forall|c: IVec3, p: UVec3|
            self.chunks@.contains_key(c) && p.in_chunk() ==> registry.has(
                #[trigger] self.chunks@[c].block(p),
            )
    }
}

fn is_vertically_in_bounds(store: &ChunkStore, y: i32) -> (b: bool)
    ensures
        b == store.layer_exists(y as int),
{
    0 <= y && y < store.height_chunks
}

/// The block at a position in the world: air above and below the world,
/// `None` where the chunk has not been loaded.
pub fn block_at(store: &ChunkStore, pos: IVec3) -> (block: Option<BlockId>)
    ensures
        block == store.block(pos),
{
    let (chunk_pos, local) = split_block_pos(pos);
    if !is_vertically_in_bounds(store, chunk_pos.y) {
        return Some(BlockId::air());
    }
    match store.chunks.get(chunk_pos) {
        Some(chunk) => Some(chunk.get(local)),
        None => None,
    }
}

/// Whether the block at a position can be told.
pub fn is_chunk_loaded(store: &ChunkStore, pos: IVec3) -> (b: bool)
    ensures
        b == store.block(pos) is Some,
{
    let (chunk_pos, _local) = split_block_pos(pos);
    !is_vertically_in_bounds(store, chunk_pos.y) || store.chunks.contains_key(chunk_pos)
}

/// The chunks whose mesh depends on the block at a position: its own, then
/// those that it borders on.
pub open spec fn dependents(pos: IVec3) -> Seq<IVec3> {
    let c = pos.chunk_of();
    let l = pos.local_of();
    seq![c] + side_if(c, l.x == 0, Face::NegX) + side_if(c, l.x == 31, Face::PosX) + side_if(
        c,
        l.y == 0,
        Face::NegY,
    ) + side_if(c, l.y == 31, Face::PosY) + side_if(c, l.z == 0, Face::NegZ) + side_if(
        c,
        l.z == 31,
        Face::PosZ,
    )
}

pub open spec fn side_if(c: IVec3, borders: bool, side: Face) -> Seq<IVec3> {
    if borders {
        seq![c.shifted(side.spec_normal())]
    } else {
        Seq::empty()
    }
}

/// Appends the neighbouring chunk on a side, where the block borders on it.
fn push_side(dirtied: &mut Vec<IVec3>, c: IVec3, borders: bool, side: Face)
    requires
        c.can_shift(side.spec_normal()),
    ensures
        final(dirtied)@ == old(dirtied)@ + side_if(c, borders, side),
{
    if borders {
        dirtied.push(c.shift(side.normal()));
    }
    assert(dirtied@ =~= old(dirtied)@ + side_if(c, borders, side));
}

/// Whether a store got from one state to another by a change of one block:
/// in a loaded chunk the block is put in place and the chunks that depend on
/// it become dirty; elsewhere nothing happens.
pub open spec fn edited(before: ChunkStore, after: ChunkStore, pos: IVec3, block: BlockId) -> bool {
    let c = pos.chunk_of();
    &&& after.same_world(before)
    &&& after.light@ == before.light@
    &&& after.requested@ == before.requested@
    &&& after.meshed@ == before.meshed@
    &&& after.entities@ == before.entities@
    &&& after.chunks@.dom() == before.chunks@.dom()
    &&& forall|other: IVec3| other != c ==> #[trigger] after.chunks@[other] == before.chunks@[other]
    &&& if before.chunks@.contains_key(c) {
        &&& after.dirty@ == before.dirty@.union(dependents(pos).to_set())
        &&& after.chunks@[c].block(pos.local_of()) == block
        &&& forall|p: UVec3|
            p.in_chunk() && p != pos.local_of() ==> #[trigger] after.chunks@[c].block(p)
                == before.chunks@[c].block(p)
    } else {
        &&& after.dirty@ == before.dirty@
        &&& after.chunks@ == before.chunks@
    }
}

/// Changes the block at a position, if its chunk is loaded, and marks the
/// chunks whose mesh depends on it as dirty. Returns those chunks; none if
/// nothing was loaded there.
pub fn set_block(store: &mut ChunkStore, pos: IVec3, block: BlockId) -> (dirtied: Vec<IVec3>)
    ensures
        edited(*old(store), *final(store), pos, block),
        dirtied@ == if old(store).chunks@.contains_key(pos.chunk_of()) {
            dependents(pos)
        } else {
            Seq::empty()
        },
        old(store).chunks@.contains_key(pos.chunk_of()) && old(store).layer_exists(
            pos.chunk_of().y as int,
        ) ==> final(store).block(pos) == Some(block),
        forall|q: IVec3| q != pos ==> #[trigger] final(store).block(q) == old(store).block(q),
        forall|registry: BlockRegistry|
            old(store).registered(registry) && registry.has(block) ==> #[trigger] final(store).registered(registry),
{
    let (chunk_pos, local) = split_block_pos(pos);
    let mut dirtied: Vec<IVec3> = Vec::new();
    match store.chunks.remove(chunk_pos) {
        None => {
            assert(store.chunks@ =~= old(store).chunks@);
            return dirtied;
        },
        Some(mut chunk) => {
            chunk.set(local, block);
            store.chunks.insert(chunk_pos, chunk);
        },
    }
    assert(store.chunks@.dom() =~= old(store).chunks@.dom());
    dirtied.push(chunk_pos);
    assert(dirtied@ =~= seq![chunk_pos]);
    push_side(&mut dirtied, chunk_pos, local.x == 0, Face::NegX);
    push_side(&mut dirtied, chunk_pos, local.x == 31, Face::PosX);
    push_side(&mut dirtied, chunk_pos, local.y == 0, Face::NegY);
    push_side(&mut dirtied, chunk_pos, local.y == 31, Face::PosY);
    push_side(&mut dirtied, chunk_pos, local.z == 0, Face::NegZ);
    push_side(&mut dirtied, chunk_pos, local.z == 31, Face::PosZ);
    mark_all(&mut store.dirty, &dirtied);
    proof {
        assert forall|q: IVec3| q != pos implies #[trigger] store.block(q) == old(store).block(q) by {
            crate::geometry::law_split_recombines(q);
            crate::geometry::law_split_recombines(pos);
        }
        assert forall|registry: BlockRegistry|
            old(store).registered(registry) && registry.has(block) implies #[trigger] store.registered(registry) by {
            assert forall|c: IVec3, p: UVec3|
                store.chunks@.contains_key(c) && p.in_chunk() implies registry.has(
                #[trigger] store.chunks@[c].block(p),
            ) by {
                assert(registry.has(old(store).chunks@[c].block(p)));
            }
        }
    }
    dirtied
}

/// Adds all listed positions to a set.
pub fn mark_all(set: &mut PackedSet<IVec3>, list: &Vec<IVec3>)
    ensures
        final(set)@ == old(set)@.union(list@.to_set()),
{
    let ghost before = set@;
    let mut n: usize = 0;
    assert(set@ =~= before.union(list@.take(0).to_set()));
    while n < list.len()
        invariant
            n <= list@.len(),
            set@ =~= before.union(list@.take(n as int).to_set()),
        decreases list@.len() - n,
    {
        set.insert(list[n]);
        proof {
            let seen = list@.take(n as int);
            assert(list@.take(n + 1) =~= seen.push(list@[n as int]));
            crate::lists::lemma_push_contains(seen, list@[n as int]);
        }
        n += 1;
    }
    assert(list@.take(n as int) =~= list@);
}

/// Whether two positions are one step apart along one axis.
pub open spec fn adjacent(a: IVec3, b: IVec3) -> bool {
    ||| (b.x == a.x + 1 || b.x == a.x - 1) && b.y == a.y && b.z == a.z
    ||| b.x == a.x && (b.y == a.y + 1 || b.y == a.y - 1) && b.z == a.z
    ||| b.x == a.x && b.y == a.y && (b.z == a.z + 1 || b.z == a.z - 1)
}

/// Stores the light of a chunk and marks the chunk and its loaded neighbours
/// as dirty. Light for a chunk that is neither loaded nor requested is
/// dropped, and so is light that changes nothing.
pub fn insert_light_chunk(store: &mut ChunkStore, pos: IVec3, light: LightChunk)
    ensures
        final(store).same_world(*old(store)),
        final(store).chunks@ == old(store).chunks@,
        final(store).requested@ == old(store).requested@,
        final(store).meshed@ == old(store).meshed@,
        final(store).entities@ == old(store).entities@,
        ({
            let known = old(store).chunks@.contains_key(pos) || old(store).requested@.contains(pos);
            let same = old(store).light@.contains_key(pos) && old(store).light@[pos].lit_as(light);
            if !known || same {
                &&& final(store).light@ == old(store).light@
                &&& final(store).dirty@ == old(store).dirty@
            } else {
                &&& final(store).light@ == old(store).light@.insert(pos, light)
                &&& forall|p: IVec3| #[trigger]
                    final(store).dirty@.contains(p) <==> {
                        ||| old(store).dirty@.contains(p)
                        ||| p == pos
                        ||| adjacent(pos, p) && old(store).chunks@.contains_key(p)
                    }
            }
        }),
{
    if !store.chunks.contains_key(pos) && !store.requested.contains(pos) {
        return ;
    }
    match store.light.get(pos) {
        Some(present) => {
            if present.same_light(&light) {
                return ;
            }
        },
        None => {},
    }
    store.light.insert(pos, light);
    store.dirty.insert(pos);
    mark_loaded_side(store, pos, Face::NegX);
    mark_loaded_side(store, pos, Face::PosX);
    mark_loaded_side(store, pos, Face::NegY);
    mark_loaded_side(store, pos, Face::PosY);
    mark_loaded_side(store, pos, Face::NegZ);
    mark_loaded_side(store, pos, Face::PosZ);
}

/// Marks the neighbour on one side as dirty, if it is loaded.
fn mark_loaded_side(store: &mut ChunkStore, pos: IVec3, side: Face)
    ensures
        final(store).same_world(*old(store)),
        final(store).chunks@ == old(store).chunks@,
        final(store).light@ == old(store).light@,
        final(store).requested@ == old(store).requested@,
        final(store).meshed@ == old(store).meshed@,
        final(store).entities@ == old(store).entities@,
        forall|p: IVec3| #[trigger]
            final(store).dirty@.contains(p) <==> {
                ||| old(store).dirty@.contains(p)
                ||| pos.can_shift(side.spec_normal()) && p == pos.shifted(side.spec_normal()) && old(
                    store).chunks@.contains_key(p)
            },
{
    match neighbor_pos(pos, side) {
        Some(neighbor) => {
            if store.chunks.contains_key(neighbor) {
                store.dirty.insert(neighbor);
            }
        },
        None => {},
    }
}

/// The neighbouring position on one side, where it can be represented.
pub fn neighbor_pos(pos: IVec3, side: Face) -> (r: Option<IVec3>)
    ensures
        r == if pos.can_shift(side.spec_normal()) {
            Some(pos.shifted(side.spec_normal()))
        } else {
            None
        },
{
    let d = side.normal();
    let x: i64 = pos.x as i64 + d.x as i64;
    let y: i64 = pos.y as i64 + d.y as i64;
    let z: i64 = pos.z as i64 + d.z as i64;
    let lo: i64 = i32::MIN as i64;
    let hi: i64 = i32::MAX as i64;
    if lo <= x && x <= hi && lo <= y && y <= hi && lo <= z && z <= hi {
        Some(IVec3 { x: x as i32, y: y as i32, z: z as i32 })
    } else {
        None
    }
}

/// Whether the layer on one side of a position is part of the world.
fn side_layer_exists(store: &ChunkStore, pos: IVec3, side: Face) -> (b: bool)
    ensures
        b == store.layer_exists(pos.y + side.spec_normal().y),
{
    let y: i64 = pos.y as i64 + side.normal().y as i64;
    0 <= y && y < store.height_chunks as i64
}

fn neighbor_present(store: &ChunkStore, pos: IVec3, side: Face) -> (b: bool)
    ensures
        b == store.neighbor_arrived(pos, side),
{
    if !side_layer_exists(store, pos, side) {
        return true;
    }
    match neighbor_pos(pos, side) {
        Some(neighbor) => store.chunks.contains_key(neighbor) && store.light.contains_key(neighbor),
        None => false,
    }
}

fn neighbor_chunk<'a>(store: &'a ChunkStore, pos: IVec3, side: Face) -> (r: Option<&'a Chunk>)
    ensures
        r == store.neighbor(pos, side),
{
    if !side_layer_exists(store, pos, side) {
        return None;
    }
    match neighbor_pos(pos, side) {
        Some(neighbor) => store.chunks.get(neighbor),
        None => None,
    }
}

fn neighbor_light_chunk<'a>(store: &'a ChunkStore, pos: IVec3, side: Face) -> (r: Option<
    &'a LightChunk,
>)
    ensures
        r == store.neighbor_light(pos, side),
{
    let y: i64 = pos.y as i64 + side.normal().y as i64;
    if y >= store.height_chunks as i64 {
        return Some(&store.open_sky);
    }
    match neighbor_pos(pos, side) {
        Some(neighbor) => store.light.get(neighbor),
        None => None,
    }
}

/// Whether a chunk can be meshed.
pub fn is_ready_to_mesh(store: &ChunkStore, pos: IVec3) -> (b: bool)
    ensures
        b == store.ready(pos),
{
    store.chunks.contains_key(pos) && store.light.contains_key(pos) && neighbor_present(
        store,
        pos,
        Face::NegX,
    ) && neighbor_present(store, pos, Face::PosX) && neighbor_present(store, pos, Face::NegY)
        && neighbor_present(store, pos, Face::PosY) && neighbor_present(store, pos, Face::NegZ)
        && neighbor_present(store, pos, Face::PosZ)
}

/// Whether some loaded chunk is ready to be meshed but has not been since it
/// last changed.
pub fn any_chunk_ready(store: &ChunkStore) -> (b: bool)
    ensures
        b == exists|pos: IVec3|
            (store.dirty@.contains(pos) || !store.meshed@.contains(pos)) && #[trigger] store.ready(pos),
{
    let keys = store.chunks.keys();
    let mut n: usize = 0;
    while n < keys.len()
        invariant
            n <= keys@.len(),
            forall|m: int|
                0 <= m < n ==> !((store.dirty@.contains(keys@[m]) || !store.meshed@.contains(keys@[m]))
                    && #[trigger] store.ready(keys@[m])),
        decreases keys@.len() - n,
    {
        let pos = keys[n];
        if (store.dirty.contains(pos) || !store.meshed.contains(pos)) && is_ready_to_mesh(store, pos) {
            return true;
        }
        n += 1;
    }
    proof {
        assert forall|pos: IVec3|
            (store.dirty@.contains(pos) || !store.meshed@.contains(pos)) && #[trigger] store.ready(
                pos,
            ) implies false by {
            assert(keys@.to_set().contains(pos));
            let m = choose|m: int| 0 <= m < keys@.len() && keys@[m] == pos;
            assert(store.ready(keys@[m]));
        }
    }
    false
}

/// Builds the mesh of a loaded chunk; `None` if it is not loaded.
pub fn build_ready_chunk(store: &ChunkStore, pos: IVec3, registry: &BlockRegistry) -> (r: Option<
    MeshBuild,
>)
    requires
        store.registered(*registry),
    ensures
        r is Some == store.chunks@.contains_key(pos),
        r matches Some(mesh) ==> mesh.wf() && mesh@ == store.source(pos, registry).quads(),
{
    match store.chunks.get(pos) {
        None => None,
        Some(chunk) => {
            let neighbors = [
                neighbor_chunk(store, pos, Face::NegX),
                neighbor_chunk(store, pos, Face::PosX),
                neighbor_chunk(store, pos, Face::NegY),
                neighbor_chunk(store, pos, Face::PosY),
                neighbor_chunk(store, pos, Face::NegZ),
                neighbor_chunk(store, pos, Face::PosZ),
            ];
            let light_neighbors = [
                neighbor_light_chunk(store, pos, Face::NegX),
                neighbor_light_chunk(store, pos, Face::PosX),
                neighbor_light_chunk(store, pos, Face::NegY),
                neighbor_light_chunk(store, pos, Face::PosY),
                neighbor_light_chunk(store, pos, Face::NegZ),
                neighbor_light_chunk(store, pos, Face::PosZ),
            ];
            proof {
                lemma_source_registered(*store, pos, registry);
            }
            Some(
                build_chunk_mesh_lit(chunk, neighbors, registry, store.light.get(pos), light_neighbors),
            )
        },
    }
}

/// Where all blocks of the store are registered, so are those that a mesh of
/// it looks at.
proof fn lemma_source_registered(store: ChunkStore, pos: IVec3, registry: &BlockRegistry)
    requires
        store.registered(*registry),
        store.chunks@.contains_key(pos),
    ensures
        store.source(pos, registry).registered(),
{
    let source = store.source(pos, registry);
    assert forall|p: IVec3| reachable(p) implies registry.has(#[trigger] source.block_at(p)) by {
        assert(p.local_of().in_chunk());
        match beyond(p) {
            None => {
                assert(registry.has(store.chunks@[pos].block(p.local_of())));
            },
            Some(side) => {
                assert(source.neighbors@[side.number()] == store.neighbor(pos, side));
                let d = side.spec_normal();
                if store.neighbor(pos, side) is Some {
                    assert(registry.has(store.chunks@[pos.shifted(d)].block(p.local_of())));
                }
            },
        }
    }
}

/// What is to be done with the entity of a meshed chunk.
#[derive(Debug)]
pub enum MeshAction {
    /// The mesh became empty: remove the entity.
    Despawn { pos: IVec3, entity: u64 },
    /// Put a new mesh in place of the old one.
    Replace { pos: IVec3, entity: u64, mesh: MeshBuild },
    /// Spawn an entity, to be recorded in the store.
    Spawn { pos: IVec3, mesh: MeshBuild },
}

/// A [`MeshAction`] with the mesh as its quads.
pub enum MeshStep {
    Despawn { pos: IVec3, entity: u64 },
    Replace { pos: IVec3, entity: u64, quads: Seq<Quad> },
    Spawn { pos: IVec3, quads: Seq<Quad> },
}

impl View for MeshAction {
    type V = MeshStep;

    open spec fn view(&self) -> MeshStep {
        match *self {
            MeshAction::Despawn { pos, entity } => MeshStep::Despawn { pos, entity },
            MeshAction::Replace { pos, entity, mesh } => MeshStep::Replace {
                pos,
                entity,
                quads: mesh@,
            },
            MeshAction::Spawn { pos, mesh } => MeshStep::Spawn { pos, quads: mesh@ },
        }
    }
}

impl MeshAction {
    /// Whether the buffers of the mesh fit together.
    pub open spec fn wf(self) -> bool {
        match self {
            MeshAction::Despawn { .. } => true,
            MeshAction::Replace { mesh, .. } => mesh.wf(),
            MeshAction::Spawn { mesh, .. } => mesh.wf(),
        }
    }
}

impl ChunkStore {
    /// The quads of a loaded chunk's mesh.
    pub open spec fn quads(&self, pos: IVec3, registry: &BlockRegistry) -> Seq<Quad> {
        self.source(pos, registry).quads()
    }

    /// What meshing a changed chunk asks for: its entity, if it has one, gets
    /// the new mesh, or goes where nothing is visible any more.
    pub open spec fn remesh_step(&self, pos: IVec3, registry: &BlockRegistry) -> Seq<MeshStep> {
        let quads = self.quads(pos, registry);
        if self.entities@.contains_key(pos) {
            let entity = self.entities@[pos];
            if quads.len() == 0 {
                seq![MeshStep::Despawn { pos, entity }]
            } else {
                seq![MeshStep::Replace { pos, entity, quads }]
            }
        } else {
            self.fresh_step(pos, registry)
        }
    }

    /// What meshing a new chunk asks for: an entity, where anything is
    /// visible.
    pub open spec fn fresh_step(&self, pos: IVec3, registry: &BlockRegistry) -> Seq<MeshStep> {
        let quads = self.quads(pos, registry);
        if quads.len() == 0 {
            Seq::empty()
        } else {
            seq![MeshStep::Spawn { pos, quads }]
        }
    }

    pub open spec fn remesh_steps(&self, list: Seq<IVec3>, registry: &BlockRegistry) -> Seq<
        MeshStep,
    >
        decreases list.len(),
    {
        if list.len() == 0 {
            Seq::empty()
        } else {
            self.remesh_steps(list.drop_last(), registry) + self.remesh_step(list.last(), registry)
        }
    }

    pub open spec fn fresh_steps(&self, list: Seq<IVec3>, registry: &BlockRegistry) -> Seq<
        MeshStep,
    >
        decreases list.len(),
    {
        if list.len() == 0 {
            Seq::empty()
        } else {
            self.fresh_steps(list.drop_last(), registry) + self.fresh_step(list.last(), registry)
        }
    }

    /// The changed chunks that can be meshed.
    pub open spec fn ready_dirty(&self) -> Set<IVec3> {
        Set::new(|p: IVec3| self.dirty@.contains(p) && self.ready(p))
    }

    /// The chunks that can be meshed and never were.
    pub open spec fn ready_fresh(&self) -> Set<IVec3> {
        Set::new(|p: IVec3| !self.meshed@.contains(p) && self.ready(p))
    }

    /// Whether two stores differ at most in what has been requested.
    pub open spec fn same_content_but_requests(&self, other: &ChunkStore) -> bool {
        &&& self.same_world(*other)
        &&& self.chunks@ == other.chunks@
        &&& self.light@ == other.light@
        &&& self.meshed@ == other.meshed@
        &&& self.entities@ == other.entities@
        &&& self.dirty@ == other.dirty@
    }

    /// Whether two stores hold the same chunks and light.
    pub open spec fn same_content(&self, other: &ChunkStore) -> bool {
        &&& self.same_world(*other)
        &&& self.chunks@ == other.chunks@
        &&& self.light@ == other.light@
        &&& self.requested@ == other.requested@
    }
}

/// What one frame meshes.
#[derive(Debug)]
pub struct MeshPlan {
    /// Changed chunks that were meshed again, nearest first.
    pub remeshed: Vec<IVec3>,
    /// New chunks that were meshed, nearest first.
    pub fresh: Vec<IVec3>,
    /// What is to be done about their entities, in order.
    pub actions: Vec<MeshAction>,
    /// What is left of the frame's budget.
    pub left: usize,
}

/// The actions as steps.
pub open spec fn steps(actions: Seq<MeshAction>) -> Seq<MeshStep> {
    actions.map_values(|a: MeshAction| a@)
}

/// Meshes a changed chunk that is loaded.
pub fn remesh_chunk(store: &mut ChunkStore, registry: &BlockRegistry, pos: IVec3) -> (action: Option<
    MeshAction,
>)
    requires
        old(store).registered(*registry),
        old(store).chunks@.contains_key(pos),
    ensures
        final(store).same_content(old(store)),
        final(store).dirty@ == old(store).dirty@,
        final(store).meshed@ == old(store).meshed@.insert(pos),
        final(store).entities@ == if old(store).quads(pos, registry).len() == 0 {
            old(store).entities@.remove(pos)
        } else {
            old(store).entities@
        },
        old(store).remesh_step(pos, registry) == match action {
            Some(a) => seq![a@],
            None => Seq::empty(),
        },
        action matches Some(a) ==> a.wf(),
{
    let entity = match store.entities.get(pos) {
        Some(entity) => Some(*entity),
        None => None,
    };
    match build_ready_chunk(store, pos, registry) {
        None => None,
        Some(mesh) => {
            store.meshed.insert(pos);
            let empty = mesh.is_empty();
            match entity {
                Some(entity) => {
                    if empty {
                        store.entities.remove(pos);
                        Some(MeshAction::Despawn { pos, entity })
                    } else {
                        Some(MeshAction::Replace { pos, entity, mesh })
                    }
                },
                None => {
                    if empty {
                        assert(store.entities@ =~= old(store).entities@.remove(pos));
                        None
                    } else {
                        Some(MeshAction::Spawn { pos, mesh })
                    }
                },
            }
        },
    }
}

/// Keeps the positions that are ready to be meshed.
fn keep_ready(store: &ChunkStore, list: &Vec<IVec3>, unmeshed_only: bool) -> (kept: Vec<IVec3>)
    requires
        list@.no_duplicates(),
    ensures
        kept@.no_duplicates(),
        forall|p: IVec3| #[trigger]
            kept@.contains(p) <==> list@.contains(p) && store.ready(p) && (unmeshed_only
                ==> !store.meshed@.contains(p)),
{
    let mut kept: Vec<IVec3> = Vec::new();
    let mut n: usize = 0;
    while n < list.len()
        invariant
            n <= list@.len(),
            list@.no_duplicates(),
            kept@.no_duplicates(),
            forall|p: IVec3| #[trigger]
                kept@.contains(p) <==> list@.take(n as int).contains(p) && store.ready(p) && (
                unmeshed_only ==> !store.meshed@.contains(p)),
        decreases list@.len() - n,
    {
        let pos = list[n];
        proof {
            let seen = list@.take(n as int);
            assert(list@.take(n + 1) =~= seen.push(pos));
            assert(!seen.contains(pos));
            crate::lists::lemma_push_contains(seen, pos);
            crate::lists::lemma_push_contains(kept@, pos);
        }
        if is_ready_to_mesh(store, pos) && !(unmeshed_only && store.meshed.contains(pos)) {
            kept.push(pos);
        }
        n += 1;
    }
    assert(list@.take(n as int) =~= list@);
    kept
}

/// The positions whose mesh is empty, among the listed ones.
pub open spec fn emptied(store: ChunkStore, list: Seq<IVec3>, registry: &BlockRegistry) -> Set<
    IVec3,
> {
    Set::new(|p: IVec3| list.contains(p) && store.quads(p, registry).len() == 0)
}

/// The content of a store decides the meshes.
proof fn lemma_same_content_quads(a: &ChunkStore, b: &ChunkStore, pos: IVec3, registry: &BlockRegistry)
    requires
        a.same_content(b),
    ensures
        a.quads(pos, registry) == b.quads(pos, registry),
{
    assert(a.neighbor(pos, Face::NegX) == b.neighbor(pos, Face::NegX));
    assert(a.neighbor_light(pos, Face::NegX) == b.neighbor_light(pos, Face::NegX));
}

proof fn lemma_same_content_fresh_steps(
    a: &ChunkStore,
    b: &ChunkStore,
    list: Seq<IVec3>,
    registry: &BlockRegistry,
)
    requires
        a.same_content(b),
    ensures
        a.fresh_steps(list, registry) == b.fresh_steps(list, registry),
    decreases list.len(),
{
    if list.len() > 0 {
        lemma_same_content_fresh_steps(a, b, list.drop_last(), registry);
        lemma_same_content_quads(a, b, list.last(), registry);
    }
}

/// Meshes changed chunks and takes them off the list of changed ones.
fn remesh_all(
    store: &mut ChunkStore,
    registry: &BlockRegistry,
    list: &Vec<IVec3>,
    actions: &mut Vec<MeshAction>,
)
    requires
        old(store).registered(*registry),
        list@.no_duplicates(),
        forall|n: int| 0 <= n < list@.len() ==> old(store).chunks@.contains_key(#[trigger] list@[n]),
        old(actions)@.len() == 0,
    ensures
        final(store).same_content(old(store)),
        final(store).dirty@ == old(store).dirty@.difference(list@.to_set()),
        final(store).meshed@ == old(store).meshed@.union(list@.to_set()),
        final(store).entities@ == old(store).entities@.remove_keys(
            emptied(*old(store), list@, registry),
        ),
        steps(final(actions)@) == old(store).remesh_steps(list@, registry),
        forall|n: int| 0 <= n < final(actions)@.len() ==> (#[trigger] final(actions)@[n]).wf(),
{
    let ghost before = *store;
    let mut n: usize = 0;
    proof {
        let none = list@.take(0);
        assert(store.dirty@ =~= before.dirty@.difference(none.to_set()));
        assert(store.meshed@ =~= before.meshed@.union(none.to_set()));
        assert(store.entities@ =~= before.entities@.remove_keys(emptied(before, none, registry)));
        assert(steps(actions@) =~= before.remesh_steps(none, registry));
    }
    while n < list.len()
        invariant
            n <= list@.len(),
            before.registered(*registry),
            list@.no_duplicates(),
            forall|m: int| 0 <= m < list@.len() ==> before.chunks@.contains_key(#[trigger] list@[m]),
            store.same_content(&before),
            store.dirty@ == before.dirty@.difference(list@.take(n as int).to_set()),
            store.meshed@ == before.meshed@.union(list@.take(n as int).to_set()),
            store.entities@ == before.entities@.remove_keys(
                emptied(before, list@.take(n as int), registry),
            ),
            steps(actions@) == before.remesh_steps(list@.take(n as int), registry),
            forall|m: int| 0 <= m < actions@.len() ==> (#[trigger] actions@[m]).wf(),
        decreases list@.len() - n,
    {
        let pos = list[n];
        let ghost seen = list@.take(n as int);
        let ghost upto = list@.take(n + 1);
        let ghost now = *store;
        proof {
            assert(upto =~= seen.push(pos));
            assert(upto.drop_last() =~= seen);
            assert(!seen.contains(pos));
            crate::lists::lemma_push_contains(seen, pos);
            lemma_same_content_quads(&now, &before, pos, registry);
            assert(now.entities@.contains_key(pos) == before.entities@.contains_key(pos));
            assert(now.remesh_step(pos, registry) == before.remesh_step(pos, registry));
        }
        store.dirty.remove(pos);
        proof {
            lemma_same_content_quads(&*store, &before, pos, registry);
            assert(store.remesh_step(pos, registry) == before.remesh_step(pos, registry));
        }
        let action = remesh_chunk(store, registry, pos);
        let ghost so_far = actions@;
        match action {
            Some(a) => {
                actions.push(a);
                assert(steps(actions@) =~= steps(so_far) + seq![a@]);
            },
            None => {},
        }
        proof {
            assert(steps(actions@) =~= before.remesh_steps(upto, registry));
            assert(store.dirty@ =~= before.dirty@.difference(upto.to_set()));
            assert(store.meshed@ =~= before.meshed@.union(upto.to_set()));
            assert(store.entities@ =~= before.entities@.remove_keys(emptied(before, upto, registry)));
        }
        n += 1;
    }
    assert(list@.take(n as int) =~= list@);
}

/// Meshes new chunks.
fn mesh_all_fresh(
    store: &mut ChunkStore,
    registry: &BlockRegistry,
    list: &Vec<IVec3>,
    actions: &mut Vec<MeshAction>,
)
    requires
        old(store).registered(*registry),
        forall|n: int| 0 <= n < list@.len() ==> old(store).chunks@.contains_key(#[trigger] list@[n]),
        forall|n: int| 0 <= n < old(actions)@.len() ==> (#[trigger] old(actions)@[n]).wf(),
    ensures
        final(store).same_content(old(store)),
        final(store).dirty@ == old(store).dirty@,
        final(store).meshed@ == old(store).meshed@.union(list@.to_set()),
        final(store).entities@ == old(store).entities@,
        steps(final(actions)@) == steps(old(actions)@) + old(store).fresh_steps(list@, registry),
        forall|n: int| 0 <= n < final(actions)@.len() ==> (#[trigger] final(actions)@[n]).wf(),
{
    let ghost before = *store;
    let ghost first = actions@;
    let mut n: usize = 0;
    proof {
        let none = list@.take(0);
        assert(store.meshed@ =~= before.meshed@.union(none.to_set()));
        assert(steps(actions@) =~= steps(first) + before.fresh_steps(none, registry));
    }
    while n < list.len()
        invariant
            n <= list@.len(),
            before.registered(*registry),
            forall|m: int| 0 <= m < list@.len() ==> before.chunks@.contains_key(#[trigger] list@[m]),
            store.same_content(&before),
            store.dirty@ == before.dirty@,
            store.meshed@ == before.meshed@.union(list@.take(n as int).to_set()),
            store.entities@ == before.entities@,
            steps(actions@) == steps(first) + before.fresh_steps(list@.take(n as int), registry),
            forall|m: int| 0 <= m < actions@.len() ==> (#[trigger] actions@[m]).wf(),
        decreases list@.len() - n,
    {
        let pos = list[n];
        let ghost seen = list@.take(n as int);
        let ghost upto = list@.take(n + 1);
        let ghost so_far = actions@;
        proof {
            assert(upto =~= seen.push(pos));
            assert(upto.drop_last() =~= seen);
            crate::lists::lemma_push_contains(seen, pos);
            lemma_same_content_quads(&*store, &before, pos, registry);
        }
        match build_ready_chunk(store, pos, registry) {
            Some(mesh) => {
                if !mesh.is_empty() {
                    let ghost quads = mesh@;
                    actions.push(MeshAction::Spawn { pos, mesh });
                    assert(steps(actions@) =~= steps(so_far) + seq![MeshStep::Spawn { pos, quads }]);
                }
            },
            None => {},
        }
        store.meshed.insert(pos);
        proof {
            assert(steps(actions@) =~= steps(first) + before.fresh_steps(upto, registry));
            assert(store.meshed@ =~= before.meshed@.union(upto.to_set()));
        }
        n += 1;
    }
    assert(list@.take(n as int) =~= list@);
}

/// Meshes what one frame's budget allows: changed chunks first, then new
/// ones, each nearest to the camera's chunk first. Returns what is to be done
/// about the entities and how much of the budget is left.
pub fn mesh_ready_chunks(store: &mut ChunkStore, registry: &BlockRegistry, cam_chunk: IVec3) -> (plan:
    MeshPlan)
    requires
        old(store).registered(*registry),
    ensures
        is_nearest(plan.remeshed@, old(store).ready_dirty(), cam_chunk, 12),
        is_nearest(
            plan.fresh@,
            old(store).ready_fresh().difference(plan.remeshed@.to_set()),
            cam_chunk,
            12 - plan.remeshed@.len(),
        ),
        plan.left + plan.remeshed@.len() + plan.fresh@.len() == 12,
        steps(plan.actions@) == old(store).remesh_steps(plan.remeshed@, registry) + old(
            store).fresh_steps(plan.fresh@, registry),
        forall|n: int| 0 <= n < plan.actions@.len() ==> (#[trigger] plan.actions@[n]).wf(),
        final(store).same_content(old(store)),
        final(store).dirty@ == old(store).dirty@.difference(plan.remeshed@.to_set()),
        final(store).meshed@ == old(store).meshed@.union(plan.remeshed@.to_set()).union(
            plan.fresh@.to_set(),
        ),
        final(store).entities@ == old(store).entities@.remove_keys(
            emptied(*old(store), plan.remeshed@, registry),
        ),
{
    let ghost before = *store;
    let dirty = store.dirty.to_vec();
    let ready = keep_ready(store, &dirty, false);
    assert(ready@.to_set() =~= before.ready_dirty()) by {
        assert forall|p: IVec3| before.ready_dirty().contains(p) implies ready@.to_set().contains(
            p,
        ) by {
            assert(dirty@.to_set().contains(p));
        }
        assert forall|p: IVec3| ready@.to_set().contains(p) implies before.ready_dirty().contains(
            p,
        ) by {
            assert(dirty@.to_set().contains(p));
        }
    }
    let remeshed = nearest(&ready, cam_chunk, MESH_BUDGET_PER_FRAME);
    let mut actions: Vec<MeshAction> = Vec::new();
    remesh_all(store, registry, &remeshed, &mut actions);
    let budget: usize = MESH_BUDGET_PER_FRAME - remeshed.len();
    let loaded = store.chunks.keys();
    let unmeshed = keep_ready(store, &loaded, true);
    proof {
        assert forall|p: IVec3| #[trigger] store.ready(p) == before.ready(p) by {
            assert forall|side: Face| #[trigger]
                store.neighbor_arrived(p, side) == before.neighbor_arrived(p, side) by {}
            assert(before.ready(p) ==> forall|side: Face| #[trigger]
                before.neighbor_arrived(p, side));
            if before.ready(p) {
                assert forall|side: Face| #[trigger] store.neighbor_arrived(p, side) by {
                    assert(before.neighbor_arrived(p, side));
                }
            }
            if store.ready(p) {
                assert forall|side: Face| #[trigger] before.neighbor_arrived(p, side) by {
                    assert(store.neighbor_arrived(p, side));
                }
            }
        }
        assert forall|p: IVec3| unmeshed@.to_set().contains(p) == before.ready_fresh().difference(
            remeshed@.to_set(),
        ).contains(p) by {
            assert(loaded@.to_set().contains(p) == store.chunks@.contains_key(p));
        }
        assert(unmeshed@.to_set() =~= before.ready_fresh().difference(remeshed@.to_set()));
    }
    let fresh = nearest(&unmeshed, cam_chunk, budget);
    proof {
        lemma_same_content_fresh_steps(&*store, &before, fresh@, registry);
    }
    mesh_all_fresh(store, registry, &fresh, &mut actions);
    let left: usize = budget - fresh.len();
    assert(store.dirty@ =~= before.dirty@.difference(remeshed@.to_set()));
    assert(steps(actions@) =~= before.remesh_steps(remeshed@, registry) + before.fresh_steps(
        fresh@,
        registry,
    ));
    MeshPlan { remeshed, fresh, actions, left }
}

/// Whether a chunk is too far from the camera's chunk to be kept, measured
/// horizontally.
pub open spec fn too_far(pos: IVec3, cam_chunk: IVec3, view_distance_chunks: int) -> bool {
    let dx = pos.x - cam_chunk.x;
    let dz = pos.z - cam_chunk.z;
    let radius = view_distance_chunks + 2;
    dx * dx + dz * dz > radius * radius
}

fn is_too_far(pos: IVec3, cam_chunk: IVec3, view_distance_chunks: i32) -> (b: bool)
    ensures
        b == too_far(pos, cam_chunk, view_distance_chunks as int),
{
    let dx: i64 = pos.x as i64 - cam_chunk.x as i64;
    let dz: i64 = pos.z as i64 - cam_chunk.z as i64;
    let radius: i64 = view_distance_chunks as i64 + DESPAWN_MARGIN_CHUNKS as i64;
    square(dx) + square(dz) > square(radius)
}

/// What is kept is near along both horizontal axes: no farther than the view
/// distance and two chunks more along either. The two axes count alike, the
/// height does not count, nor does the direction, and what is no farther than
/// that along both axes together is kept.
pub proof fn law_far_chunks_are_far(pos: IVec3, cam_chunk: IVec3, vd_chunks: int, y: i32)
    requires
        0 <= vd_chunks,
    ensures
        !too_far(pos, cam_chunk, vd_chunks) ==> {
            &&& -(vd_chunks + 2) <= pos.x - cam_chunk.x <= vd_chunks + 2
            &&& -(vd_chunks + 2) <= pos.z - cam_chunk.z <= vd_chunks + 2
        },
        pos.x - cam_chunk.x == vd_chunks + 2 && pos.z == cam_chunk.z ==> !too_far(
            pos,
            cam_chunk,
            vd_chunks,
        ),
        ({
            let dx = pos.x - cam_chunk.x;
            let dz = pos.z - cam_chunk.z;
            (if dx < 0 {
                -dx
            } else {
                dx
            }) + (if dz < 0 {
                -dz
            } else {
                dz
            }) <= vd_chunks + 2
        }) ==> !too_far(pos, cam_chunk, vd_chunks),
        too_far(pos, cam_chunk, vd_chunks) == too_far(
            IVec3 { x: pos.z, y: pos.y, z: pos.x },
            IVec3 { x: cam_chunk.z, y: cam_chunk.y, z: cam_chunk.x },
            vd_chunks,
        ),
        too_far(pos, cam_chunk, vd_chunks) == too_far(IVec3 { y, ..pos }, cam_chunk, vd_chunks),
        too_far(pos, cam_chunk, vd_chunks) == too_far(cam_chunk, pos, vd_chunks),
{
    let dx = pos.x - cam_chunk.x;
    let dz = pos.z - cam_chunk.z;
    let r = vd_chunks + 2;
    assert(dx * dx >= 0 && dz * dz >= 0) by (nonlinear_arith);
    assert(dx * dx == (-dx) * (-dx) && dz * dz == (-dz) * (-dz)) by (nonlinear_arith);
    if dx * dx + dz * dz <= r * r {
        assert(-r <= dx <= r) by (nonlinear_arith)
            requires
                dx * dx <= r * r,
                0 <= r,
        ;
        assert(-r <= dz <= r) by (nonlinear_arith)
            requires
                dz * dz <= r * r,
                0 <= r,
        ;
    }
    let a = if dx < 0 {
        -dx
    } else {
        dx
    };
    let b = if dz < 0 {
        -dz
    } else {
        dz
    };
    if a + b <= r {
        assert(a * a + b * b <= r * r) by (nonlinear_arith)
            requires
                0 <= a,
                0 <= b,
                a + b <= r,
        ;
    }
}

/// Positions that left the store, and the entities they had.
#[derive(Debug)]
pub struct Removed {
    pub positions: Vec<IVec3>,
    pub entities: Vec<u64>,
}

/// The entities of the listed positions, in order.
pub open spec fn entities_of(entities: Map<IVec3, u64>, list: Seq<IVec3>) -> Seq<u64>
    decreases list.len(),
{
    if list.len() == 0 {
        Seq::empty()
    } else if entities.contains_key(list.last()) {
        entities_of(entities, list.drop_last()).push(entities[list.last()])
    } else {
        entities_of(entities, list.drop_last())
    }
}

/// Forgets everything about a chunk but its entity. It can be requested
/// again afterwards.
pub fn forget_chunk(store: &mut ChunkStore, pos: IVec3)
    ensures
        final(store).same_world(*old(store)),
        final(store).chunks@ == old(store).chunks@.remove(pos),
        final(store).light@ == old(store).light@.remove(pos),
        final(store).requested@ == old(store).requested@.remove(pos),
        final(store).meshed@ == old(store).meshed@.remove(pos),
        final(store).dirty@ == old(store).dirty@.remove(pos),
        final(store).entities@ == old(store).entities@,
{
    store.chunks.remove(pos);
    store.light.remove(pos);
    store.requested.remove(pos);
    store.meshed.remove(pos);
    store.dirty.remove(pos);
}

/// Forgets every chunk that is too far away, and returns what was removed.
pub fn despawn_far_chunks(store: &mut ChunkStore, cam_chunk: IVec3, view_distance_chunks: i32) -> (removed:
    Removed)
    ensures
        removed.positions@.no_duplicates(),
        removed.positions@.to_set() == old(store).chunks@.dom().filter(
            |p: IVec3| too_far(p, cam_chunk, view_distance_chunks as int),
        ),
        removed.entities@ == entities_of(old(store).entities@, removed.positions@),
        final(store).same_world(*old(store)),
        final(store).chunks@ == old(store).chunks@.remove_keys(removed.positions@.to_set()),
        final(store).light@ == old(store).light@.remove_keys(removed.positions@.to_set()),
        final(store).entities@ == old(store).entities@.remove_keys(removed.positions@.to_set()),
        final(store).requested@ == old(store).requested@.difference(removed.positions@.to_set()),
        final(store).meshed@ == old(store).meshed@.difference(removed.positions@.to_set()),
        final(store).dirty@ == old(store).dirty@.difference(removed.positions@.to_set()),
        0 <= view_distance_chunks ==> forall|p: IVec3| #[trigger]
            final(store).chunks@.contains_key(p) ==> {
                &&& -(view_distance_chunks + 2) <= p.x - cam_chunk.x <= view_distance_chunks + 2
                &&& -(view_distance_chunks + 2) <= p.z - cam_chunk.z <= view_distance_chunks + 2
            },
        forall|p: IVec3| #[trigger]
            old(store).chunks@.contains_key(p) ==> (final(store).chunks@.contains_key(p) <==> (p.x
                - cam_chunk.x) * (p.x - cam_chunk.x) + (p.z - cam_chunk.z) * (p.z - cam_chunk.z) <= (
            view_distance_chunks + 2) * (view_distance_chunks + 2)),
{
    let ghost before = *store;
    let loaded = store.chunks.keys();
    let mut positions: Vec<IVec3> = Vec::new();
    let mut entities: Vec<u64> = Vec::new();
    let mut n: usize = 0;
    proof {
        let none = Seq::<IVec3>::empty();
        assert(store.chunks@ =~= before.chunks@.remove_keys(none.to_set()));
        assert(store.light@ =~= before.light@.remove_keys(none.to_set()));
        assert(store.entities@ =~= before.entities@.remove_keys(none.to_set()));
        assert(store.requested@ =~= before.requested@.difference(none.to_set()));
        assert(store.meshed@ =~= before.meshed@.difference(none.to_set()));
        assert(store.dirty@ =~= before.dirty@.difference(none.to_set()));
        assert(positions@ =~= none);
    }
    while n < loaded.len()
        invariant
            n <= loaded@.len(),
            loaded@.no_duplicates(),
            positions@.no_duplicates(),
            forall|p: IVec3| #[trigger]
                positions@.contains(p) <==> loaded@.take(n as int).contains(p) && too_far(
                    p,
                    cam_chunk,
                    view_distance_chunks as int,
                ),
            entities@ == entities_of(before.entities@, positions@),
            store.same_world(before),
            store.chunks@ == before.chunks@.remove_keys(positions@.to_set()),
            store.light@ == before.light@.remove_keys(positions@.to_set()),
            store.entities@ == before.entities@.remove_keys(positions@.to_set()),
            store.requested@ == before.requested@.difference(positions@.to_set()),
            store.meshed@ == before.meshed@.difference(positions@.to_set()),
            store.dirty@ == before.dirty@.difference(positions@.to_set()),
        decreases loaded@.len() - n,
    {
        let pos = loaded[n];
        let ghost listed = positions@;
        proof {
            let seen = loaded@.take(n as int);
            assert(loaded@.take(n + 1) =~= seen.push(pos));
            assert(!seen.contains(pos));
            crate::lists::lemma_push_contains(seen, pos);
            crate::lists::lemma_push_contains(listed, pos);
        }
        if is_too_far(pos, cam_chunk, view_distance_chunks) {
            match store.entities.remove(pos) {
                Some(entity) => {
                    entities.push(entity);
                },
                None => {},
            }
            forget_chunk(store, pos);
            positions.push(pos);
            proof {
                assert(positions@.drop_last() =~= listed);
                let gone = positions@.to_set();
                assert(store.chunks@ =~= before.chunks@.remove_keys(gone));
                assert(store.light@ =~= before.light@.remove_keys(gone));
                assert(store.entities@ =~= before.entities@.remove_keys(gone));
                assert(store.requested@ =~= before.requested@.difference(gone));
                assert(store.meshed@ =~= before.meshed@.difference(gone));
                assert(store.dirty@ =~= before.dirty@.difference(gone));
            }
        }
        n += 1;
    }
    proof {
        assert(loaded@.take(n as int) =~= loaded@);
        let far = before.chunks@.dom().filter(
            |p: IVec3| too_far(p, cam_chunk, view_distance_chunks as int),
        );
        assert forall|p: IVec3| positions@.to_set().contains(p) == far.contains(p) by {
            assert(loaded@.to_set().contains(p) == before.chunks@.dom().contains(p));
        }
        assert(positions@.to_set() =~= far);
        assert forall|p: IVec3| 0 <= view_distance_chunks && #[trigger] store.chunks@.contains_key(
            p,
        ) implies -(view_distance_chunks + 2) <= p.x - cam_chunk.x <= view_distance_chunks + 2
            && -(view_distance_chunks + 2) <= p.z - cam_chunk.z <= view_distance_chunks + 2 by {
            law_far_chunks_are_far(p, cam_chunk, view_distance_chunks as int, 0);
        }
    }
    Removed { positions, entities }
}

/// Empties the store at the end of a session and returns every entity.
pub fn clear_chunks(store: &mut ChunkStore) -> (removed: Removed)
    ensures
        final(store).is_clear(),
        final(store).same_world(*old(store)),
        removed.positions@.no_duplicates(),
        removed.positions@.to_set() == old(store).entities@.dom(),
        removed.entities@ == entities_of(old(store).entities@, removed.positions@),
{
    let positions = store.entities.keys();
    let mut entities: Vec<u64> = Vec::new();
    let mut n: usize = 0;
    while n < positions.len()
        invariant
            n <= positions@.len(),
            positions@.to_set() == store.entities@.dom(),
            entities@ == entities_of(store.entities@, positions@.take(n as int)),
        decreases positions@.len() - n,
    {
        assert(positions@.take(n + 1).drop_last() =~= positions@.take(n as int));
        assert(positions@.to_set().contains(positions@[n as int]));
        match store.entities.get(positions[n]) {
            Some(entity) => {
                entities.push(*entity);
            },
            None => {},
        }
        n += 1;
    }
    assert(positions@.take(n as int) =~= positions@);
    store.chunks.clear();
    store.light.clear();
    store.requested.clear();
    store.meshed.clear();
    store.entities.clear();
    store.dirty.clear();
    Removed { positions, entities }
}

/// The chunks whose mesh depends on a block are those that hold the block or
/// one of the six blocks next to it.
pub proof fn law_dependents(pos: IVec3, c: IVec3)
    requires
        i32::MIN < pos.x < i32::MAX,
        i32::MIN < pos.y < i32::MAX,
        i32::MIN < pos.z < i32::MAX,
    ensures
        dependents(pos).contains(c) <==> c == pos.chunk_of() || exists|q: IVec3|
            adjacent(pos, q) && #[trigger] q.chunk_of() == c,
{
    let d = dependents(pos);
    let own = pos.chunk_of();
    let l = pos.local_of();
    let minus_x = IVec3 { x: (pos.x - 1) as i32, ..pos };
    let plus_x = IVec3 { x: (pos.x + 1) as i32, ..pos };
    let minus_y = IVec3 { y: (pos.y - 1) as i32, ..pos };
    let plus_y = IVec3 { y: (pos.y + 1) as i32, ..pos };
    let minus_z = IVec3 { z: (pos.z - 1) as i32, ..pos };
    let plus_z = IVec3 { z: (pos.z + 1) as i32, ..pos };
    lemma_dependents_contains(pos, c);
    if l.x == 0 {
        assert(minus_x.chunk_of() == own.shifted(Face::NegX.spec_normal()));
    }
    if l.x == 31 {
        assert(plus_x.chunk_of() == own.shifted(Face::PosX.spec_normal()));
    }
    if l.y == 0 {
        assert(minus_y.chunk_of() == own.shifted(Face::NegY.spec_normal()));
    }
    if l.y == 31 {
        assert(plus_y.chunk_of() == own.shifted(Face::PosY.spec_normal()));
    }
    if l.z == 0 {
        assert(minus_z.chunk_of() == own.shifted(Face::NegZ.spec_normal()));
    }
    if l.z == 31 {
        assert(plus_z.chunk_of() == own.shifted(Face::PosZ.spec_normal()));
    }
    if exists|q: IVec3| adjacent(pos, q) && #[trigger] q.chunk_of() == c {
        let q = choose|q: IVec3| adjacent(pos, q) && #[trigger] q.chunk_of() == c;
        assert(q == minus_x || q == plus_x || q == minus_y || q == plus_y || q == minus_z || q
            == plus_z);
    }
}

/// The members of [`dependents`], side by side.
proof fn lemma_dependents_contains(pos: IVec3, c: IVec3)
    ensures
        dependents(pos).contains(c) <==> {
            let own = pos.chunk_of();
            let l = pos.local_of();
            ||| c == own
            ||| l.x == 0 && c == own.shifted(Face::NegX.spec_normal())
            ||| l.x == 31 && c == own.shifted(Face::PosX.spec_normal())
            ||| l.y == 0 && c == own.shifted(Face::NegY.spec_normal())
            ||| l.y == 31 && c == own.shifted(Face::PosY.spec_normal())
            ||| l.z == 0 && c == own.shifted(Face::NegZ.spec_normal())
            ||| l.z == 31 && c == own.shifted(Face::PosZ.spec_normal())
        },
{
    let own = pos.chunk_of();
    let l = pos.local_of();
    let s0 = seq![own];
    let s1 = s0 + side_if(own, l.x == 0, Face::NegX);
    let s2 = s1 + side_if(own, l.x == 31, Face::PosX);
    let s3 = s2 + side_if(own, l.y == 0, Face::NegY);
    let s4 = s3 + side_if(own, l.y == 31, Face::PosY);
    let s5 = s4 + side_if(own, l.z == 0, Face::NegZ);
    assert(s0[0] == own);
    assert(s0.contains(c) <==> c == own);
    lemma_side_if_contains(s0, own, l.x == 0, Face::NegX, c);
    lemma_side_if_contains(s1, own, l.x == 31, Face::PosX, c);
    lemma_side_if_contains(s2, own, l.y == 0, Face::NegY, c);
    lemma_side_if_contains(s3, own, l.y == 31, Face::PosY, c);
    lemma_side_if_contains(s4, own, l.z == 0, Face::NegZ, c);
    lemma_side_if_contains(s5, own, l.z == 31, Face::PosZ, c);
}

proof fn lemma_side_if_contains(s: Seq<IVec3>, own: IVec3, borders: bool, side: Face, c: IVec3)
    ensures
        (s + side_if(own, borders, side)).contains(c) <==> s.contains(c) || borders && c
            == own.shifted(side.spec_normal()),
{
    let t = s + side_if(own, borders, side);
    if borders {
        assert(t =~= s.push(own.shifted(side.spec_normal())));
        crate::lists::lemma_push_contains(s, own.shifted(side.spec_normal()));
    } else {
        assert(t =~= s);
    }
}

/// Changing a block leaves the mesh of every chunk as it was that the change
/// does not mark as dirty.
pub proof fn law_unmarked_meshes_stay(
    before: ChunkStore,
    after: ChunkStore,
    pos: IVec3,
    block: BlockId,
    c: IVec3,
    registry: BlockRegistry,
)
    requires
        edited(before, after, pos, block),
        before.chunks@.contains_key(c),
        !dependents(pos).contains(c),
    ensures
        after.quads(c, &registry) == before.quads(c, &registry),
{
    let a = after.source(c, &registry);
    let b = before.source(c, &registry);
    let own = pos.chunk_of();
    lemma_dependents_contains(pos, c);
    assert forall|p: IVec3| reachable(p) implies #[trigger] a.block_at(p) == b.block_at(p) by {
        let l = p.local_of();
        assert(l.in_chunk());
        match beyond(p) {
            None => {},
            Some(side) => {
                let d = side.spec_normal();
                assert(a.neighbors@[side.number()] == after.neighbor(c, side));
                assert(b.neighbors@[side.number()] == before.neighbor(c, side));
                if before.neighbor(c, side) is Some && c.shifted(d) == own {
                    // The block lies on the far side of its chunk, or `c`
                    // would have been marked.
                    assert(l != pos.local_of()) by {
                        if l == pos.local_of() {
                            match side {
                                Face::NegX => {
                                    assert(c == own.shifted(Face::PosX.spec_normal()));
                                },
                                Face::PosX => {
                                    assert(c == own.shifted(Face::NegX.spec_normal()));
                                },
                                Face::NegY => {
                                    assert(c == own.shifted(Face::PosY.spec_normal()));
                                },
                                Face::PosY => {
                                    assert(c == own.shifted(Face::NegY.spec_normal()));
                                },
                                Face::NegZ => {
                                    assert(c == own.shifted(Face::PosZ.spec_normal()));
                                },
                                Face::PosZ => {
                                    assert(c == own.shifted(Face::NegZ.spec_normal()));
                                },
                            }
                        }
                    }
                }
            },
        }
    }
    assert forall|p: IVec3| reachable(p) implies #[trigger] a.light_at(p) == b.light_at(p) by {
        match beyond(p) {
            None => {},
            Some(side) => {
                assert(a.light_neighbors@[side.number()] == after.neighbor_light(c, side));
                assert(b.light_neighbors@[side.number()] == before.neighbor_light(c, side));
            },
        }
    }
    law_mesh_depends_on(a, b);
}

/// Above the highest layer of the world every face is in full daylight.
pub proof fn law_top_faces_see_the_sky(store: ChunkStore, pos: IVec3, p: IVec3, registry: BlockRegistry)
    requires
        store.wf(),
        pos.y == store.height_chunks - 1,
        store.light@.contains_key(pos),
        reachable(p),
        p.y == 32,
    ensures
        store.source(pos, &registry).light_at(p) == crate::chunk::daylight(),
{
    assert(beyond(p) == Some(Face::PosY));
    let source = store.source(pos, &registry);
    assert(source.light_neighbors@[3] == store.neighbor_light(pos, Face::PosY));
}

/// Two positions are adjacent when they differ by one in a single coordinate.
pub proof fn law_adjacent_is_one_step(a: IVec3, b: IVec3)
    ensures
        adjacent(a, b) <==> {
            let dx = if a.x < b.x { b.x - a.x } else { a.x - b.x };
            let dy = if a.y < b.y { b.y - a.y } else { a.y - b.y };
            let dz = if a.z < b.z { b.z - a.z } else { a.z - b.z };
            dx + dy + dz == 1
        },
{
}

} // verus!
