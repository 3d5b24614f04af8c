//! The chunks around the camera, told by positions and blocks alone: what is
//! asked for first, what can be meshed, and what a mesh takes from its
//! neighbours.

use crate::blocks::BlockRegistry;
use crate::chunk::{BlockId, LightValue, Rgb};
use crate::geometry::{law_split_recombines, IVec3, UVec3};
use crate::lod_view::{
    by_level, distance_by, on_level, order_by, LodDistance, LodStep, LodStore,
};
use crate::mesh::Face;
use crate::nearest::{first_of, from_center, is_least, is_nearest, keyed};
use crate::packed::LodPos;
use crate::seen::block_in_front;
use crate::session::{law_requests_are_nearest, missing_chunks, radius_ok};
use crate::view::{emptied, entities_of, ChunkStore, MeshStep};
use vstd::prelude::*;

verus! {

/// The square of the distance between two positions.
pub open spec fn apart(a: IVec3, b: IVec3) -> int {
    (a.x - b.x) * (a.x - b.x) + (a.y - b.y) * (a.y - b.y) + (a.z - b.z) * (a.z - b.z)
}

/// What is nearest comes first, no position twice and no more than allowed,
/// and a member of the set is left out only for others that are no farther.
pub proof fn law_nearest_comes_first(chosen: Seq<IVec3>, set: Set<IVec3>, center: IVec3, k: int)
    requires
        is_nearest(chosen, set, center, k),
    ensures
        chosen.no_duplicates(),
        chosen.len() <= k,
        forall|i: int| 0 <= i < chosen.len() ==> set.contains(#[trigger] chosen[i]),
        forall|i: int, j: int|
            0 <= i <= j < chosen.len() ==> apart(#[trigger] chosen[i], center) <= apart(
                #[trigger] chosen[j],
                center,
            ),
        forall|p: IVec3, i: int|
            #[trigger] set.contains(p) && !chosen.contains(p) && 0 <= i < chosen.len() ==> chosen.len()
                == k && apart(#[trigger] chosen[i], center) <= apart(p, center),
        forall|p: IVec3| #[trigger] set.contains(p) && !chosen.contains(p) ==> chosen.len() == k,
{
    let key = from_center(center);
    assert forall|p: IVec3| #[trigger] key(p) == apart(p, center) by {}
    assert forall|i: int, j: int| 0 <= i <= j < chosen.len() implies apart(
        #[trigger] chosen[i],
        center,
    ) <= apart(#[trigger] chosen[j], center) by {
        assert(key(chosen[i]) <= key(chosen[j]));
    }
    assert forall|p: IVec3, i: int|
        #[trigger] set.contains(p) && !chosen.contains(p) && 0 <= i < chosen.len() implies chosen.len()
        == k && apart(#[trigger] chosen[i], center) <= apart(p, center) by {
        assert(key(chosen[i]) <= key(p));
    }
}

/// A chunk is asked for exactly where it is part of the world, within the view
/// distance of the camera over both horizontal axes, and neither loaded nor
/// asked for yet, unless 64 others that are no farther come before it. None
/// is asked for twice.
pub proof fn law_missing_chunks_are_asked_for(
    store: ChunkStore,
    cam_chunk: IVec3,
    radius: i32,
    p: IVec3,
)
    requires
        radius_ok(cam_chunk, radius),
    ensures
        ({
            let asked = first_of(
                keyed(missing_chunks(store, cam_chunk, radius as int), from_center(cam_chunk)),
                64,
            );
            let missing = {
                &&& 0 <= p.y < store.height_chunks
                &&& (p.x - cam_chunk.x) * (p.x - cam_chunk.x) + (p.z - cam_chunk.z) * (p.z
                    - cam_chunk.z) <= radius * radius
                &&& !store.chunks@.contains_key(p)
                &&& !store.requested@.contains(p)
            };
            &&& asked.no_duplicates()
            &&& asked.len() <= 64
            &&& asked.contains(p) ==> missing
            &&& missing && !asked.contains(p) ==> asked.len() == 64 && forall|i: int|
                0 <= i < 64 ==> apart(#[trigger] asked[i], cam_chunk) <= apart(p, cam_chunk)
            &&& forall|i: int, j: int|
                0 <= i <= j < asked.len() ==> apart(#[trigger] asked[i], cam_chunk) <= apart(
                    #[trigger] asked[j],
                    cam_chunk,
                )
        }),
{
    law_requests_are_nearest(store, cam_chunk, radius);
    let asked = first_of(
        keyed(missing_chunks(store, cam_chunk, radius as int), from_center(cam_chunk)),
        64,
    );
    let set = Set::new(
        |q: IVec3|
            store.layer_exists(q.y as int) && crate::session::to_request(
                store,
                cam_chunk,
                radius as int,
                q,
            ),
    );
    law_nearest_comes_first(asked, set, cam_chunk, 64);
    if asked.contains(p) {
        let i = choose|i: int| 0 <= i < asked.len() && asked[i] == p;
        assert(set.contains(asked[i]));
    }
    let missing = {
        &&& 0 <= p.y < store.height_chunks
        &&& (p.x - cam_chunk.x) * (p.x - cam_chunk.x) + (p.z - cam_chunk.z) * (p.z - cam_chunk.z)
            <= radius * radius
        &&& !store.chunks@.contains_key(p)
        &&& !store.requested@.contains(p)
    };
    if missing {
        assert(set.contains(p));
    }
}

/// A block of the world is the one that its chunk holds at its place there:
/// the chunk's corner is 32 times its position. Above and below the world
/// there is air, and where no chunk is loaded nothing is known.
pub proof fn law_blocks_are_where_their_chunk_is(store: ChunkStore, c: IVec3, l: UVec3, pos: IVec3)
    requires
        l.x < 32,
        l.y < 32,
        l.z < 32,
        pos.x == 32 * c.x + l.x,
        pos.y == 32 * c.y + l.y,
        pos.z == 32 * c.z + l.z,
    ensures
        store.block(pos) == if c.y < 0 || c.y >= store.height_chunks {
            Some(BlockId(0))
        } else if store.chunks@.contains_key(c) {
            Some(store.chunks@[c].block(l))
        } else {
            None
        },
{
    assert(pos.chunk_of() == c);
    assert(pos.local_of() == l);
}

/// Whether a chunk with its light is there, or none can be, being above or
/// below the world.
pub open spec fn settled(store: ChunkStore, x: int, y: int, z: int) -> bool {
    let p = IVec3 { x: x as i32, y: y as i32, z: z as i32 };
    ||| y < 0
    ||| y >= store.height_chunks
    ||| store.chunks@.contains_key(p) && store.light@.contains_key(p)
}

/// A chunk can be meshed exactly when it has arrived with its light and so
/// have its six neighbours, those above and below the world left out.
pub proof fn law_meshing_waits_for_all_neighbors(store: ChunkStore, c: IVec3)
    requires
        i32::MIN < c.x < i32::MAX,
        i32::MIN < c.y < i32::MAX,
        i32::MIN < c.z < i32::MAX,
    ensures
        store.ready(c) <==> {
            &&& store.chunks@.contains_key(c)
            &&& store.light@.contains_key(c)
            &&& settled(store, c.x - 1, c.y as int, c.z as int)
            &&& settled(store, c.x + 1, c.y as int, c.z as int)
            &&& settled(store, c.x as int, c.y - 1, c.z as int)
            &&& settled(store, c.x as int, c.y + 1, c.z as int)
            &&& settled(store, c.x as int, c.y as int, c.z - 1)
            &&& settled(store, c.x as int, c.y as int, c.z + 1)
        },
{
    assert(store.neighbor_arrived(c, Face::NegX) == settled(store, c.x - 1, c.y as int, c.z as int));
    assert(store.neighbor_arrived(c, Face::PosX) == settled(store, c.x + 1, c.y as int, c.z as int));
    assert(store.neighbor_arrived(c, Face::NegY) == settled(store, c.x as int, c.y - 1, c.z as int));
    assert(store.neighbor_arrived(c, Face::PosY) == settled(store, c.x as int, c.y + 1, c.z as int));
    assert(store.neighbor_arrived(c, Face::NegZ) == settled(store, c.x as int, c.y as int, c.z - 1));
    assert(store.neighbor_arrived(c, Face::PosZ) == settled(store, c.x as int, c.y as int, c.z + 1));
    assert forall|side: Face|
        settled(store, c.x - 1, c.y as int, c.z as int) && settled(
            store,
            c.x + 1,
            c.y as int,
            c.z as int,
        ) && settled(store, c.x as int, c.y - 1, c.z as int) && settled(
            store,
            c.x as int,
            c.y + 1,
            c.z as int,
        ) && settled(store, c.x as int, c.y as int, c.z - 1) && settled(
            store,
            c.x as int,
            c.y as int,
            c.z + 1,
        ) implies #[trigger] store.neighbor_arrived(c, side) by {
        match side {
            Face::NegX => {},
            Face::PosX => {},
            Face::NegY => {},
            Face::PosY => {},
            Face::NegZ => {},
            Face::PosZ => {},
        }
    }
}

/// The block of the world next to a cell of a chunk.
pub open spec fn next_block(store: ChunkStore, c: IVec3, x: int, y: int, z: int, side: Face) -> Option<
    BlockId,
> {
    let wx = 32 * c.x + x;
    let wy = 32 * c.y + y;
    let wz = 32 * c.z + z;
    store.block(
        match side {
            Face::NegX => IVec3 { x: (wx - 1) as i32, y: wy as i32, z: wz as i32 },
            Face::PosX => IVec3 { x: (wx + 1) as i32, y: wy as i32, z: wz as i32 },
            Face::NegY => IVec3 { x: wx as i32, y: (wy - 1) as i32, z: wz as i32 },
            Face::PosY => IVec3 { x: wx as i32, y: (wy + 1) as i32, z: wz as i32 },
            Face::NegZ => IVec3 { x: wx as i32, y: wy as i32, z: (wz - 1) as i32 },
            Face::PosZ => IVec3 { x: wx as i32, y: wy as i32, z: (wz + 1) as i32 },
        },
    )
}

/// A chunk that can be meshed is meshed against the world around it: what a
/// side of a block looks at in the mesh is the block that is next to it in
/// the world, in this chunk or in another.
#[verifier::spinoff_prover]
#[verifier::rlimit(60)]
pub proof fn law_meshes_look_at_the_world(
    store: ChunkStore,
    c: IVec3,
    x: int,
    y: int,
    z: int,
    side: Face,
    registry: BlockRegistry,
)
    requires
        store.ready(c),
        0 <= c.y < store.height_chunks,
        -0x0300_0000 < c.x < 0x0300_0000,
        -0x0300_0000 < c.y < 0x0300_0000,
        -0x0300_0000 < c.z < 0x0300_0000,
        0 <= x < 32,
        0 <= y < 32,
        0 <= z < 32,
    ensures
        next_block(store, c, x, y, z, side) == Some(
            block_in_front(store.source(c, &registry), x, y, z, side),
        ),
{
    assert(store.neighbor_arrived(c, side));
    let n = side.spec_normal();
    let pos = IVec3 {
        x: (32 * c.x + x + n.x) as i32,
        y: (32 * c.y + y + n.y) as i32,
        z: (32 * c.z + z + n.z) as i32,
    };
    law_split_recombines(pos);
    let inside = 0 <= x + n.x < 32 && 0 <= y + n.y < 32 && 0 <= z + n.z < 32;
    let l = UVec3 {
        x: ((x + n.x) % 32) as u32,
        y: ((y + n.y) % 32) as u32,
        z: ((z + n.z) % 32) as u32,
    };
    let home = if inside {
        c
    } else {
        c.shifted(n)
    };
    law_blocks_are_where_their_chunk_is(store, home, l, pos);
    assert(next_block(store, c, x, y, z, side) == store.block(pos));
    let front = block_in_front(store.source(c, &registry), x, y, z, side);
    match side {
        Face::NegX => assert(store.block(pos) == Some(front)),
        Face::PosX => assert(store.block(pos) == Some(front)),
        Face::NegY => assert(store.block(pos) == Some(front)),
        Face::PosY => assert(store.block(pos) == Some(front)),
        Face::NegZ => assert(store.block(pos) == Some(front)),
        Face::PosZ => assert(store.block(pos) == Some(front)),
    }
}

/// A chunk is meshed with its own light and that of its six neighbours, as
/// far as they have any; over the highest layer of the world there is full
/// daylight.
pub proof fn law_meshes_are_lit_by_the_world(store: ChunkStore, c: IVec3, registry: BlockRegistry)
    requires
        store.wf(),
        store.light@.contains_key(c),
        i32::MIN < c.x < i32::MAX,
        i32::MIN < c.y < i32::MAX,
        i32::MIN < c.z < i32::MAX,
        0 <= c.y < store.height_chunks,
    ensures
        ({
            let source = store.source(c, &registry);
            let lit = |x: int, y: int, z: int|
                {
                    let p = IVec3 { x: x as i32, y: y as i32, z: z as i32 };
                    if store.light@.contains_key(p) {
                        Some(&store.light@[p])
                    } else {
                        None
                    }
                };
            &&& *source.registry == registry
            &&& *source.chunk == store.chunks@[c]
            &&& source.light == Some(&store.light@[c])
            &&& source.light_neighbors@[0] == lit(c.x - 1, c.y as int, c.z as int)
            &&& source.light_neighbors@[1] == lit(c.x + 1, c.y as int, c.z as int)
            &&& source.light_neighbors@[2] == lit(c.x as int, c.y - 1, c.z as int)
            &&& source.light_neighbors@[4] == lit(c.x as int, c.y as int, c.z - 1)
            &&& source.light_neighbors@[5] == lit(c.x as int, c.y as int, c.z + 1)
            &&& c.y + 1 < store.height_chunks ==> source.light_neighbors@[3] == lit(
                c.x as int,
                c.y + 1,
                c.z as int,
            )
            &&& c.y + 1 == store.height_chunks ==> source.light_neighbors@[3] is Some && forall|
                l: UVec3,
            |
                l.x < 32 && l.y < 32 && l.z < 32 ==> #[trigger] source.light_neighbors@[3]->0.light(
                    l,
                ) == (LightValue { rgb: Rgb { r: 0, g: 0, b: 0 }, sky: 15 })
        }),
{
}

/// Meshing a near chunk leaves on the screen what its mesh holds and nothing
/// else: an empty mesh has no entity, any other is shown once, by the entity
/// that the chunk has or by a new one.
pub proof fn law_near_meshes_are_shown(store: ChunkStore, c: IVec3, registry: BlockRegistry)
    ensures
        ({
            let quads = store.quads(c, &registry);
            let steps = store.remesh_step(c, &registry);
            let shown = store.entities@.contains_key(c);
            &&& !shown && quads.len() == 0 ==> steps.len() == 0
            &&& shown || quads.len() > 0 ==> steps.len() == 1
            &&& shown && quads.len() == 0 ==> steps[0] == (MeshStep::Despawn {
                pos: c,
                entity: store.entities@[c],
            })
            &&& shown && quads.len() > 0 ==> steps[0] == (MeshStep::Replace {
                pos: c,
                entity: store.entities@[c],
                quads,
            })
            &&& !shown && quads.len() > 0 ==> steps[0] == (MeshStep::Spawn { pos: c, quads })
            &&& !shown ==> store.fresh_step(c, &registry) == steps
        }),
{
}

/// Meshing a far chunk leaves on the screen what its mesh holds and nothing
/// else, as with near chunks.
pub proof fn law_far_meshes_are_shown(store: LodStore, at: LodPos, registry: BlockRegistry)
    ensures
        ({
            let quads = store.quads(at, &registry);
            let steps = store.step(at, &registry);
            let shown = store.entities@.contains_key(at);
            &&& !shown && quads.len() == 0 ==> steps.len() == 0
            &&& shown || quads.len() > 0 ==> steps.len() == 1
            &&& shown && quads.len() == 0 ==> steps[0] == (LodStep::Despawn {
                at,
                entity: store.entities@[at],
            })
            &&& shown && quads.len() > 0 ==> steps[0] == (LodStep::Replace {
                at,
                entity: store.entities@[at],
                quads,
            })
            &&& !shown && quads.len() > 0 ==> steps[0] == (LodStep::Spawn { at, quads })
        }),
{
}

/// The entities of removed chunks are all of them: every entity that one of
/// the positions has, and no other.
pub proof fn law_all_entities_go(entities: Map<IVec3, u64>, list: Seq<IVec3>, entity: u64)
    ensures
        entities_of(entities, list).contains(entity) <==> exists|n: int|
            0 <= n < list.len() && entities.contains_key(#[trigger] list[n]) && entities[list[n]]
                == entity,
    decreases list.len(),
{
    if list.len() > 0 {
        let rest = list.drop_last();
        law_all_entities_go(entities, rest, entity);
        let before = entities_of(entities, rest);
        let all = entities_of(entities, list);
        if entities.contains_key(list.last()) {
            crate::lists::lemma_push_contains(before, entities[list.last()]);
            if all.contains(entity) {
                if before.contains(entity) {
                    let n = choose|n: int|
                        0 <= n < rest.len() && entities.contains_key(#[trigger] rest[n])
                            && entities[rest[n]] == entity;
                    assert(list[n] == rest[n]);
                } else {
                    assert(list[list.len() - 1] == list.last());
                }
            }
        } else if all.contains(entity) {
            let n = choose|n: int|
                0 <= n < rest.len() && entities.contains_key(#[trigger] rest[n])
                    && entities[rest[n]] == entity;
            assert(list[n] == rest[n]);
        }
        if exists|n: int|
            0 <= n < list.len() && entities.contains_key(#[trigger] list[n]) && entities[list[n]]
                == entity {
            let n = choose|n: int|
                0 <= n < list.len() && entities.contains_key(#[trigger] list[n])
                    && entities[list[n]] == entity;
            if n < rest.len() {
                assert(rest[n] == list[n]);
            }
        }
    }
}

/// A far chunk is meshed without light against its six neighbours on its own
/// level, one that has not arrived taken for air.
pub proof fn law_far_meshes_look_at_their_level(
    store: LodStore,
    level: u8,
    c: IVec3,
    registry: BlockRegistry,
)
    requires
        i32::MIN < c.x < i32::MAX,
        i32::MIN < c.y < i32::MAX,
        i32::MIN < c.z < i32::MAX,
    ensures
        ({
            let source = store.source(LodPos { level, pos: c }, &registry);
            let there = |x: int, y: int, z: int|
                LodPos { level, pos: IVec3 { x: x as i32, y: y as i32, z: z as i32 } };
            let found = |p: LodPos|
                if store.chunks@.contains_key(p) {
                    Some(&store.chunks@[p])
                } else {
                    None
                };
            &&& source.light is None
            &&& *source.registry == registry
            &&& *source.chunk == store.chunks@[LodPos { level, pos: c }]
            &&& source.neighbors@[0] == found(there(c.x - 1, c.y as int, c.z as int))
            &&& source.neighbors@[1] == found(there(c.x + 1, c.y as int, c.z as int))
            &&& source.neighbors@[2] == found(there(c.x as int, c.y - 1, c.z as int))
            &&& source.neighbors@[3] == found(there(c.x as int, c.y + 1, c.z as int))
            &&& source.neighbors@[4] == found(there(c.x as int, c.y as int, c.z - 1))
            &&& source.neighbors@[5] == found(there(c.x as int, c.y as int, c.z + 1))
        }),
{
}

/// The requests for far chunks hold every chosen chunk, under its own level,
/// and no other; none is empty.
pub proof fn law_requests_hold_what_was_chosen(list: Seq<LodPos>, n: int, level: u8, pos: IVec3)
    requires
        0 <= n <= 5,
        1 <= level <= 5,
    ensures
        forall|r: int| 0 <= r < by_level(list, n).len() ==> (#[trigger] by_level(list, n)[r]).1.len()
            > 0 && 1 <= by_level(list, n)[r].0 <= n,
        (exists|r: int|
            0 <= r < by_level(list, n).len() && (#[trigger] by_level(list, n)[r]).0 == level
                && by_level(list, n)[r].1.contains(pos)) <==> level <= n && list.contains(
            LodPos { level, pos },
        ),
    decreases n,
{
    if n > 0 {
        law_requests_hold_what_was_chosen(list, n - 1, level, pos);
        let before = by_level(list, n - 1);
        let all = by_level(list, n);
        lemma_on_level(list, n, pos);
        if on_level(list, n).len() > 0 {
            assert(all == before.push((n as u8, on_level(list, n))));
            assert forall|r: int| 0 <= r < all.len() implies (#[trigger] all[r]).1.len() > 0 && 1
                <= all[r].0 <= n by {
                if r < before.len() {
                    assert(all[r] == before[r]);
                }
            }
            if level <= n && list.contains(LodPos { level, pos }) {
                if level == n {
                    assert(all[before.len() as int].1.contains(pos));
                } else {
                    let r = choose|r: int|
                        0 <= r < before.len() && (#[trigger] before[r]).0 == level
                            && before[r].1.contains(pos);
                    assert(all[r] == before[r]);
                }
            }
            if exists|r: int|
                0 <= r < all.len() && (#[trigger] all[r]).0 == level && all[r].1.contains(pos) {
                let r = choose|r: int|
                    0 <= r < all.len() && (#[trigger] all[r]).0 == level && all[r].1.contains(pos);
                if r < before.len() {
                    assert(before[r] == all[r]);
                }
            }
        }
    }
}

proof fn lemma_on_level(list: Seq<LodPos>, level: int, pos: IVec3)
    requires
        1 <= level <= 5,
    ensures
        on_level(list, level).contains(pos) <==> list.contains(
            LodPos { level: level as u8, pos },
        ),
{
    let pred = |p: LodPos| p.level == level;
    let part = list.filter(pred);
    let at = LodPos { level: level as u8, pos };
    crate::lists::lemma_filter_contains(list, pred);
    let out = on_level(list, level);
    assert(part.contains(at) <==> list.contains(at));
    if part.contains(at) {
        let i = choose|i: int| 0 <= i < part.len() && part[i] == at;
        assert(out[i] == pos);
    }
    if out.contains(pos) {
        let i = choose|i: int| 0 <= i < out.len() && out[i] == pos;
        assert(part.contains(part[i]));
        assert(part[i] == at);
    }
}

/// A frame looks at every chunk that can be meshed: at the changed ones first,
/// then at those that were never meshed. Each that is picked is meshed in its
/// turn, and loses its entity exactly where nothing of it is visible.
pub proof fn law_changed_and_new_chunks_are_meshed(
    store: ChunkStore,
    list: Seq<IVec3>,
    p: IVec3,
    registry: BlockRegistry,
)
    ensures
        store.ready_dirty().contains(p) <==> store.dirty@.contains(p) && store.ready(p),
        store.ready_fresh().contains(p) <==> store.ready(p) && !store.meshed@.contains(p),
        store.remesh_steps(Seq::empty(), &registry).len() == 0,
        store.remesh_steps(list.push(p), &registry) == store.remesh_steps(list, &registry)
            + store.remesh_step(p, &registry),
        store.fresh_steps(Seq::empty(), &registry).len() == 0,
        store.quads(p, &registry).len() == 0 ==> store.fresh_steps(list.push(p), &registry)
            == store.fresh_steps(list, &registry),
        store.quads(p, &registry).len() > 0 ==> store.fresh_steps(list.push(p), &registry)
            == store.fresh_steps(list, &registry).push(
            MeshStep::Spawn { pos: p, quads: store.quads(p, &registry) },
        ),
        emptied(store, list, &registry).contains(p) <==> list.contains(p) && store.quads(
            p,
            &registry,
        ).len() == 0,
{
    assert(list.push(p).drop_last() =~= list);
    let done = store.fresh_steps(list, &registry);
    let all = store.fresh_steps(list.push(p), &registry);
    if store.quads(p, &registry).len() == 0 {
        assert(all =~= done);
    } else {
        assert(all =~= done.push(MeshStep::Spawn { pos: p, quads: store.quads(p, &registry) }));
    }
}

/// A frame looks at every far chunk that has arrived and is not meshed, at the
/// nearest first, and meshes as many as it is allowed to: one is left for
/// later only where the allowed number of others that are no farther is
/// meshed. Each loses its entity exactly where nothing of it is visible.
pub proof fn law_arrived_far_chunks_are_meshed<F: Fn(LodPos) -> LodDistance>(
    store: LodStore,
    distance: F,
    meshed: Seq<LodPos>,
    budget: int,
    p: LodPos,
    registry: BlockRegistry,
)
    requires
        is_least(meshed, store.unmeshed(), order_by(distance), budget),
    ensures
        meshed.no_duplicates(),
        meshed.len() <= budget,
        meshed.contains(p) ==> store.chunks@.contains_key(p) && !store.meshed@.contains(p),
        forall|i: int, j: int|
            0 <= i <= j < meshed.len() ==> distance_by(distance, #[trigger] meshed[i]).order
                <= distance_by(distance, #[trigger] meshed[j]).order,
        store.chunks@.contains_key(p) && !store.meshed@.contains(p) && !meshed.contains(p) ==> {
            &&& meshed.len() == budget
            &&& forall|i: int|
                0 <= i < meshed.len() ==> distance_by(distance, #[trigger] meshed[i]).order
                    <= distance_by(distance, p).order
        },
        store.steps(Seq::empty(), &registry).len() == 0,
        store.steps(meshed.push(p), &registry) == store.steps(meshed, &registry) + store.step(
            p,
            &registry,
        ),
        store.emptied(meshed, &registry).contains(p) <==> meshed.contains(p) && store.quads(
            p,
            &registry,
        ).len() == 0,
{
    let key = order_by(distance);
    assert forall|q: LodPos| #[trigger] key(q) == distance_by(distance, q).order by {}
    assert forall|i: int, j: int| 0 <= i <= j < meshed.len() implies distance_by(
        distance,
        #[trigger] meshed[i],
    ).order <= distance_by(distance, #[trigger] meshed[j]).order by {
        assert(key(meshed[i]) <= key(meshed[j]));
    }
    if store.chunks@.contains_key(p) && !store.meshed@.contains(p) && !meshed.contains(p) {
        assert(store.unmeshed().contains(p));
        assert forall|i: int| 0 <= i < meshed.len() implies distance_by(
            distance,
            #[trigger] meshed[i],
        ).order <= distance_by(distance, p).order by {
            assert(key(meshed[i]) <= key(p));
        }
    }
    assert(meshed.push(p).drop_last() =~= meshed);
}

/// Within a level the requested chunks keep the order in which they were
/// chosen, each with its position, and the levels come one after the other,
/// the finer first.
pub proof fn law_requests_keep_the_order(list: Seq<LodPos>, p: LodPos, level: int, n: int)
    requires
        0 <= n <= 5,
    ensures
        on_level(Seq::empty(), level).len() == 0,
        p.level == level ==> on_level(list.push(p), level) == on_level(list, level).push(p.pos),
        p.level != level ==> on_level(list.push(p), level) == on_level(list, level),
        forall|r: int|
            0 <= r < by_level(list, n).len() ==> (#[trigger] by_level(list, n)[r]).0 <= n
                && by_level(list, n)[r].1 == on_level(list, by_level(list, n)[r].0 as int),
        forall|r: int, s: int|
            0 <= r < s < by_level(list, n).len() ==> (#[trigger] by_level(list, n)[r]).0 < (
            #[trigger] by_level(list, n)[s]).0,
    decreases n,
{
    reveal(Seq::filter);
    let pred = |q: LodPos| q.level == level;
    assert(list.push(p).drop_last() =~= list);
    assert(list.push(p).filter(pred) == if pred(p) {
        list.filter(pred).push(p)
    } else {
        list.filter(pred)
    });
    if p.level == level {
        assert(on_level(list.push(p), level) =~= on_level(list, level).push(p.pos));
    }
    if n > 0 {
        law_requests_keep_the_order(list, p, level, n - 1);
        let before = by_level(list, n - 1);
        let all = by_level(list, n);
        if on_level(list, n).len() > 0 {
            assert forall|r: int| 0 <= r < all.len() implies (#[trigger] all[r]).0 <= n && all[r].1
                == on_level(list, all[r].0 as int) by {
                if r < before.len() {
                    assert(all[r] == before[r]);
                }
            }
            assert forall|r: int, s: int| 0 <= r < s < all.len() implies (#[trigger] all[r]).0 < (
            #[trigger] all[s]).0 by {
                assert(all[r] == before[r]);
                if s < before.len() {
                    assert(all[s] == before[s]);
                }
            }
        }
    }
}

} // verus!
