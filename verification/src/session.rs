//! A session with a server: what each received message changes, which chunks
//! to ask for, and where the player first stands.

use crate::bits::{F32Bits, Vec3Bits};
use crate::blocks::BlockRegistry;
use crate::chunk::BlockId;
use crate::geometry::{split_block_pos, IVec3, UVec3};
use crate::item::ItemStack;
use crate::lod_view::{
    clear_lod_chunks, insert_lod_chunk, inserted, lod_entities_of, LodRemoved, LodStore,
};
use crate::lists::{lemma_concat_contains, lemma_filter_contains};
use crate::nearest::{
    first_of, from_center, is_nearest, keyed, lemma_distance_fits, lemma_first_is_least, nearest,
    square,
};
use crate::packed::LodPos;
use crate::pause::PauseState;
use crate::protocol::{ClientId, ClientToServer, PlayerSave, ServerToClient};
use crate::remote::{pushed, time_ok, RemotePlayers};
use crate::state::{GameMode, GameState, OpenContainer};
use crate::view::{block_at, clear_chunks, edited, entities_of, set_block, ChunkStore, Removed};
use std::collections::HashSet;
use vstd::prelude::*;

verus! {

/// Default view distance, in chunks.
pub const VIEW_DISTANCE_CHUNKS: i32 = 8;

/// Chunks requested per frame.
pub const MAX_CHUNK_REQUESTS_PER_FRAME: usize = 64;

/// How far the search for the player's place is.
#[derive(Clone, Copy, Debug, PartialEq, Eq, Structural)]
pub enum SpawnState {
    /// Nothing was heard from the server yet.
    AwaitingWelcome,
    /// Waiting for the chunks of the spawn column.
    AwaitingColumn,
    /// The player has been placed.
    Resolved,
}

impl Default for SpawnState {
    fn default() -> (s: SpawnState)
        ensures
            s == SpawnState::AwaitingWelcome,
    {
        SpawnState::AwaitingWelcome
    }
}

/// The dropped items that are shown.
#[derive(Debug)]
pub struct DroppedItems {
    ids: HashSet<u64>,
}

impl View for DroppedItems {
    type V = Set<u64>;

    closed spec fn view(&self) -> Set<u64> {
        self.ids@
    }
}

impl DroppedItems {
    /// None.
    pub fn new() -> (items: DroppedItems)
        ensures
            items@ == Set::<u64>::empty(),
    {
        DroppedItems { ids: HashSet::new() }
    }

    /// An item appeared. Tells whether one with the same id is replaced.
    pub fn appear(&mut self, id: u64) -> (replaced: bool)
        ensures
            final(self)@ == old(self)@.insert(id),
            replaced == old(self)@.contains(id),
    {
        !self.ids.insert(id)
    }

    /// An item is gone. Tells whether it was shown.
    pub fn vanish(&mut self, id: u64) -> (was: bool)
        ensures
            final(self)@ == old(self)@.remove(id),
            was == old(self)@.contains(id),
    {
        self.ids.remove(&id)
    }

    /// Forgets all.
    pub fn clear(&mut self)
        ensures
            final(self)@ == Set::<u64>::empty(),
    {
        self.ids.clear();
    }
}

/// Everything that messages from the server change.
#[derive(Debug)]
pub struct Session {
    pub mode: GameMode,
    pub state: GameState,
    /// The container that the server opened, if any.
    pub container: Option<OpenContainer>,
    pub spawn: SpawnState,
    pub chunks: ChunkStore,
    pub lod: LodStore,
    pub remote: RemotePlayers,
    pub items: DroppedItems,
}

/// What a received message asks of the rest of the client.
#[allow(inconsistent_fields)]
#[derive(Debug)]
pub enum Effect {
    Nothing,
    /// Put the player into a saved state, walking.
    Place(PlayerSave),
    /// Open or close a screen.
    Show(PauseState),
    /// Show an avatar, in place of the one with the same id, if any.
    ShowAvatar { id: ClientId, name: String, state: PlayerSave, replaced: bool },
    /// Remove an avatar.
    RemoveAvatar { id: ClientId },
    /// Show a dropped item, in place of the one with the same id, if any.
    ShowItem { id: u64, pos: Vec3Bits, stack: ItemStack, replaced: bool },
    /// Remove a dropped item.
    RemoveItem { id: u64 },
}

/// What a message asks of the rest of the client.
pub open spec fn effect_of(before: Session, msg: ServerToClient) -> Effect {
    match msg {
        ServerToClient::Welcome { player: Some(save), .. } => Effect::Place(save),
        ServerToClient::ContainerOpened { .. } => Effect::Show(PauseState::Inventory),
        ServerToClient::ContainerClosed => Effect::Show(PauseState::Playing),
        ServerToClient::PlayerJoined { id, name, state } => Effect::ShowAvatar {
            id,
            name,
            state,
            replaced: before.remote@.contains_key(id),
        },
        ServerToClient::PlayerLeft { id } => if before.remote@.contains_key(id) {
            Effect::RemoveAvatar { id }
        } else {
            Effect::Nothing
        },
        ServerToClient::ItemSpawned { id, pos, stack } => Effect::ShowItem {
            id,
            pos,
            stack,
            replaced: before.items@.contains(id),
        },
        ServerToClient::ItemDespawned { id } => if before.items@.contains(id) {
            Effect::RemoveItem { id }
        } else {
            Effect::Nothing
        },
        _ => Effect::Nothing,
    }
}

/// The world's rules after a message.
pub open spec fn mode_after(before: GameMode, msg: ServerToClient) -> GameMode {
    match msg {
        ServerToClient::Welcome { game_mode, .. } => GameMode(game_mode),
        _ => before,
    }
}

/// The search for the player's place after a message.
pub open spec fn spawn_after(before: SpawnState, msg: ServerToClient) -> SpawnState {
    match msg {
        ServerToClient::Welcome { player: Some(_), .. } => SpawnState::Resolved,
        ServerToClient::Welcome { player: None, .. } => SpawnState::AwaitingColumn,
        _ => before,
    }
}

/// The player's condition after a message.
pub open spec fn state_after(before: GameState, msg: ServerToClient) -> GameState {
    match msg {
        ServerToClient::Welcome { time_of_day, .. } => GameState { time_of_day, ..before },
        ServerToClient::TimeUpdate { time_of_day } => GameState { time_of_day, ..before },
        ServerToClient::InventoryUpdate { main, cursor } => GameState { main, cursor, ..before },
        ServerToClient::HealthUpdate { hp } => GameState { hp, dead: hp == 0, ..before },
        ServerToClient::Died { .. } => GameState { dead: true, ..before },
        _ => before,
    }
}

/// The open container after a message.
pub open spec fn container_after(before: Option<OpenContainer>, msg: ServerToClient) -> Option<
    OpenContainer,
> {
    match (msg, before) {
        (ServerToClient::ContainerOpened { kind, pos, slots }, _) => Some(
            OpenContainer { kind, pos, slots, cook: F32Bits(0), fuel: F32Bits(0) },
        ),
        (ServerToClient::ContainerUpdate { slots }, Some(open)) => Some(
            OpenContainer { slots, ..open },
        ),
        (ServerToClient::FurnaceProgress { cook, fuel }, Some(open)) => Some(
            OpenContainer { cook, fuel, ..open },
        ),
        (ServerToClient::ContainerClosed, _) => None,
        _ => before,
    }
}

/// The chunks after a message. A block that is as announced already is left
/// alone, so that nothing is meshed again for it.
pub open spec fn chunks_after(before: ChunkStore, after: ChunkStore, msg: ServerToClient) -> bool {
    match msg {
        ServerToClient::ChunkData { pos, chunk } => {
            &&& after.same_world(before)
            &&& after.chunks@ == before.chunks@.insert(pos, chunk)
            &&& after.light@ == before.light@
            &&& after.requested@ == before.requested@
            &&& after.meshed@ == before.meshed@
            &&& after.entities@ == before.entities@
            &&& after.dirty@ == before.dirty@
        },
        ServerToClient::BlockChanged { pos, block } => if before.block(pos) == Some(block) {
            after == before
        } else {
            edited(before, after, pos, block)
        },
        _ => after == before,
    }
}

/// The coarse chunks after a message.
pub open spec fn lod_after(before: LodStore, after: LodStore, msg: ServerToClient) -> bool {
    match msg {
        ServerToClient::LodChunkData { level, pos, chunk } => inserted(
            before,
            after,
            LodPos { level, pos },
            chunk,
        ),
        _ => after == before,
    }
}

/// The movement of other players after a message.
pub open spec fn remote_after(
    before: Map<ClientId, Seq<(i64, PlayerSave)>>,
    now: i64,
    msg: ServerToClient,
) -> Map<ClientId, Seq<(i64, PlayerSave)>> {
    match msg {
        ServerToClient::PlayerJoined { id, state, .. } => before.insert(id, seq![(now, state)]),
        ServerToClient::PlayerLeft { id } => before.remove(id),
        ServerToClient::PlayerMoved { id, state } => if before.contains_key(id) {
            before.insert(id, pushed(before[id], now, state))
        } else {
            before
        },
        _ => before,
    }
}

/// The dropped items after a message.
pub open spec fn items_after(before: Set<u64>, msg: ServerToClient) -> Set<u64> {
    match msg {
        ServerToClient::ItemSpawned { id, .. } => before.insert(id),
        ServerToClient::ItemDespawned { id } => before.remove(id),
        _ => before,
    }
}

impl Session {
    /// A session in which nothing was received yet.
    pub fn new(height_chunks: i32) -> (s: Session)
        ensures
            s.wf(),
            s.is_fresh(),
            s.chunks.height_chunks == height_chunks,
    {
        Session {
            mode: GameMode::default(),
            state: GameState::default(),
            container: None,
            spawn: SpawnState::default(),
            chunks: ChunkStore::new(height_chunks),
            lod: LodStore::new(),
            remote: RemotePlayers::new(),
            items: DroppedItems::new(),
        }
    }

    pub open spec fn wf(self) -> bool {
        self.chunks.wf() && self.remote.wf()
    }

    /// Whether nothing was received yet.
    pub open spec fn is_fresh(self) -> bool {
        &&& self.mode == GameMode(crate::protocol::GameMode::Creative)
        &&& self.state.is_fresh()
        &&& self.container is None
        &&& self.spawn == SpawnState::AwaitingWelcome
        &&& self.chunks.is_clear()
        &&& self.lod.is_clear()
        &&& self.remote@ == Map::<ClientId, Seq<(i64, PlayerSave)>>::empty()
        &&& self.items@ == Set::<u64>::empty()
    }

    /// Takes in a message that arrived at time `now`.
    pub fn receive(&mut self, now: i64, msg: ServerToClient) -> (effect: Effect)
        requires
            old(self).wf(),
            time_ok(now),
        ensures
            final(self).wf(),
            effect == effect_of(*old(self), msg),
            final(self).mode == mode_after(old(self).mode, msg),
            final(self).spawn == spawn_after(old(self).spawn, msg),
            final(self).state == state_after(old(self).state, msg),
            final(self).container == container_after(old(self).container, msg),
            chunks_after(old(self).chunks, final(self).chunks, msg),
            lod_after(old(self).lod, final(self).lod, msg),
            final(self).remote@ == remote_after(old(self).remote@, now, msg),
            final(self).items@ == items_after(old(self).items@, msg),
    {
        match msg {
            ServerToClient::Welcome { client_id: _, player, game_mode, time_of_day } => {
                self.mode = GameMode(game_mode);
                self.state.time_of_day = time_of_day;
                match player {
                    Some(save) => {
                        self.spawn = SpawnState::Resolved;
                        Effect::Place(save)
                    },
                    None => {
                        self.spawn = SpawnState::AwaitingColumn;
                        Effect::Nothing
                    },
                }
            },
            ServerToClient::ChunkData { pos, chunk } => {
                self.chunks.chunks.insert(pos, chunk);
                Effect::Nothing
            },
            ServerToClient::LodChunkData { level, pos, chunk } => {
                insert_lod_chunk(&mut self.lod, LodPos { level, pos }, chunk);
                Effect::Nothing
            },
            ServerToClient::BlockChanged { pos, block } => {
                let known = match block_at(&self.chunks, pos) {
                    Some(present) => present == block,
                    None => false,
                };
                if !known {
                    set_block(&mut self.chunks, pos, block);
                }
                Effect::Nothing
            },
            ServerToClient::PlayerJoined { id, name, state } => {
                let replaced = self.remote.join(now, id, state);
                Effect::ShowAvatar { id, name, state, replaced }
            },
            ServerToClient::PlayerLeft { id } => {
                if self.remote.leave(id) {
                    Effect::RemoveAvatar { id }
                } else {
                    Effect::Nothing
                }
            },
            ServerToClient::PlayerMoved { id, state } => {
                self.remote.push_sample(now, id, state);
                Effect::Nothing
            },
            ServerToClient::InventoryUpdate { main, cursor } => {
                self.state.main = main;
                self.state.cursor = cursor;
                Effect::Nothing
            },
            ServerToClient::ContainerOpened { kind, pos, slots } => {
                self.container = Some(
                    OpenContainer { kind, pos, slots, cook: F32Bits(0), fuel: F32Bits(0) },
                );
                Effect::Show(PauseState::Inventory)
            },
            ServerToClient::ContainerUpdate { slots } => {
                match self.container.take() {
                    Some(mut open) => {
                        open.slots = slots;
                        self.container = Some(open);
                    },
                    None => {},
                }
                Effect::Nothing
            },
            ServerToClient::ContainerClosed => {
                self.container = None;
                Effect::Show(PauseState::Playing)
            },
            ServerToClient::FurnaceProgress { cook, fuel } => {
                match self.container.take() {
                    Some(mut open) => {
                        open.cook = cook;
                        open.fuel = fuel;
                        self.container = Some(open);
                    },
                    None => {},
                }
                Effect::Nothing
            },
            ServerToClient::HealthUpdate { hp } => {
                self.state.set_health(hp);
                Effect::Nothing
            },
            ServerToClient::Died { at: _ } => {
                self.state.dead = true;
                Effect::Nothing
            },
            ServerToClient::ItemSpawned { id, pos, stack } => {
                let replaced = self.items.appear(id);
                Effect::ShowItem { id, pos, stack, replaced }
            },
            ServerToClient::ItemDespawned { id } => {
                if self.items.vanish(id) {
                    Effect::RemoveItem { id }
                } else {
                    Effect::Nothing
                }
            },
            ServerToClient::TimeUpdate { time_of_day } => {
                self.state.time_of_day = time_of_day;
                Effect::Nothing
            },
        }
    }
}

/// The player's state to send, when it is time to: only once the player has
/// been placed.
pub fn player_update(due: bool, spawned: bool, save: PlayerSave) -> (msg: Option<ClientToServer>)
    ensures
        msg == if due && spawned {
            Some(ClientToServer::UpdatePlayer(save))
        } else {
            None
        },
{
    if due && spawned {
        Some(ClientToServer::UpdatePlayer(save))
    } else {
        None
    }
}

/// An edit that the client made ahead of the server's answer is not made
/// again when the answer confirms it, so nothing is meshed again.
pub proof fn law_confirmed_edit_changes_nothing(
    before: ChunkStore,
    predicted: ChunkStore,
    after: ChunkStore,
    pos: IVec3,
    block: BlockId,
)
    requires
        edited(before, predicted, pos, block),
        before.chunks@.contains_key(pos.chunk_of()),
        before.layer_exists(pos.chunk_of().y as int),
        chunks_after(predicted, after, ServerToClient::BlockChanged { pos, block }),
    ensures
        after == predicted,
{
    assert(predicted.block(pos) == Some(block));
}

/// The player is dead after a death and after the health reached zero, and
/// alive again once any health is left.
pub proof fn law_health_decides_death(before: GameState, at: Vec3Bits, hp: u16)
    ensures
        state_after(before, ServerToClient::Died { at }).dead,
        state_after(before, ServerToClient::HealthUpdate { hp }).dead == (hp == 0),
        state_after(before, ServerToClient::HealthUpdate { hp }).hp == hp,
{
}

/// Whether the blocks that a message brings are of known kinds.
pub open spec fn brings_known_blocks(msg: ServerToClient, registry: BlockRegistry) -> bool {
    match msg {
        ServerToClient::ChunkData { chunk, .. } => registry.knows(chunk),
        ServerToClient::LodChunkData { chunk, .. } => registry.knows(chunk),
        ServerToClient::BlockChanged { block, .. } => registry.has(block),
        _ => true,
    }
}

/// As long as messages bring blocks of known kinds, all blocks that are
/// stored are of known kinds, as meshing needs it.
pub proof fn law_stored_blocks_stay_known(
    before: Session,
    after: Session,
    msg: ServerToClient,
    registry: BlockRegistry,
)
    requires
        before.chunks.registered(registry),
        before.lod.registered(registry),
        brings_known_blocks(msg, registry),
        chunks_after(before.chunks, after.chunks, msg),
        lod_after(before.lod, after.lod, msg),
    ensures
        after.chunks.registered(registry),
        after.lod.registered(registry),
{
    assert forall|c: IVec3, p: UVec3|
        after.chunks.chunks@.contains_key(c) && p.in_chunk() implies registry.has(
        #[trigger] after.chunks.chunks@[c].block(p),
    ) by {
        match msg {
            ServerToClient::ChunkData { pos, chunk } => {
                if c == pos {
                    assert(registry.has(chunk.block(p)));
                } else {
                    assert(registry.has(before.chunks.chunks@[c].block(p)));
                }
            },
            _ => {
                assert(before.chunks.chunks@.contains_key(c));
                assert(registry.has(before.chunks.chunks@[c].block(p)));
            },
        }
    }
    assert forall|c: LodPos, p: UVec3|
        after.lod.chunks@.contains_key(c) && p.in_chunk() implies registry.has(
        #[trigger] after.lod.chunks@[c].block(p),
    ) by {
        match msg {
            ServerToClient::LodChunkData { level, pos, chunk } => {
                if c == (LodPos { level, pos }) {
                    assert(registry.has(chunk.block(p)));
                } else {
                    assert(registry.has(before.lod.chunks@[c].block(p)));
                }
            },
            _ => {
                assert(registry.has(before.lod.chunks@[c].block(p)));
            },
        }
    }
}

/// The positions of a column, from layer 0 up.
pub open spec fn column(x: int, z: int, height: int) -> Seq<IVec3> {
    Seq::new(
        if height > 0 {
            height as nat
        } else {
            0
        },
        |y: int| IVec3 { x: x as i32, y: y as i32, z: z as i32 },
    )
}

/// `n` columns along z.
pub open spec fn columns(x: int, z: int, n: int, height: int) -> Seq<IVec3>
    decreases n,
{
    if n <= 0 {
        Seq::empty()
    } else {
        columns(x, z, n - 1, height) + column(x, z + n - 1, height)
    }
}

/// `n` rows of `side` columns along x.
pub open spec fn rows(x: int, z: int, n: int, side: int, height: int) -> Seq<IVec3>
    decreases n,
{
    if n <= 0 {
        Seq::empty()
    } else {
        rows(x, z, n - 1, side, height) + columns(x + n - 1, z, side, height)
    }
}

/// Whether a chunk is within the view distance and has neither arrived nor
/// been asked for.
pub open spec fn to_request(store: ChunkStore, cam_chunk: IVec3, radius: int, p: IVec3) -> bool {
    let dx = p.x - cam_chunk.x;
    let dz = p.z - cam_chunk.z;
    &&& dx * dx + dz * dz <= radius * radius
    &&& !store.chunks@.contains_key(p)
    &&& !store.requested@.contains(p)
}

/// The chunks to ask for, in the order in which they are looked at: the
/// square around the camera, without its corners.
pub open spec fn missing_chunks(store: ChunkStore, cam_chunk: IVec3, radius: int) -> Seq<IVec3> {
    rows(
        cam_chunk.x - radius,
        cam_chunk.z - radius,
        2 * radius + 1,
        2 * radius + 1,
        store.height_chunks as int,
    ).filter(|p: IVec3| to_request(store, cam_chunk, radius, p))
}

/// Whether all positions within a radius can be represented.
pub open spec fn radius_ok(cam_chunk: IVec3, radius: i32) -> bool {
    &&& 0 <= radius <= 0x1000_0000
    &&& i32::MIN <= cam_chunk.x - radius
    &&& cam_chunk.x + radius < i32::MAX
    &&& i32::MIN <= cam_chunk.z - radius
    &&& cam_chunk.z + radius < i32::MAX
}

/// Asks for the nearest chunks within the view distance that are missing, as
/// many as one frame allows, and notes them as requested. Returns the
/// positions, nearest first; none if nothing is missing.
pub fn request_chunks(store: &mut ChunkStore, cam_chunk: IVec3, radius: i32) -> (positions: Vec<
    IVec3,
>)
    requires
        radius_ok(cam_chunk, radius),
    ensures
        positions@ == first_of(
            keyed(
                missing_chunks(*old(store), cam_chunk, radius as int),
                from_center(cam_chunk),
            ),
            64,
        ),
        final(store).same_content_but_requests(old(store)),
        final(store).requested@ == old(store).requested@.union(positions@.to_set()),
{
    let ghost before = *store;
    let ghost pred = |p: IVec3| to_request(before, cam_chunk, radius as int, p);
    let side: i32 = 2 * radius + 1;
    let x0: i32 = cam_chunk.x - radius;
    let z0: i32 = cam_chunk.z - radius;
    let height: i32 = store.height_chunks;
    let mut found: Vec<IVec3> = Vec::new();
    let mut i: i32 = 0;
    proof {
        crate::lists::lemma_filter_empty(
            rows(x0 as int, z0 as int, 0, side as int, height as int),
            pred,
        );
    }
    while i < side
        invariant
            radius_ok(cam_chunk, radius),
            side == 2 * radius + 1,
            x0 == cam_chunk.x - radius,
            z0 == cam_chunk.z - radius,
            *store == before,
            height == before.height_chunks,
            pred == (|p: IVec3| to_request(before, cam_chunk, radius as int, p)),
            0 <= i <= side,
            found@ == rows(x0 as int, z0 as int, i as int, side as int, height as int).filter(pred),
        decreases side - i,
    {
        let x: i32 = x0 + i;
        let ghost done = rows(x0 as int, z0 as int, i as int, side as int, height as int);
        let mut j: i32 = 0;
        assert(done + columns(x as int, z0 as int, 0, height as int) =~= done);
        while j < side
            invariant
                radius_ok(cam_chunk, radius),
                side == 2 * radius + 1,
                x == x0 + i,
                x0 == cam_chunk.x - radius,
                z0 == cam_chunk.z - radius,
                0 <= i < side,
                *store == before,
                height == before.height_chunks,
                pred == (|p: IVec3| to_request(before, cam_chunk, radius as int, p)),
                0 <= j <= side,
                found@ == (done + columns(x as int, z0 as int, j as int, height as int)).filter(pred),
            decreases side - j,
        {
            let z: i32 = z0 + j;
            let ghost stacked = done + columns(x as int, z0 as int, j as int, height as int);
            let dx: i64 = x as i64 - cam_chunk.x as i64;
            let dz: i64 = z as i64 - cam_chunk.z as i64;
            let near = square(dx) + square(dz) <= square(radius as i64);
            let mut y: i32 = 0;
            assert(stacked + column(x as int, z as int, 0) =~= stacked);
            while y < height
                invariant
                    *store == before,
                    pred == (|p: IVec3| to_request(before, cam_chunk, radius as int, p)),
                    dx == x - cam_chunk.x,
                    dz == z - cam_chunk.z,
                    near == (dx * dx + dz * dz <= radius * radius),
                    0 <= y,
                    y <= height || y == 0,
                    found@ == (stacked + column(x as int, z as int, y as int)).filter(pred),
                decreases height - y,
            {
                let p = IVec3 { x, y, z };
                proof {
                    let listed = stacked + column(x as int, z as int, y as int);
                    assert(stacked + column(x as int, z as int, y + 1) =~= listed.push(p));
                    crate::lists::lemma_filter_push(listed, p, pred);
                }
                if near && !store.chunks.contains_key(p) && !store.requested.contains(p) {
                    found.push(p);
                }
                y += 1;
            }
            proof {
                assert(column(x as int, z as int, y as int) =~= column(
                    x as int,
                    z as int,
                    height as int,
                ));
                assert(stacked + column(x as int, z as int, height as int) =~= done + columns(
                    x as int,
                    z0 as int,
                    j + 1,
                    height as int,
                ));
            }
            j += 1;
        }
        assert(done + columns(x as int, z0 as int, side as int, height as int) =~= rows(
            x0 as int,
            z0 as int,
            i + 1,
            side as int,
            height as int,
        ));
        i += 1;
    }
    let positions = nearest(&found, cam_chunk, MAX_CHUNK_REQUESTS_PER_FRAME);
    crate::view::mark_all(&mut store.requested, &positions);
    positions
}

proof fn lemma_column(x: int, z: int, height: int)
    requires
        i32::MIN <= x <= i32::MAX,
        i32::MIN <= z <= i32::MAX,
        height <= i32::MAX,
    ensures
        column(x, z, height).no_duplicates(),
        forall|p: IVec3| #[trigger]
            column(x, z, height).contains(p) <==> p.x == x && p.z == z && 0 <= p.y < height,
{
    let c = column(x, z, height);
    assert forall|p: IVec3| #[trigger] c.contains(p) <==> p.x == x && p.z == z && 0 <= p.y < height by {
        if p.x == x && p.z == z && 0 <= p.y < height {
            assert(c[p.y as int] == p);
        }
    }
    assert forall|i: int, j: int| 0 <= i < j < c.len() implies c[i] != c[j] by {
        assert(c[i].y == i && c[j].y == j);
    }
}

proof fn lemma_columns(x: int, z: int, n: int, height: int)
    requires
        0 <= n,
        i32::MIN <= x <= i32::MAX,
        i32::MIN <= z,
        z + n <= i32::MAX,
        height <= i32::MAX,
    ensures
        columns(x, z, n, height).no_duplicates(),
        forall|p: IVec3| #[trigger]
            columns(x, z, n, height).contains(p) <==> p.x == x && z <= p.z < z + n && 0 <= p.y
                < height,
    decreases n,
{
    if n > 0 {
        lemma_columns(x, z, n - 1, height);
        lemma_column(x, z + n - 1, height);
        lemma_concat_contains(columns(x, z, n - 1, height), column(x, z + n - 1, height));
    }
}

proof fn lemma_rows(x: int, z: int, n: int, side: int, height: int)
    requires
        0 <= n,
        0 <= side,
        i32::MIN <= x,
        x + n <= i32::MAX,
        i32::MIN <= z,
        z + side <= i32::MAX,
        height <= i32::MAX,
    ensures
        rows(x, z, n, side, height).no_duplicates(),
        forall|p: IVec3| #[trigger]
            rows(x, z, n, side, height).contains(p) <==> x <= p.x < x + n && z <= p.z < z + side && 0
                <= p.y < height,
    decreases n,
{
    if n > 0 {
        lemma_rows(x, z, n - 1, side, height);
        lemma_columns(x + n - 1, z, side, height);
        lemma_concat_contains(
            rows(x, z, n - 1, side, height),
            columns(x + n - 1, z, side, height),
        );
    }
}

/// The chunks that [`request_chunks`] asks for are the nearest of all that
/// are missing within the view distance, nearest first, none twice and at
/// most 64; nothing that is missing is passed over for something farther.
pub proof fn law_requests_are_nearest(store: ChunkStore, cam_chunk: IVec3, radius: i32)
    requires
        radius_ok(cam_chunk, radius),
    ensures
        is_nearest(
            first_of(
                keyed(missing_chunks(store, cam_chunk, radius as int), from_center(cam_chunk)),
                64,
            ),
            Set::new(
                |p: IVec3|
                    store.layer_exists(p.y as int) && to_request(
                        store,
                        cam_chunk,
                        radius as int,
                        p,
                    ),
            ),
            cam_chunk,
            64,
        ),
{
    let r = radius as int;
    let all = rows(
        cam_chunk.x - r,
        cam_chunk.z - r,
        2 * r + 1,
        2 * r + 1,
        store.height_chunks as int,
    );
    let pred = |p: IVec3| to_request(store, cam_chunk, r, p);
    let missing = missing_chunks(store, cam_chunk, r);
    lemma_rows(
        cam_chunk.x - r,
        cam_chunk.z - r,
        2 * r + 1,
        2 * r + 1,
        store.height_chunks as int,
    );
    lemma_filter_contains(all, pred);
    assert(missing == all.filter(pred));
    let set = Set::new(
        |p: IVec3| store.layer_exists(p.y as int) && to_request(store, cam_chunk, r, p),
    );
    assert forall|p: IVec3| missing.to_set().contains(p) == set.contains(p) by {
        if to_request(store, cam_chunk, r, p) {
            lemma_within_radius(p.x - cam_chunk.x, p.z - cam_chunk.z, r);
        }
    }
    assert(missing.to_set() =~= set);
    let key = from_center(cam_chunk);
    assert forall|p: IVec3| 0 <= #[trigger] key(p) <= u128::MAX by {
        lemma_distance_fits(p, cam_chunk);
    }
    lemma_first_is_least(missing, key, 64);
}

/// What lies in a circle lies in the square around it.
proof fn lemma_within_radius(dx: int, dz: int, r: int)
    requires
        0 <= r,
        dx * dx + dz * dz <= r * r,
    ensures
        -r <= dx <= r,
        -r <= dz <= r,
{
    assert(dx * dx >= 0 && dz * dz >= 0) by (nonlinear_arith);
    assert(-r <= dx <= r) by (nonlinear_arith)
        requires
            0 <= r,
            dx * dx <= r * r,
    ;
    assert(-r <= dz <= r) by (nonlinear_arith)
        requires
            0 <= r,
            dz * dz <= r * r,
    ;
}

/// Whether every chunk of a column has arrived.
pub open spec fn column_loaded(store: ChunkStore, x: int, z: int) -> bool {
    forall|cy: int|
        0 <= cy < store.height_chunks ==> store.chunks@.contains_key(
            #[trigger] chunk_at(x, cy, z),
        )
}

pub open spec fn chunk_at(x: int, y: int, z: int) -> IVec3 {
    IVec3 { x: x as i32, y: y as i32, z: z as i32 }
}

/// Whether the block at a height of a column is solid.
pub open spec fn solid_at(store: ChunkStore, registry: BlockRegistry, x: i32, y: int, z: i32) -> bool {
    let pos = IVec3 { x, y: y as i32, z };
    registry.def(store.chunks@[pos.chunk_of()].block(pos.local_of())).solid
}

/// Whether the highest solid block of a column is at a height.
pub open spec fn is_ground(store: ChunkStore, registry: BlockRegistry, x: i32, z: i32, y: int) -> bool {
    &&& 0 <= y < store.height_chunks * 32
    &&& solid_at(store, registry, x, y, z)
    &&& forall|h: int|
        y < h < store.height_chunks * 32 ==> !(#[trigger] solid_at(store, registry, x, h, z))
}

/// Whether no block of a column is solid.
pub open spec fn no_ground(store: ChunkStore, registry: BlockRegistry, x: i32, z: i32) -> bool {
    forall|h: int|
        0 <= h < store.height_chunks * 32 ==> !(#[trigger] solid_at(store, registry, x, h, z))
}

/// Once the spawn column has arrived, finds the height to stand at: one
/// above its highest solid block. Until then, and where nothing in the
/// column is solid, the search goes on.
pub fn resolve_spawn(spawn: &mut SpawnState, store: &ChunkStore, registry: &BlockRegistry, x: i32, z: i32) -> (feet:
    Option<i32>)
    requires
        store.registered(*registry),
        store.height_chunks * 32 <= i32::MAX,
    ensures
        ({
            let column = (IVec3 { x, y: 0, z }).chunk_of();
            let searching = *old(spawn) == SpawnState::AwaitingColumn && column_loaded(
                *store,
                column.x as int,
                column.z as int,
            );
            match feet {
                Some(y) => {
                    &&& searching
                    &&& is_ground(*store, *registry, x, z, y - 1)
                    &&& *final(spawn) == SpawnState::Resolved
                },
                None => {
                    &&& !searching || no_ground(*store, *registry, x, z)
                    &&& *final(spawn) == *old(spawn)
                },
            }
        }),
{
    if *spawn != SpawnState::AwaitingColumn {
        return None;
    }
    let (column, _local) = split_block_pos(IVec3 { x, y: 0, z });
    let mut cy: i32 = 0;
    while cy < store.height_chunks
        invariant
            *spawn == *old(spawn),
            *old(spawn) == SpawnState::AwaitingColumn,
            column == (IVec3 { x, y: 0, z }).chunk_of(),
            0 <= cy,
            cy <= store.height_chunks || cy == 0,
            forall|n: int|
                0 <= n < cy ==> store.chunks@.contains_key(
                    #[trigger] chunk_at(column.x as int, n, column.z as int),
                ),
        decreases store.height_chunks - cy,
    {
        let at = IVec3 { x: column.x, y: cy, z: column.z };
        assert(at == chunk_at(column.x as int, cy as int, column.z as int));
        if !store.chunks.contains_key(at) {
            return None;
        }
        cy += 1;
    }
    if store.height_chunks <= 0 {
        return None;
    }
    let top: i32 = store.height_chunks * 32;
    let mut y: i32 = top;
    while y > 0
        invariant
            *spawn == *old(spawn),
            *old(spawn) == SpawnState::AwaitingColumn,
            store.registered(*registry),
            0 < store.height_chunks,
            store.height_chunks * 32 <= i32::MAX,
            top == store.height_chunks * 32,
            0 <= y <= top,
            column == (IVec3 { x, y: 0, z }).chunk_of(),
            column_loaded(*store, column.x as int, column.z as int),
            forall|h: int| y <= h < top ==> !(#[trigger] solid_at(*store, *registry, x, h, z)),
        decreases y,
    {
        y -= 1;
        let (at, local) = split_block_pos(IVec3 { x, y, z });
        proof {
            assert(at == chunk_at(column.x as int, y as int / 32, column.z as int));
            assert(store.chunks@.contains_key(at));
        }
        match store.chunks.get(at) {
            Some(chunk) => {
                let block = chunk.get(local);
                assert(registry.has(store.chunks@[at].block(local)));
                if registry.get(block).solid {
                    assert(solid_at(*store, *registry, x, y as int, z));
                    *spawn = SpawnState::Resolved;
                    return Some(y + 1);
                }
                assert(!solid_at(*store, *registry, x, y as int, z));
            },
            None => {},
        }
    }
    None
}

/// A chunk that was forgotten is asked for again once it is within the view
/// distance.
pub proof fn law_forgotten_chunk_is_requested_again(
    before: ChunkStore,
    after: ChunkStore,
    pos: IVec3,
    cam_chunk: IVec3,
    radius: int,
)
    requires
        after.chunks@ == before.chunks@.remove(pos),
        after.requested@ == before.requested@.remove(pos),
        ({
            let dx = pos.x - cam_chunk.x;
            let dz = pos.z - cam_chunk.z;
            dx * dx + dz * dz <= radius * radius
        }),
    ensures
        to_request(after, cam_chunk, radius, pos),
{
}

impl Session {
    /// Starts the search for the player's place anew, after a death.
    pub fn respawn(&mut self)
        ensures
            *final(self) == (Session { spawn: SpawnState::AwaitingColumn, ..*old(self) }),
    {
        self.spawn = SpawnState::AwaitingColumn;
    }

    /// Ends the session: everything is as if nothing had been received.
    /// Returns what is to be removed from the screen.
    pub fn end(&mut self) -> (removed: (Removed, LodRemoved))
        requires
            old(self).wf(),
        ensures
            final(self).wf(),
            final(self).is_fresh(),
            final(self).chunks.same_world(old(self).chunks),
            removed.0.positions@.no_duplicates(),
            removed.0.positions@.to_set() == old(self).chunks.entities@.dom(),
            removed.0.entities@ == entities_of(
                old(self).chunks.entities@,
                removed.0.positions@,
            ),
            removed.1.positions@.no_duplicates(),
            removed.1.positions@.to_set() == old(self).lod.entities@.dom(),
            removed.1.entities@ == lod_entities_of(
                old(self).lod.entities@,
                removed.1.positions@,
            ),
    {
        self.mode = GameMode::default();
        self.state = GameState::default();
        self.container = None;
        self.spawn = SpawnState::default();
        self.remote.clear();
        self.items.clear();
        let near = clear_chunks(&mut self.chunks);
        let far = clear_lod_chunks(&mut self.lod);
        (near, far)
    }
}

/// A dropped item is shown from the message that it appeared until the
/// message that it is gone. Only one that is shown is removed, and one with
/// the id of another takes its place.
pub proof fn law_items_come_and_go(before: Session, msg: ServerToClient, id: u64)
    ensures
        items_after(before.items@, msg).contains(id) <==> (msg matches ServerToClient::ItemSpawned {
            id: i,
            ..
        } && i == id) || (before.items@.contains(id) && !(msg matches ServerToClient::ItemDespawned {
            id: i,
        } && i == id)),
        msg matches ServerToClient::ItemSpawned { id: i, pos, stack } ==> effect_of(before, msg)
            == (Effect::ShowItem { id: i, pos, stack, replaced: before.items@.contains(i) }),
        msg matches ServerToClient::ItemDespawned { id: i } ==> (before.items@.contains(i)
            <==> effect_of(before, msg) == (Effect::RemoveItem { id: i })),
        effect_of(before, msg) is ShowItem ==> msg is ItemSpawned,
        effect_of(before, msg) is RemoveItem ==> msg is ItemDespawned,
{
}

/// A player is shown from the message that they joined until the message that
/// they left. Their movement starts anew when they join, and no message about
/// one player touches the movement of another.
pub proof fn law_players_come_and_go(before: Session, now: i64, msg: ServerToClient, id: ClientId)
    ensures
        remote_after(before.remote@, now, msg).contains_key(id) <==> (msg matches
            ServerToClient::PlayerJoined { id: i, .. } && i == id) || (before.remote@.contains_key(id)
            && !(msg matches ServerToClient::PlayerLeft { id: i } && i == id)),
        msg matches ServerToClient::PlayerJoined { id: i, state, .. } ==> remote_after(
            before.remote@,
            now,
            msg,
        )[i] == seq![(now, state)],
        before.remote@.contains_key(id) && !(msg matches ServerToClient::PlayerJoined { id: i, .. }
            && i == id) && !(msg matches ServerToClient::PlayerLeft { id: i } && i == id) && !(
        msg matches ServerToClient::PlayerMoved { id: i, .. } && i == id) ==> remote_after(
            before.remote@,
            now,
            msg,
        )[id] == before.remote@[id],
        msg matches ServerToClient::PlayerMoved { id: i, state } ==> (before.remote@.contains_key(i)
            && before.remote@[i].len() > 0 && now - before.remote@[i].last().0 > 1_000_000_000
            ==> remote_after(before.remote@, now, msg)[i] == seq![(now, state)]),
        msg matches ServerToClient::PlayerMoved { id: i, state } ==> (before.remote@.contains_key(i)
            && before.remote@[i].len() > 0 && now <= before.remote@[i].last().0 ==> remote_after(
            before.remote@,
            now,
            msg,
        )[i] == before.remote@[i]),
        msg matches ServerToClient::PlayerMoved { id: i, state } ==> (before.remote@.contains_key(i)
            && (before.remote@[i].len() == 0 || before.remote@[i].last().0 < now) ==> remote_after(
            before.remote@,
            now,
            msg,
        )[i].last() == (now, state)),
        msg matches ServerToClient::PlayerJoined { id: i, name, state } ==> effect_of(before, msg)
            == (Effect::ShowAvatar {
            id: i,
            name,
            state,
            replaced: before.remote@.contains_key(i),
        }),
        msg matches ServerToClient::PlayerLeft { id: i } ==> (before.remote@.contains_key(i)
            <==> effect_of(before, msg) == (Effect::RemoveAvatar { id: i })),
        effect_of(before, msg) is ShowAvatar ==> msg is PlayerJoined,
        effect_of(before, msg) is RemoveAvatar ==> msg is PlayerLeft,
{
    if let ServerToClient::PlayerMoved { id: i, state } = msg {
        if before.remote@.contains_key(i) {
            lemma_last_is_new(before.remote@[i].push((now, state)), now as int);
        }
    }
}

proof fn lemma_last_is_new(s: Seq<(i64, PlayerSave)>, t: int)
    requires
        s.len() > 0,
    ensures
        crate::remote::pruned(s, t).len() > 0,
        crate::remote::pruned(s, t).last() == s.last(),
    decreases s.len(),
{
    if s.len() > 1 {
        lemma_last_is_new(s.drop_first(), t);
    }
}

/// The player's condition is what the server last said of it: each part
/// changes with the messages about it and with no other.
pub proof fn law_the_condition_is_what_was_said(before: GameState, msg: ServerToClient)
    ensures
        ({
            let after = state_after(before, msg);
            &&& msg matches ServerToClient::Welcome { time_of_day, .. } ==> after.time_of_day
                == time_of_day
            &&& msg matches ServerToClient::TimeUpdate { time_of_day } ==> after.time_of_day
                == time_of_day
            &&& !(msg is Welcome) && !(msg is TimeUpdate) ==> after.time_of_day == before.time_of_day
            &&& msg matches ServerToClient::InventoryUpdate { main, cursor } ==> (after.main == main
                && after.cursor == cursor)
            &&& !(msg is InventoryUpdate) ==> after.main == before.main && after.cursor
                == before.cursor
            &&& msg matches ServerToClient::HealthUpdate { hp } ==> (after.hp == hp && (after.dead
                <==> hp == 0))
            &&& !(msg is HealthUpdate) ==> after.hp == before.hp
            &&& msg is Died ==> after.dead
            &&& !(msg is HealthUpdate) && !(msg is Died) ==> after.dead == before.dead
            &&& after.hunger == before.hunger
            &&& after.inventory == before.inventory
        }),
{
}

/// A container is open from the message that it was opened until the message
/// that it was closed. It starts with nothing cooked and nothing burnt; what
/// it holds and how far it is change with the messages about them alone. The
/// screens follow.
pub proof fn law_containers_open_and_close(before: Session, msg: ServerToClient)
    ensures
        ({
            let was = before.container;
            let now = container_after(was, msg);
            &&& now is Some <==> msg is ContainerOpened || (was is Some && !(msg is ContainerClosed))
            &&& msg matches ServerToClient::ContainerOpened { kind, pos, slots } ==> (now->0.kind
                == kind && now->0.pos == pos && now->0.slots == slots && now->0.cook.0 == 0
                && now->0.fuel.0 == 0)
            &&& was is Some && now is Some && !(msg is ContainerOpened) ==> now->0.kind
                == was->0.kind && now->0.pos == was->0.pos
            &&& was is Some ==> (msg matches ServerToClient::ContainerUpdate { slots } ==> (
            now->0.slots == slots))
            &&& was is Some ==> (msg matches ServerToClient::FurnaceProgress { cook, fuel } ==> (
            now->0.cook == cook && now->0.fuel == fuel))
            &&& was is Some && now is Some && !(msg is ContainerOpened) && !(msg is ContainerUpdate)
                ==> now->0.slots == was->0.slots
            &&& was is Some && now is Some && !(msg is ContainerOpened) && !(msg is FurnaceProgress)
                ==> now->0.cook == was->0.cook && now->0.fuel == was->0.fuel
            &&& effect_of(before, msg) == Effect::Show(PauseState::Inventory) <==> msg
                is ContainerOpened
            &&& effect_of(before, msg) == Effect::Show(PauseState::Playing) <==> msg
                is ContainerClosed
            &&& effect_of(before, msg) is Show ==> msg is ContainerOpened || msg is ContainerClosed
        }),
{
}

/// The server's welcome sets the world's rules. A player it knows is put where
/// they were; for another the search for a place begins. No other message
/// touches either.
pub proof fn law_the_welcome_decides(before: Session, msg: ServerToClient)
    ensures
        msg matches ServerToClient::Welcome { game_mode, .. } ==> mode_after(before.mode, msg).0
            == game_mode,
        !(msg is Welcome) ==> mode_after(before.mode, msg) == before.mode && spawn_after(
            before.spawn,
            msg,
        ) == before.spawn,
        msg matches ServerToClient::Welcome { player, .. } ==> match player {
            Some(save) => {
                &&& spawn_after(before.spawn, msg) == SpawnState::Resolved
                &&& effect_of(before, msg) == Effect::Place(save)
            },
            None => {
                &&& spawn_after(before.spawn, msg) == SpawnState::AwaitingColumn
                &&& effect_of(before, msg) == Effect::Nothing
            },
        },
        effect_of(before, msg) is Place ==> msg is Welcome,
{
}

/// What the server says of the world is what the world then is: a chunk that
/// was sent stands at its place and leaves the others alone, and a block that
/// was changed in a loaded chunk is the only one that differs. Coarse chunks
/// stand at their level. No other message touches either world.
pub proof fn law_the_world_is_what_was_sent(before: Session, after: Session, msg: ServerToClient, p: IVec3, q: UVec3)
    requires
        chunks_after(before.chunks, after.chunks, msg),
        lod_after(before.lod, after.lod, msg),
        q.in_chunk(),
    ensures
        msg matches ServerToClient::ChunkData { pos, chunk } ==> {
            &&& after.chunks.chunks@.contains_key(pos)
            &&& after.chunks.chunks@[pos] == chunk
            &&& p != pos ==> after.chunks.chunks@.contains_key(p)
                == before.chunks.chunks@.contains_key(p) && after.chunks.chunks@[p]
                == before.chunks.chunks@[p]
        },
        msg matches ServerToClient::BlockChanged { pos, block } ==> {
            let c = IVec3 {
                x: (pos.x as int / 32) as i32,
                y: (pos.y as int / 32) as i32,
                z: (pos.z as int / 32) as i32,
            };
            let l = UVec3 {
                x: (pos.x as int % 32) as u32,
                y: (pos.y as int % 32) as u32,
                z: (pos.z as int % 32) as u32,
            };
            &&& after.chunks.chunks@.contains_key(p) == before.chunks.chunks@.contains_key(p)
            &&& before.chunks.chunks@.contains_key(c) && 0 <= c.y < before.chunks.height_chunks
                ==> after.chunks.chunks@[c].block(l) == block
            &&& before.chunks.chunks@.contains_key(p) && (p != c || q != l)
                ==> after.chunks.chunks@[p].block(q) == before.chunks.chunks@[p].block(q)
        },
        !(msg is ChunkData) && !(msg is BlockChanged) ==> after.chunks == before.chunks,
        msg matches ServerToClient::LodChunkData { level, pos, chunk } ==> {
            &&& after.lod.chunks@.contains_key(LodPos { level, pos })
            &&& after.lod.chunks@[LodPos { level, pos }] == chunk
            &&& !after.lod.meshed@.contains(LodPos { level, pos })
            &&& !after.lod.requested@.contains(LodPos { level, pos })
        },
        !(msg is LodChunkData) ==> after.lod == before.lod,
{
}

/// The player first stands on the highest solid block of the column: that
/// block is solid, and no block above it is, up to the top of the world.
pub proof fn law_the_ground_is_the_highest_solid_block(
    store: ChunkStore,
    registry: BlockRegistry,
    x: i32,
    z: i32,
    y: int,
    h: int,
)
    requires
        is_ground(store, registry, x, z, y),
        store.height_chunks * 32 <= i32::MAX,
        y <= h < store.height_chunks * 32,
    ensures
        ({
            let c = IVec3 {
                x: (x as int / 32) as i32,
                y: (h / 32) as i32,
                z: (z as int / 32) as i32,
            };
            let l = UVec3 {
                x: (x as int % 32) as u32,
                y: (h % 32) as u32,
                z: (z as int % 32) as u32,
            };
            registry.defs@[store.chunks@[c].block(l).0 as int].solid <==> h == y
        }),
{
    assert(solid_at(store, registry, x, h, z) <==> h == y);
}

} // verus!
