use tsumiki::bits::{F32Bits, Vec3Bits};
use tsumiki::blocks::{BlockDef, BlockRegistry, KnownBlocks};
use tsumiki::chunk::{BlockId, Chunk, Rgb};
use tsumiki::geometry::{IVec3, UVec3};
use tsumiki::item::{ItemId, ItemStack};
use tsumiki::nearest::{chunk_distance_sq, nearest};
use tsumiki::packed::LodPos;
use tsumiki::pause::PauseState;
use tsumiki::protocol::{ClientToServer, ContainerKind, GameMode, PlayerSave, ServerToClient};
use tsumiki::session::{player_update, request_chunks, resolve_spawn, Effect, Session, SpawnState};
use tsumiki::view::{block_at, set_block, ChunkStore};

const AIR: BlockId = BlockId(0);
const STONE: BlockId = BlockId(1);

fn zero() -> Vec3Bits {
    Vec3Bits { x: F32Bits(0), y: F32Bits(0), z: F32Bits(0) }
}

fn save() -> PlayerSave {
    PlayerSave {
        pos: Vec3Bits { x: F32Bits(7), ..zero() },
        yaw: F32Bits(1),
        pitch: F32Bits(2),
    }
}

fn welcome(player: Option<PlayerSave>) -> ServerToClient {
    ServerToClient::Welcome {
        client_id: 1,
        player,
        game_mode: GameMode::Survival,
        time_of_day: F32Bits(99),
    }
}

#[test]
fn welcome_sets_the_rules_and_places_or_seeks() {
    let mut s = Session::new(4);
    assert_eq!(s.spawn, SpawnState::AwaitingWelcome);
    let effect = s.receive(0, welcome(Some(save())));
    assert!(matches!(effect, Effect::Place(p) if p == save()));
    assert!(s.mode.is_survival());
    assert_eq!(s.state.time_of_day, F32Bits(99));
    assert_eq!(s.spawn, SpawnState::Resolved);
    let mut s = Session::new(4);
    assert!(matches!(s.receive(0, welcome(None)), Effect::Nothing));
    assert_eq!(s.spawn, SpawnState::AwaitingColumn);
    s.spawn = SpawnState::Resolved;
    s.respawn();
    assert_eq!(s.spawn, SpawnState::AwaitingColumn);
}

#[test]
fn chunks_and_edits_reach_the_store() {
    let mut s = Session::new(4);
    let pos = IVec3::new(0, 0, 0);
    s.receive(0, ServerToClient::ChunkData { pos, chunk: Chunk::filled(AIR) });
    assert!(s.chunks.chunks.contains_key(pos));
    let at = IVec3::new(3, 4, 5);
    s.receive(0, ServerToClient::BlockChanged { pos: at, block: STONE });
    assert_eq!(block_at(&s.chunks, at), Some(STONE));
    assert!(s.chunks.dirty.contains(pos));
    let lod = LodPos { level: 2, pos: IVec3::new(1, 0, 1) };
    s.lod.requested.insert(lod);
    s.receive(
        0,
        ServerToClient::LodChunkData { level: 2, pos: lod.pos, chunk: Chunk::filled(STONE) },
    );
    assert!(s.lod.chunks.contains_key(lod));
    assert!(!s.lod.requested.contains(lod));
}

#[test]
fn a_confirmed_edit_is_not_made_again() {
    let mut s = Session::new(4);
    let pos = IVec3::new(0, 0, 0);
    s.receive(0, ServerToClient::ChunkData { pos, chunk: Chunk::filled(AIR) });
    let at = IVec3::new(3, 4, 5);
    set_block(&mut s.chunks, at, STONE);
    s.chunks.dirty.clear();
    s.receive(0, ServerToClient::BlockChanged { pos: at, block: STONE });
    assert!(s.chunks.dirty.is_empty());
}

#[test]
fn health_decides_death() {
    let mut s = Session::new(4);
    s.receive(0, ServerToClient::HealthUpdate { hp: 13 });
    assert_eq!((s.state.hp, s.state.dead), (13, false));
    s.receive(0, ServerToClient::Died { at: zero() });
    assert!(s.state.dead);
    s.receive(0, ServerToClient::HealthUpdate { hp: 20 });
    assert!(!s.state.dead);
    s.receive(0, ServerToClient::HealthUpdate { hp: 0 });
    assert!(s.state.dead);
    s.receive(0, ServerToClient::TimeUpdate { time_of_day: F32Bits(5) });
    assert_eq!(s.state.time_of_day, F32Bits(5));
}

#[test]
fn inventory_and_containers_follow_the_server() {
    let mut s = Session::new(4);
    let stack = ItemStack::new(ItemId(3), 4);
    s.receive(
        0,
        ServerToClient::InventoryUpdate { main: vec![Some(stack)], cursor: Some(stack) },
    );
    assert_eq!(s.state.main, vec![Some(stack)]);
    assert_eq!(s.state.cursor, Some(stack));
    assert!(matches!(
        s.receive(0, ServerToClient::ContainerUpdate { slots: vec![None] }),
        Effect::Nothing
    ));
    assert!(s.container.is_none(), "an update without an open container is ignored");
    let effect = s.receive(
        0,
        ServerToClient::ContainerOpened {
            kind: ContainerKind::Furnace,
            pos: IVec3::new(1, 2, 3),
            slots: vec![None, None, None],
        },
    );
    assert!(matches!(effect, Effect::Show(PauseState::Inventory)));
    s.receive(0, ServerToClient::FurnaceProgress { cook: F32Bits(8), fuel: F32Bits(9) });
    s.receive(
        0,
        ServerToClient::ContainerUpdate { slots: vec![Some(stack), None, None] },
    );
    let open = s.container.as_ref().unwrap();
    assert_eq!((open.cook, open.fuel), (F32Bits(8), F32Bits(9)));
    assert_eq!(open.slots[0], Some(stack));
    assert_eq!(open.pos, IVec3::new(1, 2, 3));
    assert!(matches!(
        s.receive(0, ServerToClient::ContainerClosed),
        Effect::Show(PauseState::Playing)
    ));
    assert!(s.container.is_none());
}

#[test]
fn players_and_items_appear_and_vanish() {
    let mut s = Session::new(4);
    let join = |s: &mut Session| {
        s.receive(
            10,
            ServerToClient::PlayerJoined { id: 3, name: "ann".into(), state: save() },
        )
    };
    assert!(matches!(
        join(&mut s),
        Effect::ShowAvatar { id: 3, replaced: false, .. }
    ));
    assert!(matches!(join(&mut s), Effect::ShowAvatar { replaced: true, .. }));
    s.receive(20, ServerToClient::PlayerMoved { id: 3, state: save() });
    assert!(s.remote.contains(3));
    assert!(matches!(
        s.receive(30, ServerToClient::PlayerLeft { id: 3 }),
        Effect::RemoveAvatar { id: 3 }
    ));
    assert!(matches!(
        s.receive(30, ServerToClient::PlayerLeft { id: 3 }),
        Effect::Nothing
    ));
    let stack = ItemStack::one(ItemId(1));
    let drop = |s: &mut Session| {
        s.receive(0, ServerToClient::ItemSpawned { id: 99, pos: zero(), stack })
    };
    assert!(matches!(drop(&mut s), Effect::ShowItem { id: 99, replaced: false, .. }));
    assert!(matches!(drop(&mut s), Effect::ShowItem { replaced: true, .. }));
    assert!(matches!(
        s.receive(0, ServerToClient::ItemDespawned { id: 99 }),
        Effect::RemoveItem { id: 99 }
    ));
    assert!(matches!(
        s.receive(0, ServerToClient::ItemDespawned { id: 99 }),
        Effect::Nothing
    ));
}

#[test]
fn the_end_of_a_session_leaves_nothing_behind() {
    let mut s = Session::new(4);
    s.receive(0, welcome(Some(save())));
    s.receive(
        0,
        ServerToClient::ChunkData { pos: IVec3::new(0, 0, 0), chunk: Chunk::filled(AIR) },
    );
    s.chunks.entities.insert(IVec3::new(0, 0, 0), 12);
    let (near, far) = s.end();
    assert_eq!(near.entities, vec![12]);
    assert!(far.entities.is_empty());
    assert_eq!(s.spawn, SpawnState::AwaitingWelcome);
    assert!(!s.mode.is_survival());
    assert!(s.chunks.chunks.keys().is_empty());
    assert_eq!(s.state.main.len(), 36);
}

#[test]
fn chunks_are_requested_nearest_first_in_batches() {
    let mut store = ChunkStore::new(2);
    let cam = IVec3::new(10, 0, -10);
    let first = request_chunks(&mut store, cam, 4);
    assert_eq!(first.len(), 64);
    assert_eq!(first[0], cam);
    for pair in first.windows(2) {
        assert!(chunk_distance_sq(pair[0], cam) <= chunk_distance_sq(pair[1], cam));
    }
    // 49 columns lie within four chunks, with two layers each.
    let second = request_chunks(&mut store, cam, 4);
    assert_eq!(first.len() + second.len(), 98);
    assert!(second.iter().all(|p| !first.contains(p)));
    assert!(request_chunks(&mut store, cam, 4).is_empty());
    store.requested.remove(cam);
    assert_eq!(request_chunks(&mut store, cam, 4), vec![cam]);
    store.requested.remove(cam);
    store.chunks.insert(cam, Chunk::filled(AIR));
    assert!(request_chunks(&mut store, cam, 4).is_empty());
}

#[test]
fn equally_near_chunks_keep_their_order() {
    let list = vec![
        IVec3::new(2, 0, 0),
        IVec3::new(0, 1, 0),
        IVec3::new(1, 0, 0),
        IVec3::new(0, 0, -1),
    ];
    assert_eq!(
        nearest(&list, IVec3::new(0, 0, 0), 3),
        vec![IVec3::new(0, 1, 0), IVec3::new(1, 0, 0), IVec3::new(0, 0, -1)]
    );
    assert_eq!(chunk_distance_sq(IVec3::new(i32::MIN, 0, 0), IVec3::new(i32::MAX, 0, 0)), 0xffff_ffff * 0xffff_ffff);
}

fn registry() -> BlockRegistry {
    let def = |solid: bool| BlockDef {
        name: String::new(),
        opaque: solid,
        solid,
        targetable: solid,
        interactive: false,
        color_top: Rgb::new(0, 0, 0),
        color_side: Rgb::new(0, 0, 0),
        color_bottom: Rgb::new(0, 0, 0),
        light_emission: Rgb::new(0, 0, 0),
        tool: None,
        harvest_tier: None,
    };
    BlockRegistry {
        defs: vec![def(false), def(true)],
        known: KnownBlocks {
            torch: BlockId(90),
            log: BlockId(91),
            water: BlockId(92),
            grass: BlockId(93),
            dirt: BlockId(94),
            farmland: BlockId(95),
            wheat_young: BlockId(96),
            miner: BlockId(97),
        },
    }
}

#[test]
fn the_player_is_put_on_the_ground_once_the_column_is_there() {
    let registry = registry();
    let mut store = ChunkStore::new(3);
    let mut spawn = SpawnState::AwaitingColumn;
    store.chunks.insert(IVec3::new(-1, 0, 0), Chunk::filled(STONE));
    store.chunks.insert(IVec3::new(-1, 2, 0), Chunk::filled(AIR));
    assert_eq!(resolve_spawn(&mut spawn, &store, &registry, -5, 8), None);
    let mut middle = Chunk::filled(AIR);
    middle.set(UVec3::new(27, 4, 8), STONE);
    store.chunks.insert(IVec3::new(-1, 1, 0), middle);
    let mut early = SpawnState::AwaitingWelcome;
    assert_eq!(resolve_spawn(&mut early, &store, &registry, -5, 8), None);
    assert_eq!(resolve_spawn(&mut spawn, &store, &registry, -5, 8), Some(37));
    assert_eq!(spawn, SpawnState::Resolved);
    assert_eq!(resolve_spawn(&mut spawn, &store, &registry, -5, 8), None);
    let mut empty = ChunkStore::new(1);
    empty.chunks.insert(IVec3::new(0, 0, 0), Chunk::filled(AIR));
    let mut spawn = SpawnState::AwaitingColumn;
    assert_eq!(resolve_spawn(&mut spawn, &empty, &registry, 1, 1), None);
    assert_eq!(spawn, SpawnState::AwaitingColumn);
}

#[test]
fn the_player_state_is_sent_when_due_and_placed() {
    assert!(player_update(false, true, save()).is_none());
    assert!(player_update(true, false, save()).is_none());
    assert!(matches!(
        player_update(true, true, save()),
        Some(ClientToServer::UpdatePlayer(s)) if s == save()
    ));
}
