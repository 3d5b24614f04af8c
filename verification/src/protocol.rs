//! Messages between client and server, and the endpoints that carry them.

use crate::bits::{F32Bits, Vec3Bits};
use crate::chunk::{BlockId, Chunk};
use crate::geometry::IVec3;
use crate::item::ItemStack;
use vstd::prelude::*;

verus! {

/// Server-assigned identifier of a connected client.
pub type ClientId = u64;

/// Maximum health.
pub const MAX_HP: u16 = 20;

/// Maximum of the hunger gauge.
pub const MAX_HUNGER: u16 = 20;

/// Slots of a player's own inventory.
pub const MAIN_INVENTORY_SIZE: usize = 36;

/// Slots of the hotbar, the first of the inventory.
pub const HOTBAR_SIZE: usize = 9;

/// Slots of a chest.
pub const CHEST_SIZE: usize = 27;

/// Player state that outlives a session.
#[derive(Clone, Copy, Debug, PartialEq, Eq, Structural)]
pub struct PlayerSave {
    /// Feet position in the world.
    pub pos: Vec3Bits,
    pub yaw: F32Bits,
    pub pitch: F32Bits,
}

/// A world's rules.
#[derive(Clone, Copy, Debug, PartialEq, Eq, Structural)]
pub enum GameMode {
    /// Mining takes time, placing consumes items, players can die.
    Survival,
    /// Instant editing and flying, no inventory limits, no health.
    Creative,
}

/// What hurt a player.
#[derive(Clone, Copy, Debug, PartialEq, Eq, Structural)]
pub enum DamageCause {
    Fall,
    Drown,
}

/// Which group of slots a [`SlotRef`] addresses.
#[derive(Clone, Copy, Debug, PartialEq, Eq, Structural)]
pub enum SlotArea {
    /// The player's own slots, the hotbar first.
    Main,
    /// The slots of the open container.
    Container,
}

/// Addresses one slot of one group.
#[derive(Clone, Copy, Debug, PartialEq, Eq, Structural)]
pub struct SlotRef {
    pub area: SlotArea,
    pub index: u8,
}

/// What kind of screen an opened block wants.
#[derive(Clone, Copy, Debug, PartialEq, Eq, Structural)]
pub enum ContainerKind {
    /// Has slots of its own.
    Chest,
    /// Has none, but unlocks recipes.
    CraftingTable,
    /// Has input, fuel and output slots and two gauges.
    Furnace,
    /// A machine with its own panel.
    Factory,
}

/// What a player does to a machine.
#[derive(Clone, Copy, Debug, PartialEq, Eq, Structural)]
pub enum FactoryAction {
    Deposit,
    Withdraw,
    Rotate,
    CycleItem,
    Toggle,
}

#[derive(Clone, Debug)]
pub enum ClientToServer {
    Hello { name: String },
    /// Chunk positions that the client wants.
    RequestChunks { positions: Vec<IVec3> },
    /// Positions of coarse chunks of one level that the client wants.
    RequestLodChunks { level: u8, positions: Vec<IVec3> },
    /// A completed block break, with the hotbar slot held while mining.
    BreakBlock { pos: IVec3, hotbar: u8 },
    /// Places the item held in a hotbar slot.
    PlaceBlock { pos: IVec3, hotbar: u8 },
    /// Tills the soil with the tool held in a hotbar slot.
    TillSoil { pos: IVec3, hotbar: u8 },
    /// Eats the item held in a hotbar slot.
    Eat { hotbar: u8 },
    /// A click on a slot. `right` takes half or puts one, `shift` moves the
    /// stack to the other inventory.
    SlotClick { slot: SlotRef, right: bool, shift: bool },
    /// Opens a block, such as a chest.
    OpenContainer { pos: IVec3 },
    /// Closes the inventory or container screen.
    CloseContainer,
    /// Acts on an open machine.
    FactoryAction { pos: IVec3, action: FactoryAction },
    /// Crafts a recipe, once or as often as the materials allow.
    Craft { recipe: u16, all: bool },
    /// Throws one item, or all, of a slot into the world.
    DropSlot { slot: SlotRef, all: bool },
    /// Damage that the client detected.
    ReportDamage { amount: u16, cause: DamageCause },
    /// Asks for a new life.
    Respawn,
    /// The player's state, sent periodically.
    UpdatePlayer(PlayerSave),
    /// Leaves in good order.
    Goodbye,
}

#[allow(inconsistent_fields)]
#[derive(Clone, Debug)]
pub enum ServerToClient {
    Welcome {
        client_id: ClientId,
        /// State from an earlier session, if any.
        player: Option<PlayerSave>,
        game_mode: GameMode,
        time_of_day: F32Bits,
    },
    ChunkData { pos: IVec3, chunk: Chunk },
    LodChunkData { level: u8, pos: IVec3, chunk: Chunk },
    /// An accepted edit; also sent to the client that asked for it.
    BlockChanged { pos: IVec3, block: BlockId },
    /// A player became visible.
    PlayerJoined { id: ClientId, name: String, state: PlayerSave },
    /// A player is no longer visible.
    PlayerLeft { id: ClientId },
    PlayerMoved { id: ClientId, state: PlayerSave },
    /// All slots of the receiving player.
    InventoryUpdate { main: Vec<Option<ItemStack>>, cursor: Option<ItemStack> },
    ContainerOpened { kind: ContainerKind, pos: IVec3, slots: Vec<Option<ItemStack>> },
    ContainerUpdate { slots: Vec<Option<ItemStack>> },
    ContainerClosed,
    /// How far the open furnace is, both from 0 to 1.
    FurnaceProgress { cook: F32Bits, fuel: F32Bits },
    HealthUpdate { hp: u16 },
    Died { at: Vec3Bits },
    /// A dropped item appeared.
    ItemSpawned { id: u64, pos: Vec3Bits, stack: ItemStack },
    ItemDespawned { id: u64 },
    TimeUpdate { time_of_day: F32Bits },
}

/// Server-side endpoint: receives from any client, sends to a given one.
pub trait ServerTransport: Send + Sync {
    fn try_recv(&mut self) -> Option<(ClientId, ClientToServer)>;

    /// Sending to a client that is gone does nothing.
    fn send(&mut self, to: ClientId, msg: ServerToClient);

    /// Called at the start of every tick with the seconds since the last.
    fn tick(&mut self, _dt: F32Bits) {
    }

    /// Called at the end of every tick.
    fn flush(&mut self) {
    }
}

/// Client-side endpoint, connected to one server.
pub trait ClientTransport: Send + Sync {
    /// Sending after the server is gone does nothing.
    fn send(&mut self, msg: ClientToServer);

    fn try_recv(&mut self) -> Option<ServerToClient>;

    /// Called at the start of every frame with the seconds since the last.
    fn tick(&mut self, _dt: F32Bits) {
    }

    /// Called at the end of every frame.
    fn flush(&mut self) {
    }
}

} // verus!
