//! The state of a session: the world's rules and the player's condition.

use crate::bits::F32Bits;
use crate::chunk::BlockId;
use crate::geometry::IVec3;
use crate::item::ItemStack;
use crate::protocol::{ContainerKind, MAIN_INVENTORY_SIZE, MAX_HP, MAX_HUNGER};
use std::collections::HashMap;
use vstd::prelude::*;

verus! {

/// The world's rules as the server announced them; creative until then.
#[derive(Clone, Copy, Debug, PartialEq, Eq, Structural)]
pub struct GameMode(pub crate::protocol::GameMode);

impl Default for GameMode {
    fn default() -> (m: GameMode)
        ensures
            m == GameMode(crate::protocol::GameMode::Creative),
    {
        GameMode(crate::protocol::GameMode::Creative)
    }
}

impl GameMode {
    /// Whether health and inventory count.
    pub fn is_survival(&self) -> (b: bool)
        ensures
            b == (self.0 == crate::protocol::GameMode::Survival),
    {
        match self.0 {
            crate::protocol::GameMode::Survival => true,
            crate::protocol::GameMode::Creative => false,
        }
    }
}

/// The player's condition.
#[derive(Debug)]
pub struct GameState {
    pub hp: u16,
    pub hunger: u16,
    /// Whether the player is dead: set by a death, and derived anew from
    /// every health update.
    pub dead: bool,
    /// Number of blocks owned, by block id.
    pub inventory: HashMap<u16, u32>,
    /// The player's own slots.
    pub main: Vec<Option<ItemStack>>,
    /// The stack at the mouse cursor.
    pub cursor: Option<ItemStack>,
    /// Time of day from 0 (sunrise) to 1.
    pub time_of_day: F32Bits,
}

/// The bit pattern of 0.25: noon.
pub const NOON: u32 = 0x3e80_0000;

impl GameState {
    /// Full health and hunger, nothing owned, noon.
    pub open spec fn is_fresh(self) -> bool {
        &&& self.hp == MAX_HP
        &&& self.hunger == MAX_HUNGER
        &&& !self.dead
        &&& self.inventory@ == Map::<u16, u32>::empty()
        &&& self.main@ == Seq::new(36, |n: int| None::<ItemStack>)
        &&& self.cursor is None
        &&& self.time_of_day == F32Bits(0x3e80_0000)
    }

    /// How many of a block are owned.
    pub fn inventory_count(&self, block: BlockId) -> (n: u32)
        ensures
            n == if self.inventory@.contains_key(block.0) {
                self.inventory@[block.0]
            } else {
                0
            },
    {
        match self.inventory.get(&block.0) {
            Some(n) => *n,
            None => 0,
        }
    }

    /// Takes the health that the server announced.
    pub fn set_health(&mut self, hp: u16)
        ensures
            *final(self) == (GameState { hp, dead: hp == 0, ..*old(self) }),
    {
        self.hp = hp;
        self.dead = hp == 0;
    }
}

impl Default for GameState {
    fn default() -> (s: GameState)
        ensures
            s.is_fresh(),
    {
        let main: Vec<Option<ItemStack>> = vec![None; MAIN_INVENTORY_SIZE];
        assert(main@ =~= Seq::new(36, |n: int| None::<ItemStack>));
        GameState {
            hp: MAX_HP,
            hunger: MAX_HUNGER,
            dead: false,
            inventory: HashMap::new(),
            main,
            cursor: None,
            time_of_day: F32Bits(NOON),
        }
    }
}

/// Whether the player can act.
pub fn is_alive(state: &GameState) -> (b: bool)
    ensures
        b == !state.dead,
{
    !state.dead
}

/// Whether the screen of death is to be shown or to be taken away; `None`
/// where it is as it should be.
pub fn death_screen_change(state: &GameState, shown: bool) -> (change: Option<bool>)
    ensures
        change == if state.dead == shown {
            None
        } else {
            Some(state.dead)
        },
{
    if state.dead == shown {
        None
    } else {
        Some(state.dead)
    }
}

/// A container that the server opened.
#[derive(Debug)]
pub struct OpenContainer {
    pub kind: ContainerKind,
    pub pos: IVec3,
    pub slots: Vec<Option<ItemStack>>,
    /// Progress of what is smelted, from 0 to 1.
    pub cook: F32Bits,
    /// What is left of the burning fuel, from 0 to 1.
    pub fuel: F32Bits,
}

} // verus!
