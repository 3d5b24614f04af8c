//! Items and stacks of them.

use crate::chunk::BlockId;
use vstd::prelude::*;

verus! {

/// Numeric id of an item kind; 0 stands for no item.
#[derive(Clone, Copy, Debug, PartialEq, Eq, Structural, Hash)]
pub struct ItemId(pub u16);

/// A number of items of one kind, with the wear of a tool.
#[derive(Clone, Copy, Debug, PartialEq, Eq, Structural)]
pub struct ItemStack {
    pub item: ItemId,
    pub count: u32,
    pub damage: u16,
}

impl ItemStack {
    pub fn new(item: ItemId, count: u32) -> (s: ItemStack)
        ensures
            s == (ItemStack { item, count, damage: 0 }),
    {
        ItemStack { item, count, damage: 0 }
    }

    /// A single unworn item.
    pub fn one(item: ItemId) -> (s: ItemStack)
        ensures
            s == (ItemStack { item, count: 1, damage: 0 }),
    {
        ItemStack { item, count: 1, damage: 0 }
    }

    /// The same stack with the given wear.
    pub fn with_damage(self, damage: u16) -> (s: ItemStack)
        ensures
            s == (ItemStack { damage, ..self }),
    {
        ItemStack { item: self.item, count: self.count, damage }
    }
}

/// What a tool is made for.
#[derive(Clone, Copy, Debug, PartialEq, Eq, Structural)]
pub enum ToolKind {
    Pickaxe,
    Axe,
    Shovel,
}

/// What a tool is made of.
#[derive(Clone, Copy, Debug, PartialEq, Eq, Structural)]
pub enum ToolTier {
    Wood,
    Stone,
    Iron,
}

/// Properties of a tool.
#[derive(Clone, Copy, Debug, PartialEq, Eq, Structural)]
pub struct ToolDef {
    pub kind: ToolKind,
    pub tier: ToolTier,
    /// Damage that it bears.
    pub durability: u16,
}

/// Properties of one kind of item.
#[derive(Debug)]
pub struct ItemDef {
    pub name: String,
    pub tool: Option<ToolDef>,
    /// The block that it places.
    pub places: Option<BlockId>,
    pub edible: bool,
}

/// All kinds of items, indexed by id.
#[derive(Debug)]
pub struct ItemRegistry {
    pub defs: Vec<ItemDef>,
}

impl ItemRegistry {
    /// Whether `id` names a kind of item.
    pub open spec fn has(self, id: ItemId) -> bool {
        id.0 < self.defs@.len()
    }

    /// The properties of the kind that `id` names.
    pub open spec fn def(self, id: ItemId) -> ItemDef {
        self.defs@[id.0 as int]
    }

    /// The properties of the kind that `id` names.
    pub fn get(&self, id: ItemId) -> (def: &ItemDef)
        requires
            self.has(id),
        ensures
            *def == self.def(id),
    {
        &self.defs[id.0 as usize]
    }

    /// Whether `id` names a kind of item.
    pub fn contains(&self, id: ItemId) -> (b: bool)
        ensures
            b == self.has(id),
    {
        (id.0 as usize) < self.defs.len()
    }

    /// Number of kinds, the absent item counted in.
    pub fn len(&self) -> (n: usize)
        ensures
            n == self.defs@.len(),
    {
        self.defs.len()
    }

    /// The tool that an item is, if it is one.
    pub fn tool(&self, id: ItemId) -> (tool: Option<ToolDef>)
        requires
            self.has(id),
        ensures
            tool == self.def(id).tool,
    {
        self.defs[id.0 as usize].tool
    }

    /// The block that an item places, if it does.
    pub fn places(&self, id: ItemId) -> (block: Option<BlockId>)
        requires
            self.has(id),
        ensures
            block == self.def(id).places,
    {
        self.defs[id.0 as usize].places
    }
}

} // verus!
