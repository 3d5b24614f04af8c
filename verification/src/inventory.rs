//! The inventory screen: what it shows, and what clicks on it ask for.

use crate::hotbar::{slot_at, slot_of};
use crate::i18n::{in_words, words_of};
use crate::item::{ItemId, ItemRegistry, ItemStack};
use crate::pause::PauseState;
use crate::protocol::{ClientToServer, ContainerKind, SlotArea, SlotRef, HOTBAR_SIZE};
use crate::state::{GameState, OpenContainer};
use crate::text::{decimal, decimal_of, joined};
use vstd::prelude::*;

verus! {

/// Columns of the backpack and of a chest.
pub const GRID_COLS: usize = 9;

/// Rows of the backpack and of a chest.
pub const GRID_ROWS: usize = 3;

/// What the inventory screen shows.
#[derive(Clone, Copy, Debug, PartialEq, Eq, Structural)]
pub enum ScreenKind {
    /// There is no screen.
    Closed,
    Plain,
    CraftingTable,
    Chest,
    Furnace,
    Factory,
}

/// Something that unlocks recipes.
#[derive(Clone, Copy, Debug, PartialEq, Eq, Structural)]
pub enum CraftingStation {
    CraftingTable,
}

/// The screen that belongs to a state and an open container.
pub open spec fn screen_for(pause: PauseState, container: Option<ContainerKind>) -> ScreenKind {
    if pause != PauseState::Inventory {
        ScreenKind::Closed
    } else {
        match container {
            None => ScreenKind::Plain,
            Some(ContainerKind::CraftingTable) => ScreenKind::CraftingTable,
            Some(ContainerKind::Chest) => ScreenKind::Chest,
            Some(ContainerKind::Furnace) => ScreenKind::Furnace,
            Some(ContainerKind::Factory) => ScreenKind::Factory,
        }
    }
}

/// The screen to show.
pub fn desired_screen(pause: PauseState, container: Option<ContainerKind>) -> (screen: ScreenKind)
    ensures
        screen == screen_for(pause, container),
{
    if pause != PauseState::Inventory {
        return ScreenKind::Closed;
    }
    match container {
        None => ScreenKind::Plain,
        Some(ContainerKind::CraftingTable) => ScreenKind::CraftingTable,
        Some(ContainerKind::Chest) => ScreenKind::Chest,
        Some(ContainerKind::Furnace) => ScreenKind::Furnace,
        Some(ContainerKind::Factory) => ScreenKind::Factory,
    }
}

/// The screen to show in place of the one that is there; `None` where it is
/// the right one.
pub fn screen_change(shown: ScreenKind, pause: PauseState, container: Option<ContainerKind>) -> (change:
    Option<ScreenKind>)
    ensures
        change == if shown == screen_for(pause, container) {
            None
        } else {
            Some(screen_for(pause, container))
        },
{
    let wanted = desired_screen(pause, container);
    if shown == wanted {
        None
    } else {
        Some(wanted)
    }
}

/// The station whose recipes a screen lists besides those for bare hands.
pub fn station_for(screen: ScreenKind) -> (station: Option<CraftingStation>)
    ensures
        station == if screen == ScreenKind::CraftingTable {
            Some(CraftingStation::CraftingTable)
        } else {
            None
        },
{
    match screen {
        ScreenKind::CraftingTable => Some(CraftingStation::CraftingTable),
        _ => None,
    }
}

/// The title of a screen.
pub fn title_for(screen: ScreenKind) -> (title: &'static str)
    ensures
        title@ == match screen {
            ScreenKind::Closed => ""@,
            ScreenKind::Plain => "Inventory"@,
            ScreenKind::CraftingTable => "Crafting Table"@,
            ScreenKind::Chest => "Chest"@,
            ScreenKind::Furnace => "Furnace"@,
            ScreenKind::Factory => "Factory"@,
        },
{
    match screen {
        ScreenKind::Closed => "",
        ScreenKind::Plain => "Inventory",
        ScreenKind::CraftingTable => "Crafting Table",
        ScreenKind::Chest => "Chest",
        ScreenKind::Furnace => "Furnace",
        ScreenKind::Factory => "Factory",
    }
}

/// Where the inventory key leads, if anywhere.
pub open spec fn e_key_leads(current: PauseState) -> Option<PauseState> {
    match current {
        PauseState::Playing => Some(PauseState::Inventory),
        PauseState::Inventory => Some(PauseState::Playing),
        PauseState::Paused | PauseState::Settings => None,
    }
}

/// Where the inventory key leads, if anywhere.
pub fn e_key_target(current: PauseState) -> (target: Option<PauseState>)
    ensures
        target == e_key_leads(current),
{
    match current {
        PauseState::Playing => Some(PauseState::Inventory),
        PauseState::Inventory => Some(PauseState::Playing),
        PauseState::Paused | PauseState::Settings => None,
    }
}

/// Pressing the inventory key twice leads back to where it was pressed.
pub proof fn law_inventory_key_toggles(state: PauseState)
    requires
        e_key_leads(state) is Some,
    ensures
        e_key_leads(e_key_leads(state)->0) == Some(state),
{
}

/// The slot of a backpack cell: the backpack follows the hotbar.
pub open spec fn backpack_slot(row: int, col: int) -> int {
    9 + row * 9 + col
}

/// The slot of a backpack cell.
pub fn backpack_index(row: usize, col: usize) -> (index: usize)
    requires
        row < GRID_ROWS,
        col < GRID_COLS,
    ensures
        index == backpack_slot(row as int, col as int),
        index < 36,
{
    HOTBAR_SIZE + row * GRID_COLS + col
}

/// Each slot of the player behind the hotbar is in exactly one cell of the
/// backpack.
pub proof fn law_backpack_covers(index: int)
    requires
        9 <= index < 36,
    ensures
        exists|row: int, col: int|
            0 <= row < 3 && 0 <= col < 9 && #[trigger] backpack_slot(row, col) == index,
        forall|r1: int, c1: int, r2: int, c2: int|
            0 <= c1 < 9 && 0 <= c2 < 9 && #[trigger] backpack_slot(r1, c1) == #[trigger] backpack_slot(
                r2,
                c2,
            ) ==> r1 == r2 && c1 == c2,
{
    let row = (index - 9) / 9;
    let col = (index - 9) % 9;
    assert(backpack_slot(row, col) == index);
}

/// A slot of the player.
pub fn main_slot(index: usize) -> (slot: SlotRef)
    requires
        index < 256,
    ensures
        slot.area == SlotArea::Main,
        slot.index == index,
{
    SlotRef { area: SlotArea::Main, index: index as u8 }
}

/// A cell of a chest.
pub fn container_slot(row: usize, col: usize) -> (slot: SlotRef)
    requires
        row < GRID_ROWS,
        col < GRID_COLS,
    ensures
        slot.area == SlotArea::Container,
        slot.index == row * 9 + col,
{
    SlotRef { area: SlotArea::Container, index: (row * GRID_COLS + col) as u8 }
}

/// A slot of a furnace.
pub fn furnace_slot(index: usize) -> (slot: SlotRef)
    requires
        index < 256,
    ensures
        slot.area == SlotArea::Container,
        slot.index == index,
{
    SlotRef { area: SlotArea::Container, index: index as u8 }
}

/// What a slot holds.
pub fn read_slot(state: &GameState, container: &Option<OpenContainer>, slot: SlotRef) -> (stack: Option<
    ItemStack,
>)
    ensures
        stack == match slot.area {
            SlotArea::Main => slot_of(state.main@, slot.index as int),
            SlotArea::Container => match *container {
                Some(open) => slot_of(open.slots@, slot.index as int),
                None => None,
            },
        },
{
    match slot.area {
        SlotArea::Main => slot_at(&state.main, slot.index as usize),
        SlotArea::Container => match container {
            Some(open) => slot_at(&open.slots, slot.index as usize),
            None => None,
        },
    }
}

/// How worn a tool is: so much of its durability is spent.
#[derive(Clone, Copy, Debug, PartialEq, Eq, Structural)]
pub struct Wear {
    pub spent: u16,
    pub durability: u16,
}

/// How worn a stack is; `None` for what is no tool, and for a tool as new.
pub open spec fn wear_of(stack: ItemStack, items: ItemRegistry) -> Option<Wear> {
    match items.def(stack.item).tool {
        Some(tool) => if stack.damage == 0 || tool.durability == 0 {
            None
        } else {
            Some(
                Wear {
                    spent: if stack.damage < tool.durability {
                        stack.damage
                    } else {
                        tool.durability
                    },
                    durability: tool.durability,
                },
            )
        },
        None => None,
    }
}

/// How worn a stack is.
pub fn wear_fraction(stack: ItemStack, items: &ItemRegistry) -> (wear: Option<Wear>)
    requires
        items.has(stack.item),
    ensures
        wear == wear_of(stack, *items),
{
    match items.tool(stack.item) {
        Some(tool) => {
            if stack.damage == 0 || tool.durability == 0 {
                None
            } else {
                let spent: u16 = if stack.damage < tool.durability {
                    stack.damage
                } else {
                    tool.durability
                };
                Some(Wear { spent, durability: tool.durability })
            }
        },
        None => None,
    }
}

/// What a slot's square shows besides the icon.
#[derive(Debug)]
pub struct SlotVisual {
    /// The count, where it is more than one.
    pub count_text: String,
    pub wear: Option<Wear>,
}

/// What a slot's square shows besides the icon.
pub fn slot_visual(stack: Option<ItemStack>, items: &ItemRegistry) -> (visual: SlotVisual)
    requires
        stack is Some ==> items.has(stack->0.item),
    ensures
        match stack {
            None => visual.count_text@ == Seq::<char>::empty() && visual.wear is None,
            Some(s) => {
                &&& visual.count_text@ == if s.count > 1 {
                    decimal_of(s.count as int)
                } else {
                    Seq::empty()
                }
                &&& visual.wear == wear_of(s, *items)
            },
        },
{
    match stack {
        None => SlotVisual { count_text: String::new(), wear: None },
        Some(s) => SlotVisual {
            count_text: if s.count > 1 {
                decimal(s.count as u64)
            } else {
                String::new()
            },
            wear: wear_fraction(s, items),
        },
    }
}

/// Something that can be crafted.
#[derive(Debug)]
pub struct Recipe {
    pub inputs: Vec<ItemStack>,
    pub output: ItemStack,
    /// What it needs besides its inputs; nothing for bare hands.
    pub station: Option<CraftingStation>,
}

/// All recipes, indexed by id.
#[derive(Debug)]
pub struct RecipeRegistry {
    pub recipes: Vec<Recipe>,
}

/// Whether a recipe can be used at a station: those for bare hands anywhere,
/// the others only there.
pub open spec fn usable_at(recipe: Recipe, station: Option<CraftingStation>) -> bool {
    recipe.station is None || recipe.station == station
}

/// The ids of the first `n` recipes that can be used at a station.
pub open spec fn usable_ids(recipes: Seq<Recipe>, station: Option<CraftingStation>, n: int) -> Seq<u16>
    decreases n,
{
    if n <= 0 {
        Seq::empty()
    } else if usable_at(recipes[n - 1], station) {
        usable_ids(recipes, station, n - 1).push((n - 1) as u16)
    } else {
        usable_ids(recipes, station, n - 1)
    }
}

/// The ids of the recipes that can be used at a station, in order.
pub fn available_recipe_ids(reg: &RecipeRegistry, station: Option<CraftingStation>) -> (ids: Vec<u16>)
    requires
        reg.recipes@.len() <= 0x1_0000,
    ensures
        ids@ == usable_ids(reg.recipes@, station, reg.recipes@.len() as int),
{
    let mut ids: Vec<u16> = Vec::new();
    let mut n: usize = 0;
    while n < reg.recipes.len()
        invariant
            n <= reg.recipes@.len() <= 0x1_0000,
            ids@ == usable_ids(reg.recipes@, station, n as int),
        decreases reg.recipes@.len() - n,
    {
        let usable = match (reg.recipes[n].station, station) {
            (None, _) => true,
            (Some(a), Some(b)) => a == b,
            (Some(_), None) => false,
        };
        if usable {
            ids.push(n as u16);
        }
        n += 1;
    }
    ids
}

/// A station takes no recipe away: what bare hands can make is listed
/// everywhere.
pub proof fn law_stations_only_add(recipe: Recipe, station: Option<CraftingStation>)
    ensures
        usable_at(recipe, None) ==> usable_at(recipe, station),
{
}

/// How many of an item the first `n` slots hold.
pub open spec fn held(slots: Seq<Option<ItemStack>>, item: ItemId, n: int) -> int
    decreases n,
{
    if n <= 0 {
        0
    } else {
        held(slots, item, n - 1) + match slots[n - 1] {
            Some(s) => if s.item == item {
                s.count as int
            } else {
                0
            },
            None => 0,
        }
    }
}

/// How many of an item the first `n` inputs ask for.
pub open spec fn needed(inputs: Seq<ItemStack>, item: ItemId, n: int) -> int
    decreases n,
{
    if n <= 0 {
        0
    } else {
        needed(inputs, item, n - 1) + if inputs[n - 1].item == item {
            inputs[n - 1].count as int
        } else {
            0
        }
    }
}

/// Whether a recipe's inputs are all there.
pub open spec fn affordable(recipe: Recipe, main: Seq<Option<ItemStack>>) -> bool {
    forall|i: int|
        0 <= i < recipe.inputs@.len() ==> needed(
            recipe.inputs@,
            (#[trigger] recipe.inputs@[i]).item,
            recipe.inputs@.len() as int,
        ) <= held(main, recipe.inputs@[i].item, main.len() as int)
}

fn count_held(slots: &Vec<Option<ItemStack>>, item: ItemId) -> (total: u128)
    ensures
        total == held(slots@, item, slots@.len() as int),
{
    let mut total: u128 = 0;
    let mut n: usize = 0;
    while n < slots.len()
        invariant
            n <= slots@.len(),
            total == held(slots@, item, n as int),
            total <= n * 0xffff_ffff,
        decreases slots@.len() - n,
    {
        match slots[n] {
            Some(s) => {
                if s.item == item {
                    total = total + s.count as u128;
                }
            },
            None => {},
        }
        n += 1;
    }
    total
}

fn count_needed(inputs: &Vec<ItemStack>, item: ItemId) -> (total: u128)
    ensures
        total == needed(inputs@, item, inputs@.len() as int),
{
    let mut total: u128 = 0;
    let mut n: usize = 0;
    while n < inputs.len()
        invariant
            n <= inputs@.len(),
            total == needed(inputs@, item, n as int),
            total <= n * 0xffff_ffff,
        decreases inputs@.len() - n,
    {
        if inputs[n].item == item {
            total = total + inputs[n].count as u128;
        }
        n += 1;
    }
    total
}

/// Whether a recipe can be made once from the player's slots.
pub fn recipe_is_affordable(recipe: &Recipe, main: &Vec<Option<ItemStack>>) -> (b: bool)
    ensures
        b == affordable(*recipe, main@),
{
    let mut n: usize = 0;
    while n < recipe.inputs.len()
        invariant
            n <= recipe.inputs@.len(),
            forall|i: int|
                0 <= i < n ==> needed(
                    recipe.inputs@,
                    (#[trigger] recipe.inputs@[i]).item,
                    recipe.inputs@.len() as int,
                ) <= held(main@, recipe.inputs@[i].item, main@.len() as int),
        decreases recipe.inputs@.len() - n,
    {
        let item = recipe.inputs[n].item;
        if count_needed(&recipe.inputs, item) > count_held(main, item) {
            assert(recipe.inputs@[n as int].item == item);
            return false;
        }
        n += 1;
    }
    true
}

/// Whether each recipe can be made from the player's slots.
pub fn affordable_recipes(reg: &RecipeRegistry, main: &Vec<Option<ItemStack>>) -> (list: Vec<bool>)
    ensures
        list@.len() == reg.recipes@.len(),
        forall|i: int| 0 <= i < list@.len() ==> #[trigger] list@[i] == affordable(reg.recipes@[i], main@),
{
    let mut list: Vec<bool> = Vec::new();
    let mut n: usize = 0;
    while n < reg.recipes.len()
        invariant
            n <= reg.recipes@.len(),
            list@.len() == n,
            forall|i: int| 0 <= i < n ==> #[trigger] list@[i] == affordable(reg.recipes@[i], main@),
        decreases reg.recipes@.len() - n,
    {
        list.push(recipe_is_affordable(&reg.recipes[n], main));
        n += 1;
    }
    list
}

/// Whether a row of the recipe list is shown as affordable; an unknown one
/// is not.
pub fn row_is_affordable(list: &Vec<bool>, id: u16) -> (b: bool)
    ensures
        b == (id < list@.len() && list@[id as int]),
{
    (id as usize) < list.len() && list[id as usize]
}

/// A registry name as it is shown: words with capitals.
pub fn display_name(name: &str) -> (text: String)
    ensures
        text@ == in_words(name@),
{
    words_of(name)
}

/// The first `n` inputs of a recipe in words, with commas in between.
pub open spec fn inputs_in_words(items: ItemRegistry, inputs: Seq<ItemStack>, n: int) -> Seq<char>
    decreases n,
{
    if n <= 0 {
        Seq::empty()
    } else {
        let input = inputs[n - 1];
        let before = if n == 1 {
            Seq::empty()
        } else {
            inputs_in_words(items, inputs, n - 1) + ", "@
        };
        before + decimal_of(input.count as int) + " "@ + in_words(items.def(input.item).name@)
    }
}

/// What a recipe costs, in words.
pub fn needs_line(items: &ItemRegistry, recipe: &Recipe) -> (text: String)
    requires
        forall|i: int| 0 <= i < recipe.inputs@.len() ==> items.has((#[trigger] recipe.inputs@[i]).item),
    ensures
        text@ == "Needs "@ + inputs_in_words(
            *items,
            recipe.inputs@,
            recipe.inputs@.len() as int,
        ),
{
    let mut list = String::new();
    let mut n: usize = 0;
    while n < recipe.inputs.len()
        invariant
            n <= recipe.inputs@.len(),
            forall|i: int|
                0 <= i < recipe.inputs@.len() ==> items.has((#[trigger] recipe.inputs@[i]).item),
            list@ == inputs_in_words(*items, recipe.inputs@, n as int),
        decreases recipe.inputs@.len() - n,
    {
        let input = recipe.inputs[n];
        assert(items.has(recipe.inputs@[n as int].item));
        if n > 0 {
            list.append(", ");
        }
        let count = decimal(input.count as u64);
        let name = display_name(items.get(input.item).name.as_str());
        list.append(count.as_str());
        list.append(" ");
        list.append(name.as_str());
        n += 1;
    }
    joined("Needs ", list.as_str())
}

/// What a click on a slot asks for.
pub fn slot_click(left: bool, right: bool, shift: bool, hovered: Option<SlotRef>) -> (msg: Option<
    ClientToServer,
>)
    ensures
        msg == match hovered {
            Some(slot) => if left || right {
                Some(ClientToServer::SlotClick { slot, right, shift })
            } else {
                None
            },
            None => None,
        },
{
    if !left && !right {
        return None;
    }
    match hovered {
        Some(slot) => Some(ClientToServer::SlotClick { slot, right, shift }),
        None => None,
    }
}

/// What the drop key asks for: one item of the slot under the mouse, or all.
pub fn drop_key(pressed: bool, all: bool, hovered: Option<SlotRef>) -> (msg: Option<ClientToServer>)
    ensures
        msg == match hovered {
            Some(slot) => if pressed {
                Some(ClientToServer::DropSlot { slot, all })
            } else {
                None
            },
            None => None,
        },
{
    if !pressed {
        return None;
    }
    match hovered {
        Some(slot) => Some(ClientToServer::DropSlot { slot, all }),
        None => None,
    }
}

/// What a click on a recipe asks for: to make it once, or with shift as often
/// as possible.
pub fn recipe_click(recipe: u16, shift: bool) -> (msg: ClientToServer)
    ensures
        msg == (ClientToServer::Craft { recipe, all: shift }),
{
    ClientToServer::Craft { recipe, all: shift }
}

/// A screen is open exactly in the inventory state, and it is that of the
/// container that is open, or the plain one.
pub proof fn law_screens_match_containers(pause: PauseState, container: Option<ContainerKind>)
    ensures
        screen_for(pause, container) == ScreenKind::Closed <==> pause != PauseState::Inventory,
        pause == PauseState::Inventory ==> {
            &&& screen_for(pause, container) == ScreenKind::Plain <==> container is None
            &&& screen_for(pause, container) == ScreenKind::Chest <==> container == Some(
                ContainerKind::Chest,
            )
            &&& screen_for(pause, container) == ScreenKind::CraftingTable <==> container == Some(
                ContainerKind::CraftingTable,
            )
            &&& screen_for(pause, container) == ScreenKind::Furnace <==> container == Some(
                ContainerKind::Furnace,
            )
            &&& screen_for(pause, container) == ScreenKind::Factory <==> container == Some(
                ContainerKind::Factory,
            )
        },
        e_key_leads(pause) is Some <==> pause == PauseState::Playing || pause
            == PauseState::Inventory,
        pause == PauseState::Playing ==> e_key_leads(pause) == Some(PauseState::Inventory),
{
}

/// The backpack is filled row by row behind the hotbar's nine slots.
pub proof fn law_backpack_goes_row_by_row(row: int, col: int)
    ensures
        backpack_slot(0, 0) == 9,
        backpack_slot(row, col + 1) == backpack_slot(row, col) + 1,
        backpack_slot(row + 1, col) == backpack_slot(row, col) + 9,
{
}

/// Only tools that can wear out and have been used show wear, as much as the
/// damage and never more than the whole.
pub proof fn law_only_used_tools_show_wear(stack: ItemStack, items: ItemRegistry)
    ensures
        ({
            let tool = items.defs@[stack.item.0 as int].tool;
            let wear = wear_of(stack, items);
            &&& wear is Some <==> tool is Some && stack.damage > 0 && tool->0.durability > 0
            &&& wear is Some ==> wear->0.durability == tool->0.durability
            &&& wear is Some && stack.damage <= tool->0.durability ==> wear->0.spent == stack.damage
            &&& wear is Some && stack.damage > tool->0.durability ==> wear->0.spent
                == tool->0.durability
        }),
{
}

/// A recipe is listed exactly if it needs no station or the one at hand; each
/// is listed once, in the order of the recipes.
pub proof fn law_usable_recipes_are_listed(
    recipes: Seq<Recipe>,
    station: Option<CraftingStation>,
    n: int,
    id: u16,
)
    requires
        0 <= n <= recipes.len(),
        n <= 0x1_0000,
    ensures
        usable_ids(recipes, station, n).contains(id) <==> id < n && (recipes[id as int].station
            is None || recipes[id as int].station == station),
        forall|i: int, j: int|
            0 <= i < j < usable_ids(recipes, station, n).len() ==> (#[trigger] usable_ids(
                recipes,
                station,
                n,
            )[i]) < (#[trigger] usable_ids(recipes, station, n)[j]),
        forall|i: int|
            0 <= i < usable_ids(recipes, station, n).len() ==> (#[trigger] usable_ids(
                recipes,
                station,
                n,
            )[i]) < n,
    decreases n,
{
    if n > 0 {
        law_usable_recipes_are_listed(recipes, station, n - 1, id);
        crate::lists::lemma_push_contains(usable_ids(recipes, station, n - 1), (n - 1) as u16);
    }
}

/// What is held of an item adds up over all slots, other items left out.
pub proof fn law_slots_add_up(slots: Seq<Option<ItemStack>>, slot: Option<ItemStack>, item: ItemId)
    ensures
        held(slots, item, 0) == 0,
        held(slots.push(slot), item, slots.len() as int + 1) == held(slots, item, slots.len() as int) + if slot
            is Some && slot->0.item == item {
            slot->0.count as int
        } else {
            0
        },
{
    lemma_held_prefix(slots, slots.push(slot), item, slots.len() as int);
}

proof fn lemma_held_prefix(
    a: Seq<Option<ItemStack>>,
    b: Seq<Option<ItemStack>>,
    item: ItemId,
    n: int,
)
    requires
        n <= a.len(),
        n <= b.len(),
        forall|k: int| 0 <= k < n ==> #[trigger] a[k] == b[k],
    ensures
        held(a, item, n) == held(b, item, n),
    decreases n,
{
    if n > 0 {
        lemma_held_prefix(a, b, item, n - 1);
        assert(a[n - 1] == b[n - 1]);
    }
}

/// A recipe can be made exactly if, of each item, at least as many are held as
/// its inputs ask for together; inputs of the same item add up.
pub proof fn law_affordable_means_enough_of_each(
    recipe: Recipe,
    main: Seq<Option<ItemStack>>,
    inputs: Seq<ItemStack>,
    input: ItemStack,
    item: ItemId,
)
    ensures
        affordable(recipe, main) ==> forall|i: int|
            0 <= i < recipe.inputs@.len() ==> held(
                main,
                (#[trigger] recipe.inputs@[i]).item,
                main.len() as int,
            ) >= needed(
                recipe.inputs@,
                recipe.inputs@[i].item,
                recipe.inputs@.len() as int,
            ),
        !affordable(recipe, main) ==> exists|i: int|
            0 <= i < recipe.inputs@.len() && held(
                main,
                (#[trigger] recipe.inputs@[i]).item,
                main.len() as int,
            ) < needed(recipe.inputs@, recipe.inputs@[i].item, recipe.inputs@.len() as int),
        needed(inputs, item, 0) == 0,
        needed(inputs.push(input), item, inputs.len() as int + 1) == needed(
            inputs,
            item,
            inputs.len() as int,
        ) + if input.item == item {
            input.count as int
        } else {
            0
        },
{
    lemma_needed_prefix(inputs, inputs.push(input), item, inputs.len() as int);
}

proof fn lemma_needed_prefix(a: Seq<ItemStack>, b: Seq<ItemStack>, item: ItemId, n: int)
    requires
        n <= a.len(),
        n <= b.len(),
        forall|k: int| 0 <= k < n ==> #[trigger] a[k] == b[k],
    ensures
        needed(a, item, n) == needed(b, item, n),
    decreases n,
{
    if n > 0 {
        lemma_needed_prefix(a, b, item, n - 1);
        assert(a[n - 1] == b[n - 1]);
    }
}

/// The inventory key opens the inventory from the game and closes it again;
/// from the pause menu and its settings it leads nowhere.
pub proof fn law_the_inventory_key_opens_and_closes(state: PauseState)
    ensures
        e_key_leads(state) == Some(PauseState::Inventory) <==> state == PauseState::Playing,
        e_key_leads(state) == Some(PauseState::Playing) <==> state == PauseState::Inventory,
        e_key_leads(state) is None <==> state == PauseState::Paused || state
            == PauseState::Settings,
{
}

/// A recipe's cost names each input once, in order, with its count before it
/// and a comma between one and the next.
pub proof fn law_costs_name_each_input(
    items: ItemRegistry,
    inputs: Seq<ItemStack>,
    input: ItemStack,
)
    ensures
        ({
            let one = decimal_of(input.count as int) + " "@ + in_words(items.def(input.item).name@);
            let rest = inputs_in_words(items, inputs, inputs.len() as int);
            let all = inputs_in_words(items, inputs.push(input), inputs.len() as int + 1);
            &&& inputs.len() == 0 ==> all == one
            &&& inputs.len() > 0 ==> all == rest + ", "@ + one
        }),
{
    let more = inputs.push(input);
    let one = decimal_of(input.count as int) + " "@ + in_words(items.def(input.item).name@);
    lemma_words_of_first(items, inputs, more, inputs.len() as int);
    let all = inputs_in_words(items, more, inputs.len() as int + 1);
    if inputs.len() == 0 {
        assert(all =~= one);
    } else {
        assert(all =~= inputs_in_words(items, inputs, inputs.len() as int) + ", "@ + one);
    }
}

proof fn lemma_words_of_first(items: ItemRegistry, a: Seq<ItemStack>, b: Seq<ItemStack>, n: int)
    requires
        0 <= n <= a.len(),
        n <= b.len(),
        forall|i: int| 0 <= i < n ==> a[i] == b[i],
    ensures
        inputs_in_words(items, a, n) == inputs_in_words(items, b, n),
    decreases n,
{
    if n > 0 {
        lemma_words_of_first(items, a, b, n - 1);
    }
}

} // verus!
