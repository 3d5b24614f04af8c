//! Mining, inventory, machines, icons, translations.

use tsumiki::bits::F32Bits;
use tsumiki::blocks::{BlockDef, BlockRegistry, KnownBlocks};
use tsumiki::chunk::{BlockId, Chunk, Rgb};
use tsumiki::factory::{
    factory_action, flow_direction, shows_status, status_text, sync_cargo, BeltFlow,
    FactoryBufferView, FactoryView,
};
use tsumiki::geometry::{IVec3, UVec3};
use tsumiki::hotbar::Hotbar;
use tsumiki::i18n::{fill, lookup, Catalog, Language, LocalizedText, Locales};
use tsumiki::icons::{rect, PixelRect, CELL_SIZE};
use tsumiki::interact::{
    can_till, find_placement, handle_mining_and_placing, held_tool, is_target, missing_tool_text,
    shown_progress, Clicks, Hands, Hit, MiningProgress,
};
use tsumiki::inventory::{
    affordable_recipes, available_recipe_ids, backpack_index, container_slot, desired_screen,
    display_name, drop_key, e_key_target, furnace_slot, main_slot, needs_line, read_slot,
    recipe_click, recipe_is_affordable, row_is_affordable, screen_change, slot_click, slot_visual,
    station_for, title_for, wear_fraction, CraftingStation, Recipe, RecipeRegistry, ScreenKind,
};
use tsumiki::item::{ItemDef, ItemId, ItemRegistry, ItemStack, ToolDef, ToolKind, ToolTier};
use tsumiki::packed::PackedSet;
use tsumiki::pause::PauseState;
use tsumiki::protocol::{
    ClientToServer, ContainerKind, FactoryAction, GameMode, SlotArea, SlotRef, CHEST_SIZE,
    HOTBAR_SIZE,
};
use tsumiki::state::{GameState, OpenContainer};
use tsumiki::view::{block_at, ChunkStore};

// ---- a small catalog ----

const AIR: BlockId = BlockId(0);
const STONE: BlockId = BlockId(1);
const DIRT: BlockId = BlockId(2);
const GRASS: BlockId = BlockId(3);
const WATER: BlockId = BlockId(4);
const IRON_ORE: BlockId = BlockId(5);
const CHEST_BLOCK: BlockId = BlockId(6);
const FARMLAND: BlockId = BlockId(7);
const WHEAT: BlockId = BlockId(8);
const MINER: BlockId = BlockId(9);
const POWERED_FURNACE: BlockId = BlockId(10);

const STICK: ItemId = ItemId(1);
const PLANKS: ItemId = ItemId(2);
const LOG: ItemId = ItemId(3);
const CHEST: ItemId = ItemId(4);
const BREAD: ItemId = ItemId(5);
const STONE_ITEM: ItemId = ItemId(6);
const SEEDS: ItemId = ItemId(7);
const IRON_ORE_ITEM: ItemId = ItemId(8);
const IRON_INGOT: ItemId = ItemId(9);
const WOODEN_PICKAXE: ItemId = ItemId(10);
const STONE_PICKAXE: ItemId = ItemId(11);
const IRON_PICKAXE: ItemId = ItemId(12);
const WOODEN_SHOVEL: ItemId = ItemId(13);
const STONE_SHOVEL: ItemId = ItemId(14);
const IRON_SHOVEL: ItemId = ItemId(15);
const WOODEN_AXE: ItemId = ItemId(16);
const IRON_AXE: ItemId = ItemId(17);
const TOAST: ItemId = ItemId(18);

fn block(name: &str, solid: bool) -> BlockDef {
    BlockDef {
        name: name.to_string(),
        opaque: solid,
        solid,
        targetable: solid,
        interactive: name == "chest",
        color_top: Rgb::new(0, 0, 0),
        color_side: Rgb::new(0, 0, 0),
        color_bottom: Rgb::new(0, 0, 0),
        light_emission: Rgb::new(0, 0, 0),
        tool: None,
        harvest_tier: None,
    }
}

fn blocks() -> BlockRegistry {
    let mut defs = vec![
        block("air", false),
        block("stone", true),
        block("dirt", true),
        block("grass", true),
        block("water", false),
        block("iron_ore", true),
        block("chest", true),
        block("farmland", true),
        block("wheat_young", false),
        block("miner", true),
        block("powered_furnace", true),
    ];
    defs[1].tool = Some(ToolKind::Pickaxe);
    defs[1].harvest_tier = Some(ToolTier::Wood);
    defs[5].tool = Some(ToolKind::Pickaxe);
    defs[5].harvest_tier = Some(ToolTier::Stone);
    defs[2].tool = Some(ToolKind::Shovel);
    BlockRegistry {
        defs,
        known: KnownBlocks {
            torch: BlockId(60),
            log: BlockId(61),
            water: WATER,
            grass: GRASS,
            dirt: DIRT,
            farmland: FARMLAND,
            wheat_young: WHEAT,
            miner: MINER,
        },
    }
}

fn items() -> ItemRegistry {
    let plain = |name: &str| ItemDef {
        name: name.to_string(),
        tool: None,
        places: None,
        edible: false,
    };
    let tool = |name: &str, kind: ToolKind, tier: ToolTier| ItemDef {
        tool: Some(ToolDef { kind, tier, durability: 100 }),
        ..plain(name)
    };
    ItemRegistry {
        defs: vec![
            plain(""),
            plain("stick"),
            plain("planks"),
            plain("log"),
            ItemDef { places: Some(CHEST_BLOCK), ..plain("chest") },
            ItemDef { edible: true, ..plain("bread") },
            ItemDef { places: Some(STONE), ..plain("stone") },
            ItemDef { places: Some(WHEAT), ..plain("seeds") },
            plain("iron_ore"),
            plain("iron_ingot"),
            tool("wooden_pickaxe", ToolKind::Pickaxe, ToolTier::Wood),
            tool("stone_pickaxe", ToolKind::Pickaxe, ToolTier::Stone),
            tool("iron_pickaxe", ToolKind::Pickaxe, ToolTier::Iron),
            tool("wooden_shovel", ToolKind::Shovel, ToolTier::Wood),
            tool("stone_shovel", ToolKind::Shovel, ToolTier::Stone),
            tool("iron_shovel", ToolKind::Shovel, ToolTier::Iron),
            tool("wooden_axe", ToolKind::Axe, ToolTier::Wood),
            tool("iron_axe", ToolKind::Axe, ToolTier::Iron),
            ItemDef { edible: true, ..plain("toast") },
        ],
    }
}

/// Whether a tool is good enough for a block.
fn can_harvest(block: &BlockDef, tool: Option<ToolDef>) -> bool {
    match (block.harvest_tier, block.tool) {
        (Some(tier), Some(kind)) => {
            tool.is_some_and(|t| t.kind == kind && t.tier as u8 >= tier as u8)
        }
        _ => true,
    }
}

fn holding(item: ItemId) -> GameState {
    let mut state = GameState::default();
    state.main[0] = Some(ItemStack::one(item));
    state
}

fn world() -> ChunkStore {
    let mut store = ChunkStore::new(2);
    let mut chunk = Chunk::filled(AIR);
    chunk.set(UVec3::new(2, 2, 2), DIRT);
    chunk.set(UVec3::new(5, 2, 5), STONE);
    chunk.set(UVec3::new(7, 2, 7), CHEST_BLOCK);
    chunk.set(UVec3::new(9, 2, 9), FARMLAND);
    chunk.set(UVec3::new(5, 3, 6), WATER);
    store.chunks.insert(IVec3::new(0, 0, 0), chunk);
    store
}

fn no_clicks() -> Clicks {
    Clicks {
        grabbed: true,
        dead: false,
        escape_pressed: false,
        inventory_pressed: false,
        left_down: false,
        left_pressed: false,
        right_pressed: false,
        dt: 0,
        break_time: 0,
        place_blocked: false,
    }
}

fn right() -> Clicks {
    Clicks { right_pressed: true, ..no_clicks() }
}

fn on_top(x: i32, y: i32, z: i32) -> Hit {
    Hit { block: IVec3::new(x, y, z), face_normal: IVec3::new(0, 1, 0) }
}

struct Scene {
    store: ChunkStore,
    mining: MiningProgress,
    state: GameState,
    mode: GameMode,
    blocks: BlockRegistry,
    items: ItemRegistry,
}

impl Scene {
    fn new(item: ItemId, mode: GameMode) -> Self {
        Scene {
            store: world(),
            mining: MiningProgress::default(),
            state: holding(item),
            mode,
            blocks: blocks(),
            items: items(),
        }
    }

    fn frame(&mut self, target: Option<Hit>, clicks: Clicks) -> Vec<ClientToServer> {
        let hands = Hands {
            hotbar: Hotbar::default(),
            main: &self.state.main,
            mode: self.mode,
            items: &self.items,
            blocks: &self.blocks,
        };
        handle_mining_and_placing(&mut self.mining, &mut self.store, hands, target, clicks)
    }
}

// ---- mining and placing ----

#[test]
fn food_right_click_sends_eat_without_a_target_and_waits_for_server_inventory() {
    let mut scene = Scene::new(BREAD, GameMode::Survival);
    let sent = scene.frame(None, right());
    assert_eq!(sent.len(), 1);
    assert!(matches!(sent[0], ClientToServer::Eat { hotbar: 0 }));
    assert_eq!(scene.state.main[0], Some(ItemStack::one(BREAD)));
}

#[test]
fn food_does_not_consume_grab_menu_or_death_clicks() {
    for gate in 0..4 {
        let mut scene = Scene::new(TOAST, GameMode::Survival);
        let mut clicks = right();
        match gate {
            0 => clicks.grabbed = false,
            1 => clicks.dead = true,
            2 => clicks.escape_pressed = true,
            _ => clicks.inventory_pressed = true,
        }
        assert!(scene.frame(None, clicks).is_empty(), "gate {gate}");
    }
}

#[test]
fn shovel_right_click_requests_tilling_without_predicting_soil_or_tool_wear() {
    let mut scene = Scene::new(WOODEN_SHOVEL, GameMode::Survival);
    let pos = IVec3::new(2, 2, 2);
    let sent = scene.frame(Some(on_top(2, 2, 2)), right());
    assert_eq!(sent.len(), 1);
    assert!(matches!(sent[0], ClientToServer::TillSoil { pos: hit, hotbar: 0 } if hit == pos));
    assert_eq!(block_at(&scene.store, pos), Some(DIRT));
    assert_eq!(scene.state.main[0], Some(ItemStack::one(WOODEN_SHOVEL)));
}

#[test]
fn tilling_requires_a_shovel_and_the_top_of_soil() {
    let reg = items();
    let known = blocks().known;
    let up = IVec3::new(0, 1, 0);
    for shovel in [WOODEN_SHOVEL, STONE_SHOVEL, IRON_SHOVEL] {
        for block in [GRASS, DIRT] {
            assert!(can_till(&known, block, up, reg.tool(shovel)));
            assert!(!can_till(&known, block, IVec3::new(1, 0, 0), reg.tool(shovel)));
            assert!(!can_till(&known, block, IVec3::new(0, -1, 0), reg.tool(shovel)));
        }
        assert!(!can_till(&known, STONE, up, reg.tool(shovel)));
    }
    assert!(!can_till(&known, DIRT, up, None));
    assert!(!can_till(&known, DIRT, up, reg.tool(IRON_AXE)));
}

#[test]
fn held_tool_is_none_for_bare_hands() {
    assert_eq!(held_tool(None, &items()), None);
}

#[test]
fn held_tool_is_none_for_a_non_tool_item() {
    assert_eq!(held_tool(Some(ItemStack::one(STICK)), &items()), None);
}

#[test]
fn held_tool_reads_the_selected_stack() {
    let reg = items();
    let expected = reg.tool(STONE_PICKAXE);
    assert!(expected.is_some());
    assert_eq!(held_tool(Some(ItemStack::one(STONE_PICKAXE)), &reg), expected);
}

#[test]
fn missing_tool_text_is_none_once_the_gate_is_met() {
    let (b, i) = (blocks(), items());
    let stone = b.get(STONE);
    let pick = held_tool(Some(ItemStack::one(WOODEN_PICKAXE)), &i);
    assert_eq!(missing_tool_text(&i, stone, can_harvest(stone, pick)), None);
}

#[test]
fn missing_tool_text_names_the_required_tool_bare_handed() {
    let (b, i) = (blocks(), items());
    let stone = b.get(STONE);
    assert_eq!(
        missing_tool_text(&i, stone, can_harvest(stone, None)),
        Some("Needs a wooden pickaxe".to_string())
    );
}

#[test]
fn missing_tool_text_names_a_higher_tier_for_iron_ore() {
    let (b, i) = (blocks(), items());
    let ore = b.get(IRON_ORE);
    let wood = held_tool(Some(ItemStack::one(WOODEN_PICKAXE)), &i);
    assert_eq!(
        missing_tool_text(&i, ore, can_harvest(ore, wood)),
        Some("Needs a stone pickaxe".to_string())
    );
}

#[test]
fn missing_tool_text_is_none_for_an_ungated_block() {
    let (b, i) = (blocks(), items());
    let dirt = b.get(DIRT);
    assert_eq!(missing_tool_text(&i, dirt, can_harvest(dirt, None)), None);
    assert_eq!(missing_tool_text(&i, dirt, false), None);
}

#[test]
fn survival_mining_takes_its_time_and_leaves_the_block_to_the_server() {
    let mut scene = Scene::new(STONE_PICKAXE, GameMode::Survival);
    let hit = on_top(5, 2, 5);
    let hold = Clicks { left_down: true, dt: 40, break_time: 100, ..no_clicks() };
    assert!(scene.frame(Some(hit), hold).is_empty());
    assert!(scene.frame(Some(hit), hold).is_empty());
    assert_eq!(
        shown_progress(GameMode::Survival, &scene.mining),
        Some((hit.block, 80))
    );
    assert_eq!(shown_progress(GameMode::Creative, &scene.mining), None);
    let sent = scene.frame(Some(hit), hold);
    assert!(matches!(
        sent[0],
        ClientToServer::BreakBlock { pos, hotbar: 0 } if pos == hit.block
    ));
    assert_eq!(block_at(&scene.store, hit.block), Some(STONE));
    assert_eq!(scene.mining, MiningProgress::default());
}

#[test]
fn mining_starts_over_with_another_target_or_a_released_button() {
    let mut scene = Scene::new(STONE_PICKAXE, GameMode::Survival);
    let hold = Clicks { left_down: true, dt: 60, break_time: 100, ..no_clicks() };
    assert!(scene.frame(Some(on_top(5, 2, 5)), hold).is_empty());
    assert!(scene.frame(Some(on_top(2, 2, 2)), hold).is_empty());
    assert_eq!(scene.mining.elapsed, 60);
    scene.frame(Some(on_top(2, 2, 2)), no_clicks());
    assert_eq!(scene.mining, MiningProgress::default());
    let at_once = Clicks { break_time: 0, ..hold };
    assert_eq!(scene.frame(Some(on_top(2, 2, 2)), at_once).len(), 1);
}

#[test]
fn creative_clicks_act_at_once() {
    let mut scene = Scene::new(STONE_ITEM, GameMode::Creative);
    let hit = on_top(5, 2, 5);
    let click = Clicks { left_down: true, left_pressed: true, break_time: 100, ..no_clicks() };
    let sent = scene.frame(Some(hit), click);
    assert!(matches!(sent[0], ClientToServer::BreakBlock { .. }));
    assert_eq!(block_at(&scene.store, hit.block), Some(AIR));
    let hold = Clicks { left_pressed: false, ..click };
    assert!(scene.frame(Some(hit), hold).is_empty());

    let sent = scene.frame(Some(on_top(2, 2, 2)), right());
    assert!(matches!(sent[0], ClientToServer::PlaceBlock { pos, hotbar: 0 } if pos == IVec3::new(2, 3, 2)));
    assert_eq!(block_at(&scene.store, IVec3::new(2, 3, 2)), Some(STONE));
}

#[test]
fn placing_asks_the_server_and_is_refused_where_it_cannot_be() {
    let mut scene = Scene::new(STONE_ITEM, GameMode::Survival);
    let dest = IVec3::new(2, 3, 2);
    let sent = scene.frame(Some(on_top(2, 2, 2)), right());
    assert!(matches!(sent[0], ClientToServer::PlaceBlock { pos, .. } if pos == dest));
    assert_eq!(block_at(&scene.store, dest), Some(AIR), "survival predicts nothing");

    let blocked = Clicks { place_blocked: true, ..right() };
    assert!(scene.frame(Some(on_top(2, 2, 2)), blocked).is_empty());
    let inside = Hit { block: dest, face_normal: IVec3::new(0, 0, 0) };
    assert!(scene.frame(Some(inside), right()).is_empty());
    assert!(scene.frame(Some(on_top(5, 63, 5)), right()).is_empty(), "above the world");
    let into_water = Hit { block: IVec3::new(5, 2, 6), face_normal: IVec3::new(0, 1, 0) };
    assert_eq!(scene.frame(Some(into_water), right()).len(), 1, "water gives way");
    let into_stone = Hit { block: IVec3::new(5, 1, 5), face_normal: IVec3::new(0, 1, 0) };
    assert!(scene.frame(Some(into_stone), right()).is_empty());
    let unknown = Hit { block: IVec3::new(31, 2, 5), face_normal: IVec3::new(1, 0, 0) };
    assert!(scene.frame(Some(unknown), right()).is_empty());
    scene.state.main[0] = Some(ItemStack::one(STICK));
    assert!(scene.frame(Some(on_top(2, 2, 2)), right()).is_empty(), "a stick places nothing");
}

#[test]
fn wheat_is_planted_on_farmland_only() {
    let scene = Scene::new(SEEDS, GameMode::Survival);
    let hands = Hands {
        hotbar: Hotbar::default(),
        main: &scene.state.main,
        mode: scene.mode,
        items: &scene.items,
        blocks: &scene.blocks,
    };
    assert_eq!(
        find_placement(&scene.store, hands, on_top(9, 2, 9), right()),
        Some((IVec3::new(9, 3, 9), WHEAT))
    );
    assert_eq!(find_placement(&scene.store, hands, on_top(2, 2, 2), right()), None);
}

#[test]
fn a_chest_is_opened_rather_than_built_on() {
    let mut scene = Scene::new(STONE_ITEM, GameMode::Survival);
    let sent = scene.frame(Some(on_top(7, 2, 7)), right());
    assert_eq!(sent.len(), 1);
    assert!(matches!(sent[0], ClientToServer::OpenContainer { pos } if pos == IVec3::new(7, 2, 7)));
}

#[test]
fn the_crosshair_stops_at_what_can_be_targeted() {
    let (store, reg) = (world(), blocks());
    assert!(is_target(&store, &reg, IVec3::new(5, 2, 5)));
    assert!(!is_target(&store, &reg, IVec3::new(5, 3, 6)));
    assert!(!is_target(&store, &reg, IVec3::new(99, 2, 5)));
}

// ---- inventory ----

#[test]
fn hotbar_slots_use_the_shared_slot_visual_rendering() {
    let reg = items();
    let visual = slot_visual(Some(ItemStack::one(LOG)), &reg);
    assert_eq!(visual.count_text, "", "a lone item shows no count");
    let stacked = slot_visual(Some(ItemStack::new(LOG, 12)), &reg);
    assert_eq!(stacked.count_text, "12");
}

#[test]
fn screen_is_closed_unless_pause_state_is_inventory() {
    assert_eq!(desired_screen(PauseState::Playing, None), ScreenKind::Closed);
    assert_eq!(
        desired_screen(PauseState::Paused, Some(ContainerKind::Chest)),
        ScreenKind::Closed
    );
    assert_eq!(desired_screen(PauseState::Settings, None), ScreenKind::Closed);
}

#[test]
fn open_screen_reflects_the_container_kind() {
    assert_eq!(desired_screen(PauseState::Inventory, None), ScreenKind::Plain);
    assert_eq!(
        desired_screen(PauseState::Inventory, Some(ContainerKind::Chest)),
        ScreenKind::Chest
    );
    assert_eq!(
        desired_screen(PauseState::Inventory, Some(ContainerKind::CraftingTable)),
        ScreenKind::CraftingTable
    );
    assert_eq!(
        desired_screen(PauseState::Inventory, Some(ContainerKind::Furnace)),
        ScreenKind::Furnace
    );
    assert_eq!(
        screen_change(ScreenKind::Plain, PauseState::Inventory, None),
        None
    );
    assert_eq!(
        screen_change(ScreenKind::Plain, PauseState::Playing, None),
        Some(ScreenKind::Closed)
    );
}

#[test]
fn only_a_crafting_table_screen_grants_a_station() {
    assert_eq!(station_for(ScreenKind::Plain), None);
    assert_eq!(station_for(ScreenKind::Chest), None);
    assert_eq!(station_for(ScreenKind::Furnace), None);
    assert_eq!(
        station_for(ScreenKind::CraftingTable),
        Some(CraftingStation::CraftingTable)
    );
    assert_eq!(title_for(ScreenKind::CraftingTable), "Crafting Table");
    assert_eq!(title_for(ScreenKind::Closed), "");
}

#[test]
fn e_key_toggles_between_playing_and_inventory() {
    assert_eq!(e_key_target(PauseState::Playing), Some(PauseState::Inventory));
    assert_eq!(e_key_target(PauseState::Inventory), Some(PauseState::Playing));
    assert_eq!(e_key_target(PauseState::Paused), None);
    assert_eq!(e_key_target(PauseState::Settings), None);
}

#[test]
fn backpack_index_offsets_past_the_hotbar() {
    assert_eq!(backpack_index(0, 0), HOTBAR_SIZE);
    assert_eq!(backpack_index(2, 8), HOTBAR_SIZE + 26);
}

#[test]
fn container_slot_ref_is_row_major() {
    assert_eq!(container_slot(0, 0), SlotRef { area: SlotArea::Container, index: 0 });
    assert_eq!(container_slot(2, 8), SlotRef { area: SlotArea::Container, index: 26 });
}

#[test]
fn furnace_slots_map_to_the_smelting_indices() {
    for index in 0..3 {
        assert_eq!(
            furnace_slot(index),
            SlotRef { area: SlotArea::Container, index: index as u8 }
        );
    }
}

fn chest_with(stack: ItemStack) -> Option<OpenContainer> {
    let mut slots = vec![None; CHEST_SIZE];
    slots[0] = Some(stack);
    Some(OpenContainer {
        kind: ContainerKind::Chest,
        pos: IVec3::new(0, 0, 0),
        slots,
        cook: F32Bits(0),
        fuel: F32Bits(0),
    })
}

#[test]
fn read_slot_reads_the_matching_snapshot_field() {
    let mut state = GameState::default();
    state.main[3] = Some(ItemStack::one(STICK));
    assert_eq!(
        read_slot(&state, &None, main_slot(3)),
        Some(ItemStack::one(STICK))
    );
}

#[test]
fn container_slot_reads_from_the_open_container() {
    let state = GameState::default();
    let container = chest_with(ItemStack::one(CHEST));
    assert_eq!(
        read_slot(&state, &container, container_slot(0, 0)),
        Some(ItemStack::one(CHEST))
    );
    assert_eq!(read_slot(&state, &container, furnace_slot(200)), None);
}

#[test]
fn container_slot_is_none_when_nothing_is_open() {
    let state = GameState::default();
    assert_eq!(read_slot(&state, &None, container_slot(0, 0)), None);
}

#[test]
fn slot_visual_hides_the_count_for_a_lone_item() {
    assert_eq!(slot_visual(Some(ItemStack::one(STICK)), &items()).count_text, "");
}

#[test]
fn slot_visual_shows_the_count_above_one() {
    assert_eq!(slot_visual(Some(ItemStack::new(STICK, 5)), &items()).count_text, "5");
}

#[test]
fn slot_visual_empty_slot_is_the_empty_color_with_no_count() {
    let visual = slot_visual(None, &items());
    assert_eq!(visual.count_text, "");
    assert_eq!(visual.wear, None);
}

#[test]
fn wear_fraction_is_none_for_a_fresh_tool() {
    assert_eq!(wear_fraction(ItemStack::one(STONE_PICKAXE), &items()), None);
}

#[test]
fn wear_fraction_is_none_for_a_non_tool_item() {
    let stack = ItemStack::one(STICK).with_damage(5);
    assert_eq!(wear_fraction(stack, &items()), None);
}

#[test]
fn wear_fraction_is_damage_over_durability() {
    let reg = items();
    let durability = reg.tool(STONE_PICKAXE).unwrap().durability;
    let half_worn = ItemStack::one(STONE_PICKAXE).with_damage(durability / 2);
    let wear = wear_fraction(half_worn, &reg).expect("a damaged tool shows a bar");
    let fraction = f32::from(wear.spent) / f32::from(wear.durability);
    assert!((fraction - 0.5).abs() < 0.01);
}

#[test]
fn wear_fraction_shows_no_bar_at_zero_damage() {
    let fresh = ItemStack::one(IRON_PICKAXE).with_damage(0);
    assert_eq!(wear_fraction(fresh, &items()), None);
}

#[test]
fn wear_fraction_is_full_at_max_durability() {
    let reg = items();
    let durability = reg.tool(IRON_PICKAXE).unwrap().durability;
    let worn_out = wear_fraction(ItemStack::one(IRON_PICKAXE).with_damage(durability), &reg);
    assert_eq!(worn_out.map(|w| w.spent), Some(durability));
    let beyond = wear_fraction(ItemStack::one(IRON_PICKAXE).with_damage(u16::MAX), &reg);
    assert_eq!(beyond, worn_out);
}

#[test]
fn slot_visual_carries_the_wear_fraction_through() {
    let reg = items();
    let durability = reg.tool(WOODEN_AXE).unwrap().durability;
    let stack = ItemStack::one(WOODEN_AXE).with_damage(durability);
    let wear = slot_visual(Some(stack), &reg).wear.unwrap();
    assert_eq!(wear.spent, wear.durability);
    assert_eq!(slot_visual(Some(ItemStack::one(WOODEN_AXE)), &reg).wear, None);
}

fn recipes() -> RecipeRegistry {
    RecipeRegistry {
        recipes: vec![
            Recipe {
                inputs: vec![ItemStack::one(LOG)],
                output: ItemStack::new(PLANKS, 4),
                station: None,
            },
            Recipe {
                inputs: vec![ItemStack::new(PLANKS, 2)],
                output: ItemStack::new(STICK, 4),
                station: None,
            },
            Recipe {
                inputs: vec![ItemStack::new(PLANKS, 8)],
                output: ItemStack::one(CHEST),
                station: Some(CraftingStation::CraftingTable),
            },
        ],
    }
}

#[test]
fn available_recipe_ids_grow_with_a_crafting_table() {
    let reg = recipes();
    let hand = available_recipe_ids(&reg, None);
    let table = available_recipe_ids(&reg, Some(CraftingStation::CraftingTable));
    assert!(hand.iter().all(|id| table.contains(id)));
    assert!(
        table.len() > hand.len(),
        "a crafting table must unlock something the recipe list can show"
    );
}

#[test]
fn available_recipe_ids_matches_the_registry_order() {
    assert_eq!(available_recipe_ids(&recipes(), None), vec![0, 1]);
    assert_eq!(
        available_recipe_ids(&recipes(), Some(CraftingStation::CraftingTable)),
        vec![0, 1, 2]
    );
}

#[test]
fn recipe_is_affordable_reflects_current_materials() {
    let reg = recipes();
    let planks_recipe = &reg.recipes[0];
    assert_eq!(planks_recipe.output.item, PLANKS);
    let empty: Vec<Option<ItemStack>> = vec![None; 36];
    assert!(!recipe_is_affordable(planks_recipe, &empty));
    let mut with_log = empty.clone();
    with_log[0] = Some(ItemStack::one(LOG));
    assert!(recipe_is_affordable(planks_recipe, &with_log));
}

#[test]
fn recipe_is_affordable_is_false_with_only_a_partial_stack() {
    let reg = recipes();
    let sticks_recipe = &reg.recipes[1];
    assert_eq!(sticks_recipe.output.item, STICK);
    let mut main: Vec<Option<ItemStack>> = vec![None; 36];
    main[0] = Some(ItemStack::one(PLANKS));
    assert!(!recipe_is_affordable(sticks_recipe, &main));
    main[0] = Some(ItemStack::new(PLANKS, 2));
    assert!(recipe_is_affordable(sticks_recipe, &main));
}

#[test]
fn materials_are_counted_over_all_slots() {
    let mut main: Vec<Option<ItemStack>> = vec![None; 36];
    main[4] = Some(ItemStack::new(PLANKS, 5));
    main[30] = Some(ItemStack::new(PLANKS, 3));
    let list = affordable_recipes(&recipes(), &main);
    assert_eq!(list, vec![false, true, true]);
    assert!(row_is_affordable(&list, 2));
    assert!(!row_is_affordable(&list, 0));
    assert!(!row_is_affordable(&list, 77));
    let twice = Recipe {
        inputs: vec![ItemStack::new(PLANKS, 5), ItemStack::new(PLANKS, 4)],
        output: ItemStack::one(CHEST),
        station: None,
    };
    assert!(!recipe_is_affordable(&twice, &main));
}

#[test]
fn display_name_spells_out_registry_names() {
    assert_eq!(display_name("planks"), "Planks");
    assert_eq!(display_name("crafting_table"), "Crafting Table");
    assert_eq!(display_name(""), "");
    assert_eq!(display_name("a__b_"), "A  B ");
    assert_eq!(display_name("ßeta"), "SSeta");
}

#[test]
fn needs_line_lists_every_input_with_its_count() {
    let recipe = Recipe {
        inputs: vec![ItemStack::new(PLANKS, 2), ItemStack::one(STICK)],
        output: ItemStack::one(CHEST),
        station: None,
    };
    assert_eq!(needs_line(&items(), &recipe), "Needs 2 Planks, 1 Stick");
}

#[test]
fn every_prototype_recipe_has_a_readable_name_and_cost() {
    let item_reg = items();
    for recipe in &recipes().recipes {
        let name = display_name(&item_reg.get(recipe.output.item).name);
        assert!(!name.is_empty());
        assert!(!name.contains('_'), "{name} still looks like an id");
        assert!(needs_line(&item_reg, recipe).starts_with("Needs "));
    }
}

#[test]
fn clicks_on_slots_and_recipes_ask_the_server() {
    let slot = main_slot(3);
    assert!(slot_click(false, false, true, Some(slot)).is_none());
    assert!(slot_click(true, false, true, None).is_none());
    assert!(matches!(
        slot_click(true, false, true, Some(slot)),
        Some(ClientToServer::SlotClick { slot: s, right: false, shift: true }) if s == slot
    ));
    assert!(matches!(
        slot_click(false, true, false, Some(slot)),
        Some(ClientToServer::SlotClick { right: true, shift: false, .. })
    ));
    assert!(drop_key(false, true, Some(slot)).is_none());
    assert!(matches!(
        drop_key(true, true, Some(slot)),
        Some(ClientToServer::DropSlot { all: true, .. })
    ));
    assert!(matches!(
        recipe_click(7, true),
        ClientToServer::Craft { recipe: 7, all: true }
    ));
}

// ---- machines ----

fn open_factory(pos: IVec3) -> OpenContainer {
    OpenContainer {
        kind: ContainerKind::Factory,
        pos,
        slots: Vec::new(),
        cook: F32Bits(0),
        fuel: F32Bits(0),
    }
}

#[test]
fn actions_require_a_live_open_factory_and_send_only_once_per_press() {
    let pos = IVec3::new(29, 8, 15);
    for gate in 0..5 {
        let mut open = open_factory(pos);
        if gate == 3 {
            open.kind = ContainerKind::Chest;
        }
        let container = if gate == 4 { None } else { Some(open) };
        let pause = if gate == 1 { PauseState::Playing } else { PauseState::Inventory };
        let sent = factory_action(pause, gate == 2, &container, FactoryAction::Rotate);
        if gate == 0 {
            assert!(matches!(
                sent,
                Some(ClientToServer::FactoryAction { pos: target, action: FactoryAction::Rotate }) if target == pos
            ));
        } else {
            assert!(sent.is_none(), "gate {gate}");
        }
    }
}

fn buffer(item: ItemId, amount: f64, capacity: f64, rate: f64) -> FactoryBufferView {
    FactoryBufferView {
        item,
        amount: format!("{amount:.1}"),
        capacity: format!("{capacity:.0}"),
        rate: format!("{rate:+.2}"),
    }
}

#[test]
fn status_displays_authoritative_buffer_amounts_rates_power_and_direction() {
    let mut view = FactoryView {
        pos: IVec3::new(0, 0, 0),
        block: POWERED_FURNACE,
        direction: 2,
        enabled: true,
        input: Some(buffer(IRON_ORE_ITEM, 7.25, 64.0, -0.5)),
        output: Some(buffer(IRON_INGOT, 2.0, 64.0, 0.5)),
        reserve: format!("{:.1}", 0.0),
        power: format!("{:.0}", 0.5 * 100.0),
    };
    let label = status_text(&view, &items(), &blocks());
    assert!(label.contains("powered furnace | Running | Output: West (-X)"));
    assert!(label.contains("Power: 50%"));
    assert!(label.contains("Input: iron ore  7.2/64  (-0.50/s)"));
    assert!(label.contains("Output: iron ingot  2.0/64  (+0.50/s)"));
    assert!(!label.contains("Ore remaining"));
    view.block = MINER;
    view.enabled = false;
    view.input = None;
    assert_eq!(
        status_text(&view, &items(), &blocks()),
        "miner | Stopped | Output: West (-X)\nPower: 50% | Ore remaining: 0.0\nInput: --\nOutput: iron ingot  2.0/64  (+0.50/s)"
    );
    assert!(shows_status(&Some(open_factory(view.pos)), &view));
    assert!(!shows_status(&Some(open_factory(IVec3::new(1, 0, 0))), &view));
    assert!(!shows_status(&None, &view));
}

#[test]
fn belt_flow_updates_reuse_visuals_and_stopped_flows_remove_them() {
    let mut shown: PackedSet<IVec3> = PackedSet::new();
    let flow = BeltFlow {
        pos: IVec3::new(2, 3, 4),
        direction: 0,
        item: IRON_ORE_ITEM,
        rate: 0.5f64.to_bits(),
        moving: true,
    };
    let plan = sync_cargo(&mut shown, &vec![flow]);
    assert_eq!(plan.spawn, vec![flow]);
    assert!(plan.update.is_empty() && plan.remove.is_empty());
    let ingot = BeltFlow { item: IRON_INGOT, ..flow };
    let plan = sync_cargo(&mut shown, &vec![flow, ingot]);
    assert_eq!(plan.update, vec![ingot], "the last flow of a position counts");
    assert!(plan.spawn.is_empty());
    let stopped = BeltFlow { moving: false, ..ingot };
    let plan = sync_cargo(&mut shown, &vec![stopped]);
    assert_eq!(plan.remove, vec![flow.pos]);
    assert!(plan.update.is_empty() && plan.spawn.is_empty());
    assert!(shown.is_empty());
}

#[test]
fn directions_count_around_from_east() {
    assert_eq!(flow_direction(0), IVec3::new(1, 0, 0));
    assert_eq!(flow_direction(1), IVec3::new(0, 0, 1));
    assert_eq!(flow_direction(2), IVec3::new(-1, 0, 0));
    assert_eq!(flow_direction(7), IVec3::new(0, 0, -1));
}

// ---- icons ----

#[test]
fn every_registered_item_has_a_distinct_in_bounds_icon() {
    let registry = items();
    let mut bounds = Vec::new();
    for index in 1..registry.len() {
        let icon = rect(ItemId(index as u16));
        assert_eq!((icon.width, icon.height), (CELL_SIZE, CELL_SIZE));
        assert!(icon.x + icon.width <= 256);
        assert!(icon.y + icon.height <= 128);
        assert_ne!(icon, rect(ItemId(0)));
        assert!(!bounds.contains(&icon));
        bounds.push(icon);
    }
    // The torch is item 25.
    assert_eq!(rect(ItemId(25)), PixelRect { x: 32, y: 96, width: 32, height: 32 });
}

#[test]
fn row_boundaries_and_unknown_ids_do_not_sample_neighboring_icons() {
    assert_eq!(rect(ItemId(7)), PixelRect { x: 224, y: 0, width: 32, height: 32 });
    assert_eq!(rect(ItemId(8)), PixelRect { x: 0, y: 32, width: 32, height: 32 });
    assert_eq!(rect(ItemId(32)), rect(ItemId(0)));
    assert_eq!(rect(ItemId(u16::MAX)), rect(ItemId(0)));
}

// ---- translations ----

fn locales() -> Locales {
    Locales {
        english: Catalog::parse(
            "{\"menu.settings\": \"Settings\", \"menu.back\": \"Back\", \"item.stone\": \"Stone\", \"world.delete_confirm\": \"Delete \\\"{name}\\\"? This cannot be undone.\"}",
        )
        .unwrap(),
        japanese: Catalog::parse("{\"menu.settings\": \"設定\", \"item.stone\": \"石\"}").unwrap(),
    }
}

#[test]
fn substitutions_do_not_interpret_user_supplied_placeholders() {
    assert_eq!(
        locales().tr_args(
            Language::English,
            "world.delete_confirm",
            &vec![("name".to_string(), "{name}".to_string())]
        ),
        "Delete \"{name}\"? This cannot be undone."
    );
}

#[test]
fn an_incomplete_locale_falls_back_to_english_per_key() {
    let english = locales().english;
    let partial = Catalog::from_entries(vec![("menu.settings".to_string(), "設定".to_string())]);
    assert_eq!(lookup(&partial, &english, "menu.settings"), "設定");
    assert_eq!(lookup(&partial, &english, "menu.back"), "Back");
}

#[test]
fn labels_follow_live_language_changes_and_new_entities() {
    let locales = locales();
    let label = LocalizedText::new("menu.settings".to_string());
    assert_eq!(label.render(&locales, Language::English), "Settings");
    assert_eq!(label.render(&locales, Language::Japanese), "設定");
    let item = LocalizedText::new("item.stone".to_string());
    assert_eq!(item.render(&locales, Language::Japanese), "石");
    let with = LocalizedText::with_args(
        "world.delete_confirm".to_string(),
        vec![("name".to_string(), "A".to_string())],
    );
    assert_eq!(
        with.render(&locales, Language::Japanese),
        "Delete \"A\"? This cannot be undone."
    );
}

#[test]
fn every_item_has_translations_and_unknown_items_remain_readable() {
    let locales = locales();
    assert_eq!(locales.item_name(Language::Japanese, "stone"), "石");
    assert_eq!(locales.item_name(Language::English, "stone"), "Stone");
    assert_eq!(locales.item_name(Language::Japanese, "future_block"), "Future Block");
    assert_eq!(locales.tr(Language::Japanese, "future.key"), "future.key");
}

#[test]
fn placeholders_are_filled_once_and_oddities_are_kept() {
    let args = vec![
        ("a".to_string(), "1".to_string()),
        ("b".to_string(), "{a}".to_string()),
        ("a".to_string(), "second".to_string()),
    ];
    assert_eq!(fill("x{a}y{b}z", &args), "x1y{a}z");
    assert_eq!(fill("{unknown}", &args), "{unknown}");
    assert_eq!(fill("open {a", &args), "open {a");
    assert_eq!(fill("} {a} }", &args), "} 1 }");
    assert_eq!(fill("{{a}", &args), "{{a}");
    assert_eq!(fill("plain", &args), "plain");
}

#[test]
fn catalogs_are_maps_of_strings() {
    assert!(Catalog::parse("[1, 2]").is_none());
    assert!(Catalog::parse("{\"a\": 1}").is_none());
    assert!(Catalog::parse("nonsense").is_none());
    let twice = Catalog::parse("{\"a\": \"x\", \"a\": \"y\"}").unwrap();
    assert_eq!(twice.get("a"), Some("y"));
    assert_eq!(twice.get("b"), None);
}

#[test]
fn languages_go_round_and_name_themselves() {
    assert_eq!(Language::English.next(), Language::Japanese);
    assert_eq!(Language::Japanese.next(), Language::English);
    assert_eq!(Language::Japanese.native_name(), "日本語");
    assert_eq!(Language::default().native_name(), "English");
}
