//! Controls, damage, gauges, hotbar.

use tsumiki::bits::F32Bits;
use tsumiki::blocks::{BlockDef, BlockRegistry, KnownBlocks};
use tsumiki::camera::{
    combine_steps, far_plane_distance, is_solid, lands, motion, plan_flight, plan_walk, spawn_xz,
    water_flags, CameraInput, ClientConfig, ControlInput, FlightTap, Footing, Motion, MoveFlags,
    MoveKeys, PlayerMode, Vertical,
};
use tsumiki::chunk::{BlockId, Chunk, Rgb};
use tsumiki::damage::{fall_damage, report_fall_damage, Submersion, AIR_MAX};
use tsumiki::geometry::{IVec3, UVec3};
use tsumiki::health::{
    filled_bubble_count, health_fraction, health_label, hud, hunger_fraction, hunger_label, Fill,
};
use tsumiki::hotbar::{Hotbar, Scroll, SelectedItemNotice, ITEM_NAME_FADE_NANOS, ITEM_NAME_NANOS};
use tsumiki::item::{ItemId, ItemStack};
use tsumiki::lod_view::{chunk_span, outer_bound, MAX_LOD};
use tsumiki::pause::PauseState;
use tsumiki::protocol::{ClientToServer, DamageCause, MAX_HP, MAX_HUNGER};
use tsumiki::settings::{VIEW_DISTANCE_MAX, VIEW_DISTANCE_MIN};
use tsumiki::state::{death_screen_change, is_alive, GameMode, GameState};
use tsumiki::view::ChunkStore;

const MS: u64 = 1_000_000;
const SECOND: u64 = 1_000_000_000;

fn control(now: u64) -> ControlInput {
    ControlInput {
        spawned: true,
        dead: false,
        pause: PauseState::Playing,
        cursor_locked: true,
        escape_pressed: false,
        inventory_pressed: false,
        zoom_down: false,
        flight_pressed: false,
        jump_pressed: false,
        survival: false,
        now,
    }
}

/// A player under control: its input and how it moves.
struct Controlled {
    input: CameraInput,
    mode: PlayerMode,
}

impl Controlled {
    fn new() -> Self {
        Controlled { input: CameraInput::default(), mode: PlayerMode::Walk }
    }

    fn step(&mut self, i: ControlInput) {
        if self.input.update(i) {
            self.mode = self.mode.toggled();
        }
    }
}

#[test]
fn double_space_toggles_flight_once_and_consumes_the_pair() {
    let mut p = Controlled::new();
    p.step(ControlInput { jump_pressed: true, ..control(0) });
    assert_eq!(p.mode, PlayerMode::Walk);
    p.step(control(100 * MS));
    p.step(ControlInput { jump_pressed: true, ..control(200 * MS) });
    assert_eq!(p.mode, PlayerMode::Fly);
    p.step(control(250 * MS));
    assert_eq!(p.mode, PlayerMode::Fly, "holding Space must not count as more taps");
    p.step(control(270 * MS));
    p.step(ControlInput { jump_pressed: true, ..control(290 * MS) });
    assert_eq!(p.mode, PlayerMode::Fly, "a third tap starts a new pair");
}

#[test]
fn double_tap_window_is_inclusive_and_expired_taps_restart_it() {
    let mut taps = FlightTap::default();
    assert!(!taps.toggle_requested(0, true, false, true));
    assert!(taps.toggle_requested(300 * MS, true, false, true));
    assert!(!taps.toggle_requested(400 * MS, true, false, true));
    assert!(!taps.toggle_requested(701 * MS, true, false, true));
    assert!(taps.toggle_requested(800 * MS, true, false, true));
}

#[test]
fn flight_shortcut_requires_creative_spawn_alive_playing_and_locked_cursor() {
    for blocked in 0..5 {
        let mut p = Controlled::new();
        let mut i = ControlInput { flight_pressed: true, ..control(0) };
        match blocked {
            0 => i.survival = true,
            1 => i.spawned = false,
            2 => i.dead = true,
            3 => i.pause = PauseState::Paused,
            _ => i.cursor_locked = false,
        }
        p.step(i);
        assert_eq!(p.mode, PlayerMode::Walk, "gate {blocked}");
    }
    let mut p = Controlled::new();
    p.step(ControlInput { flight_pressed: true, ..control(0) });
    assert_eq!(p.mode, PlayerMode::Fly);
}

#[test]
fn ui_cursor_and_death_cancel_pending_taps_and_zoom() {
    for blocked in 0..5 {
        let mut p = Controlled::new();
        p.step(ControlInput { jump_pressed: true, zoom_down: true, ..control(0) });
        assert!(p.input.zoomed);
        let mut i = ControlInput { zoom_down: true, ..control(50 * MS) };
        match blocked {
            0 => i.pause = PauseState::Paused,
            1 => i.pause = PauseState::Settings,
            2 => i.pause = PauseState::Inventory,
            3 => i.cursor_locked = false,
            _ => i.dead = true,
        }
        p.step(i);
        assert!(!p.input.zoomed);
        assert!(p.input.flight_tap.last_press.is_none());
        p.step(ControlInput { jump_pressed: true, ..control(100 * MS) });
        assert_eq!(
            p.mode,
            PlayerMode::Walk,
            "tap must not bridge inactive gate {blocked}"
        );
    }
}

#[test]
fn session_reset_clears_all_transient_camera_input() {
    let mut p = Controlled::new();
    p.step(ControlInput { jump_pressed: true, zoom_down: true, ..control(0) });
    p.input = CameraInput::default();
    assert!(!p.input.active && !p.input.zoomed && p.input.flight_tap.last_press.is_none());
}

fn keys() -> MoveKeys {
    MoveKeys {
        forward: false,
        back: false,
        right: false,
        left: false,
        up_down: false,
        up_pressed: false,
        descend: false,
        boost: false,
    }
}

#[test]
fn space_ascends_shift_descends_and_control_boosts_flight() {
    // Half a second at 24 blocks per second, four times as fast when boosted.
    let moved = |k: MoveKeys| {
        let plan = plan_flight(k);
        let distance = if !plan.moving {
            0.0
        } else if plan.boost {
            48.0
        } else {
            12.0
        };
        (plan.forward, plan.up, distance)
    };
    assert_eq!(moved(MoveKeys { up_down: true, ..keys() }), (0, 1, 12.0));
    assert_eq!(moved(MoveKeys { descend: true, ..keys() }), (0, -1, 12.0));
    assert_eq!(moved(MoveKeys { up_down: true, boost: true, ..keys() }), (0, 1, 48.0));
    assert_eq!(moved(MoveKeys { forward: true, boost: true, ..keys() }), (1, 0, 48.0));
    assert_eq!(moved(MoveKeys { up_down: true, descend: true, ..keys() }), (0, 0, 0.0));
    assert_eq!(moved(MoveKeys { boost: true, ..keys() }), (0, 0, 0.0));
}

#[test]
fn zoom_reduces_actual_mouse_rotation_by_the_same_magnification() {
    let mut input = CameraInput::default();
    assert_eq!(input.look_divisor(), 1);
    input.update(ControlInput { zoom_down: true, ..control(0) });
    assert_eq!(input.look_divisor(), 4);
}

#[test]
fn far_plane_matches_the_outermost_lod_ring_plus_one_chunk_span_at_max_view_distance() {
    let vd_blocks_max = VIEW_DISTANCE_MAX * 32;
    let expected = outer_bound(MAX_LOD, vd_blocks_max) + chunk_span(MAX_LOD);
    assert_eq!(far_plane_distance(), expected);
    assert_eq!(far_plane_distance(), 25600);
}

#[test]
fn far_plane_covers_the_full_configurable_view_distance_range() {
    for vd_chunks in [VIEW_DISTANCE_MIN, VIEW_DISTANCE_MAX] {
        let horizon = outer_bound(MAX_LOD, vd_chunks * 32);
        assert!(far_plane_distance() > horizon);
    }
}

#[test]
fn a_new_player_stands_at_the_default_column_unless_told_otherwise() {
    let config = ClientConfig { name: String::new(), spawn_xz: None };
    assert_eq!(f32::from_bits(spawn_xz(&config).0 .0), 8.0);
    assert_eq!(f32::from_bits(spawn_xz(&config).1 .0), 8.0);
    let given = (F32Bits(1.5f32.to_bits()), F32Bits((-3.0f32).to_bits()));
    let config = ClientConfig { name: String::new(), spawn_xz: Some(given) };
    assert_eq!(spawn_xz(&config), given);
}

#[test]
fn what_moves_the_player_depends_on_mode_and_control() {
    assert_eq!(motion(PlayerMode::Walk, false, true, false), Motion::Stay);
    assert_eq!(motion(PlayerMode::Walk, true, false, true), Motion::Walk);
    assert_eq!(motion(PlayerMode::Fly, true, true, false), Motion::Fly);
    assert_eq!(motion(PlayerMode::Fly, true, false, false), Motion::Stay);
    assert_eq!(motion(PlayerMode::Fly, true, true, true), Motion::Stay);
}

const STONE: BlockId = BlockId(1);
const WATER: BlockId = BlockId(2);

fn registry() -> BlockRegistry {
    let def = |solid: bool| BlockDef {
        name: String::new(),
        opaque: solid,
        solid,
        targetable: solid,
        interactive: false,
        color_top: Rgb::new(0, 0, 0),
        color_side: Rgb::new(0, 0, 0),
        color_bottom: Rgb::new(0, 0, 0),
        light_emission: Rgb::new(0, 0, 0),
        tool: None,
        harvest_tier: None,
    };
    BlockRegistry {
        defs: vec![def(false), def(true), def(false)],
        known: KnownBlocks {
            torch: BlockId(90),
            log: BlockId(91),
            water: WATER,
            grass: BlockId(93),
            dirt: BlockId(94),
            farmland: BlockId(95),
            wheat_young: BlockId(96),
            miner: BlockId(97),
        },
    }
}

fn pool() -> ChunkStore {
    let mut store = ChunkStore::new(1);
    let mut chunk = Chunk::filled(BlockId(0));
    chunk.set(UVec3::new(1, 1, 1), WATER);
    chunk.set(UVec3::new(1, 0, 1), STONE);
    store.chunks.insert(IVec3::new(0, 0, 0), chunk);
    store
}

#[test]
fn walking_jumps_from_ground_swims_in_water_and_freezes_in_the_unknown() {
    let store = pool();
    let here = IVec3::new(1, 1, 1);
    let up = MoveKeys { up_down: true, up_pressed: true, forward: true, ..keys() };
    let held = MoveKeys { up_down: true, ..keys() };
    let dry = Footing { on_ground: true, feet_in_water: false, eye_in_water: false };
    let air = Footing { on_ground: false, ..dry };
    let surface = Footing { on_ground: false, feet_in_water: true, eye_in_water: false };
    let deep = Footing { eye_in_water: true, ..surface };

    assert!(plan_walk(&store, IVec3::new(99, 1, 1), dry, up).is_none());
    let jump = plan_walk(&store, here, dry, up).unwrap();
    assert_eq!((jump.vertical, jump.swimming, jump.forward), (Vertical::Jump, false, 1));
    assert_eq!(plan_walk(&store, here, dry, held).unwrap().vertical, Vertical::Fall);
    assert_eq!(plan_walk(&store, here, air, up).unwrap().vertical, Vertical::Fall);
    assert_eq!(plan_walk(&store, here, surface, up).unwrap().vertical, Vertical::Leap);
    assert_eq!(plan_walk(&store, here, deep, up).unwrap().vertical, Vertical::SwimUp);
    let sink = plan_walk(&store, here, deep, keys()).unwrap();
    assert_eq!((sink.vertical, sink.damp_vertical), (Vertical::Sink, true));
    assert!(!plan_walk(&store, here, deep, held).unwrap().damp_vertical);
    let wading = Footing { on_ground: true, ..surface };
    assert!(!plan_walk(&store, here, wading, keys()).unwrap().swimming);
}

#[test]
fn water_and_solid_blocks_are_told_from_the_store() {
    let store = pool();
    let registry = registry();
    let feet = IVec3::new(1, 1, 1);
    let eye = IVec3::new(1, 2, 1);
    assert_eq!(water_flags(&store, &registry, true, feet, eye), (true, false));
    assert_eq!(water_flags(&store, &registry, true, eye, feet), (false, true));
    assert_eq!(water_flags(&store, &registry, false, feet, feet), (false, false));
    assert!(is_solid(&store, &registry, IVec3::new(1, 0, 1)));
    assert!(!is_solid(&store, &registry, feet));
    assert!(!is_solid(&store, &registry, IVec3::new(500, 0, 0)), "unknown is not solid");
}

#[test]
fn steps_of_a_movement_add_up() {
    let none = MoveFlags { hit_x: false, hit_y: false, hit_z: false, on_ground: false };
    let wall = MoveFlags { hit_x: true, ..none };
    let floor = MoveFlags { hit_y: true, on_ground: true, ..none };
    assert_eq!(combine_steps(&vec![]), none);
    assert_eq!(
        combine_steps(&vec![wall, floor]),
        MoveFlags { hit_x: true, hit_y: true, hit_z: false, on_ground: true }
    );
    assert_eq!(
        combine_steps(&vec![floor, wall]),
        MoveFlags { hit_x: true, hit_y: true, hit_z: false, on_ground: false }
    );
    assert!(lands(false, true, true));
    assert!(!lands(true, true, true));
    assert!(!lands(false, true, false));
}

// ---- damage ----

const GRAVITY: f32 = -28.0;

fn impact_speed_for_height(h: f32) -> f32 {
    (2.0 * GRAVITY.abs() * h).sqrt()
}

/// The damage of a landing at a speed: the height follows from the speed.
fn damage_at(impact_speed: f32) -> u16 {
    let height = (impact_speed * impact_speed) / (2.0 * GRAVITY.abs());
    fall_damage((height - 3.0).floor() as i64)
}

#[test]
fn fall_shorter_than_safe_height_deals_no_damage() {
    assert_eq!(damage_at(impact_speed_for_height(2.0)), 0);
}

#[test]
fn fall_exactly_at_safe_height_deals_no_damage() {
    assert_eq!(damage_at(impact_speed_for_height(3.0)), 0);
}

#[test]
fn fall_just_past_safe_height_deals_no_damage_until_a_full_block() {
    assert_eq!(damage_at(impact_speed_for_height(3.9)), 0);
}

#[test]
fn fall_one_block_past_safe_height_deals_one_damage() {
    assert_eq!(damage_at(impact_speed_for_height(4.0)), 1);
}

#[test]
fn fall_damage_scales_with_extra_height() {
    assert_eq!(damage_at(impact_speed_for_height(10.0)), 7);
}

#[test]
fn fall_damage_is_clamped_to_max_hp() {
    assert_eq!(damage_at(impact_speed_for_height(100.0)), MAX_HP);
}

#[test]
fn zero_impact_speed_deals_no_damage() {
    assert_eq!(damage_at(0.0), 0);
}

#[test]
fn falls_are_reported_in_survival_where_they_hurt() {
    assert!(matches!(
        report_fall_damage(true, Some(4)),
        Some(ClientToServer::ReportDamage { amount: 4, cause: DamageCause::Fall })
    ));
    assert!(report_fall_damage(false, Some(4)).is_none());
    assert!(report_fall_damage(true, Some(0)).is_none());
    assert!(report_fall_damage(true, Some(-2)).is_none());
    assert!(report_fall_damage(true, None).is_none());
}

#[test]
fn drowning_starts_when_the_air_is_used_up() {
    let mut air = Submersion::default();
    for _ in 0..9 {
        assert!(air.update_drowning(true, true, true, SECOND).is_none());
    }
    assert_eq!(air.air_remaining, SECOND);
    assert!(air.update_drowning(true, true, true, SECOND / 2).is_none());
    assert!(air.update_drowning(true, true, true, SECOND / 2).is_none());
    assert_eq!((air.air_remaining, air.drown_tick), (0, SECOND / 2));
    let blow = air.update_drowning(true, true, true, SECOND / 2);
    assert!(matches!(
        blow,
        Some(ClientToServer::ReportDamage { amount: 1, cause: DamageCause::Drown })
    ));
    assert_eq!(air.drown_tick, 0);
    assert!(air.update_drowning(false, true, true, SECOND).is_none());
    assert!(air.update_drowning(true, false, true, SECOND).is_none());
    air.update_drowning(true, true, false, 1);
    assert_eq!(air, Submersion::default());
}

// ---- gauges ----

fn share(f: Fill) -> f32 {
    f32::from(f.part) / f32::from(f.whole)
}

#[test]
fn survival_hud_renders_both_snapshots_and_hides_in_creative() {
    let shown = hud(true, 14, 7, &Submersion::default());
    assert!(shown.visible);
    assert_eq!(shown.health_label, "14/20");
    assert_eq!(shown.hunger_label, "7/20");
    assert_eq!(shown.bubbles, None);
    assert!(!hud(false, 14, 7, &Submersion::default()).visible);
    let under = Submersion { air_remaining: AIR_MAX - 1, drown_tick: 0 };
    assert_eq!(hud(true, 1, 1, &under).bubbles, Some(10));
}

#[test]
fn hunger_gauge_tracks_partial_empty_full_and_invalid_snapshots() {
    for (value, fraction, label) in [
        (0, 0.0, "0/20"),
        (7, 0.35, "7/20"),
        (MAX_HUNGER, 1.0, "20/20"),
        (u16::MAX, 1.0, "20/20"),
    ] {
        assert_eq!(share(hunger_fraction(value)), fraction);
        assert_eq!(hunger_label(value), label);
    }
}

#[test]
fn zero_hp_is_an_empty_gauge() {
    assert_eq!(share(health_fraction(0)), 0.0);
    assert_eq!(health_label(0), "0/20");
}

#[test]
fn max_hp_is_a_full_gauge() {
    assert_eq!(share(health_fraction(MAX_HP)), 1.0);
    assert_eq!(health_label(MAX_HP), "20/20");
}

#[test]
fn partial_hp_is_a_proportional_fraction() {
    assert_eq!(share(health_fraction(10)), 0.5);
    assert_eq!(health_label(10), "10/20");
}

#[test]
fn odd_hp_produces_an_exact_fraction_not_rounded() {
    assert_eq!(share(health_fraction(1)), 1.0 / MAX_HP as f32);
    assert_eq!(health_label(1), "1/20");
}

#[test]
fn hp_beyond_max_is_clamped() {
    assert_eq!(share(health_fraction(u16::MAX)), 1.0);
    assert_eq!(health_label(u16::MAX), format!("{MAX_HP}/{MAX_HP}"));
}

fn air(seconds: f64) -> u64 {
    (seconds * 1e9).round() as u64
}

#[test]
fn full_air_shows_ten_bubbles() {
    assert_eq!(filled_bubble_count(air(10.0)), 10);
}

#[test]
fn zero_air_shows_no_bubbles() {
    assert_eq!(filled_bubble_count(air(0.0)), 0);
}

#[test]
fn partial_air_rounds_up_to_the_next_bubble() {
    assert_eq!(filled_bubble_count(air(0.4)), 1);
    assert_eq!(filled_bubble_count(air(9.999)), 10);
    assert_eq!(filled_bubble_count(air(3.0)), 3);
}

// ---- hotbar ----

const STICK: ItemId = ItemId(3);
const STONE_ITEM: ItemId = ItemId(1);
const DIRT_ITEM: ItemId = ItemId(2);
const PICKAXE: ItemId = ItemId(4);

#[test]
fn selected_stack_reads_the_chosen_hotbar_index() {
    let hotbar = Hotbar { selected: 2 };
    let main = vec![None, None, Some(ItemStack::new(STICK, 3)), None];
    assert_eq!(hotbar.selected_stack(&main), Some(ItemStack::new(STICK, 3)));
}

#[test]
fn selected_stack_is_none_past_the_end_of_main() {
    let hotbar = Hotbar { selected: 8 };
    assert_eq!(hotbar.selected_stack(&vec![]), None);
}

#[test]
fn selected_stack_is_none_for_an_empty_slot() {
    let hotbar = Hotbar { selected: 0 };
    assert_eq!(hotbar.selected_stack(&vec![None]), None);
}

fn notice_state() -> (Hotbar, GameState, SelectedItemNotice) {
    let mut state = GameState::default();
    state.main[0] = Some(ItemStack::one(STONE_ITEM));
    state.main[1] = Some(ItemStack::one(STONE_ITEM));
    state.main[2] = Some(ItemStack::one(DIRT_ITEM));
    (Hotbar::default(), state, SelectedItemNotice::default())
}

#[test]
fn notice_refreshes_on_slot_or_item_changes_but_not_stack_count_or_wear() {
    let (mut hotbar, mut state, mut notice) = notice_state();
    let look = notice.update(hotbar, &state.main, state.dead, true, 0);
    assert_eq!(look.item, Some(STONE_ITEM));
    assert!(look.visible);
    let look = notice.update(hotbar, &state.main, false, true, 2_250 * MS);
    assert_eq!(look.opacity as f64 / ITEM_NAME_FADE_NANOS as f64, 0.5);
    state.main[0] = Some(ItemStack::new(STONE_ITEM, 2));
    let look = notice.update(hotbar, &state.main, false, true, 250 * MS);
    assert!(!look.visible);
    hotbar.selected = 1;
    notice.update(hotbar, &state.main, false, true, 100 * MS);
    assert_eq!(notice.remaining, ITEM_NAME_NANOS);
    state.main[1] = Some(ItemStack::one(PICKAXE));
    let look = notice.update(hotbar, &state.main, false, true, 100 * MS);
    assert_eq!(look.item, Some(PICKAXE));
    state.main[1] = Some(ItemStack::one(PICKAXE).with_damage(1));
    notice.update(hotbar, &state.main, false, true, 100 * MS);
    assert!(notice.remaining < ITEM_NAME_NANOS);
}

#[test]
fn notice_localizes_live_hides_for_empty_or_dead_and_preserves_time_in_menus() {
    let (mut hotbar, mut state, mut notice) = notice_state();
    notice.update(hotbar, &state.main, false, true, 0);
    let look = notice.update(hotbar, &state.main, false, true, 250 * MS);
    assert_eq!(look.item, Some(STONE_ITEM));
    let remaining = notice.remaining;
    let look = notice.update(hotbar, &state.main, false, false, 3 * SECOND);
    assert_eq!(notice.remaining, remaining);
    assert!(!look.visible);
    assert!(notice.update(hotbar, &state.main, false, true, 100 * MS).visible);
    hotbar.selected = 8;
    let look = notice.update(hotbar, &state.main, false, true, 100 * MS);
    assert_eq!(look.item, None);
    assert!(!look.visible);
    state.main[8] = Some(ItemStack::one(STONE_ITEM));
    assert!(notice.update(hotbar, &state.main, false, true, 100 * MS).visible);
    assert!(!notice.update(hotbar, &state.main, true, true, 100 * MS).visible);
}

#[test]
fn keyboard_and_wheel_selection_drive_the_notice() {
    let (mut hotbar, state, mut notice) = notice_state();
    let mut pressed = [false; 9];
    pressed[2] = true;
    hotbar.handle_selection(&pressed, Scroll::Still);
    let look = notice.update(hotbar, &state.main, false, true, 0);
    assert_eq!(look.item, Some(DIRT_ITEM));
    hotbar.handle_selection(&[false; 9], Scroll::Up);
    let look = notice.update(hotbar, &state.main, false, true, 0);
    assert_eq!(look.item, Some(STONE_ITEM));
    assert_eq!(hotbar.selected, 1);
}

#[test]
fn the_wheel_goes_around_and_back() {
    let mut hotbar = Hotbar::default();
    hotbar.handle_selection(&[false; 9], Scroll::Up);
    assert_eq!(hotbar.selected, 8);
    hotbar.handle_selection(&[false; 9], Scroll::Down);
    assert_eq!(hotbar.selected, 0);
    let mut pressed = [false; 9];
    pressed[3] = true;
    pressed[6] = true;
    hotbar.handle_selection(&pressed, Scroll::Down);
    assert_eq!(hotbar.selected, 7, "the last key counts, then the wheel");
}

#[test]
fn a_fresh_state_is_full_health_at_noon() {
    let state = GameState::default();
    assert_eq!((state.hp, state.hunger, state.dead), (20, 20, false));
    assert_eq!(state.main.len(), 36);
    assert_eq!(f32::from_bits(state.time_of_day.0), 0.25);
    assert_eq!(state.inventory_count(STONE), 0);
    let mut owned = GameState::default();
    owned.inventory.insert(1, 12);
    assert_eq!(owned.inventory_count(STONE), 12);
    assert!(is_alive(&state));
    assert!(!GameMode::default().is_survival());
    assert_eq!(death_screen_change(&state, true), Some(false));
    assert_eq!(death_screen_change(&state, false), None);
}
