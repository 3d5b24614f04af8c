//! Menus, settings, names, pause, screenshots.

use tsumiki::bits::F32Bits;
use tsumiki::i18n::Language;
use tsumiki::menu::{
    finish_connect, AppState, ConnectOutcome, Menu, MenuButtonAction, MenuEffect, MenuPanel,
    WorldOutcome,
};
use tsumiki::names::{
    apply_key_to_field, is_control, is_whitespace, world_name_is_valid, MAX_WORLD_NAME_CHARS,
};
use tsumiki::pause::{
    after_escape, is_playing, panel_change, press, releases_cursor, PauseButtonAction,
    PauseEffect, PauseState, PauseUiKind,
};
use tsumiki::protocol::GameMode;
use tsumiki::screenshot::{
    CaptureStep, Request, ScreenshotState, ScreenshotTarget, ViewStatus, FPS_WINDOW,
};
use tsumiki::settings::{
    adjust_i32, clamp_settings, format_toggle, format_view_distance, handle_settings_actions, loaded_settings, Settings,
    SettingsAction, SteppedField, FOV_MAX, FOV_MIN, MOUSE_SENSITIVITY_MAX, MOUSE_SENSITIVITY_MIN,
    VIEW_DISTANCE_MAX, VIEW_DISTANCE_MIN,
};
use tsumiki::worlds::{new_world, order_worlds, WorldEntry};

fn bits(v: f32) -> F32Bits {
    F32Bits(v.to_bits())
}

fn number(v: F32Bits) -> f32 {
    f32::from_bits(v.0)
}

// ---- names ----

#[test]
fn white_space_and_control_codes_are_those_of_unicode() {
    for code in 0..=0x10ffff {
        if let Some(c) = char::from_u32(code) {
            assert_eq!(is_whitespace(c), c.is_whitespace(), "{code:x}");
            assert_eq!(is_control(c), c.is_control(), "{code:x}");
        }
    }
}

#[test]
fn rejects_empty_and_whitespace_only() {
    assert!(!world_name_is_valid(""));
    assert!(!world_name_is_valid("   "));
    assert!(!world_name_is_valid("\t\n"));
}

#[test]
fn trims_surrounding_whitespace_before_checking() {
    assert!(world_name_is_valid("  My World  "));
}

#[test]
fn rejects_dot_and_dotdot() {
    assert!(!world_name_is_valid("."));
    assert!(!world_name_is_valid(".."));
    assert!(!world_name_is_valid("  ..  "));
    assert!(world_name_is_valid("World..2"));
}

#[test]
fn rejects_path_separators_and_reserved_characters() {
    for bad in [
        "a/b", "a\\b", "a:b", "a*b", "a?b", "a\"b", "a<b", "a>b", "a|b",
    ] {
        assert!(!world_name_is_valid(bad), "{bad:?} should be rejected");
    }
}

#[test]
fn rejects_control_characters() {
    assert!(!world_name_is_valid("a\u{0}b"));
    assert!(!world_name_is_valid("a\rb"));
    assert!(!world_name_is_valid("a\u{85}b"));
}

#[test]
fn accepts_name_at_the_length_limit() {
    let name: String = "a".repeat(MAX_WORLD_NAME_CHARS);
    assert!(world_name_is_valid(&name));
}

#[test]
fn rejects_name_over_the_length_limit() {
    let name: String = "a".repeat(MAX_WORLD_NAME_CHARS + 1);
    assert!(!world_name_is_valid(&name));
}

#[test]
fn length_limit_counts_unicode_scalars_not_bytes() {
    let name: String = "世".repeat(MAX_WORLD_NAME_CHARS);
    assert!(world_name_is_valid(&name));
    assert!(!world_name_is_valid(&"世".repeat(MAX_WORLD_NAME_CHARS + 1)));
}

#[test]
fn accepts_ordinary_unicode_names() {
    assert!(world_name_is_valid("世界のワールド"));
    assert!(world_name_is_valid("Café du Monde"));
}

#[test]
fn unicode_whitespace_around_a_name_does_not_count() {
    assert!(!world_name_is_valid("\u{3000}"));
    assert!(!world_name_is_valid("\u{3000}..\u{a0}"));
    assert!(world_name_is_valid("\u{3000}x\u{2003}"));
}

// ---- text fields ----

#[test]
fn appends_printable_text() {
    assert_eq!(apply_key_to_field("ab", false, Some("c")), "abc");
}

#[test]
fn backspace_removes_last_char() {
    assert_eq!(apply_key_to_field("abc", true, None), "ab");
}

#[test]
fn backspace_on_empty_buffer_is_a_no_op() {
    assert_eq!(apply_key_to_field("", true, None), "");
}

#[test]
fn backspace_ignores_any_accompanying_text() {
    assert_eq!(apply_key_to_field("ab", true, Some("x")), "a");
}

#[test]
fn control_characters_are_dropped() {
    assert_eq!(apply_key_to_field("ab", false, Some("\r")), "ab");
}

#[test]
fn no_text_leaves_buffer_unchanged() {
    assert_eq!(apply_key_to_field("ab", false, None), "ab");
}

#[test]
fn mixed_control_and_printable_keeps_only_printable() {
    assert_eq!(apply_key_to_field("a", false, Some("b\u{7f}")), "ab");
}

#[test]
fn empty_buffer_accepts_first_character() {
    assert_eq!(apply_key_to_field("", false, Some("a")), "a");
}

// ---- menu ----

#[test]
fn menu_buttons_lead_to_their_panels_and_drop_the_focus() {
    let mut menu = Menu::default();
    assert_eq!(AppState::default(), AppState::Menu);
    assert_eq!(
        menu.press(MenuButtonAction::Multiplayer, true, false),
        MenuEffect::ShowPanel(MenuPanel::Connect)
    );
    menu.focus_on(3);
    assert_eq!(menu.focus, Some(3));
    assert_eq!(
        menu.press(MenuButtonAction::Back, true, true),
        MenuEffect::ShowPanel(MenuPanel::Main)
    );
    assert_eq!(menu.focus, None);
    assert_eq!(
        menu.press(MenuButtonAction::Settings, true, false),
        MenuEffect::ShowPanel(MenuPanel::Settings)
    );
    assert_eq!(menu.escape(false), MenuEffect::Nothing);
    assert_eq!(menu.escape(true), MenuEffect::ShowPanel(MenuPanel::Main));
    assert_eq!(menu.escape(true), MenuEffect::Nothing);
    assert_eq!(menu.press(MenuButtonAction::Quit, true, false), MenuEffect::Quit);
}

#[test]
fn singleplayer_and_connect_need_something_to_act_on() {
    let mut menu = Menu::default();
    assert_eq!(
        menu.press(MenuButtonAction::Singleplayer, false, false),
        MenuEffect::Nothing
    );
    assert_eq!(
        menu.press(MenuButtonAction::Singleplayer, true, false),
        MenuEffect::ShowPanel(MenuPanel::WorldSelect)
    );
    assert_eq!(menu.press(MenuButtonAction::Connect, true, false), MenuEffect::Nothing);
    assert_eq!(menu.press(MenuButtonAction::Connect, true, true), MenuEffect::Connect);
}

#[test]
fn a_connection_takes_a_name_that_is_not_blank() {
    let mut name = "old".to_string();
    assert!(matches!(
        finish_connect(&mut name, "  ".to_string(), None),
        ConnectOutcome::Enter
    ));
    assert_eq!(name, "old");
    match finish_connect(&mut name, "new".to_string(), Some("refused".to_string())) {
        ConnectOutcome::ShowError(text) => assert_eq!(text, "refused"),
        other => panic!("unexpected {other:?}"),
    }
    assert_eq!(name, "old");
    finish_connect(&mut name, " new ".to_string(), None);
    assert_eq!(name, " new ");
}

// ---- worlds ----

fn world(name: &str, last_played: Option<u64>) -> WorldEntry {
    WorldEntry {
        name: name.to_string(),
        game_mode: GameMode::Survival,
        last_played,
    }
}

#[test]
fn the_world_played_last_is_listed_first() {
    let worlds = vec![
        world("unknown", None),
        world("old", Some(10)),
        world("new", Some(30)),
        world("also old", Some(10)),
        world("never saved", None),
    ];
    assert_eq!(order_worlds(&worlds), vec![2, 1, 3, 0, 4]);
    assert!(order_worlds(&vec![]).is_empty());
}

#[test]
fn the_form_for_a_new_world_needs_a_valid_name() {
    assert!(new_world("  ", "", GameMode::Survival).is_none());
    assert!(new_world("a/b", "7", GameMode::Survival).is_none());
    let made = new_world("  my world ", "  ", GameMode::Creative).unwrap();
    assert_eq!(made.name, "my world");
    assert_eq!(made.seed, None);
    assert_eq!(made.game_mode, GameMode::Creative);
}

#[test]
fn a_seed_is_blank_or_a_number() {
    let seed = |text: &str| new_world("w", text, GameMode::Survival).map(|w| w.seed);
    assert_eq!(seed(""), Some(None));
    assert_eq!(seed("0"), Some(Some(0)));
    assert_eq!(seed(" 0042 "), Some(Some(42)));
    assert_eq!(seed("18446744073709551615"), Some(Some(u64::MAX)));
    assert_eq!(seed("18446744073709551616"), None);
    assert_eq!(seed("99999999999999999999999"), None);
    assert_eq!(seed("-1"), None);
    assert_eq!(seed("1 2"), None);
    assert_eq!(seed("abc"), None);
}

#[test]
fn a_world_is_deleted_only_after_the_question() {
    let mut menu = Menu::default();
    menu.press(MenuButtonAction::Singleplayer, true, false);
    assert_eq!(
        menu.press(MenuButtonAction::ConfirmDelete, true, false),
        MenuEffect::Nothing
    );
    assert_eq!(
        menu.press(MenuButtonAction::DeleteWorld(2), true, false),
        MenuEffect::ShowPanel(MenuPanel::ConfirmDelete)
    );
    assert_eq!(
        menu.press(MenuButtonAction::Back, true, false),
        MenuEffect::ShowPanel(MenuPanel::WorldSelect)
    );
    assert_eq!(
        menu.press(MenuButtonAction::ConfirmDelete, true, false),
        MenuEffect::Nothing
    );
    menu.press(MenuButtonAction::DeleteWorld(1), true, false);
    assert_eq!(
        menu.press(MenuButtonAction::ConfirmDelete, true, false),
        MenuEffect::DeleteWorld(1)
    );
    assert!(matches!(menu.finish_world(None), WorldOutcome::ShowWorlds));
    assert_eq!(menu.panel, MenuPanel::WorldSelect);
    assert_eq!(menu.doomed, None);
    assert_eq!(
        menu.press(MenuButtonAction::PlayWorld(4), true, false),
        MenuEffect::StartWorld(4)
    );
}

#[test]
fn the_form_for_a_new_world_leads_back_to_the_list() {
    let mut menu = Menu::default();
    menu.press(MenuButtonAction::Singleplayer, true, false);
    assert_eq!(
        menu.press(MenuButtonAction::NewWorld, true, false),
        MenuEffect::ShowPanel(MenuPanel::CreateWorld)
    );
    assert_eq!(menu.mode, GameMode::Survival);
    assert_eq!(
        menu.press(MenuButtonAction::SwitchMode, true, false),
        MenuEffect::ShowMode(GameMode::Creative)
    );
    assert_eq!(
        menu.press(MenuButtonAction::SwitchMode, true, false),
        MenuEffect::ShowMode(GameMode::Survival)
    );
    assert_eq!(
        menu.press(MenuButtonAction::CreateWorld, true, false),
        MenuEffect::CreateWorld
    );
    match menu.finish_world(Some("name taken".to_string())) {
        WorldOutcome::ShowError(text) => assert_eq!(text, "name taken"),
        other => panic!("unexpected {other:?}"),
    }
    assert_eq!(menu.panel, MenuPanel::CreateWorld);
    assert_eq!(menu.escape(true), MenuEffect::ShowPanel(MenuPanel::WorldSelect));
    assert_eq!(menu.escape(true), MenuEffect::ShowPanel(MenuPanel::Main));
}

// ---- pause ----

#[test]
fn escape_opens_and_closes_what_is_over_the_game() {
    assert_eq!(after_escape(PauseState::Playing), PauseState::Paused);
    assert_eq!(after_escape(PauseState::Paused), PauseState::Playing);
    assert_eq!(after_escape(PauseState::Settings), PauseState::Paused);
    assert_eq!(after_escape(PauseState::Inventory), PauseState::Playing);
    assert!(is_playing(PauseState::default()));
    assert!(!is_playing(PauseState::Inventory));
}

#[test]
fn pause_buttons_do_what_they_say() {
    assert_eq!(
        press(PauseButtonAction::Resume),
        PauseEffect::Show(PauseState::Playing)
    );
    assert_eq!(
        press(PauseButtonAction::Settings),
        PauseEffect::Show(PauseState::Settings)
    );
    assert_eq!(press(PauseButtonAction::Back), PauseEffect::Show(PauseState::Paused));
    assert_eq!(press(PauseButtonAction::BackToTitle), PauseEffect::LeaveToTitle);
    assert_eq!(press(PauseButtonAction::Quit), PauseEffect::Quit);
}

#[test]
fn the_pause_panel_follows_the_state() {
    assert_eq!(
        panel_change(PauseUiKind::Hidden, PauseState::Paused),
        Some(PauseUiKind::Main)
    );
    assert_eq!(panel_change(PauseUiKind::Main, PauseState::Paused), None);
    assert_eq!(
        panel_change(PauseUiKind::Main, PauseState::Inventory),
        Some(PauseUiKind::Hidden)
    );
    assert_eq!(
        panel_change(PauseUiKind::Main, PauseState::Settings),
        Some(PauseUiKind::Settings)
    );
    assert!(releases_cursor(true, PauseState::Paused));
    assert!(!releases_cursor(false, PauseState::Paused));
    assert!(!releases_cursor(true, PauseState::Playing));
}

// ---- settings ----

/// Reads settings as the game stores them: a missing field keeps its default,
/// an unknown one is ignored.
fn settings_from_json(text: &str) -> Settings {
    let parsed = serde_json::from_str::<serde_json::Value>(text).ok().and_then(|v| {
        let mut s = Settings::default();
        let map = v.as_object()?;
        if let Some(x) = map.get("mouse_sensitivity") {
            s.mouse_sensitivity = bits(x.as_f64()? as f32);
        }
        if let Some(x) = map.get("fov_degrees") {
            s.fov_degrees = bits(x.as_f64()? as f32);
        }
        if let Some(x) = map.get("view_distance_chunks") {
            s.view_distance_chunks = x.as_i64()? as i32;
        }
        if let Some(x) = map.get("fullscreen") {
            s.fullscreen = x.as_bool()?;
        }
        Some(s)
    });
    loaded_settings(parsed)
}

/// One step of a setting, held to hundredths.
fn stepped(value: f32, delta: f32) -> F32Bits {
    bits(((value + delta) * 100.0).round() / 100.0)
}

fn adjust_sensitivity(value: f32, delta: f32) -> f32 {
    let mut s = Settings { mouse_sensitivity: bits(value), ..Settings::default() };
    let action = if delta < 0.0 {
        SettingsAction::DecreaseMouseSensitivity
    } else {
        SettingsAction::IncreaseMouseSensitivity
    };
    assert_eq!(action.step(), Some((SteppedField::MouseSensitivity, delta > 0.0)));
    s.apply(action, stepped(value, delta));
    number(s.mouse_sensitivity)
}

#[test]
fn roundtrip_through_json_preserves_in_range_values() {
    let s = settings_from_json(
        "{\"mouse_sensitivity\": 1.5, \"fov_degrees\": 90.0, \"view_distance_chunks\": 10, \"fullscreen\": true}",
    );
    assert_eq!(
        s,
        Settings {
            mouse_sensitivity: bits(1.5),
            fov_degrees: bits(90.0),
            view_distance_chunks: 10,
            fullscreen: true,
            language: Language::English,
        }
    );
}

#[test]
fn corrupt_json_falls_back_to_defaults() {
    assert_eq!(settings_from_json("not json at all {"), Settings::default());
}

#[test]
fn missing_fields_default_individually() {
    assert_eq!(settings_from_json("{}"), Settings::default());
    let partial = settings_from_json("{\"fov_degrees\": 100.0}");
    assert_eq!(number(partial.fov_degrees), 100.0);
    assert_eq!(partial.mouse_sensitivity, Settings::default().mouse_sensitivity);
    assert_eq!(partial.view_distance_chunks, Settings::default().view_distance_chunks);
    assert_eq!(partial.fullscreen, Settings::default().fullscreen);
}

#[test]
fn unknown_fields_are_ignored() {
    let s = settings_from_json("{\"mouse_sensitivity\": 2.0, \"future_field\": \"surprise\"}");
    assert_eq!(number(s.mouse_sensitivity), 2.0);
}

#[test]
fn out_of_range_values_are_clamped_on_load() {
    let s = settings_from_json(
        "{\"mouse_sensitivity\": 99.0, \"fov_degrees\": -5.0, \"view_distance_chunks\": 999}",
    );
    assert_eq!(s.mouse_sensitivity, F32Bits(MOUSE_SENSITIVITY_MAX));
    assert_eq!(s.fov_degrees, F32Bits(FOV_MIN));
    assert_eq!(s.view_distance_chunks, VIEW_DISTANCE_MAX);
}

#[test]
fn adjust_f32_steps_and_clamps() {
    assert_eq!(adjust_sensitivity(1.0, 0.1), 1.1);
    assert_eq!(adjust_sensitivity(0.2, -0.1), 0.2);
    assert_eq!(adjust_sensitivity(3.0, 0.1), 3.0);
}

#[test]
fn adjust_f32_avoids_float_drift_across_repeated_steps() {
    let mut value = 1.0;
    for _ in 0..7 {
        value = adjust_sensitivity(value, 0.1);
    }
    assert_eq!(value, 1.7);
}

#[test]
fn adjust_i32_steps_and_clamps() {
    assert_eq!(adjust_i32(8, 1, VIEW_DISTANCE_MIN, VIEW_DISTANCE_MAX), 9);
    assert_eq!(adjust_i32(4, -1, VIEW_DISTANCE_MIN, VIEW_DISTANCE_MAX), 4);
    assert_eq!(adjust_i32(24, 1, VIEW_DISTANCE_MIN, VIEW_DISTANCE_MAX), 24);
}

#[test]
fn clamp_settings_fixes_every_out_of_range_field() {
    let mut s = Settings {
        mouse_sensitivity: bits(-1.0),
        fov_degrees: bits(500.0),
        view_distance_chunks: -3,
        fullscreen: false,
        language: Language::English,
    };
    clamp_settings(&mut s);
    assert_eq!(s.mouse_sensitivity, F32Bits(MOUSE_SENSITIVITY_MIN));
    assert_eq!(s.fov_degrees, F32Bits(FOV_MAX));
    assert_eq!(s.view_distance_chunks, VIEW_DISTANCE_MIN);
}

#[test]
fn clamping_bit_patterns_agrees_with_clamping_numbers() {
    let low = bits(0.2);
    let high = bits(3.0);
    assert_eq!((low.0, high.0), (MOUSE_SENSITIVITY_MIN, MOUSE_SENSITIVITY_MAX));
    assert_eq!((bits(50.0).0, bits(110.0).0), (FOV_MIN, FOV_MAX));
    assert_eq!(number(Settings::default().mouse_sensitivity), 1.0);
    assert_eq!(number(Settings::default().fov_degrees), 70.0);
    for v in [
        0.0, -0.0, 0.1, 0.2, 0.20001, 1.0, 2.9999, 3.0, 3.1, -7.0, 1e-40, 1e30,
        f32::INFINITY, f32::NEG_INFINITY, f32::MAX, f32::MIN, f32::MIN_POSITIVE,
    ] {
        assert_eq!(number(bits(v).clamped(low, high)), v.clamp(0.2, 3.0), "{v}");
    }
    assert!(number(bits(f32::NAN).clamped(low, high)).is_nan());
}

#[test]
fn settings_buttons_change_one_setting_each() {
    let mut s = Settings::default();
    s.apply(SettingsAction::IncreaseViewDistance, F32Bits(0));
    assert_eq!(s.view_distance_chunks, 9);
    s.apply(SettingsAction::DecreaseViewDistance, F32Bits(0));
    s.apply(SettingsAction::DecreaseViewDistance, F32Bits(0));
    assert_eq!(s.view_distance_chunks, 7);
    s.apply(SettingsAction::ToggleFullscreen, F32Bits(0));
    assert!(s.fullscreen);
    s.apply(SettingsAction::NextLanguage, F32Bits(0));
    assert_eq!(s.language, Language::Japanese);
    s.apply(SettingsAction::IncreaseFov, stepped(70.0, 5.0));
    assert_eq!(number(s.fov_degrees), 75.0);
    s.apply(SettingsAction::DecreaseFov, stepped(50.0, -5.0));
    assert_eq!(number(s.fov_degrees), 50.0);
    assert_eq!(SettingsAction::ToggleFullscreen.step(), None);
    assert_eq!(SettingsAction::DecreaseFov.step(), Some((SteppedField::Fov, false)));
    assert_eq!(format_view_distance(8), "8");
    assert_eq!(format_view_distance(-12), "-12");
    assert_eq!((format_toggle(true), format_toggle(false)), ("On", "Off"));
}

// ---- screenshots ----

const SECOND: u64 = 1_000_000_000;

fn busy() -> ViewStatus {
    ViewStatus { chunk_ready: true, meshed: 0, lod_meshed: 0, lod_wanted: 500 }
}

fn calm() -> ViewStatus {
    ViewStatus { chunk_ready: false, meshed: 50, lod_meshed: 150, lod_wanted: 500 }
}

fn nothing() -> CaptureStep {
    CaptureStep { request: None, capture: false }
}

#[test]
fn the_world_is_taken_after_twenty_settled_frames() {
    let mut state = ScreenshotState::default();
    for _ in 0..19 {
        assert_eq!(state.watch(ScreenshotTarget::World, SECOND, 1, calm()), nothing());
    }
    assert_eq!(state.watch(ScreenshotTarget::World, SECOND, 1, busy()), nothing());
    for _ in 0..19 {
        assert_eq!(state.watch(ScreenshotTarget::World, SECOND, 1, calm()), nothing());
    }
    assert!(state.watch(ScreenshotTarget::World, SECOND, 1, calm()).capture);
    assert!(!state.watch(ScreenshotTarget::World, SECOND, 1, calm()).capture);
}

#[test]
fn few_wanted_coarse_chunks_are_enough() {
    let mut state = ScreenshotState::default();
    let view = ViewStatus { chunk_ready: false, meshed: 50, lod_meshed: 10, lod_wanted: 10 };
    for _ in 0..19 {
        state.watch(ScreenshotTarget::Zoom, 0, 1, view);
    }
    assert!(state.watch(ScreenshotTarget::Zoom, 0, 1, view).capture);
}

#[test]
fn a_view_that_never_settles_is_taken_after_the_limit() {
    let mut state = ScreenshotState::default();
    assert!(!state.watch(ScreenshotTarget::World, 45 * SECOND - 1, 1, busy()).capture);
    assert!(state.watch(ScreenshotTarget::World, 45 * SECOND, 1, busy()).capture);
}

#[test]
fn the_menu_is_taken_after_three_seconds() {
    let mut state = ScreenshotState::default();
    assert_eq!(state.watch(ScreenshotTarget::Menu, 3 * SECOND - 1, 1, busy()), nothing());
    assert!(state.watch(ScreenshotTarget::Menu, 3 * SECOND, 1, busy()).capture);
}

#[test]
fn other_menu_panels_are_asked_for_first() {
    let mut state = ScreenshotState::default();
    let target = ScreenshotTarget::CreateWorld;
    assert_eq!(state.watch(target, SECOND, 1, busy()), nothing());
    let step = state.watch(target, 2 * SECOND, 1, busy());
    assert_eq!(step.request, Some(Request::Navigate(target)));
    assert!(!step.capture);
    assert_eq!(state.watch(target, 3 * SECOND - 1, 1, busy()), nothing());
    assert!(state.watch(target, 3 * SECOND, 1, busy()).capture);
}

#[test]
fn pause_and_inventory_are_opened_first() {
    for (target, screen) in [
        (ScreenshotTarget::Pause, PauseState::Paused),
        (ScreenshotTarget::Inventory, PauseState::Inventory),
    ] {
        let mut state = ScreenshotState::default();
        for _ in 0..19 {
            assert_eq!(state.watch(target, SECOND, 1, calm()), nothing());
        }
        let step = state.watch(target, SECOND, 1, calm());
        assert_eq!(step.request, Some(Request::Open(screen)));
        assert!(!step.capture);
        assert_eq!(state.watch(target, 2 * SECOND - 1, 1, busy()), nothing());
        assert!(state.watch(target, 2 * SECOND, 1, busy()).capture);
    }
}

#[test]
fn the_frame_window_keeps_the_last_frames() {
    let mut state = ScreenshotState::default();
    for n in 0..100 {
        state.record_frame(n);
    }
    assert_eq!(state.recent_frames.len(), FPS_WINDOW);
    assert_eq!(state.recent_frames[0], 40);
    assert_eq!(state.recent_frames[59], 99);
}

#[test]
fn the_camera_is_moved_once_and_never_in_menus_or_caves() {
    let mut state = ScreenshotState::default();
    assert!(!state.position_camera(ScreenshotTarget::World, false));
    assert!(!state.position_camera(ScreenshotTarget::Menu, true));
    assert!(!state.position_camera(ScreenshotTarget::Cave, true));
    assert!(state.position_camera(ScreenshotTarget::World, true));
    assert!(!state.position_camera(ScreenshotTarget::World, true));
    assert!(ScreenshotTarget::WorldSelect.is_menu());
    assert!(!ScreenshotTarget::default().is_menu());
}

#[test]
fn all_pressed_buttons_count_and_are_saved_once() {
    let step = |v: F32Bits, _field: SteppedField, up: bool| {
        bits(number(v) + if up { 0.5 } else { -0.5 })
    };
    let mut s = Settings::default();
    assert!(!handle_settings_actions(&mut s, &vec![], step));
    assert_eq!(s, Settings::default());
    let pressed = vec![
        SettingsAction::IncreaseMouseSensitivity,
        SettingsAction::ToggleFullscreen,
        SettingsAction::IncreaseMouseSensitivity,
        SettingsAction::DecreaseViewDistance,
    ];
    assert!(handle_settings_actions(&mut s, &pressed, step));
    assert_eq!(number(s.mouse_sensitivity), 2.0);
    assert_eq!(s.view_distance_chunks, 7);
    assert!(s.fullscreen);
    assert_eq!(s.fov_degrees, Settings::default().fov_degrees);
    assert_eq!(s.language, Settings::default().language);
    let pressed = vec![SettingsAction::IncreaseMouseSensitivity; 9];
    assert!(handle_settings_actions(&mut s, &pressed, step));
    assert_eq!(number(s.mouse_sensitivity), 3.0);
}
