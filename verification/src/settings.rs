//! The player's settings: their ranges and what the buttons do to them.

use crate::bits::F32Bits;
use crate::i18n::{language_after, Language};
use crate::session::VIEW_DISTANCE_CHUNKS;
use crate::text::{signed_decimal, signed_decimal_of};
use vstd::prelude::*;

verus! {

/// Least mouse sensitivity: the bit pattern of 0.2.
pub const MOUSE_SENSITIVITY_MIN: u32 = 0x3e4c_cccd;

/// Greatest mouse sensitivity: the bit pattern of 3.0.
pub const MOUSE_SENSITIVITY_MAX: u32 = 0x4040_0000;

/// Least field of view: the bit pattern of 50.0.
pub const FOV_MIN: u32 = 0x4248_0000;

/// Greatest field of view: the bit pattern of 110.0.
pub const FOV_MAX: u32 = 0x42dc_0000;

/// Mouse sensitivity at first: the bit pattern of 1.0.
pub const MOUSE_SENSITIVITY_DEFAULT: u32 = 0x3f80_0000;

/// Field of view at first: the bit pattern of 70.0.
pub const FOV_DEFAULT: u32 = 0x428c_0000;

pub const VIEW_DISTANCE_MIN: i32 = 4;

pub const VIEW_DISTANCE_MAX: i32 = 24;

pub const VIEW_DISTANCE_STEP: i32 = 1;

/// The player's settings.
#[derive(Clone, Copy, Debug, PartialEq, Eq, Structural)]
pub struct Settings {
    /// Factor on the speed of looking around.
    pub mouse_sensitivity: F32Bits,
    pub fov_degrees: F32Bits,
    pub view_distance_chunks: i32,
    pub fullscreen: bool,
    pub language: Language,
}

/// The settings at first.
pub open spec fn defaults() -> Settings {
    Settings {
        mouse_sensitivity: F32Bits(0x3f80_0000),
        fov_degrees: F32Bits(0x428c_0000),
        view_distance_chunks: 8,
        fullscreen: false,
        language: Language::English,
    }
}

impl Default for Settings {
    fn default() -> (s: Settings)
        ensures
            s == defaults(),
    {
        Settings {
            mouse_sensitivity: F32Bits(MOUSE_SENSITIVITY_DEFAULT),
            fov_degrees: F32Bits(FOV_DEFAULT),
            view_distance_chunks: VIEW_DISTANCE_CHUNKS,
            fullscreen: false,
            language: Language::English,
        }
    }
}

/// A number held inside a range.
pub open spec fn clamped_int(v: int, low: int, high: int) -> int {
    if v < low {
        low
    } else if v > high {
        high
    } else {
        v
    }
}

/// A number moved by `delta`, held inside a range.
pub fn adjust_i32(value: i32, delta: i32, low: i32, high: i32) -> (v: i32)
    requires
        i32::MIN <= value + delta <= i32::MAX,
        low <= high,
    ensures
        v == clamped_int(value + delta, low as int, high as int),
{
    let moved: i32 = value + delta;
    if moved < low {
        low
    } else if moved > high {
        high
    } else {
        moved
    }
}

/// A mouse sensitivity held inside its range.
pub open spec fn sensitivity_in_range(v: F32Bits) -> F32Bits {
    v.spec_clamped(F32Bits(0x3e4c_cccd), F32Bits(0x4040_0000))
}

/// A field of view held inside its range.
pub open spec fn fov_in_range(v: F32Bits) -> F32Bits {
    v.spec_clamped(F32Bits(0x4248_0000), F32Bits(0x42dc_0000))
}

/// The settings with every number inside its range.
pub open spec fn clamped(s: Settings) -> Settings {
    Settings {
        mouse_sensitivity: sensitivity_in_range(s.mouse_sensitivity),
        fov_degrees: fov_in_range(s.fov_degrees),
        view_distance_chunks: clamped_int(s.view_distance_chunks as int, 4, 24) as i32,
        ..s
    }
}

/// Holds every number inside its range.
pub fn clamp_settings(settings: &mut Settings)
    ensures
        *final(settings) == clamped(*old(settings)),
{
    settings.mouse_sensitivity =
    settings.mouse_sensitivity.clamped(
        F32Bits(MOUSE_SENSITIVITY_MIN),
        F32Bits(MOUSE_SENSITIVITY_MAX),
    );
    settings.fov_degrees = settings.fov_degrees.clamped(F32Bits(FOV_MIN), F32Bits(FOV_MAX));
    settings.view_distance_chunks =
    adjust_i32(settings.view_distance_chunks, 0, VIEW_DISTANCE_MIN, VIEW_DISTANCE_MAX);
}

/// The settings to start with: those that could be read, inside their
/// ranges, or else the defaults.
pub fn loaded_settings(parsed: Option<Settings>) -> (s: Settings)
    ensures
        s == match parsed {
            Some(p) => clamped(p),
            None => defaults(),
        },
{
    match parsed {
        Some(p) => {
            let mut s = p;
            clamp_settings(&mut s);
            s
        },
        None => Settings::default(),
    }
}

/// Holding the numbers inside their ranges a second time changes nothing, and
/// the defaults are inside.
pub proof fn law_clamping_settles(s: Settings)
    ensures
        clamped(clamped(s)) == clamped(s),
        clamped(defaults()) == defaults(),
{
}

/// Whether every number is inside its range. Positive numbers are ordered as
/// their bit patterns are.
pub open spec fn in_range(s: Settings) -> bool {
    &&& MOUSE_SENSITIVITY_MIN <= s.mouse_sensitivity.0 <= MOUSE_SENSITIVITY_MAX
    &&& FOV_MIN <= s.fov_degrees.0 <= FOV_MAX
    &&& VIEW_DISTANCE_MIN <= s.view_distance_chunks <= VIEW_DISTANCE_MAX
}

/// Whatever numbers were read, the settings to start with are inside their
/// ranges, and what was inside them already is taken as it is. The defaults
/// are inside.
pub proof fn law_loaded_settings_are_in_range(read: Settings)
    ensures
        !read.mouse_sensitivity.spec_is_nan() && !read.fov_degrees.spec_is_nan() ==> in_range(
            clamped(read),
        ),
        in_range(read) ==> clamped(read) == read,
        in_range(defaults()),
{
}

/// A button of the settings panel.
#[derive(Clone, Copy, Debug, PartialEq, Eq, Structural)]
pub enum SettingsAction {
    DecreaseMouseSensitivity,
    IncreaseMouseSensitivity,
    DecreaseFov,
    IncreaseFov,
    DecreaseViewDistance,
    IncreaseViewDistance,
    ToggleFullscreen,
    NextLanguage,
}

/// A number that a button moves by a step, which the caller has to calculate.
#[derive(Clone, Copy, Debug, PartialEq, Eq, Structural)]
pub enum SteppedField {
    MouseSensitivity,
    Fov,
}

/// The number that a button moves and whether it goes up, if it moves one
/// that is not whole.
pub open spec fn step_of(action: SettingsAction) -> Option<(SteppedField, bool)> {
    match action {
        SettingsAction::DecreaseMouseSensitivity => Some((SteppedField::MouseSensitivity, false)),
        SettingsAction::IncreaseMouseSensitivity => Some((SteppedField::MouseSensitivity, true)),
        SettingsAction::DecreaseFov => Some((SteppedField::Fov, false)),
        SettingsAction::IncreaseFov => Some((SteppedField::Fov, true)),
        _ => None,
    }
}

impl SettingsAction {
    /// The number that the button moves and whether it goes up, if it moves
    /// one that is not whole.
    pub fn step(self) -> (s: Option<(SteppedField, bool)>)
        ensures
            s == step_of(self),
    {
        match self {
            SettingsAction::DecreaseMouseSensitivity => Some(
                (SteppedField::MouseSensitivity, false),
            ),
            SettingsAction::IncreaseMouseSensitivity => Some(
                (SteppedField::MouseSensitivity, true),
            ),
            SettingsAction::DecreaseFov => Some((SteppedField::Fov, false)),
            SettingsAction::IncreaseFov => Some((SteppedField::Fov, true)),
            _ => None,
        }
    }
}

/// The settings after a button. `stepped` is the number that the button moves,
/// one step on; it counts for buttons that move one that is not whole.
pub open spec fn after_action(s: Settings, action: SettingsAction, stepped: F32Bits) -> Settings {
    match action {
        SettingsAction::DecreaseMouseSensitivity
        | SettingsAction::IncreaseMouseSensitivity => Settings {
            mouse_sensitivity: sensitivity_in_range(stepped),
            ..s
        },
        SettingsAction::DecreaseFov | SettingsAction::IncreaseFov => Settings {
            fov_degrees: fov_in_range(stepped),
            ..s
        },
        SettingsAction::DecreaseViewDistance => Settings {
            view_distance_chunks: clamped_int(s.view_distance_chunks - 1, 4, 24) as i32,
            ..s
        },
        SettingsAction::IncreaseViewDistance => Settings {
            view_distance_chunks: clamped_int(s.view_distance_chunks + 1, 4, 24) as i32,
            ..s
        },
        SettingsAction::ToggleFullscreen => Settings { fullscreen: !s.fullscreen, ..s },
        SettingsAction::NextLanguage => Settings { language: language_after(s.language), ..s },
    }
}

impl Settings {
    /// A button was pressed.
    pub fn apply(&mut self, action: SettingsAction, stepped: F32Bits)
        requires
            i32::MIN < old(self).view_distance_chunks < i32::MAX,
        ensures
            *final(self) == after_action(*old(self), action, stepped),
    {
        match action {
            SettingsAction::DecreaseMouseSensitivity
            | SettingsAction::IncreaseMouseSensitivity => {
                self.mouse_sensitivity =
                stepped.clamped(F32Bits(MOUSE_SENSITIVITY_MIN), F32Bits(MOUSE_SENSITIVITY_MAX));
            },
            SettingsAction::DecreaseFov | SettingsAction::IncreaseFov => {
                self.fov_degrees = stepped.clamped(F32Bits(FOV_MIN), F32Bits(FOV_MAX));
            },
            SettingsAction::DecreaseViewDistance => {
                self.view_distance_chunks =
                adjust_i32(
                    self.view_distance_chunks,
                    -VIEW_DISTANCE_STEP,
                    VIEW_DISTANCE_MIN,
                    VIEW_DISTANCE_MAX,
                );
            },
            SettingsAction::IncreaseViewDistance => {
                self.view_distance_chunks =
                adjust_i32(
                    self.view_distance_chunks,
                    VIEW_DISTANCE_STEP,
                    VIEW_DISTANCE_MIN,
                    VIEW_DISTANCE_MAX,
                );
            },
            SettingsAction::ToggleFullscreen => {
                self.fullscreen = !self.fullscreen;
            },
            SettingsAction::NextLanguage => {
                self.language = self.language.next();
            },
        }
    }
}

/// Whatever button is pressed, the settings stay inside their ranges.
pub proof fn law_buttons_stay_in_range(s: Settings, action: SettingsAction, stepped: F32Bits)
    requires
        clamped(s) == s,
    ensures
        clamped(after_action(s, action, stepped)) == after_action(s, action, stepped),
{
}

/// Whether a function steps numbers: it answers for every number, field and
/// direction, and always the same.
pub open spec fn steps<F: Fn(F32Bits, SteppedField, bool) -> F32Bits>(f: F) -> bool {
    &&& forall|v: F32Bits, field: SteppedField, up: bool| call_requires(f, (v, field, up))
    &&& forall|v: F32Bits, field: SteppedField, up: bool, a: F32Bits, b: F32Bits|
        call_ensures(f, (v, field, up), a) && call_ensures(f, (v, field, up), b) ==> a == b
}

/// What a stepping function answers.
pub open spec fn step_by<F: Fn(F32Bits, SteppedField, bool) -> F32Bits>(
    f: F,
    v: F32Bits,
    field: SteppedField,
    up: bool,
) -> F32Bits {
    choose|r: F32Bits| call_ensures(f, (v, field, up), r)
}

/// The settings after a button, with its step made by a stepping function.
pub open spec fn after_button<F: Fn(F32Bits, SteppedField, bool) -> F32Bits>(
    f: F,
    s: Settings,
    action: SettingsAction,
) -> Settings {
    after_action(
        s,
        action,
        match step_of(action) {
            Some((SteppedField::MouseSensitivity, up)) => step_by(
                f,
                s.mouse_sensitivity,
                SteppedField::MouseSensitivity,
                up,
            ),
            Some((SteppedField::Fov, up)) => step_by(f, s.fov_degrees, SteppedField::Fov, up),
            None => s.fov_degrees,
        },
    )
}

/// The settings after several buttons, one after the other.
pub open spec fn after_buttons<F: Fn(F32Bits, SteppedField, bool) -> F32Bits>(
    f: F,
    s: Settings,
    actions: Seq<SettingsAction>,
) -> Settings
    decreases actions.len(),
{
    if actions.len() == 0 {
        s
    } else {
        after_button(f, after_buttons(f, s, actions.drop_last()), actions.last())
    }
}

/// Takes up the buttons that were pressed in a frame. Tells whether the
/// settings are to be saved: once, if any button was pressed.
pub fn handle_settings_actions<F: Fn(F32Bits, SteppedField, bool) -> F32Bits>(
    settings: &mut Settings,
    pressed: &Vec<SettingsAction>,
    step: F,
) -> (save: bool)
    requires
        i32::MIN < old(settings).view_distance_chunks < i32::MAX,
        steps(step),
    ensures
        *final(settings) == after_buttons(step, *old(settings), pressed@),
        save == (pressed@.len() > 0),
{
    let mut n: usize = 0;
    while n < pressed.len()
        invariant
            n <= pressed@.len(),
            steps(step),
            i32::MIN < settings.view_distance_chunks < i32::MAX,
            *settings == after_buttons(step, *old(settings), pressed@.take(n as int)),
        decreases pressed@.len() - n,
    {
        let action = pressed[n];
        let stepped: F32Bits = match action.step() {
            Some((SteppedField::MouseSensitivity, up)) => step(
                settings.mouse_sensitivity,
                SteppedField::MouseSensitivity,
                up,
            ),
            Some((SteppedField::Fov, up)) => step(settings.fov_degrees, SteppedField::Fov, up),
            None => settings.fov_degrees,
        };
        proof {
            let done = pressed@.take(n + 1);
            assert(done.drop_last() =~= pressed@.take(n as int));
            assert(done.last() == action);
        }
        settings.apply(action, stepped);
        n += 1;
    }
    assert(pressed@.take(n as int) =~= pressed@);
    pressed.len() > 0
}

/// Whether a stepping function answers with a number.
pub open spec fn steps_to_numbers<F: Fn(F32Bits, SteppedField, bool) -> F32Bits>(f: F) -> bool {
    forall|v: F32Bits, field: SteppedField, up: bool|
        !v.spec_is_nan() ==> !(#[trigger] step_by(f, v, field, up)).spec_is_nan()
}

/// However many buttons are pressed at once, the settings stay inside their
/// ranges.
pub proof fn law_all_buttons_stay_in_range<F: Fn(F32Bits, SteppedField, bool) -> F32Bits>(
    f: F,
    s: Settings,
    actions: Seq<SettingsAction>,
)
    requires
        in_range(s),
        steps_to_numbers(f),
    ensures
        in_range(after_buttons(f, s, actions)),
    decreases actions.len(),
{
    if actions.len() > 0 {
        law_all_buttons_stay_in_range(f, s, actions.drop_last());
    }
}

/// The buttons leave alone what none of them names.
pub proof fn law_other_settings_stay<F: Fn(F32Bits, SteppedField, bool) -> F32Bits>(
    f: F,
    s: Settings,
    actions: Seq<SettingsAction>,
)
    ensures
        ({
            let after = after_buttons(f, s, actions);
            &&& !actions.contains(SettingsAction::DecreaseMouseSensitivity) && !actions.contains(
                SettingsAction::IncreaseMouseSensitivity,
            ) ==> after.mouse_sensitivity == s.mouse_sensitivity
            &&& !actions.contains(SettingsAction::DecreaseFov) && !actions.contains(
                SettingsAction::IncreaseFov,
            ) ==> after.fov_degrees == s.fov_degrees
            &&& !actions.contains(SettingsAction::DecreaseViewDistance) && !actions.contains(
                SettingsAction::IncreaseViewDistance,
            ) ==> after.view_distance_chunks == s.view_distance_chunks
            &&& !actions.contains(SettingsAction::ToggleFullscreen) ==> after.fullscreen
                == s.fullscreen
            &&& !actions.contains(SettingsAction::NextLanguage) ==> after.language == s.language
        }),
    decreases actions.len(),
{
    if actions.len() > 0 {
        let rest = actions.drop_last();
        law_other_settings_stay(f, s, rest);
        assert(actions.contains(actions.last()));
        assert forall|a: SettingsAction| #[trigger] rest.contains(a) implies actions.contains(a) by {
            let k = choose|k: int| 0 <= k < rest.len() && rest[k] == a;
            assert(actions[k] == a);
        }
    }
}

/// The view distance as text.
pub fn format_view_distance(v: i32) -> (text: String)
    ensures
        text@ == signed_decimal_of(v as int),
{
    signed_decimal(v)
}

/// A switch as text.
pub fn format_toggle(on: bool) -> (text: &'static str)
    ensures
        text@ == if on {
            "On"@
        } else {
            "Off"@
        },
{
    if on {
        "On"
    } else {
        "Off"
    }
}

/// One button, one setting. The view distance goes up or down by one chunk
/// and stops at 4 and at 24; full screen is switched over; the language is
/// another one; the other numbers are the given ones, unless they are out of
/// their range.
pub proof fn law_one_button_one_setting(s: Settings, action: SettingsAction, stepped: F32Bits)
    requires
        4 <= s.view_distance_chunks <= 24,
    ensures
        ({
            let after = after_action(s, action, stepped);
            let up = action == SettingsAction::IncreaseViewDistance;
            let down = action == SettingsAction::DecreaseViewDistance;
            let turn = action == SettingsAction::IncreaseMouseSensitivity || action
                == SettingsAction::DecreaseMouseSensitivity;
            let zoom = action == SettingsAction::IncreaseFov || action
                == SettingsAction::DecreaseFov;
            &&& up && s.view_distance_chunks < 24 ==> after.view_distance_chunks
                == s.view_distance_chunks + 1
            &&& up && s.view_distance_chunks == 24 ==> after == s
            &&& down && s.view_distance_chunks > 4 ==> after.view_distance_chunks
                == s.view_distance_chunks - 1
            &&& down && s.view_distance_chunks == 4 ==> after == s
            &&& !up && !down ==> after.view_distance_chunks == s.view_distance_chunks
            &&& after.fullscreen != s.fullscreen <==> action == SettingsAction::ToggleFullscreen
            &&& after.language != s.language <==> action == SettingsAction::NextLanguage
            &&& !turn ==> after.mouse_sensitivity == s.mouse_sensitivity
            &&& turn && 0x3e4c_cccd <= stepped.0 <= 0x4040_0000 ==> after.mouse_sensitivity
                == stepped
            &&& turn && stepped.0 < 0x3e4c_cccd ==> after.mouse_sensitivity.0 == 0x3e4c_cccd
            &&& turn && 0x4040_0000 < stepped.0 <= 0x7f80_0000 ==> after.mouse_sensitivity.0
                == 0x4040_0000
            &&& !zoom ==> after.fov_degrees == s.fov_degrees
            &&& zoom && 0x4248_0000 <= stepped.0 <= 0x42dc_0000 ==> after.fov_degrees == stepped
            &&& zoom && stepped.0 < 0x4248_0000 ==> after.fov_degrees.0 == 0x4248_0000
            &&& zoom && 0x42dc_0000 < stepped.0 <= 0x7f80_0000 ==> after.fov_degrees.0
                == 0x42dc_0000
        }),
{
}

/// A button that moves a number which is not whole says which one and which
/// way; the others say nothing.
pub proof fn law_buttons_say_what_they_move(action: SettingsAction)
    ensures
        step_of(action) == Some((SteppedField::MouseSensitivity, true)) <==> action
            == SettingsAction::IncreaseMouseSensitivity,
        step_of(action) == Some((SteppedField::MouseSensitivity, false)) <==> action
            == SettingsAction::DecreaseMouseSensitivity,
        step_of(action) == Some((SteppedField::Fov, true)) <==> action
            == SettingsAction::IncreaseFov,
        step_of(action) == Some((SteppedField::Fov, false)) <==> action
            == SettingsAction::DecreaseFov,
{
}

} // verus!
