//! The player's controls: flight, walking and swimming, and where the water
//! is.
//!
//! Times are nanoseconds.

use crate::bits::F32Bits;
use crate::blocks::BlockRegistry;
use crate::geometry::IVec3;
use crate::lod_view::{
    chunk_span, lemma_bands_fit, lemma_scales, outer, outer_bound, span, MAX_LOD,
};
use crate::pause::PauseState;
use crate::settings::VIEW_DISTANCE_MAX;
use crate::view::{block_at, is_chunk_loaded, ChunkStore};
use vstd::prelude::*;

verus! {

/// Longest time between two presses that count as a double press: 300 ms.
pub const FLIGHT_DOUBLE_TAP_NANOS: u64 = 300_000_000;

/// How many times larger things look when zoomed in.
pub const ZOOM_MAGNIFICATION: u32 = 4;

/// Default spawn column: the bit pattern of 8.0.
pub const DEFAULT_SPAWN: u32 = 0x4100_0000;

/// What the program was told at its start.
#[derive(Debug)]
pub struct ClientConfig {
    /// The name that the server is told.
    pub name: String,
    /// Where a new player stands, if not at the default.
    pub spawn_xz: Option<(F32Bits, F32Bits)>,
}

/// The column that a new player stands in.
pub fn spawn_xz(config: &ClientConfig) -> (xz: (F32Bits, F32Bits))
    ensures
        xz == match config.spawn_xz {
            Some(given) => given,
            None => (F32Bits(0x4100_0000), F32Bits(0x4100_0000)),
        },
{
    match config.spawn_xz {
        Some(given) => given,
        None => (F32Bits(DEFAULT_SPAWN), F32Bits(DEFAULT_SPAWN)),
    }
}

/// How far the camera sees, in blocks: the outermost ring at the greatest
/// view distance, and one of its chunks more.
pub fn far_plane_distance() -> (blocks: i32)
    ensures
        blocks == outer(5, 768) + span(5),
{
    proof {
        lemma_bands_fit(5, 768);
    }
    outer_bound(MAX_LOD, VIEW_DISTANCE_MAX * 32) + chunk_span(MAX_LOD)
}

/// Whatever view distance is set, the outermost ring is seen whole.
pub proof fn law_far_plane_covers(vd_chunks: int)
    requires
        4 <= vd_chunks <= 24,
    ensures
        outer(5, vd_chunks * 32) < outer(5, 768) + span(5),
{
    lemma_scales();
}

/// How the player moves.
#[derive(Clone, Copy, Debug, PartialEq, Eq, Structural)]
pub enum PlayerMode {
    Walk,
    Fly,
}

pub open spec fn other_mode(m: PlayerMode) -> PlayerMode {
    match m {
        PlayerMode::Walk => PlayerMode::Fly,
        PlayerMode::Fly => PlayerMode::Walk,
    }
}

impl PlayerMode {
    /// The other way to move.
    pub fn toggled(self) -> (m: PlayerMode)
        ensures
            m == other_mode(self),
    {
        match self {
            PlayerMode::Walk => PlayerMode::Fly,
            PlayerMode::Fly => PlayerMode::Walk,
        }
    }
}

/// A press of the jump key that a second one may complete.
#[derive(Clone, Copy, Debug, PartialEq, Eq, Structural)]
pub struct FlightTap {
    pub last_press: Option<u64>,
}

/// Whether a press completes an earlier one: it comes no later than the
/// window allows.
pub open spec fn completes(tap: FlightTap, now: u64) -> bool {
    tap.last_press is Some && tap.last_press->0 <= now && now - tap.last_press->0
        <= FLIGHT_DOUBLE_TAP_NANOS
}

/// Whether flight is to be switched.
pub open spec fn switches(tap: FlightTap, now: u64, allowed: bool, shortcut: bool, jump: bool) -> bool {
    allowed && (shortcut || (jump && completes(tap, now)))
}

/// The waiting press after a frame.
pub open spec fn tap_after(tap: FlightTap, now: u64, allowed: bool, shortcut: bool, jump: bool) -> FlightTap {
    if !allowed || shortcut {
        FlightTap { last_press: None }
    } else if !jump {
        tap
    } else if completes(tap, now) {
        FlightTap { last_press: None }
    } else {
        FlightTap { last_press: Some(now) }
    }
}

impl Default for FlightTap {
    fn default() -> (t: FlightTap)
        ensures
            t == (FlightTap { last_press: None }),
    {
        FlightTap { last_press: None }
    }
}

impl FlightTap {
    /// Whether flight is to be switched: by its key, or by the second press
    /// of the jump key within the window, where flight is allowed.
    pub fn toggle_requested(&mut self, now: u64, allowed: bool, shortcut: bool, jump: bool) -> (toggle:
        bool)
        ensures
            toggle == switches(*old(self), now, allowed, shortcut, jump),
            *final(self) == tap_after(*old(self), now, allowed, shortcut, jump),
    {
        if !allowed {
            self.last_press = None;
            return false;
        }
        if shortcut {
            self.last_press = None;
            return true;
        }
        if !jump {
            return false;
        }
        let second = match self.last_press {
            Some(previous) => previous <= now && now - previous <= FLIGHT_DOUBLE_TAP_NANOS,
            None => false,
        };
        if second {
            self.last_press = None;
            true
        } else {
            self.last_press = Some(now);
            false
        }
    }
}

/// A double press is used up: a third press starts a new pair rather than
/// switching back.
pub proof fn law_double_tap_is_used_up(tap: FlightTap, now: u64, later: u64)
    requires
        switches(tap, now, true, false, true),
    ensures
        !switches(tap_after(tap, now, true, false, true), later, true, false, true),
{
}

/// What the player's controls depend on in a frame.
#[derive(Clone, Copy, Debug)]
pub struct ControlInput {
    /// There is a player, and it has been placed.
    pub spawned: bool,
    pub dead: bool,
    pub pause: PauseState,
    pub cursor_locked: bool,
    pub escape_pressed: bool,
    pub inventory_pressed: bool,
    pub zoom_down: bool,
    pub flight_pressed: bool,
    pub jump_pressed: bool,
    pub survival: bool,
    pub now: u64,
}

/// What the player's controls remember.
#[derive(Clone, Copy, Debug, PartialEq, Eq, Structural)]
pub struct CameraInput {
    pub active: bool,
    pub zoomed: bool,
    pub flight_tap: FlightTap,
}

/// Nothing is remembered.
pub open spec fn no_input() -> CameraInput {
    CameraInput { active: false, zoomed: false, flight_tap: FlightTap { last_press: None } }
}

/// Whether the player is in control: alive, in the game, with the cursor
/// held, and not just opening a screen.
pub open spec fn in_control(i: ControlInput) -> bool {
    i.spawned && !i.dead && i.pause == PauseState::Playing && i.cursor_locked && !i.escape_pressed
        && !i.inventory_pressed
}

impl Default for CameraInput {
    fn default() -> (c: CameraInput)
        ensures
            c == no_input(),
    {
        CameraInput { active: false, zoomed: false, flight_tap: FlightTap::default() }
    }
}

impl CameraInput {
    /// Takes up a frame and tells whether flight is to be switched. Without
    /// control everything is forgotten, a waiting press too.
    pub fn update(&mut self, i: ControlInput) -> (toggle: bool)
        ensures
            toggle == (in_control(i) && switches(
                old(self).flight_tap,
                i.now,
                !i.survival,
                i.flight_pressed,
                i.jump_pressed,
            )),
            *final(self) == if in_control(i) {
                CameraInput {
                    active: true,
                    zoomed: i.zoom_down,
                    flight_tap: tap_after(
                        old(self).flight_tap,
                        i.now,
                        !i.survival,
                        i.flight_pressed,
                        i.jump_pressed,
                    ),
                }
            } else {
                no_input()
            },
    {
        let active = i.spawned && !i.dead && i.pause == PauseState::Playing && i.cursor_locked
            && !i.escape_pressed && !i.inventory_pressed;
        if !active {
            *self = CameraInput::default();
            return false;
        }
        self.active = true;
        self.zoomed = i.zoom_down;
        self.flight_tap.toggle_requested(i.now, !i.survival, i.flight_pressed, i.jump_pressed)
    }

    /// By how much looking around is slowed down.
    pub fn look_divisor(&self) -> (d: u32)
        ensures
            d == if self.zoomed {
                ZOOM_MAGNIFICATION
            } else {
                1
            },
    {
        if self.zoomed {
            ZOOM_MAGNIFICATION
        } else {
            1
        }
    }
}

/// In survival nothing switches flight.
pub proof fn law_no_flight_in_survival(before: CameraInput, i: ControlInput)
    requires
        i.survival,
    ensures
        !(in_control(i) && switches(
            before.flight_tap,
            i.now,
            !i.survival,
            i.flight_pressed,
            i.jump_pressed,
        )),
{
}

/// A loss of control cuts a double press in two: the first press does not
/// count once control is back.
pub proof fn law_taps_do_not_bridge_screens(now: u64, allowed: bool, jump: bool)
    ensures
        !switches(no_input().flight_tap, now, allowed, false, jump),
{
}

/// What moves the player in a frame.
#[derive(Clone, Copy, Debug, PartialEq, Eq, Structural)]
pub enum Motion {
    Stay,
    Fly,
    Walk,
}

/// What moves the player: nothing before the player is placed; flight only
/// under control and outside survival.
pub fn motion(mode: PlayerMode, spawned: bool, active: bool, survival: bool) -> (m: Motion)
    ensures
        m == if !spawned {
            Motion::Stay
        } else if mode == PlayerMode::Walk {
            Motion::Walk
        } else if active && !survival {
            Motion::Fly
        } else {
            Motion::Stay
        },
{
    if !spawned {
        return Motion::Stay;
    }
    match mode {
        PlayerMode::Walk => Motion::Walk,
        PlayerMode::Fly => {
            if active && !survival {
                Motion::Fly
            } else {
                Motion::Stay
            }
        },
    }
}

/// The movement keys.
#[derive(Clone, Copy, Debug)]
pub struct MoveKeys {
    pub forward: bool,
    pub back: bool,
    pub right: bool,
    pub left: bool,
    pub up_down: bool,
    pub up_pressed: bool,
    pub descend: bool,
    pub boost: bool,
}

/// Two opposite keys as a direction: they cancel out.
pub open spec fn axis(plus: bool, minus: bool) -> int {
    (if plus {
        1int
    } else {
        0
    }) - (if minus {
        1int
    } else {
        0
    })
}

fn key_axis(plus: bool, minus: bool) -> (a: i32)
    ensures
        a == axis(plus, minus),
{
    if plus == minus {
        0
    } else if plus {
        1
    } else {
        -1
    }
}

/// Where a flying player wants to go.
#[derive(Clone, Copy, Debug, PartialEq, Eq, Structural)]
pub struct FlyPlan {
    pub forward: i32,
    pub right: i32,
    pub up: i32,
    pub boost: bool,
    /// Anywhere at all.
    pub moving: bool,
}

/// Where a flying player wants to go.
pub fn plan_flight(keys: MoveKeys) -> (plan: FlyPlan)
    ensures
        plan.forward == axis(keys.forward, keys.back),
        plan.right == axis(keys.right, keys.left),
        plan.up == axis(keys.up_down, keys.descend),
        plan.boost == keys.boost,
        plan.moving == (plan.forward != 0 || plan.right != 0 || plan.up != 0),
{
    let forward: i32 = key_axis(keys.forward, keys.back);
    let right: i32 = key_axis(keys.right, keys.left);
    let up: i32 = key_axis(keys.up_down, keys.descend);
    FlyPlan { forward, right, up, boost: keys.boost, moving: forward != 0 || right != 0 || up != 0 }
}

/// What happens to the vertical speed of a walking or swimming player.
#[derive(Clone, Copy, Debug, PartialEq, Eq, Structural)]
pub enum Vertical {
    /// Leap out of the water.
    Leap,
    /// Swim up.
    SwimUp,
    /// Sink slowly.
    Sink,
    /// Jump off the ground, under gravity.
    Jump,
    /// Fall, under gravity.
    Fall,
}

/// How a player on foot stands.
#[derive(Clone, Copy, Debug)]
pub struct Footing {
    pub on_ground: bool,
    pub feet_in_water: bool,
    pub eye_in_water: bool,
}

/// What a player on foot does in a frame.
#[derive(Clone, Copy, Debug, PartialEq, Eq, Structural)]
pub struct WalkPlan {
    pub swimming: bool,
    pub vertical: Vertical,
    pub forward: i32,
    pub right: i32,
    /// The water slows the vertical speed down.
    pub damp_vertical: bool,
}

/// Whether a player swims: in water and not on the ground.
pub open spec fn swims(f: Footing) -> bool {
    (f.feet_in_water || f.eye_in_water) && !f.on_ground
}

/// What happens to the vertical speed. A swimmer leaps at the surface and
/// otherwise rises while the key is held; on the ground the key jumps.
pub open spec fn vertical_of(f: Footing, keys: MoveKeys) -> Vertical {
    if swims(f) {
        if keys.up_pressed && f.feet_in_water && !f.eye_in_water {
            Vertical::Leap
        } else if keys.up_down {
            Vertical::SwimUp
        } else {
            Vertical::Sink
        }
    } else if keys.up_pressed && f.on_ground {
        Vertical::Jump
    } else {
        Vertical::Fall
    }
}

/// What a player on foot does in a frame; nothing while the chunk around the
/// feet has not been loaded.
pub fn plan_walk(store: &ChunkStore, feet_block: IVec3, f: Footing, keys: MoveKeys) -> (plan: Option<
    WalkPlan,
>)
    ensures
        match plan {
            Some(p) => {
                &&& store.block(feet_block) is Some
                &&& p.swimming == swims(f)
                &&& p.vertical == vertical_of(f, keys)
                &&& p.forward == axis(keys.forward, keys.back)
                &&& p.right == axis(keys.right, keys.left)
                &&& p.damp_vertical == (swims(f) && !keys.up_down)
            },
            None => store.block(feet_block) is None,
        },
{
    if !is_chunk_loaded(store, feet_block) {
        return None;
    }
    let swimming = (f.feet_in_water || f.eye_in_water) && !f.on_ground;
    let vertical = if swimming {
        let near_surface = f.feet_in_water && !f.eye_in_water;
        if keys.up_pressed && near_surface {
            Vertical::Leap
        } else if keys.up_down {
            Vertical::SwimUp
        } else {
            Vertical::Sink
        }
    } else if keys.up_pressed && f.on_ground {
        Vertical::Jump
    } else {
        Vertical::Fall
    };
    Some(
        WalkPlan {
            swimming,
            vertical,
            forward: key_axis(keys.forward, keys.back),
            right: key_axis(keys.right, keys.left),
            damp_vertical: swimming && !keys.up_down,
        },
    )
}

/// Nobody jumps in mid-air: without ground or water the key does nothing.
pub proof fn law_no_jump_in_mid_air(f: Footing, keys: MoveKeys)
    requires
        !f.on_ground,
        !f.feet_in_water,
        !f.eye_in_water,
    ensures
        vertical_of(f, keys) == Vertical::Fall,
{
}

/// What a movement ran into.
#[derive(Clone, Copy, Debug, PartialEq, Eq, Structural)]
pub struct MoveFlags {
    pub hit_x: bool,
    pub hit_y: bool,
    pub hit_z: bool,
    pub on_ground: bool,
}

/// What a movement in steps ran into: what any of them did, and the ground
/// as after the last.
pub open spec fn combined(steps: Seq<MoveFlags>) -> MoveFlags {
    MoveFlags {
        hit_x: exists|i: int| 0 <= i < steps.len() && (#[trigger] steps[i]).hit_x,
        hit_y: exists|i: int| 0 <= i < steps.len() && (#[trigger] steps[i]).hit_y,
        hit_z: exists|i: int| 0 <= i < steps.len() && (#[trigger] steps[i]).hit_z,
        on_ground: steps.len() > 0 && steps.last().on_ground,
    }
}

/// What a movement in steps ran into.
pub fn combine_steps(steps: &Vec<MoveFlags>) -> (total: MoveFlags)
    ensures
        total == combined(steps@),
{
    let mut total = MoveFlags { hit_x: false, hit_y: false, hit_z: false, on_ground: false };
    let mut n: usize = 0;
    while n < steps.len()
        invariant
            n <= steps@.len(),
            total.hit_x == exists|i: int| 0 <= i < n && (#[trigger] steps@[i]).hit_x,
            total.hit_y == exists|i: int| 0 <= i < n && (#[trigger] steps@[i]).hit_y,
            total.hit_z == exists|i: int| 0 <= i < n && (#[trigger] steps@[i]).hit_z,
            total.on_ground == (n > 0 && steps@[n - 1].on_ground),
        decreases steps@.len() - n,
    {
        let step = steps[n];
        let ghost before = total;
        total.hit_x = total.hit_x || step.hit_x;
        total.hit_y = total.hit_y || step.hit_y;
        total.hit_z = total.hit_z || step.hit_z;
        total.on_ground = step.on_ground;
        proof {
            let s = steps@;
            if total.hit_x {
                if before.hit_x {
                    let i = choose|i: int| 0 <= i < n && (#[trigger] s[i]).hit_x;
                    assert(s[i].hit_x);
                } else {
                    assert(s[n as int].hit_x);
                }
            }
            if total.hit_y {
                if before.hit_y {
                    let i = choose|i: int| 0 <= i < n && (#[trigger] s[i]).hit_y;
                    assert(s[i].hit_y);
                } else {
                    assert(s[n as int].hit_y);
                }
            }
            if total.hit_z {
                if before.hit_z {
                    let i = choose|i: int| 0 <= i < n && (#[trigger] s[i]).hit_z;
                    assert(s[i].hit_z);
                } else {
                    assert(s[n as int].hit_z);
                }
            }
        }
        n += 1;
    }
    total
}

/// Whether a player lands: not on the ground before, on it now, and moving
/// down in between.
pub fn lands(was_on_ground: bool, on_ground: bool, moving_down: bool) -> (b: bool)
    ensures
        b == (!was_on_ground && on_ground && moving_down),
{
    !was_on_ground && on_ground && moving_down
}

/// Whether a block stops a player; one that is not known does not.
pub fn is_solid(store: &ChunkStore, registry: &BlockRegistry, pos: IVec3) -> (b: bool)
    requires
        store.registered(*registry),
    ensures
        b == (store.block(pos) is Some && registry.def(store.block(pos)->0).solid),
{
    match block_at(store, pos) {
        Some(block) => {
            proof {
                if store.layer_exists(pos.chunk_of().y as int) {
                    crate::geometry::law_split_recombines(pos);
                    assert(registry.has(store.chunks@[pos.chunk_of()].block(pos.local_of())));
                }
            }
            registry.get(block).solid
        },
        None => false,
    }
}

/// Whether the feet and the eyes of a player are in water; neither is before
/// the player is placed.
pub fn water_flags(store: &ChunkStore, registry: &BlockRegistry, spawned: bool, feet: IVec3, eye: IVec3) -> (flags:
    (bool, bool))
    ensures
        flags.0 == (spawned && store.block(feet) == Some(registry.known.water)),
        flags.1 == (spawned && store.block(eye) == Some(registry.known.water)),
{
    if !spawned {
        return (false, false);
    }
    let feet_in_water = match block_at(store, feet) {
        Some(block) => block == registry.known.water,
        None => false,
    };
    let eye_in_water = match block_at(store, eye) {
        Some(block) => block == registry.known.water,
        None => false,
    };
    (feet_in_water, eye_in_water)
}

/// Two presses of the jump key switch flight exactly when the second comes
/// within 300 milliseconds of the first, however many frames without a press
/// lie between them; one press alone never does. The flight key switches at
/// once. Nothing does where flight is not allowed, and a press is forgotten
/// there.
pub proof fn law_two_quick_presses_switch(tap: FlightTap, first: u64, between: u64, second: u64)
    ensures
        ({
            let waiting = tap_after(FlightTap { last_press: None }, first, true, false, true);
            let later = tap_after(waiting, between, true, false, false);
            &&& !switches(FlightTap { last_press: None }, first, true, false, true)
            &&& later == waiting
            &&& switches(later, second, true, false, true) <==> first <= second && second - first
                <= 300_000_000
            &&& !switches(later, second, true, false, false)
        }),
        switches(tap, first, true, true, false),
        switches(tap, first, true, true, true),
        forall|shortcut: bool, jump: bool| !#[trigger] switches(tap, first, false, shortcut, jump),
        forall|shortcut: bool, jump: bool|
            (#[trigger] tap_after(tap, first, false, shortcut, jump)).last_press is None,
        forall|jump: bool| (#[trigger] tap_after(tap, first, true, true, jump)).last_press is None,
{
}

/// A press that comes too late to complete a pair starts a new one.
pub proof fn law_late_press_starts_over(first: u64, second: u64)
    requires
        second > first + 300_000_000,
    ensures
        tap_after(FlightTap { last_press: Some(first) }, second, true, false, true).last_press
            == Some(second),
{
}

/// The player is in control exactly while placed in the world, alive, in the
/// game with the cursor held, and not pressing a key that opens a screen.
pub proof fn law_control_needs_all(i: ControlInput)
    ensures
        in_control(i) <==> !(!i.spawned || i.dead || i.pause != PauseState::Playing
            || !i.cursor_locked || i.escape_pressed || i.inventory_pressed),
        no_input().flight_tap.last_press is None,
        !no_input().active,
        !no_input().zoomed,
{
}

/// Opposite keys cancel each other; one key alone moves its own way.
pub proof fn law_opposite_keys_cancel(plus: bool, minus: bool)
    ensures
        plus == minus ==> axis(plus, minus) == 0,
        plus && !minus ==> axis(plus, minus) == 1,
        minus && !plus ==> axis(plus, minus) == -1,
        axis(plus, minus) == -axis(minus, plus),
{
}

/// On the ground the jump key jumps, in the water or not. Off the ground in
/// water it lets the player rise while it is held, and a new press leaps out
/// where only the feet are in the water; without it the player sinks.
pub proof fn law_water_carries(f: Footing, keys: MoveKeys)
    ensures
        f.on_ground ==> !swims(f) && (vertical_of(f, keys) == if keys.up_pressed {
            Vertical::Jump
        } else {
            Vertical::Fall
        }),
        !f.on_ground && (f.feet_in_water || f.eye_in_water) ==> {
            &&& swims(f)
            &&& keys.up_pressed && f.feet_in_water && !f.eye_in_water ==> vertical_of(f, keys)
                == Vertical::Leap
            &&& keys.up_down && !(keys.up_pressed && f.feet_in_water && !f.eye_in_water)
                ==> vertical_of(f, keys) == Vertical::SwimUp
            &&& !keys.up_down && !keys.up_pressed ==> vertical_of(f, keys) == Vertical::Sink
            &&& !keys.up_down && f.eye_in_water ==> vertical_of(f, keys) == Vertical::Sink
        },
        !f.on_ground && !f.feet_in_water && !f.eye_in_water ==> !swims(f),
{
}

/// A movement in steps ran into something along an axis exactly if one of its
/// steps did, and ends on the ground exactly if its last step does.
pub proof fn law_no_hit_is_lost(steps: Seq<MoveFlags>, n: int)
    requires
        0 <= n < steps.len(),
    ensures
        steps[n].hit_x ==> combined(steps).hit_x,
        steps[n].hit_y ==> combined(steps).hit_y,
        steps[n].hit_z ==> combined(steps).hit_z,
        (forall|k: int| 0 <= k < steps.len() ==> !(#[trigger] steps[k]).hit_x) ==> !combined(
            steps,
        ).hit_x,
        (forall|k: int| 0 <= k < steps.len() ==> !(#[trigger] steps[k]).hit_y) ==> !combined(
            steps,
        ).hit_y,
        (forall|k: int| 0 <= k < steps.len() ==> !(#[trigger] steps[k]).hit_z) ==> !combined(
            steps,
        ).hit_z,
        combined(steps).on_ground == steps[steps.len() - 1].on_ground,
{
}

/// Switching the way to move twice leads back.
pub proof fn law_modes_alternate(m: PlayerMode)
    ensures
        other_mode(m) != m,
        other_mode(other_mode(m)) == m,
{
}

} // verus!
