//! Taking a screenshot once the screen to be shown has settled.
//!
//! Times are nanoseconds since the program started.

use crate::pause::PauseState;
use std::collections::VecDeque;
use vstd::prelude::*;

verus! {

/// Frames that the view has to look settled.
pub const SETTLE_FRAMES: u32 = 20;

/// Chunks that must have been meshed.
pub const MIN_MESHED_CHUNKS: usize = 50;

/// Coarse chunks that must have been meshed, or all that are wanted.
pub const MIN_MESHED_LOD_CHUNKS: usize = 150;

/// When the picture is taken whatever the view looks like: after 45 s.
pub const HARD_TIMEOUT: u64 = 45_000_000_000;

/// When the title menu is taken: after 3 s.
pub const MENU_CAPTURE_DELAY: u64 = 3_000_000_000;

/// How long a screen that was opened over the game is shown first: 1 s.
pub const SCREEN_CAPTURE_DELAY: u64 = 1_000_000_000;

/// When another panel of the menu is asked for: after 2 s.
pub const MENU_NAV_DELAY: u64 = 2_000_000_000;

/// How long that panel is shown first: 1 s.
pub const MENU_NAV_CAPTURE_DELAY: u64 = 1_000_000_000;

/// Frames that the average frame rate is taken over.
pub const FPS_WINDOW: usize = 60;

/// Which screen is taken.
#[derive(Clone, Copy, Debug, PartialEq, Eq, Structural)]
pub enum ScreenshotTarget {
    /// The world as it is seen.
    World,
    /// The same, zoomed in.
    Zoom,
    /// The world from where the player was left.
    Cave,
    Menu,
    WorldSelect,
    CreateWorld,
    Pause,
    Inventory,
}

impl Default for ScreenshotTarget {
    fn default() -> (t: ScreenshotTarget)
        ensures
            t == ScreenshotTarget::World,
    {
        ScreenshotTarget::World
    }
}

impl ScreenshotTarget {
    pub open spec fn spec_is_menu(self) -> bool {
        self == ScreenshotTarget::Menu || self == ScreenshotTarget::WorldSelect || self
            == ScreenshotTarget::CreateWorld
    }

    /// Whether the screen is part of the menu rather than of the game.
    pub fn is_menu(self) -> (b: bool)
        ensures
            b == self.spec_is_menu(),
    {
        match self {
            ScreenshotTarget::Menu | ScreenshotTarget::WorldSelect
            | ScreenshotTarget::CreateWorld => true,
            _ => false,
        }
    }
}

/// What the view looks like in a frame.
#[derive(Clone, Copy, Debug, PartialEq, Eq, Structural)]
pub struct ViewStatus {
    /// Some chunk waits to be meshed.
    pub chunk_ready: bool,
    pub meshed: usize,
    pub lod_meshed: usize,
    pub lod_wanted: usize,
}

/// Whether the view looks settled: nothing waits, and enough is there.
pub open spec fn settled(v: ViewStatus) -> bool {
    &&& !v.chunk_ready
    &&& v.meshed >= MIN_MESHED_CHUNKS
    &&& v.lod_meshed >= MIN_MESHED_LOD_CHUNKS || v.lod_meshed >= v.lod_wanted
}

/// Something to do before the picture is taken.
#[derive(Clone, Copy, Debug, PartialEq, Eq, Structural)]
pub enum Request {
    /// Go to another panel of the menu.
    Navigate(ScreenshotTarget),
    /// Open a screen over the game.
    Open(PauseState),
}

/// What a frame asks for.
#[derive(Clone, Copy, Debug, PartialEq, Eq, Structural)]
pub struct CaptureStep {
    pub request: Option<Request>,
    /// Take the picture now.
    pub capture: bool,
}

/// How far the wait is.
#[derive(Debug)]
pub struct ScreenshotState {
    pub settled_frames: u32,
    /// The picture was taken.
    pub triggered: bool,
    /// When the pause menu was opened.
    pub paused_at: Option<u64>,
    /// When the inventory was opened.
    pub inventory_opened_at: Option<u64>,
    /// When another panel of the menu was asked for.
    pub menu_nav_requested_at: Option<u64>,
    /// The camera was put into place.
    pub positioned: bool,
    /// Durations of the last frames.
    pub recent_frames: VecDeque<u64>,
}

/// The last frames after another one.
pub open spec fn recorded(frames: Seq<u64>, dt: u64) -> Seq<u64> {
    if frames.len() == FPS_WINDOW {
        frames.drop_first().push(dt)
    } else {
        frames.push(dt)
    }
}

/// Whether a time that began is over.
pub open spec fn over(since: Option<u64>, delay: u64, now: u64) -> bool {
    since is Some && now - since->0 >= delay
}

/// Number of frames that the view has looked settled, this one counted.
pub open spec fn settled_count(before: u32, v: ViewStatus) -> u32 {
    if !settled(v) {
        0
    } else if before == u32::MAX {
        before
    } else {
        (before + 1) as u32
    }
}

/// What is asked for before the picture is taken: another panel after two
/// seconds in the menu, a screen over the game once the view has settled.
pub open spec fn request_of(s: ScreenshotState, target: ScreenshotTarget, now: u64, frames: u32) -> Option<
    Request,
> {
    match target {
        ScreenshotTarget::WorldSelect | ScreenshotTarget::CreateWorld => if s.menu_nav_requested_at is None
            && now >= MENU_NAV_DELAY {
            Some(Request::Navigate(target))
        } else {
            None
        },
        ScreenshotTarget::Inventory => if s.inventory_opened_at is None && frames >= SETTLE_FRAMES {
            Some(Request::Open(PauseState::Inventory))
        } else {
            None
        },
        ScreenshotTarget::Pause => if s.paused_at is None && frames >= SETTLE_FRAMES {
            Some(Request::Open(PauseState::Paused))
        } else {
            None
        },
        _ => None,
    }
}

/// Whether the picture is due, the hard limit aside.
pub open spec fn due(s: ScreenshotState, target: ScreenshotTarget, now: u64, frames: u32) -> bool {
    match target {
        ScreenshotTarget::Menu => now >= MENU_CAPTURE_DELAY,
        ScreenshotTarget::WorldSelect | ScreenshotTarget::CreateWorld => over(
            s.menu_nav_requested_at,
            MENU_NAV_CAPTURE_DELAY,
            now,
        ),
        ScreenshotTarget::Inventory => over(s.inventory_opened_at, SCREEN_CAPTURE_DELAY, now),
        ScreenshotTarget::Pause => over(s.paused_at, SCREEN_CAPTURE_DELAY, now),
        ScreenshotTarget::World | ScreenshotTarget::Zoom | ScreenshotTarget::Cave => frames
            >= SETTLE_FRAMES,
    }
}

/// What a frame asks for.
pub open spec fn step_of(s: ScreenshotState, target: ScreenshotTarget, now: u64, v: ViewStatus) -> CaptureStep {
    if s.triggered {
        CaptureStep { request: None, capture: false }
    } else {
        let frames = settled_count(s.settled_frames, v);
        CaptureStep {
            request: request_of(s, target, now, frames),
            capture: due(s, target, now, frames) || now >= HARD_TIMEOUT,
        }
    }
}

impl Default for ScreenshotState {
    fn default() -> (s: ScreenshotState)
        ensures
            s.is_initial(),
    {
        ScreenshotState {
            settled_frames: 0,
            triggered: false,
            paused_at: None,
            inventory_opened_at: None,
            menu_nav_requested_at: None,
            positioned: false,
            recent_frames: VecDeque::new(),
        }
    }
}

impl ScreenshotState {
    pub open spec fn is_initial(self) -> bool {
        &&& self.settled_frames == 0
        &&& !self.triggered
        &&& self.paused_at is None
        &&& self.inventory_opened_at is None
        &&& self.menu_nav_requested_at is None
        &&& !self.positioned
        &&& self.recent_frames@ == Seq::<u64>::empty()
    }

    /// Whether no time lies ahead of `now`, and the window is not overfull.
    pub open spec fn wf(self, now: u64) -> bool {
        &&& self.paused_at is Some ==> self.paused_at->0 <= now
        &&& self.inventory_opened_at is Some ==> self.inventory_opened_at->0 <= now
        &&& self.menu_nav_requested_at is Some ==> self.menu_nav_requested_at->0 <= now
        &&& self.recent_frames@.len() <= FPS_WINDOW
    }

    /// Takes up the duration of a frame.
    pub fn record_frame(&mut self, dt: u64)
        requires
            old(self).recent_frames@.len() <= FPS_WINDOW,
        ensures
            final(self).recent_frames@ == recorded(old(self).recent_frames@, dt),
            final(self).recent_frames@.len() <= FPS_WINDOW,
            final(self).settled_frames == old(self).settled_frames,
            final(self).triggered == old(self).triggered,
            final(self).paused_at == old(self).paused_at,
            final(self).inventory_opened_at == old(self).inventory_opened_at,
            final(self).menu_nav_requested_at == old(self).menu_nav_requested_at,
            final(self).positioned == old(self).positioned,
    {
        if self.recent_frames.len() == FPS_WINDOW {
            self.recent_frames.pop_front();
            assert(self.recent_frames@ =~= old(self).recent_frames@.drop_first());
        }
        self.recent_frames.push_back(dt);
    }

    /// Whether the camera is to be moved for the picture: once the player is
    /// in the world, and only the first time.
    pub fn position_camera(&mut self, target: ScreenshotTarget, player_spawned: bool) -> (move_camera:
        bool)
        ensures
            move_camera == (!target.spec_is_menu() && target != ScreenshotTarget::Cave && !old(
                self).positioned && player_spawned),
            *final(self) == (ScreenshotState {
                positioned: old(self).positioned || move_camera,
                ..*old(self)
            }),
    {
        if target.is_menu() || target == ScreenshotTarget::Cave || self.positioned
            || !player_spawned {
            return false;
        }
        self.positioned = true;
        true
    }

    /// A frame of `dt` that ends at `now`: what is to be done in it.
    pub fn watch(&mut self, target: ScreenshotTarget, now: u64, dt: u64, view: ViewStatus) -> (step:
        CaptureStep)
        requires
            old(self).wf(now),
        ensures
            final(self).wf(now),
            step == step_of(*old(self), target, now, view),
            final(self).triggered == (old(self).triggered || step.capture),
            final(self).positioned == old(self).positioned,
            final(self).recent_frames@ == if old(self).triggered {
                old(self).recent_frames@
            } else {
                recorded(old(self).recent_frames@, dt)
            },
            final(self).settled_frames == if old(self).triggered || target.spec_is_menu() {
                old(self).settled_frames
            } else {
                settled_count(old(self).settled_frames, view)
            },
            final(self).menu_nav_requested_at == if step.request matches Some(Request::Navigate(_)) {
                Some(now)
            } else {
                old(self).menu_nav_requested_at
            },
            final(self).inventory_opened_at == if step.request == Some(
                Request::Open(PauseState::Inventory),
            ) {
                Some(now)
            } else {
                old(self).inventory_opened_at
            },
            final(self).paused_at == if step.request == Some(Request::Open(PauseState::Paused)) {
                Some(now)
            } else {
                old(self).paused_at
            },
    {
        if self.triggered {
            return CaptureStep { request: None, capture: false };
        }
        self.record_frame(dt);
        let timed_out = now >= HARD_TIMEOUT;
        let mut request: Option<Request> = None;
        let mut capture = false;
        if target.is_menu() {
            if target == ScreenshotTarget::Menu {
                capture = now >= MENU_CAPTURE_DELAY;
            } else {
                match self.menu_nav_requested_at {
                    None => {
                        if now >= MENU_NAV_DELAY {
                            request = Some(Request::Navigate(target));
                            self.menu_nav_requested_at = Some(now);
                        }
                    },
                    Some(at) => {
                        capture = now - at >= MENU_NAV_CAPTURE_DELAY;
                    },
                }
            }
        } else {
            let enough_lod = view.lod_meshed >= MIN_MESHED_LOD_CHUNKS || view.lod_meshed
                >= view.lod_wanted;
            let is_settled = !view.chunk_ready && view.meshed >= MIN_MESHED_CHUNKS && enough_lod;
            self.settled_frames = if is_settled { self.settled_frames.saturating_add(1) } else { 0 };
            let world_ready = self.settled_frames >= SETTLE_FRAMES;
            match target {
                ScreenshotTarget::Inventory => match self.inventory_opened_at {
                    None => {
                        if world_ready {
                            request = Some(Request::Open(PauseState::Inventory));
                            self.inventory_opened_at = Some(now);
                        }
                    },
                    Some(at) => {
                        capture = now - at >= SCREEN_CAPTURE_DELAY;
                    },
                },
                ScreenshotTarget::Pause => match self.paused_at {
                    None => {
                        if world_ready {
                            request = Some(Request::Open(PauseState::Paused));
                            self.paused_at = Some(now);
                        }
                    },
                    Some(at) => {
                        capture = now - at >= SCREEN_CAPTURE_DELAY;
                    },
                },
                _ => {
                    capture = world_ready;
                },
            }
        }
        capture = capture || timed_out;
        self.triggered = capture;
        CaptureStep { request, capture }
    }
}

/// The picture is taken at most once, and after 45 seconds at the latest.
pub proof fn law_one_picture_in_time(s: ScreenshotState, target: ScreenshotTarget, now: u64, v: ViewStatus)
    ensures
        s.triggered ==> !step_of(s, target, now, v).capture,
        !s.triggered && now >= HARD_TIMEOUT ==> step_of(s, target, now, v).capture,
{
}

/// Before 45 seconds have passed, the picture is taken when its screen is
/// there: of the menu after three seconds, of another panel or screen a second
/// after it was asked for, and of the world once it has looked settled for
/// twenty frames, that is with nothing left to mesh, 50 chunks shown, and 150
/// coarse ones or all that are wanted.
pub proof fn law_pictures_wait_for_their_screen(
    s: ScreenshotState,
    target: ScreenshotTarget,
    now: u64,
    v: ViewStatus,
)
    requires
        !s.triggered,
        now < 45_000_000_000,
    ensures
        ({
            let capture = step_of(s, target, now, v).capture;
            let panel = s.menu_nav_requested_at;
            let pack = s.inventory_opened_at;
            let pause = s.paused_at;
            &&& target == ScreenshotTarget::Menu ==> (capture <==> now >= 3_000_000_000)
            &&& target == ScreenshotTarget::WorldSelect || target == ScreenshotTarget::CreateWorld
                ==> (capture <==> panel is Some && now >= panel->0 + 1_000_000_000)
            &&& target == ScreenshotTarget::Inventory ==> (capture <==> pack is Some && now
                >= pack->0 + 1_000_000_000)
            &&& target == ScreenshotTarget::Pause ==> (capture <==> pause is Some && now >= pause->0
                + 1_000_000_000)
            &&& target == ScreenshotTarget::World || target == ScreenshotTarget::Zoom || target
                == ScreenshotTarget::Cave ==> (capture <==> s.settled_frames >= 19 && !v.chunk_ready
                && v.meshed >= 50 && (v.lod_meshed >= 150 || v.lod_meshed >= v.lod_wanted))
        }),
{
}

/// A screen is asked for once: another panel of the menu after two seconds,
/// the inventory and the pause menu once the world has looked settled for
/// twenty frames. The other pictures ask for nothing.
pub proof fn law_screens_are_asked_for_once(
    s: ScreenshotState,
    target: ScreenshotTarget,
    now: u64,
    v: ViewStatus,
)
    ensures
        ({
            let request = step_of(s, target, now, v).request;
            let settled_long = s.settled_frames >= 19 && !v.chunk_ready && v.meshed >= 50 && (
            v.lod_meshed >= 150 || v.lod_meshed >= v.lod_wanted);
            &&& request == Some(Request::Navigate(target)) <==> !s.triggered && (target
                == ScreenshotTarget::WorldSelect || target == ScreenshotTarget::CreateWorld)
                && s.menu_nav_requested_at is None && now >= 2_000_000_000
            &&& request == Some(Request::Open(PauseState::Inventory)) <==> !s.triggered && target
                == ScreenshotTarget::Inventory && s.inventory_opened_at is None && settled_long
            &&& request == Some(Request::Open(PauseState::Paused)) <==> !s.triggered && target
                == ScreenshotTarget::Pause && s.paused_at is None && settled_long
            &&& request is Some ==> request == Some(Request::Navigate(target)) || request == Some(
                Request::Open(PauseState::Inventory),
            ) || request == Some(Request::Open(PauseState::Paused))
        }),
{
}

/// The durations kept are those of the last sixty frames, in order, the new
/// one last.
pub proof fn law_the_last_sixty_frames_are_kept(frames: Seq<u64>, dt: u64)
    requires
        frames.len() <= 60,
    ensures
        recorded(frames, dt).len() <= 60,
        frames.len() < 60 ==> recorded(frames, dt) == frames + seq![dt],
        frames.len() == 60 ==> recorded(frames, dt) == frames.subrange(1, 60) + seq![dt],
{
    if frames.len() < 60 {
        assert(frames.push(dt) =~= frames + seq![dt]);
    } else {
        assert(frames.drop_first().push(dt) =~= frames.subrange(1, 60) + seq![dt]);
    }
}

} // verus!
