//! What is open over the running game: nothing, the pause menu, its settings
//! or the inventory.

use vstd::prelude::*;

verus! {

/// What is open over the running game.
#[derive(Clone, Copy, Debug, PartialEq, Eq, Structural, Hash)]
pub enum PauseState {
    Playing,
    Paused,
    Settings,
    Inventory,
}

impl Default for PauseState {
    fn default() -> (s: PauseState)
        ensures
            s == PauseState::Playing,
    {
        PauseState::Playing
    }
}

/// Whether the player controls the game.
pub fn is_playing(state: PauseState) -> (b: bool)
    ensures
        b == (state == PauseState::Playing),
{
    state == PauseState::Playing
}

/// Where Escape leads: into the pause menu and out of it, from the settings
/// back to the menu, and out of the inventory.
pub open spec fn escape_from(state: PauseState) -> PauseState {
    match state {
        PauseState::Playing => PauseState::Paused,
        PauseState::Paused => PauseState::Playing,
        PauseState::Settings => PauseState::Paused,
        PauseState::Inventory => PauseState::Playing,
    }
}

/// Where Escape leads.
pub fn after_escape(state: PauseState) -> (next: PauseState)
    ensures
        next == escape_from(state),
{
    match state {
        PauseState::Playing => PauseState::Paused,
        PauseState::Paused => PauseState::Playing,
        PauseState::Settings => PauseState::Paused,
        PauseState::Inventory => PauseState::Playing,
    }
}

/// From wherever the player is, Escape leads back into the game within two
/// presses, or opens the pause menu and closes it again.
pub proof fn law_escape_returns(state: PauseState)
    ensures
        escape_from(state) == PauseState::Playing || escape_from(escape_from(state))
            == PauseState::Playing,
        state == PauseState::Playing || state == PauseState::Paused ==> escape_from(
            escape_from(state),
        ) == state,
{
}

/// A button of the pause menu.
#[derive(Clone, Copy, Debug, PartialEq, Eq, Structural)]
pub enum PauseButtonAction {
    Resume,
    Settings,
    /// From the settings back to the menu.
    Back,
    BackToTitle,
    Quit,
}

/// What a button of the pause menu does.
#[derive(Clone, Copy, Debug, PartialEq, Eq, Structural)]
pub enum PauseEffect {
    /// Show something else.
    Show(PauseState),
    /// Say goodbye to the server, drop the connection and go to the title.
    LeaveToTitle,
    /// End the program.
    Quit,
}

/// What a button of the pause menu does.
pub fn press(action: PauseButtonAction) -> (effect: PauseEffect)
    ensures
        effect == match action {
            PauseButtonAction::Resume => PauseEffect::Show(PauseState::Playing),
            PauseButtonAction::Settings => PauseEffect::Show(PauseState::Settings),
            PauseButtonAction::Back => PauseEffect::Show(PauseState::Paused),
            PauseButtonAction::BackToTitle => PauseEffect::LeaveToTitle,
            PauseButtonAction::Quit => PauseEffect::Quit,
        },
{
    match action {
        PauseButtonAction::Resume => PauseEffect::Show(PauseState::Playing),
        PauseButtonAction::Settings => PauseEffect::Show(PauseState::Settings),
        PauseButtonAction::Back => PauseEffect::Show(PauseState::Paused),
        PauseButtonAction::BackToTitle => PauseEffect::LeaveToTitle,
        PauseButtonAction::Quit => PauseEffect::Quit,
    }
}

/// Which panel of the pause menu is on the screen.
#[derive(Clone, Copy, Debug, PartialEq, Eq, Structural)]
pub enum PauseUiKind {
    Hidden,
    Main,
    Settings,
}

/// The panel that belongs to a state.
pub open spec fn panel_for(state: PauseState) -> PauseUiKind {
    match state {
        PauseState::Playing | PauseState::Inventory => PauseUiKind::Hidden,
        PauseState::Paused => PauseUiKind::Main,
        PauseState::Settings => PauseUiKind::Settings,
    }
}

/// The panel to put on the screen in place of the one that is there; `None`
/// where it is the right one.
pub fn panel_change(shown: PauseUiKind, state: PauseState) -> (change: Option<PauseUiKind>)
    ensures
        change == if shown == panel_for(state) {
            None
        } else {
            Some(panel_for(state))
        },
{
    let wanted = match state {
        PauseState::Playing | PauseState::Inventory => PauseUiKind::Hidden,
        PauseState::Paused => PauseUiKind::Main,
        PauseState::Settings => PauseUiKind::Settings,
    };
    if shown == wanted {
        None
    } else {
        Some(wanted)
    }
}

/// Whether the cursor is to be released: the game has just been left for
/// something that is open over it.
pub fn releases_cursor(state_changed: bool, state: PauseState) -> (b: bool)
    ensures
        b == (state_changed && state != PauseState::Playing),
{
    state_changed && state != PauseState::Playing
}

/// Escape pauses a running game, goes on with a paused one, leads from the
/// settings back to the menu and out of the inventory into the game; the menu
/// and the settings are on the screen exactly in their own states.
pub proof fn law_screens_follow_the_state(state: PauseState)
    ensures
        escape_from(state) == PauseState::Paused <==> state == PauseState::Playing || state
            == PauseState::Settings,
        escape_from(state) == PauseState::Playing <==> state == PauseState::Paused || state
            == PauseState::Inventory,
        panel_for(state) == PauseUiKind::Main <==> state == PauseState::Paused,
        panel_for(state) == PauseUiKind::Settings <==> state == PauseState::Settings,
        panel_for(state) == PauseUiKind::Hidden <==> state == PauseState::Playing || state
            == PauseState::Inventory,
{
}

} // verus!
