//! The title menu: its panels, and what its buttons do.

use crate::names::{trim, trimmed};
use crate::protocol::GameMode;
use vstd::prelude::*;

verus! {

/// The phase that the program is in.
#[derive(Clone, Copy, Debug, PartialEq, Eq, Structural, Hash)]
pub enum AppState {
    Menu,
    InGame,
}

impl Default for AppState {
    fn default() -> (s: AppState)
        ensures
            s == AppState::Menu,
    {
        AppState::Menu
    }
}

/// Which panel the menu shows.
#[derive(Clone, Copy, Debug, PartialEq, Eq, Structural)]
pub enum MenuPanel {
    Main,
    Connect,
    Settings,
    /// The worlds on this machine.
    WorldSelect,
    /// The form for a new world.
    CreateWorld,
    /// The question whether a world is really to be deleted.
    ConfirmDelete,
}

impl MenuPanel {
    /// Where Back and Escape lead from a panel.
    pub open spec fn parent(self) -> MenuPanel {
        match self {
            MenuPanel::CreateWorld | MenuPanel::ConfirmDelete => MenuPanel::WorldSelect,
            _ => MenuPanel::Main,
        }
    }

    fn to_parent(self) -> (p: MenuPanel)
        ensures
            p == self.parent(),
    {
        match self {
            MenuPanel::CreateWorld | MenuPanel::ConfirmDelete => MenuPanel::WorldSelect,
            _ => MenuPanel::Main,
        }
    }
}

/// A button of the menu. A world is named by its place in the list.
#[derive(Clone, Copy, Debug, PartialEq, Eq, Structural)]
pub enum MenuButtonAction {
    Singleplayer,
    Multiplayer,
    Settings,
    Quit,
    Connect,
    /// Out of a sub-panel.
    Back,
    PlayWorld(usize),
    /// To the form for a new world.
    NewWorld,
    /// The form's other game mode.
    SwitchMode,
    /// Sends the form for a new world.
    CreateWorld,
    DeleteWorld(usize),
    /// Yes, the world is to be deleted.
    ConfirmDelete,
}

/// What a button of the menu asks for.
#[derive(Clone, Copy, Debug, PartialEq, Eq, Structural)]
pub enum MenuEffect {
    Nothing,
    /// Put another panel in place of the one shown.
    ShowPanel(MenuPanel),
    /// Try to start a world on this machine and enter it.
    StartWorld(usize),
    /// Try to create the world that the form asks for.
    CreateWorld,
    /// Delete a world.
    DeleteWorld(usize),
    /// Show the game mode that the form asks for.
    ShowMode(GameMode),
    /// Try to connect to the address in the form.
    Connect,
    Quit,
}

/// The menu: its panel, the text field that has the focus, the game mode that
/// the form for a new world asks for, and the world that may be deleted.
#[derive(Clone, Copy, Debug, PartialEq, Eq, Structural)]
pub struct Menu {
    pub panel: MenuPanel,
    pub focus: Option<u64>,
    pub mode: GameMode,
    pub doomed: Option<usize>,
}

/// The other game mode.
pub open spec fn other_mode(mode: GameMode) -> GameMode {
    match mode {
        GameMode::Survival => GameMode::Creative,
        GameMode::Creative => GameMode::Survival,
    }
}

/// What a button asks for. Singleplayer needs a way to start worlds, Connect
/// the form to be there, and a world is deleted only where the menu asked
/// whether it is to be.
pub open spec fn effect_of(
    menu: Menu,
    action: MenuButtonAction,
    has_singleplayer: bool,
    has_form: bool,
) -> MenuEffect {
    match action {
        MenuButtonAction::Singleplayer => if has_singleplayer {
            MenuEffect::ShowPanel(MenuPanel::WorldSelect)
        } else {
            MenuEffect::Nothing
        },
        MenuButtonAction::Multiplayer => MenuEffect::ShowPanel(MenuPanel::Connect),
        MenuButtonAction::Settings => MenuEffect::ShowPanel(MenuPanel::Settings),
        MenuButtonAction::Quit => MenuEffect::Quit,
        MenuButtonAction::Connect => if has_form {
            MenuEffect::Connect
        } else {
            MenuEffect::Nothing
        },
        MenuButtonAction::Back => MenuEffect::ShowPanel(menu.panel.parent()),
        MenuButtonAction::PlayWorld(place) => MenuEffect::StartWorld(place),
        MenuButtonAction::NewWorld => MenuEffect::ShowPanel(MenuPanel::CreateWorld),
        MenuButtonAction::SwitchMode => MenuEffect::ShowMode(other_mode(menu.mode)),
        MenuButtonAction::CreateWorld => MenuEffect::CreateWorld,
        MenuButtonAction::DeleteWorld(_) => MenuEffect::ShowPanel(MenuPanel::ConfirmDelete),
        MenuButtonAction::ConfirmDelete => match menu.doomed {
            Some(place) => MenuEffect::DeleteWorld(place),
            None => MenuEffect::Nothing,
        },
    }
}

/// The menu with a panel shown. A new panel takes the focus away.
pub open spec fn showing(menu: Menu, panel: MenuPanel) -> Menu {
    Menu { panel, focus: None, doomed: None, ..menu }
}

/// The menu after a button.
pub open spec fn menu_after(menu: Menu, action: MenuButtonAction, effect: MenuEffect) -> Menu {
    match effect {
        MenuEffect::ShowPanel(panel) => Menu {
            doomed: match action {
                MenuButtonAction::DeleteWorld(place) => Some(place),
                _ => None,
            },
            ..showing(menu, panel)
        },
        MenuEffect::ShowMode(mode) => Menu { mode, ..menu },
        _ => menu,
    }
}

impl Default for Menu {
    fn default() -> (m: Menu)
        ensures
            m == (Menu {
                panel: MenuPanel::Main,
                focus: None,
                mode: GameMode::Survival,
                doomed: None,
            }),
    {
        Menu { panel: MenuPanel::Main, focus: None, mode: GameMode::Survival, doomed: None }
    }
}

impl Menu {
    /// Puts a panel in place of the one shown.
    pub fn show(&mut self, panel: MenuPanel)
        ensures
            *final(self) == showing(*old(self), panel),
    {
        self.panel = panel;
        self.focus = None;
        self.doomed = None;
    }

    /// A button was pressed.
    pub fn press(&mut self, action: MenuButtonAction, has_singleplayer: bool, has_form: bool) -> (effect:
        MenuEffect)
        ensures
            effect == effect_of(*old(self), action, has_singleplayer, has_form),
            *final(self) == menu_after(*old(self), action, effect),
    {
        match action {
            MenuButtonAction::Singleplayer => {
                if !has_singleplayer {
                    return MenuEffect::Nothing;
                }
                self.show(MenuPanel::WorldSelect);
            },
            MenuButtonAction::Multiplayer => self.show(MenuPanel::Connect),
            MenuButtonAction::Settings => self.show(MenuPanel::Settings),
            MenuButtonAction::Quit => {
                return MenuEffect::Quit;
            },
            MenuButtonAction::Connect => {
                return if has_form {
                    MenuEffect::Connect
                } else {
                    MenuEffect::Nothing
                };
            },
            MenuButtonAction::Back => {
                let panel = self.panel.to_parent();
                self.show(panel);
            },
            MenuButtonAction::PlayWorld(place) => {
                return MenuEffect::StartWorld(place);
            },
            MenuButtonAction::NewWorld => self.show(MenuPanel::CreateWorld),
            MenuButtonAction::SwitchMode => {
                self.mode = match self.mode {
                    GameMode::Survival => GameMode::Creative,
                    GameMode::Creative => GameMode::Survival,
                };
                return MenuEffect::ShowMode(self.mode);
            },
            MenuButtonAction::CreateWorld => {
                return MenuEffect::CreateWorld;
            },
            MenuButtonAction::DeleteWorld(place) => {
                self.show(MenuPanel::ConfirmDelete);
                self.doomed = Some(place);
            },
            MenuButtonAction::ConfirmDelete => {
                return match self.doomed {
                    Some(place) => MenuEffect::DeleteWorld(place),
                    None => MenuEffect::Nothing,
                };
            },
        }
        MenuEffect::ShowPanel(self.panel)
    }

    /// Escape leads out of a sub-panel.
    pub fn escape(&mut self, pressed: bool) -> (effect: MenuEffect)
        ensures
            effect == if pressed && old(self).panel != MenuPanel::Main {
                MenuEffect::ShowPanel(old(self).panel.parent())
            } else {
                MenuEffect::Nothing
            },
            *final(self) == if effect is Nothing {
                *old(self)
            } else {
                showing(*old(self), old(self).panel.parent())
            },
    {
        if pressed && self.panel != MenuPanel::Main {
            let panel = self.panel.to_parent();
            self.show(panel);
            MenuEffect::ShowPanel(panel)
        } else {
            MenuEffect::Nothing
        }
    }

    /// A text field was clicked.
    pub fn focus_on(&mut self, field: u64)
        ensures
            *final(self) == (Menu { focus: Some(field), ..*old(self) }),
    {
        self.focus = Some(field);
    }
}

/// Escape does what the Back button does, wherever there is one.
pub proof fn law_escape_is_back(menu: Menu, has_singleplayer: bool, has_form: bool)
    requires
        menu.panel != MenuPanel::Main,
    ensures
        effect_of(menu, MenuButtonAction::Back, has_singleplayer, has_form)
            == MenuEffect::ShowPanel(menu.panel.parent()),
        menu_after(
            menu,
            MenuButtonAction::Back,
            effect_of(menu, MenuButtonAction::Back, has_singleplayer, has_form),
        ) == showing(menu, menu.panel.parent()),
{
}

/// Whether the menu remembers a world to delete only while it asks whether to.
pub open spec fn asks_before_deleting(menu: Menu) -> bool {
    menu.doomed is Some ==> menu.panel == MenuPanel::ConfirmDelete
}

/// No world is deleted without the question: every button, every panel that is
/// put up and every field that is clicked keep the menu one that asks, and a
/// button leads to a deletion only while the question is shown, for the world
/// that it was asked about.
pub proof fn law_deleting_is_confirmed(
    menu: Menu,
    action: MenuButtonAction,
    panel: MenuPanel,
    field: u64,
    has_singleplayer: bool,
    has_form: bool,
)
    requires
        asks_before_deleting(menu),
    ensures
        asks_before_deleting(
            menu_after(menu, action, effect_of(menu, action, has_singleplayer, has_form)),
        ),
        asks_before_deleting(showing(menu, panel)),
        asks_before_deleting(Menu { focus: Some(field), ..menu }),
        effect_of(menu, action, has_singleplayer, has_form) matches MenuEffect::DeleteWorld(place)
            ==> menu.panel == MenuPanel::ConfirmDelete && menu.doomed == Some(place) && action
            == MenuButtonAction::ConfirmDelete,
{
}

/// What became of an attempt to create or to delete a world.
#[derive(Debug)]
pub enum WorldOutcome {
    /// Show the list of worlds as it is now.
    ShowWorlds,
    /// The attempt failed, for a reason to show.
    ShowError(String),
}

impl Menu {
    /// Ends an attempt to create or to delete a world. Where it succeeded,
    /// the list of worlds is shown again.
    pub fn finish_world(&mut self, failure: Option<String>) -> (outcome: WorldOutcome)
        ensures
            outcome == match failure {
                Some(text) => WorldOutcome::ShowError(text),
                None => WorldOutcome::ShowWorlds,
            },
            *final(self) == if failure is None {
                showing(*old(self), MenuPanel::WorldSelect)
            } else {
                *old(self)
            },
    {
        match failure {
            Some(text) => WorldOutcome::ShowError(text),
            None => {
                self.show(MenuPanel::WorldSelect);
                WorldOutcome::ShowWorlds
            },
        }
    }
}

/// What became of an attempt to connect.
#[derive(Debug)]
pub enum ConnectOutcome {
    /// The world is entered.
    Enter,
    /// The attempt failed, for a reason to show.
    ShowError(String),
}

/// Ends an attempt to connect. Where it succeeded, a name that is not blank
/// becomes the player's.
pub fn finish_connect(player_name: &mut String, typed_name: String, failure: Option<String>) -> (outcome:
    ConnectOutcome)
    ensures
        outcome == match failure {
            Some(text) => ConnectOutcome::ShowError(text),
            None => ConnectOutcome::Enter,
        },
        *final(player_name) == if failure is None && trimmed(typed_name@).len() > 0 {
            typed_name
        } else {
            *old(player_name)
        },
{
    match failure {
        Some(text) => ConnectOutcome::ShowError(text),
        None => {
            if trim(typed_name.as_str()).len() > 0 {
                *player_name = typed_name;
            }
            ConnectOutcome::Enter
        },
    }
}

/// Every button that leads to a panel leads to the one it names, with no field
/// in focus. Back leads out of the form for a new world, and out of the
/// question about one, to the list of worlds, and from everywhere else to the
/// start.
pub proof fn law_buttons_lead_where_they_say(
    menu: Menu,
    action: MenuButtonAction,
    has_singleplayer: bool,
    has_form: bool,
)
    ensures
        ({
            let effect = effect_of(menu, action, has_singleplayer, has_form);
            let after = menu_after(menu, action, effect);
            &&& action == MenuButtonAction::Multiplayer ==> after.panel == MenuPanel::Connect
            &&& action == MenuButtonAction::Settings ==> after.panel == MenuPanel::Settings
            &&& action == MenuButtonAction::NewWorld ==> after.panel == MenuPanel::CreateWorld
            &&& action == MenuButtonAction::Singleplayer && has_singleplayer ==> after.panel
                == MenuPanel::WorldSelect
            &&& action == MenuButtonAction::Singleplayer && !has_singleplayer ==> after == menu
                && effect == MenuEffect::Nothing
            &&& action == MenuButtonAction::Back && (menu.panel == MenuPanel::CreateWorld
                || menu.panel == MenuPanel::ConfirmDelete) ==> after.panel == MenuPanel::WorldSelect
            &&& action == MenuButtonAction::Back && menu.panel != MenuPanel::CreateWorld
                && menu.panel != MenuPanel::ConfirmDelete ==> after.panel == MenuPanel::Main
            &&& action matches MenuButtonAction::DeleteWorld(place) ==> (after.panel
                == MenuPanel::ConfirmDelete && after.doomed == Some(place))
            &&& after.panel != menu.panel ==> effect == MenuEffect::ShowPanel(after.panel)
                && after.focus is None
            &&& effect is ShowPanel ==> effect == MenuEffect::ShowPanel(after.panel) && after.focus
                is None && (after.doomed is Some <==> action is DeleteWorld)
        }),
{
}

/// The buttons that leave the menu do what they say and leave it as it is:
/// they play the world they stand for, send the form, connect, or quit.
pub proof fn law_buttons_do_what_they_say(
    menu: Menu,
    action: MenuButtonAction,
    has_singleplayer: bool,
    has_form: bool,
)
    ensures
        ({
            let effect = effect_of(menu, action, has_singleplayer, has_form);
            let after = menu_after(menu, action, effect);
            &&& effect == MenuEffect::Quit <==> action == MenuButtonAction::Quit
            &&& effect == MenuEffect::Connect <==> action == MenuButtonAction::Connect && has_form
            &&& effect == MenuEffect::CreateWorld <==> action == MenuButtonAction::CreateWorld
            &&& effect is StartWorld <==> action is PlayWorld
            &&& action matches MenuButtonAction::PlayWorld(place) ==> effect
                == MenuEffect::StartWorld(place)
            &&& effect is DeleteWorld <==> action == MenuButtonAction::ConfirmDelete && menu.doomed
                is Some
            &&& effect matches MenuEffect::DeleteWorld(place) ==> menu.doomed == Some(place)
            &&& !(effect is ShowPanel) && !(effect is ShowMode) ==> after == menu
            &&& effect is ShowMode <==> action == MenuButtonAction::SwitchMode
        }),
{
}

/// The form's game mode changes with its button alone, which shows the new
/// one; pressed twice it changes nothing.
pub proof fn law_the_mode_alternates(
    menu: Menu,
    action: MenuButtonAction,
    has_singleplayer: bool,
    has_form: bool,
)
    ensures
        ({
            let effect = effect_of(menu, action, has_singleplayer, has_form);
            let after = menu_after(menu, action, effect);
            let again = menu_after(
                after,
                action,
                effect_of(after, action, has_singleplayer, has_form),
            );
            &&& after.mode != menu.mode <==> action == MenuButtonAction::SwitchMode
            &&& action == MenuButtonAction::SwitchMode ==> effect == MenuEffect::ShowMode(
                after.mode,
            ) && after.panel == menu.panel && again == menu
        }),
{
}

} // verus!
