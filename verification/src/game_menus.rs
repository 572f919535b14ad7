//! The menu controller: which transition, if any, a menu command asks for in
//! the current phase.

use crate::phase::{Phase, PhaseError, PhaseScheduler};
use vstd::prelude::*;

verus! {

/// The three phases that the menus move between.
#[derive(Clone, Copy, Debug, PartialEq, Eq, Structural)]
pub struct MenuResource {
    pub menu_state: Phase,
    pub game_start_state: Phase,
    pub game_end_state: Phase,
}

impl MenuResource {
    pub fn new(menu_state: Phase, game_start_state: Phase, game_end_state: Phase) -> (table: Self)
        ensures
            table == (MenuResource { menu_state, game_start_state, game_end_state }),
    {
        MenuResource { menu_state, game_start_state, game_end_state }
    }
}

/// The menu commands given since the last cycle.
#[derive(Clone, Copy, Debug, PartialEq, Eq, Structural)]
pub struct MenuInput {
    /// Start the game.
    pub start: bool,
    /// Leave the application.
    pub quit: bool,
    /// Go back to the main menu.
    pub back: bool,
}

/// What the menu controller asks for.
#[derive(Clone, Copy, Debug, PartialEq, Eq, Structural)]
pub enum MenuAction {
    /// Nothing.
    Stay,
    /// A transition to the given phase.
    Transition(Phase),
    /// The end of the application.
    Quit,
}

/// The picture that a menu phase shows.
#[derive(Clone, Copy, Debug, PartialEq, Eq, Structural)]
pub enum MenuGraphic {
    MainMenu,
    GameOver,
}

/// What the commands `input` ask for in phase `current`. In the menu phase
/// "start" leads to the play phase; in the game-over phase "back" leads to
/// the menu phase; in both "quit" ends the application, unless the other
/// command was given too. In every other phase nothing happens.
pub open spec fn menu_action(current: Phase, input: MenuInput, table: MenuResource) -> MenuAction {
    if current == table.menu_state {
        if input.start {
            MenuAction::Transition(table.game_start_state)
        } else if input.quit {
            MenuAction::Quit
        } else {
            MenuAction::Stay
        }
    } else if current == table.game_end_state {
        if input.back {
            MenuAction::Transition(table.menu_state)
        } else if input.quit {
            MenuAction::Quit
        } else {
            MenuAction::Stay
        }
    } else {
        MenuAction::Stay
    }
}

/// The picture of phase `current`: that of the main menu in the menu phase,
/// that of the end of the game in the game-over phase, none in any other.
pub open spec fn menu_graphic(current: Phase, table: MenuResource) -> Option<MenuGraphic> {
    if current == table.menu_state {
        Some(MenuGraphic::MainMenu)
    } else if current == table.game_end_state {
        Some(MenuGraphic::GameOver)
    } else {
        None
    }
}

impl MenuGraphic {
    /// The tag under which the asset store keeps the picture.
    pub fn tag(&self) -> (tag: &'static str)
        ensures
            tag@ == match *self {
                MenuGraphic::MainMenu => "main_menu"@,
                MenuGraphic::GameOver => "game_over"@,
            },
    {
        match self {
            MenuGraphic::MainMenu => "main_menu",
            MenuGraphic::GameOver => "game_over",
        }
    }
}

/// Chooses the picture to show on entering phase `current`.
pub fn setup(current: Phase, menu_resource: &MenuResource) -> (menu_graphic: Option<MenuGraphic>)
    ensures
        menu_graphic == self::menu_graphic(current, *menu_resource),
{
    if current == menu_resource.menu_state {
        Some(MenuGraphic::MainMenu)
    } else if current == menu_resource.game_end_state {
        Some(MenuGraphic::GameOver)
    } else {
        None
    }
}

/// Decides what the commands `keyboard` ask for in phase `current`.
pub fn decide(current: Phase, keyboard: MenuInput, menu_state: &MenuResource) -> (action:
    MenuAction)
    ensures
        action == menu_action(current, keyboard, *menu_state),
{
    if current == menu_state.menu_state {
        if keyboard.start {
            MenuAction::Transition(menu_state.game_start_state)
        } else if keyboard.quit {
            MenuAction::Quit
        } else {
            MenuAction::Stay
        }
    } else if current == menu_state.game_end_state {
        if keyboard.back {
            MenuAction::Transition(menu_state.menu_state)
        } else if keyboard.quit {
            MenuAction::Quit
        } else {
            MenuAction::Stay
        }
    } else {
        MenuAction::Stay
    }
}

/// The state of the scheduler after the menu's action was handed to it.
pub open spec fn after_menu_action(
    state: crate::phase::SchedulerState,
    action: MenuAction,
) -> crate::phase::SchedulerState {
    match action {
        MenuAction::Transition(target) => state.requested(target),
        _ => state,
    }
}

/// One cycle of the menu controller: decides on the commands in the
/// scheduler's current phase and hands a transition on to the scheduler as a
/// request. The action comes back, so that the host can end the application
/// on `Quit`. Where the table names a phase that the scheduler does not know,
/// the request is turned down with the scheduler's error and nothing changes.
pub fn run(keyboard: MenuInput, state: &mut PhaseScheduler, menu_state: &MenuResource) -> (outcome:
    Result<MenuAction, PhaseError>)
    ensures
        final(state)@ == after_menu_action(
            old(state)@,
            menu_action(old(state)@.current, keyboard, *menu_state),
        ),
        outcome == match menu_action(old(state)@.current, keyboard, *menu_state) {
            MenuAction::Transition(target) => if old(state)@.hooks.contains_key(target) {
                Ok::<MenuAction, PhaseError>(MenuAction::Transition(target))
            } else {
                Err::<MenuAction, PhaseError>(PhaseError::Unregistered(target))
            },
            action => Ok::<MenuAction, PhaseError>(action),
        },
{
    let action = decide(state.current(), keyboard, menu_state);
    match action {
        MenuAction::Transition(target) => match state.request(target) {
            Ok(()) => Ok(action),
            Err(refusal) => Err(refusal),
        },
        _ => Ok(action),
    }
}

} // verus!
