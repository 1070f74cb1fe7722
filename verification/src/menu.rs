//! The menu.

use vstd::prelude::*;
use crate::consts::NLEVELS;
use crate::game::Game;
use crate::shop::{level_is_unlocked, secret_is_unlocked, Secret};

verus! {

/// What the menu shows.
#[derive(Clone, Copy, Debug, PartialEq, Eq, Structural)]
pub enum MenuState {
    Menu,
    Credits,
    /// The question whether to delete all progress.
    Reset,
}

/// The keys of the menu that were pressed since the last tick.
#[derive(Clone, Copy, Debug, PartialEq, Eq, Structural)]
pub struct MenuInput {
    pub digit1: bool,
    pub digit2: bool,
    pub digit3: bool,
    pub digit4: bool,
    pub escape: bool,
    pub key_n: bool,
    pub key_y: bool,
}

/// What the menu asks for.
#[derive(Clone, Copy, Debug, PartialEq, Eq, Structural)]
pub enum MenuAction {
    Nothing,
    /// Start a game at the first level.
    Play,
    /// Go to the shop.
    Shop,
    /// Show the question whether to delete all progress.
    AskReset,
    /// Show the credits, with or without the codes of the unlocked levels.
    ShowCredits { with_codes: bool },
    /// Show the menu again.
    ShowMenu,
    /// Delete all progress and leave.
    ResetAndExit,
    /// Leave.
    Exit,
}

impl Game {
    /// Whether the portal of every level is unlocked for good.
    pub open spec fn all_levels_unlocked(&self) -> bool {
        forall|i: int| 0 <= i < self.levels_unlocked@.len() ==> #[trigger] self.level_unlocked(i)
    }
}

/// Says whether the portal of every level is unlocked for good.
pub fn all_unlocked(game: &Game) -> (b: bool)
    ensures
        b == game.all_levels_unlocked(),
{
    let mut i: usize = 0;
    while i < game.levels_unlocked.len()
        invariant
            i <= game.levels_unlocked@.len(),
            forall|k: int| 0 <= k < i ==> #[trigger] game.level_unlocked(k),
        decreases game.levels_unlocked.len() - i,
    {
        if !level_is_unlocked(i, game) {
            return false;
        }
        i = i + 1;
    }
    true
}

/// Whether the menu offers the credits: their secret is unlocked.
pub open spec fn offers_credits(game: &Game) -> bool {
    game.unlocked(Secret::Credits.index_spec() as int)
}

/// What the menu does with the keys pressed and what it shows then. Of
/// several keys the first in the order of the menu counts.
pub open spec fn menu_step(state: MenuState, input: MenuInput, game: &Game) -> (
    MenuState,
    MenuAction,
) {
    match state {
        MenuState::Menu => if input.digit1 {
            (MenuState::Menu, MenuAction::Play)
        } else if input.digit2 {
            (MenuState::Menu, MenuAction::Shop)
        } else if input.digit3 {
            (MenuState::Reset, MenuAction::AskReset)
        } else if input.digit4 && offers_credits(game) {
            (
                MenuState::Credits,
                MenuAction::ShowCredits { with_codes: game.all_levels_unlocked() },
            )
        } else if input.escape {
            (MenuState::Menu, MenuAction::Exit)
        } else {
            (MenuState::Menu, MenuAction::Nothing)
        },
        MenuState::Reset => if input.key_n || input.escape {
            (MenuState::Menu, MenuAction::ShowMenu)
        } else if input.key_y {
            (MenuState::Reset, MenuAction::ResetAndExit)
        } else {
            (MenuState::Reset, MenuAction::Nothing)
        },
        MenuState::Credits => if input.escape {
            (MenuState::Menu, MenuAction::ShowMenu)
        } else {
            (MenuState::Credits, MenuAction::Nothing)
        },
    }
}

/// Handles the keys of the menu. Starting a game makes the first level the
/// current one. Returns what the menu asks for.
pub fn menu_update(state: &mut MenuState, input: MenuInput, game: &mut Game) -> (action: MenuAction)
    requires
        old(game).secrets_unlocked@.len() == NLEVELS,
        old(game).secrets_generated@.len() == NLEVELS,
    ensures
        (*final(state), action) == menu_step(*old(state), input, old(game)),
        final(game).current_level == (if action == MenuAction::Play {
            0
        } else {
            old(game).current_level
        }),
        final(game).grid == old(game).grid,
        final(game).nlives == old(game).nlives,
        final(game).nballs == old(game).nballs,
        final(game).nmeanies == old(game).nmeanies,
        final(game).bricks_left == old(game).bricks_left,
        final(game).portal_open == old(game).portal_open,
        final(game).seconds_left == old(game).seconds_left,
        final(game).avg_delta == old(game).avg_delta,
        final(game).barrel_dist == old(game).barrel_dist,
        final(game).levels_unlocked == old(game).levels_unlocked,
        final(game).secrets_unlocked == old(game).secrets_unlocked,
        final(game).secrets_generated == old(game).secrets_generated,
        final(game).username == old(game).username,
{
    match *state {
        MenuState::Menu => {
            if input.digit1 {
                game.current_level = 0;
                MenuAction::Play
            } else if input.digit2 {
                MenuAction::Shop
            } else if input.digit3 {
                *state = MenuState::Reset;
                MenuAction::AskReset
            } else if input.digit4 && secret_is_unlocked(Secret::Credits.index(), game) {
                *state = MenuState::Credits;
                MenuAction::ShowCredits { with_codes: all_unlocked(game) }
            } else if input.escape {
                MenuAction::Exit
            } else {
                MenuAction::Nothing
            }
        },
        MenuState::Reset => {
            if input.key_n || input.escape {
                *state = MenuState::Menu;
                MenuAction::ShowMenu
            } else if input.key_y {
                MenuAction::ResetAndExit
            } else {
                MenuAction::Nothing
            }
        },
        MenuState::Credits => {
            if input.escape {
                *state = MenuState::Menu;
                MenuAction::ShowMenu
            } else {
                MenuAction::Nothing
            }
        },
    }
}

} // verus!
