//! The game's top-level mode and the keys that switch it.

use vstd::prelude::*;

verus! {

#[derive(Clone, Copy, Debug, PartialEq, Eq, Structural)]
pub enum GameState {
    Menu,
    Edit,
    Test,
    Result,
}

impl Default for GameState {
    fn default() -> (s: Self)
        ensures
            s == GameState::Edit,
    {
        GameState::Edit
    }
}

/// The mode to switch to, if any: Space starts a test from edit mode,
/// Escape returns from a test to edit mode.
pub fn toggle_test_state(state: GameState, space_pressed: bool, escape_pressed: bool) -> (next: Option<GameState>)
    ensures
        next == (if state == GameState::Edit && space_pressed {
            Some(GameState::Test)
        } else if state == GameState::Test && escape_pressed {
            Some(GameState::Edit)
        } else {
            None
        }),
{
    match state {
        GameState::Edit if space_pressed => Some(GameState::Test),
        GameState::Test if escape_pressed => Some(GameState::Edit),
        _ => None,
    }
}

} // verus!
