//! What the HUD labels say.

use vstd::prelude::*;

use crate::sim::dynamic::TestResult;
use crate::sim::fem::StructureStatus;
use crate::state::GameState;

verus! {

/// The colour a label is drawn in.
#[derive(Clone, Copy, Debug, PartialEq, Eq, Structural)]
pub enum LabelColor {
    Red,
    Green,
    Yellow,
}

/// The mode label: the name of the mode.
pub fn mode_label(state: GameState) -> (label: &'static str)
    ensures
        label@ == (match state {
            GameState::Menu => "MENU"@,
            GameState::Edit => "EDIT"@,
            GameState::Test => "TEST"@,
            GameState::Result => "RESULT"@,
        }),
{
    match state {
        GameState::Menu => "MENU",
        GameState::Edit => "EDIT",
        GameState::Test => "TEST",
        GameState::Result => "RESULT",
    }
}

/// The status label and its colour: in edit mode it warns of an unstable
/// truss, in test mode it shows how the test stands.
pub fn status_label(state: GameState, structure: StructureStatus, result: TestResult) -> (r: (&'static str, LabelColor))
    ensures
        r.0@ == (match state {
            GameState::Edit => match structure {
                StructureStatus::Stable => ""@,
                StructureStatus::Unstable => "UNSTABLE"@,
            },
            GameState::Test => match result {
                TestResult::Running => "TESTING…  [ESC]"@,
                TestResult::Won => "WON!  [ESC]"@,
                TestResult::Lost => "FAILED  [ESC]"@,
            },
            _ => ""@,
        }),
        r.1 == (match state {
            GameState::Test => match result {
                TestResult::Running => LabelColor::Yellow,
                TestResult::Won => LabelColor::Green,
                TestResult::Lost => LabelColor::Red,
            },
            _ => LabelColor::Red,
        }),
{
    match state {
        GameState::Edit => match structure {
            StructureStatus::Stable => ("", LabelColor::Red),
            StructureStatus::Unstable => ("UNSTABLE", LabelColor::Red),
        },
        GameState::Test => match result {
            TestResult::Running => ("TESTING…  [ESC]", LabelColor::Yellow),
            TestResult::Won => ("WON!  [ESC]", LabelColor::Green),
            TestResult::Lost => ("FAILED  [ESC]", LabelColor::Red),
        },
        _ => ("", LabelColor::Red),
    }
}

} // verus!
