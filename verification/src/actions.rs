//! Identifiers shared by the menu handlers.

use vstd::prelude::*;

verus! {

/// Menus whose state an action can reset.
#[derive(Clone, Debug, PartialEq, Eq, Structural)]
pub enum MenuId {
    Main,
    Pause,
    GameOver,
    Settings,
    BiomeSelect,
    DifficultySelect,
    LevelComplete,
    Error,
    RogueLiteLeaderboard,
}

} // verus!
