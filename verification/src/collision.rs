//! Outcomes of gameplay collision checks.

use vstd::prelude::*;

verus! {

/// Result of checking the player against enemies.
#[derive(Debug, Clone, Copy, PartialEq, Eq, Structural)]
pub enum EnemyCollisionResult {
    /// No collision occurred.
    NoCollision,
    /// The player touched an enemy without attacking and died.
    PlayerDied,
    /// The player's jet boost killed an enemy.
    EnemyKilled,
}

} // verus!
