//! Identifiers of the entities placed in a level.

use vstd::prelude::*;

verus! {

/// Identifies a gem.
#[derive(Clone, Copy, Debug, PartialEq, Eq, Hash, Structural)]
pub struct GemId(pub u32);

/// Identifies a crab enemy.
#[derive(Clone, Copy, Debug, PartialEq, Eq, Hash, Structural)]
pub struct CrabId(pub u32);

/// Identifies a pufferfish enemy.
#[derive(Clone, Copy, Debug, PartialEq, Eq, Hash, Structural)]
pub struct PufferfishId(pub u32);

/// Identifies a moving platform.
#[derive(Clone, Copy, Debug, PartialEq, Eq, Hash, Structural)]
pub struct MovingPlatformId(pub u32);

/// Identifies a crumbling platform.
#[derive(Clone, Copy, Debug, PartialEq, Eq, Hash, Structural)]
pub struct CrumblingPlatformId(pub u32);

} // verus!
