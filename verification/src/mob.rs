//! Mobs: the creatures the player meets.

use vstd::prelude::*;

verus! {

/// Marks an entity as a mob.
#[derive(Clone, Copy, Debug)]
pub struct Mob {}

} // verus!
