//! What a mob that sees the player does on its turn.

use crate::grid::index_to_coord;
use crate::v2i::{can_sub, v_sub, V2I};
use vstd::prelude::*;

verus! {

/// Marks an entity whose moves the game decides.
#[derive(Clone, Copy, Debug)]
pub struct Ai {}

/// Marks an entity whose turn it is.
#[derive(Clone, Copy, Debug)]
pub struct HasATurn;

/// What a mob does on its turn.
#[derive(Clone, Copy, Debug, PartialEq, Eq, Structural)]
pub enum AiDecision {
    /// It found no way to the player.
    Wait,
    /// The player is next to it (the path has at most two cells).
    Attack,
    /// It steps by this vector, towards the second cell of the path.
    Move(V2I),
}

/// The cell at `index` of a grid `width` cells wide.
pub open spec fn cell_of(width: int, index: int) -> V2I {
    V2I { x: (index % width) as i32, y: (index / width) as i32 }
}

/// The decision of a mob at `pos`, given whether a path to the player was
/// found and its cells (as indexes of a grid `width` cells wide), the mob's
/// own cell first.
pub open spec fn ai_decision(found: bool, steps: Seq<usize>, width: int, pos: V2I) -> AiDecision {
    if !found {
        AiDecision::Wait
    } else if steps.len() <= 2 {
        AiDecision::Attack
    } else {
        AiDecision::Move(v_sub(cell_of(width, steps[1] as int), pos))
    }
}

/// What a mob at `pos` does, given the path found to the player.
pub fn decide(found: bool, steps: &Vec<usize>, width: i32, pos: V2I) -> (r: AiDecision)
    requires
        width > 0,
        found && steps@.len() > 2 ==> steps@[1] <= i32::MAX && can_sub(
            cell_of(width as int, steps@[1] as int),
            pos,
        ),
    ensures
        r == ai_decision(found, steps@, width as int, pos),
{
    if !found {
        return AiDecision::Wait;
    }
    if steps.len() <= 2 {
        return AiDecision::Attack;
    }
    let next_index = steps[1] as i32;
    let next_pos = index_to_coord(width, next_index);
    AiDecision::Move(next_pos - pos)
}

} // verus!
