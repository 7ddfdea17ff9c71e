//! Ships: their orders, their flight through a sector and where they land.

use crate::area::{shown_tile, tile_shown, Cell, Tile};
use crate::grid::NGrid;
use crate::v2i::{fits_i32, V2I};
use vstd::prelude::*;

verus! {

/// The turns a ship waits between two steps of a flight.
pub const FLY_SLEEP_TIME: u32 = 60;

/// What a ship was ordered to do.
#[derive(Clone, Copy, Debug, PartialEq, Eq, Structural)]
pub enum Command {
    Idle,
    FlyTo { target_id: u64 },
    Land { target_id: u64, place_coords: V2I },
    Launch,
}

/// A ship: its order, and the turns left before it acts again.
#[derive(Clone, Copy, Debug)]
pub struct Ship {
    pub current_command: Command,
    pub move_calm_down: u32,
}

/// `value` brought into `[min, max]`.
pub open spec fn clamp_spec(value: int, min: int, max: int) -> int {
    if value < min {
        min
    } else if value > max {
        max
    } else {
        value
    }
}

/// `value` brought into `[min, max]`.
pub fn clamp(value: i32, min: i32, max: i32) -> (r: i32)
    ensures
        r == clamp_spec(value as int, min as int, max as int),
{
    if value < min {
        min
    } else if value > max {
        max
    } else {
        value
    }
}

impl Ship {
    /// One turn of the ship: while it waits, one turn less to wait and nothing
    /// to do; else the order to carry out, unless it is idle.
    pub fn tick(&mut self) -> (r: Option<Command>)
        ensures
            old(self).move_calm_down > 0 ==> final(self).move_calm_down == old(self).move_calm_down - 1
                && r is None,
            old(self).move_calm_down == 0 ==> final(self).move_calm_down == 0 && r == (if old(
                self,
            ).current_command is Idle {
                None::<Command>
            } else {
                Some(old(self).current_command)
            }),
            final(self).current_command == old(self).current_command,
    {
        if self.move_calm_down > 0 {
            self.move_calm_down = self.move_calm_down - 1;
            return None;
        }
        match self.current_command {
            Command::Idle => None,
            other => Some(other),
        }
    }
}

/// One step of a flight from `pos` towards `target`: `None` when the ship is
/// there, else the next position, at most one cell closer on each axis.
pub open spec fn fly_step_spec(pos: V2I, target: V2I) -> Option<V2I> {
    if pos == target {
        None
    } else {
        Some(
            V2I {
                x: (pos.x + clamp_spec(target.x - pos.x, -1, 1)) as i32,
                y: (pos.y + clamp_spec(target.y - pos.y, -1, 1)) as i32,
            },
        )
    }
}

/// One step of a flight from `pos` towards `target` (see `fly_step_spec`).
pub fn fly_step(pos: V2I, target: V2I) -> (r: Option<V2I>)
    requires
        fits_i32(target.x - pos.x),
        fits_i32(target.y - pos.y),
    ensures
        r == fly_step_spec(pos, target),
{
    if pos == target {
        return None;
    }
    let delta_x = clamp(target.x - pos.x, -1, 1);
    let delta_y = clamp(target.y - pos.y, -1, 1);
    Some(V2I::new(pos.x + delta_x, pos.y + delta_y))
}

/// Each step of a flight brings the ship one cell closer to its target on each
/// axis where it is not there yet, and never past it.
pub proof fn lemma_fly_step_closer(pos: V2I, target: V2I)
    requires
        pos != target,
    ensures
        ({
            let next = fly_step_spec(pos, target)->0;
            &&& (pos.x == target.x ==> next.x == pos.x)
            &&& (pos.x < target.x ==> next.x == pos.x + 1)
            &&& (pos.x > target.x ==> next.x == pos.x - 1)
            &&& (pos.y == target.y ==> next.y == pos.y)
            &&& (pos.y < target.y ==> next.y == pos.y + 1)
            &&& (pos.y > target.y ==> next.y == pos.y - 1)
        }),
{
}

/// Where a ship `ship_w` by `ship_h` cells lands on a surface `target_w` by
/// `target_h` cells: centred on it, halves rounded down.
pub fn landing_position(target_w: i32, target_h: i32, ship_w: i32, ship_h: i32) -> (r: V2I)
    requires
        target_w >= 0,
        target_h >= 0,
        ship_w >= 0,
        ship_h >= 0,
    ensures
        r.x == target_w / 2 - ship_w / 2,
        r.y == target_h / 2 - ship_h / 2,
{
    V2I::new(target_w / 2 - ship_w / 2, target_h / 2 - ship_h / 2)
}

/// A ship's cell takes room: something other than space (or nothing) shows
/// there.
pub open spec fn takes_room(t: Option<Tile>) -> bool {
    t matches Some(tile) && tile != Tile::Space && tile != Tile::OutOfMap
}

/// A ship's cell can come down on the cell of a surface that shows open
/// ground.
pub open spec fn landable(t: Option<Tile>) -> bool {
    t == Some(Tile::Ground)
}

/// The ship's cell at column `x` of row `y` of its bottom layer, put at `pos`
/// on the surface, is fine: it takes no room, or comes down on open ground.
pub open spec fn lands_well(target: NGrid<Cell>, ship: NGrid<Cell>, pos: V2I, x: int, y: int) -> bool {
    takes_room(shown_tile(ship, V2I { x: x as i32, y: y as i32 })) ==> landable(
        shown_tile(target, V2I { x: (x + pos.x) as i32, y: (y + pos.y) as i32 }),
    )
}

/// Every cell of the ship's bottom layer that takes room comes down on open
/// ground of the surface when the ship is put at `pos`.
pub open spec fn can_land_at(target: NGrid<Cell>, ship: NGrid<Cell>, pos: V2I) -> bool {
    forall|x: int, y: int|
        0 <= x < ship.layers()[0].grid.width && 0 <= y < ship.layers()[0].grid.height ==> #[trigger] lands_well(
            target,
            ship,
            pos,
            x,
            y,
        )
}

/// Whether the ship `ship` can land on `target` put at `pos`: each of its
/// cells that takes room must come down on open ground.
pub fn can_land(target: &NGrid<Cell>, ship: &NGrid<Cell>, pos: V2I) -> (r: bool)
    requires
        target.wf(),
        ship.wf(),
        ship.layers().len() > 0,
        pos.x + ship.layers()[0].grid.width <= i32::MAX,
        pos.y + ship.layers()[0].grid.height <= i32::MAX,
    ensures
        r == can_land_at(*target, *ship, pos),
{
    let w = ship.get_width();
    let h = ship.get_height();
    let mut y: i32 = 0;
    while y < h
        invariant
            target.wf(),
            ship.wf(),
            ship.layers().len() > 0,
            w == ship.layers()[0].grid.width,
            h == ship.layers()[0].grid.height,
            pos.x + w <= i32::MAX,
            pos.y + h <= i32::MAX,
            0 <= y,
            y <= h || h < 0,
            forall|a: int, b: int| 0 <= a < w && 0 <= b < y ==> #[trigger] lands_well(*target, *ship, pos, a, b),
        decreases h - y,
    {
        let mut x: i32 = 0;
        while x < w
            invariant
                target.wf(),
                ship.wf(),
                ship.layers().len() > 0,
                w == ship.layers()[0].grid.width,
                h == ship.layers()[0].grid.height,
                pos.x + w <= i32::MAX,
                pos.y + h <= i32::MAX,
                0 <= y < h,
                0 <= x,
                x <= w || w < 0,
                forall|a: int, b: int|
                    0 <= a < w && 0 <= b < y ==> #[trigger] lands_well(*target, *ship, pos, a, b),
                forall|a: int| 0 <= a < x ==> #[trigger] lands_well(*target, *ship, pos, a, y as int),
            decreases w - x,
        {
            let here = tile_shown(ship, &V2I::new(x, y));
            let room = match here {
                Some(t) => !matches!(t, Tile::Space | Tile::OutOfMap),
                None => false,
            };
            if room {
                let below = tile_shown(target, &V2I::new(x + pos.x, y + pos.y));
                let ground = match below {
                    Some(Tile::Ground) => true,
                    _ => false,
                };
                if !ground {
                    assert(!lands_well(*target, *ship, pos, x as int, y as int));
                    return false;
                }
            }
            x = x + 1;
        }
        y = y + 1;
    }
    true
}

} // verus!
