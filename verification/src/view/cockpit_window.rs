//! The state of the cockpit window.

use crate::models::{Dir, Location};
use crate::v2i::V2I;
use crate::seqs::lemma_filter_push;
use vstd::prelude::*;

verus! {

/// What the cockpit window shows.
#[derive(Clone, Copy, Debug)]
pub enum SubWindow {
    Main,
    Land { selected: V2I },
}

impl Default for SubWindow {
    /// The main view.
    fn default() -> (r: SubWindow)
        ensures
            r is Main,
    {
        SubWindow::Main
    }
}

/// The cockpit window: its view and the last message it printed.
#[derive(Clone, Debug)]
pub struct CockpitWindowState {
    pub sub_window: SubWindow,
    pub last_msg: Option<String>,
}

impl CockpitWindowState {
    /// A window showing `sub_window`, with no message.
    pub fn new(sub_window: SubWindow) -> (r: CockpitWindowState)
        ensures
            r.sub_window == sub_window,
            r.last_msg is None,
    {
        CockpitWindowState { sub_window, last_msg: None }
    }
}

impl Default for CockpitWindowState {
    /// The main view, with no message.
    fn default() -> (r: CockpitWindowState)
        ensures
            r.sub_window is Main,
            r.last_msg is None,
    {
        CockpitWindowState::new(SubWindow::Main)
    }
}

/// The bodies other than `ship_id`.
pub open spec fn other_than(ship_id: u64) -> spec_fn(u64) -> bool {
    |b: u64| b != ship_id
}

/// The flight to a body.
pub open spec fn fly_to() -> spec_fn(u64) -> MenuOption {
    |b: u64| MenuOption::FlyTo { target_id: b }
}

/// A command the cockpit offers.
#[derive(Clone, Copy, Debug, PartialEq, Eq, Structural)]
pub enum MenuOption {
    Land,
    FlyTo { target_id: u64 },
    Launch,
}

/// The commands offered to a ship at `location`: in a sector, a flight to each
/// other body of the sector, in order; in orbit, landing; on a surface,
/// launching.
pub open spec fn commands_at(location: Location, sector_bodies: Seq<u64>, ship_id: u64) -> Seq<MenuOption> {
    match location {
        Location::Sector { .. } => sector_bodies.filter(other_than(ship_id)).map_values(fly_to()),
        Location::Orbit { .. } => seq![MenuOption::Land],
        Location::BodySurface { .. } => seq![MenuOption::Launch],
        Location::BodySurfacePlace { .. } => seq![MenuOption::Launch],
    }
}

/// The commands the cockpit offers to the ship `ship_id` at `location`, given
/// the bodies of the ship's sector when it is in one.
pub fn list_commands(location: &Location, sector_bodies: &Vec<u64>, ship_id: u64) -> (r: Vec<MenuOption>)
    ensures
        r@ == commands_at(*location, sector_bodies@, ship_id),
{
    let mut commands: Vec<MenuOption> = Vec::new();
    match location {
        Location::Sector { .. } => {
            let ghost pred = other_than(ship_id);
            let ghost f = fly_to();
            let mut i: usize = 0;
            while i < sector_bodies.len()
                invariant
                    i <= sector_bodies@.len(),
                    pred == other_than(ship_id),
                    f == fly_to(),
                    commands@ == sector_bodies@.take(i as int).filter(pred).map_values(f),
                decreases sector_bodies@.len() - i,
            {
                let body_id = sector_bodies[i];
                proof {
                    assert(sector_bodies@.take(i + 1) =~= sector_bodies@.take(i as int).push(body_id));
                    lemma_filter_push(sector_bodies@.take(i as int), body_id, pred);
                }
                if body_id != ship_id {
                    commands.push(MenuOption::FlyTo { target_id: body_id });
                    assert(commands@ =~= sector_bodies@.take(i + 1).filter(pred).map_values(f));
                } else {
                    assert(commands@ =~= sector_bodies@.take(i + 1).filter(pred).map_values(f));
                }
                i = i + 1;
            }
            assert(sector_bodies@.take(sector_bodies@.len() as int) =~= sector_bodies@);
        },
        Location::Orbit { .. } => {
            commands.push(MenuOption::Land);
            assert(commands@ =~= seq![MenuOption::Land]);
        },
        Location::BodySurface { .. } => {
            commands.push(MenuOption::Launch);
            assert(commands@ =~= seq![MenuOption::Launch]);
        },
        Location::BodySurfacePlace { .. } => {
            commands.push(MenuOption::Launch);
            assert(commands@ =~= seq![MenuOption::Launch]);
        },
    }
    commands
}

/// One coordinate of the landing selection after a step of `delta`, on an axis
/// of `size` zones: below zero it goes to `size`, and from `size` on it goes
/// back to zero (so a step back from zero stays at zero).
pub open spec fn wrap_selection(v: int, delta: int, size: int) -> int {
    let moved = v + delta;
    let low = if moved < 0 { size } else { moved };
    if low >= size { 0 } else { low }
}

/// The landing selection after a step in `dir` on a surface of `surface_size`
/// zones.
pub fn next_land_selection(surface_size: V2I, current: V2I, dir: Dir) -> (r: V2I)
    requires
        i32::MIN < current.x < i32::MAX,
        i32::MIN < current.y < i32::MAX,
    ensures
        ({
            let d = match dir {
                Dir::N => (0int, -1int),
                Dir::S => (0int, 1int),
                Dir::W => (-1int, 0int),
                Dir::E => (1int, 0int),
            };
            &&& r.x == wrap_selection(current.x as int, d.0, surface_size.x as int)
            &&& r.y == wrap_selection(current.y as int, d.1, surface_size.y as int)
        }),
{
    let v = dir.as_vec();
    let mut x = current.x + v.0;
    let mut y = current.y + v.1;
    if x < 0 {
        x = surface_size.x;
    }
    if y < 0 {
        y = surface_size.y;
    }
    if x >= surface_size.x {
        x = 0;
    }
    if y >= surface_size.y {
        y = 0;
    }
    V2I::new(x, y)
}

/// Where a body at `pos` of its sector shows on a sector map of `size` by
/// `size` cells centred on the sector's origin, if it falls on the map.
pub fn sector_map_cell(pos: V2I, size: i32) -> (r: Option<V2I>)
    requires
        size >= 0,
        crate::v2i::fits_i32(pos.x + size / 2),
        crate::v2i::fits_i32(pos.y + size / 2),
    ensures
        ({
            let x = pos.x + size / 2;
            let y = pos.y + size / 2;
            if 0 <= x < size && 0 <= y < size {
                r matches Some(c) && c.x == x && c.y == y
            } else {
                r is None
            }
        }),
{
    let x = pos.x + size / 2;
    let y = pos.y + size / 2;
    if x < 0 || y < 0 || x >= size || y >= size {
        None
    } else {
        Some(V2I::new(x, y))
    }
}

} // verus!
