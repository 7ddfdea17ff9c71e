//! The things a game world is made of: names, objects, directions and the
//! kinds of surface a planet has.

use crate::v2i::V2I;
use vstd::prelude::*;

verus! {

/// A name shown to the player.
#[derive(Clone, Debug)]
pub struct Label {
    pub name: String,
}

/// A point of a grid: the number of the grid's entity and the point.
#[derive(Clone, Copy, Debug, PartialEq, Eq, Structural)]
pub struct Position {
    pub grid_id: u64,
    pub point: V2I,
}

/// The kinds of object that stand in a cell.
#[derive(Clone, Copy, Debug, PartialEq, Eq, Structural)]
pub enum ObjKind {
    Door { vertical: bool, open: bool },
    Engine,
    Cockpit,
    Player,
    Mob,
    Item,
}

impl ObjKind {
    /// Only the cockpit can be used.
    pub fn can_interact(&self) -> (r: bool)
        ensures
            r == (*self == ObjKind::Cockpit),
    {
        match self {
            ObjKind::Cockpit => true,
            _ => false,
        }
    }

    /// Only items can be picked up.
    pub fn can_pickup(&self) -> (r: bool)
        ensures
            r == (*self == ObjKind::Item),
    {
        match self {
            ObjKind::Item => true,
            _ => false,
        }
    }
}

/// An object standing in a cell: the number of its entity and its kind.
#[derive(Clone, Copy, Debug, PartialEq, Eq, Structural)]
pub struct BasicEntity {
    pub id: u64,
    pub kind: ObjKind,
}

/// The galaxy the sectors belong to.
#[derive(Clone, Debug)]
pub struct Galaxy {}

/// A zone of a planet's surface.
#[derive(Clone, Debug)]
pub struct SurfaceZone {}

/// What a zone of a planet's surface holds.
#[derive(Clone, Copy, Debug, PartialEq, Eq, Structural)]
pub enum SurfaceTileKind {
    Plain,
    Structure,
}

/// The four directions.
#[derive(Clone, Copy, Debug, PartialEq, Eq, Structural, Hash)]
pub enum Dir {
    N,
    E,
    S,
    W,
}

impl Dir {
    /// The opposite direction.
    pub fn inv(&self) -> (r: Dir)
        ensures
            r == (match *self {
                Dir::N => Dir::S,
                Dir::S => Dir::N,
                Dir::E => Dir::W,
                Dir::W => Dir::E,
            }),
    {
        match self {
            Dir::N => Dir::S,
            Dir::S => Dir::N,
            Dir::E => Dir::W,
            Dir::W => Dir::E,
        }
    }

    /// The one-letter name of the direction.
    pub fn as_str(&self) -> (r: &'static str)
        ensures
            r@ == (match *self {
                Dir::N => "n"@,
                Dir::S => "s"@,
                Dir::E => "e"@,
                Dir::W => "w"@,
            }),
    {
        match self {
            Dir::N => "n",
            Dir::S => "s",
            Dir::E => "e",
            Dir::W => "w",
        }
    }

    /// The unit step of the direction, `y` growing southwards.
    pub fn as_vec(&self) -> (r: (i32, i32))
        ensures
            r == (match *self {
                Dir::N => (0i32, -1i32),
                Dir::S => (0i32, 1i32),
                Dir::W => (-1i32, 0i32),
                Dir::E => (1i32, 0i32),
            }),
    {
        match self {
            Dir::N => (0, -1),
            Dir::S => (0, 1),
            Dir::W => (-1, 0),
            Dir::E => (1, 0),
        }
    }
}

/// Going in a direction and back leaves one where one was.
pub proof fn lemma_dir_inv_inv(d: Dir)
    ensures
        (match (match d {
            Dir::N => Dir::S,
            Dir::S => Dir::N,
            Dir::E => Dir::W,
            Dir::W => Dir::E,
        }) {
            Dir::N => Dir::S,
            Dir::S => Dir::N,
            Dir::E => Dir::W,
            Dir::W => Dir::E,
        }) == d,
{
}

/// The player: the entity it plays.
#[derive(Clone, Copy, Debug)]
pub struct Player {
    avatar_id: u64,
}

impl Player {
    pub fn new(current: u64) -> (r: Player)
        ensures
            r.avatar() == current,
    {
        Player { avatar_id: current }
    }

    pub closed spec fn avatar(&self) -> u64 {
        self.avatar_id
    }

    pub fn get_avatar_id(&self) -> (r: u64)
        ensures
            r == self.avatar(),
    {
        self.avatar_id
    }
}

/// A sector of space and the bodies in it.
#[derive(Clone, Debug)]
pub struct Sector {
    pub bodies: Vec<u64>,
}

impl Default for Sector {
    /// An empty sector.
    fn default() -> (r: Sector)
        ensures
            r.bodies@ == Seq::<u64>::empty(),
    {
        Sector { bodies: Vec::new() }
    }
}

/// What a body of a sector is.
#[derive(Clone, Copy, Debug)]
pub enum SectorBody {
    Planet,
    Station,
    Jump { target_pos: V2I, target: u64 },
    Ship,
}

/// Where something is, at the scale of space.
#[derive(Clone, Copy, Debug, PartialEq, Eq, Structural)]
pub enum Location {
    /// Flying through a sector.
    Sector { sector_id: u64, pos: V2I },
    /// Orbiting a body.
    Orbit { target_id: u64 },
    /// On a body's surface, on the large map.
    BodySurface { body_id: u64, place_coords: V2I },
    /// On a body's surface, placed on the map of a zone.
    BodySurfacePlace { body_id: u64, place_coords: V2I, grid_pos: V2I },
}

impl Location {
    /// The body orbited, if any.
    pub fn get_orbiting_body(&self) -> (r: Option<u64>)
        ensures
            r == (match *self {
                Location::Orbit { target_id } => Some(target_id),
                _ => None,
            }),
    {
        match self {
            Location::Orbit { target_id } => Some(*target_id),
            _ => None,
        }
    }
}

/// The surface of a planet: a `width` by `height` map of zones, row by row.
#[derive(Clone, Debug)]
pub struct Surface {
    pub width: i32,
    pub height: i32,
    pub tiles: Vec<SurfaceTileKind>,
    pub zones: Vec<u64>,
}

impl Surface {
    /// True when `zone_id` is one of the surface's zones.
    pub fn has_zone(&self, zone_id: u64) -> (r: bool)
        ensures
            r == self.zones@.contains(zone_id),
    {
        let mut i: usize = 0;
        while i < self.zones.len()
            invariant
                i <= self.zones@.len(),
                forall|j: int| 0 <= j < i ==> self.zones@[j] != zone_id,
            decreases self.zones@.len() - i,
        {
            if self.zones[i] == zone_id {
                assert(self.zones@[i as int] == zone_id);
                return true;
            }
            i = i + 1;
        }
        false
    }

    /// The kind of the zone at column `x` of row `y`, if the map has that zone.
    pub fn get_tile(&self, x: i32, y: i32) -> (r: Option<SurfaceTileKind>)
        requires
            i32::MIN <= y * self.width + x <= i32::MAX,
        ensures
            r == (if 0 <= y * self.width + x < self.tiles@.len() {
                Some(self.tiles@[y * self.width + x])
            } else {
                None::<SurfaceTileKind>
            }),
    {
        let index = crate::grid::coords_to_index(self.width, &V2I::new(x, y));
        if index >= 0 && (index as usize) < self.tiles.len() {
            Some(self.tiles[index as usize])
        } else {
            None
        }
    }
}

} // verus!
