//! The state of the main game window.

use crate::area::Tile;
use crate::models::ObjKind;
use crate::v2i::V2I;
use vstd::prelude::*;

verus! {

/// What the game window is doing: nothing special, aiming, or looking at a
/// point.
#[derive(Clone, Copy, Debug)]
pub enum SubWindow {
    Normal,
    Fire { point: V2I },
    Info { point: V2I },
}

impl Default for SubWindow {
    fn default() -> (r: SubWindow)
        ensures
            r is Normal,
    {
        SubWindow::Normal
    }
}

/// The game window.
#[derive(Debug)]
pub struct GameWindowState {
    pub sub_window: SubWindow,
}

impl Default for GameWindowState {
    fn default() -> (r: GameWindowState)
        ensures
            r.sub_window is Normal,
    {
        GameWindowState { sub_window: SubWindow::Normal }
    }
}

/// How the info box names a tile (a wall is shown as unknown).
pub open spec fn tile_label(tile: Tile) -> Seq<char> {
    match tile {
        Tile::Ground => "ground"@,
        Tile::Floor => "floor"@,
        Tile::Wall => "?"@,
        Tile::Space => "space"@,
        Tile::OutOfMap => "oom"@,
    }
}

/// The name the info box gives a tile.
pub fn tile_name(tile: Tile) -> (r: &'static str)
    ensures
        r@ == tile_label(tile),
{
    match tile {
        Tile::Ground => "ground",
        Tile::Floor => "floor",
        Tile::Wall => "?",
        Tile::Space => "space",
        Tile::OutOfMap => "oom",
    }
}

/// How the info box names a kind of object.
pub open spec fn kind_label(kind: ObjKind) -> Seq<char> {
    match kind {
        ObjKind::Door { .. } => "door"@,
        ObjKind::Engine => "engine"@,
        ObjKind::Cockpit => "cockpit"@,
        ObjKind::Player => "player"@,
        ObjKind::Mob => "mob"@,
        ObjKind::Item => "item"@,
    }
}

/// The name the info box gives a kind of object.
pub fn kind_name(kind: ObjKind) -> (r: &'static str)
    ensures
        r@ == kind_label(kind),
{
    match kind {
        ObjKind::Door { .. } => "door",
        ObjKind::Engine => "engine",
        ObjKind::Cockpit => "cockpit",
        ObjKind::Player => "player",
        ObjKind::Mob => "mob",
        ObjKind::Item => "item",
    }
}

} // verus!
