//! Reading the built-in maps into cells and the objects that stand on them.

use crate::area::{Cell, Tile};
use crate::cfg::Cfg;
use crate::grid::{index_to_coord, Grid};
use crate::grid_string::Parser;
use crate::models::ObjKind;
use crate::v2i::{v_add, V2I};
use vstd::prelude::*;

verus! {

/// What a map character stands for: a tile and perhaps an object on it.
#[derive(Clone, Copy, Debug)]
pub struct MapAstCell {
    pub tile: Tile,
    pub obj: Option<ObjKind>,
}

/// How a new game starts: in space, orbiting the planet, or landed on it.
#[derive(Clone, Copy, Debug, PartialEq, Eq, Structural)]
pub enum NewGameParams {
    Normal,
    Orbiting,
    Landed,
}

/// The value paired with the first `ch` of `list`.
pub open spec fn first_match<V>(list: Seq<(char, V)>, ch: char) -> Option<V>
    decreases list.len(),
{
    if list.len() == 0 {
        None
    } else if list[0].0 == ch {
        Some(list[0].1)
    } else {
        first_match(list.drop_first(), ch)
    }
}

fn find_first<V: Copy>(list: &Vec<(char, V)>, ch: char) -> (r: Option<V>)
    ensures
        r == first_match(list@, ch),
{
    let mut i: usize = 0;
    assert(list@.subrange(0, list@.len() as int) =~= list@);
    while i < list.len()
        invariant
            i <= list@.len(),
            first_match(list@, ch) == first_match(list@.subrange(i as int, list@.len() as int), ch),
        decreases list@.len() - i,
    {
        let (c, v) = list[i];
        if c == ch {
            return Some(v);
        }
        assert(list@.subrange(i as int, list@.len() as int).drop_first() =~= list@.subrange(
            i + 1,
            list@.len() as int,
        ));
        i = i + 1;
    }
    None
}

/// Reads map characters with the tables of a `Cfg`.
#[derive(Clone, Debug)]
pub struct MapParser {
    pub cfg: Cfg,
}

impl Parser<MapAstCell> for MapParser {
    /// A character with a tile stands for that tile and for the object paired
    /// with it, if any; one without a tile stands for nothing.
    open spec fn tile_for(&self, ch: char) -> Option<MapAstCell> {
        match first_match(self.cfg.map_parser.raw_map_tiles@, ch) {
            Some(tile) => Some(
                MapAstCell { tile, obj: first_match(self.cfg.map_parser.raw_map_objects@, ch) },
            ),
            None => None,
        }
    }

    fn parse_tile(&self, ch: char) -> (r: Option<MapAstCell>) {
        let tile = find_first(&self.cfg.map_parser.raw_map_tiles, ch);
        match tile {
            Some(tile) => {
                let obj = find_first(&self.cfg.map_parser.raw_map_objects, ch);
                Some(MapAstCell { tile, obj })
            },
            None => None,
        }
    }
}

/// A reader of map characters that uses the tables of `cfg`.
pub fn new_parser(cfg: Cfg) -> (r: MapParser)
    ensures
        r.cfg == cfg,
{
    MapParser { cfg }
}

/// The cells of a read map: each cell has the tile read and nothing on it.
pub fn new_grid_from_ast(map_ast: &Grid<MapAstCell>) -> (r: Grid<Cell>)
    requires
        map_ast.wf(),
    ensures
        r.wf(),
        r.width == map_ast.width,
        r.height == map_ast.height,
        forall|i: int| 0 <= i < r.written@.len() ==> #[trigger] r.written@[i],
        forall|i: int|
            0 <= i < r.list@.len() ==> (#[trigger] r.list@[i]).tile == map_ast.list@[i].tile
                && r.list@[i].objects@.len() == 0,
{
    let mut cells: Vec<Cell> = Vec::new();
    let mut i: usize = 0;
    while i < map_ast.list.len()
        invariant
            i <= map_ast.list@.len(),
            cells@.len() == i,
            forall|j: int|
                0 <= j < i ==> (#[trigger] cells@[j]).tile == map_ast.list@[j].tile
                    && cells@[j].objects@.len() == 0,
        decreases map_ast.list@.len() - i,
    {
        cells.push(Cell::new(map_ast.list[i].tile));
        i = i + 1;
    }
    let written = crate::grid::uniform_flags(cells.len(), true);
    Grid { width: map_ast.width, height: map_ast.height, list: cells, written }
}

/// The objects a read map places: for each cell, in order, that holds a door,
/// a cockpit or an engine, the point of the cell moved by `source_pos` and the
/// object. Any other object is left out.
pub open spec fn placed_objects(source_pos: V2I, map_ast: Grid<MapAstCell>, k: int) -> Seq<(V2I, ObjKind)>
    decreases k,
{
    if k <= 0 {
        Seq::empty()
    } else {
        let before = placed_objects(source_pos, map_ast, k - 1);
        let i = k - 1;
        let local = V2I {
            x: (i % (map_ast.width as int)) as i32,
            y: (i / (map_ast.width as int)) as i32,
        };
        match map_ast.list@[i].obj {
            Some(ObjKind::Door { vertical, open }) => before.push(
                (v_add(local, source_pos), ObjKind::Door { vertical, open }),
            ),
            Some(ObjKind::Cockpit) => before.push((v_add(local, source_pos), ObjKind::Cockpit)),
            Some(ObjKind::Engine) => before.push((v_add(local, source_pos), ObjKind::Engine)),
            _ => before,
        }
    }
}

/// The objects a read map places, each at its point moved by `source_pos`.
pub fn parse_map_objects(source_pos: V2I, map_ast: &Grid<MapAstCell>) -> (r: Vec<(V2I, ObjKind)>)
    requires
        map_ast.wf(),
        map_ast.width > 0,
        forall|i: int|
            0 <= i < map_ast.list@.len() ==> #[trigger] crate::v2i::can_add(
                V2I {
                    x: (i % (map_ast.width as int)) as i32,
                    y: (i / (map_ast.width as int)) as i32,
                },
                source_pos,
            ),
    ensures
        r@ == placed_objects(source_pos, *map_ast, map_ast.list@.len() as int),
{
    let mut r: Vec<(V2I, ObjKind)> = Vec::new();
    let mut i: usize = 0;
    while i < map_ast.list.len()
        invariant
            map_ast.wf(),
            map_ast.width > 0,
            forall|j: int|
                0 <= j < map_ast.list@.len() ==> #[trigger] crate::v2i::can_add(
                    V2I {
                        x: (j % (map_ast.width as int)) as i32,
                        y: (j / (map_ast.width as int)) as i32,
                    },
                    source_pos,
                ),
            i <= map_ast.list@.len(),
            r@ == placed_objects(source_pos, *map_ast, i as int),
        decreases map_ast.list@.len() - i,
    {
        assert(map_ast.list@.len() <= i32::MAX);
        let ii: i32 = i as i32;
        let local = index_to_coord(map_ast.width, ii);
        assert(crate::v2i::can_add(
            V2I {
                x: (i as int % (map_ast.width as int)) as i32,
                y: (i as int / (map_ast.width as int)) as i32,
            },
            source_pos,
        ));
        let obj = map_ast.list[i].obj;
        match obj {
            Some(ObjKind::Door { vertical, open }) => {
                let pos = local + source_pos;
                r.push((pos, ObjKind::Door { vertical, open }));
            },
            Some(ObjKind::Cockpit) => {
                let pos = local + source_pos;
                r.push((pos, ObjKind::Cockpit));
            },
            Some(ObjKind::Engine) => {
                let pos = local + source_pos;
                r.push((pos, ObjKind::Engine));
            },
            _ => {},
        }
        i = i + 1;
    }
    r
}

} // verus!
