//! The game's settings: the built-in maps, the screen size and how map
//! characters are read.

use crate::area::Tile;
use crate::models::ObjKind;
use vstd::prelude::*;

verus! {

/// The player's ship.
pub const SHIP_MAP: &'static str = "
___________________________
___________________________
_______####________________
_______EEE#________________
_______##.#________________
________#.#________________
______###-####-#######_____
______#.....#...#....!_____
______#.@...|...#....!_____
______#.....#...|....!_____
______###-############_____
________#.#________________
_______##.#________________
_______EEE#________________
_______####________________
___________________________
___________________________
";

/// A house on a planet.
pub const HOUSE_MAP: &'static str = "
#########
#.......#
|.......|
#...#####
#...|...#
###-#####
#.......#
|.......|
#.......#
###-#####
";

pub const SCREEN_W: i32 = 120;

pub const SCREEN_H: i32 = 100;

pub const SECTOR_SIZE: i32 = 11;

/// The tile, and the object, each map character stands for.
#[derive(Clone, Debug)]
pub struct MapParserCfg {
    pub raw_map_tiles: Vec<(char, Tile)>,
    pub raw_map_objects: Vec<(char, ObjKind)>,
}

/// The game's settings.
#[derive(Clone, Debug)]
pub struct Cfg {
    pub map_parser: MapParserCfg,
}

/// The tiles of the map characters, in the order they are looked up.
pub open spec fn default_map_tiles() -> Seq<(char, Tile)> {
    seq![
        ('_', Tile::Space),
        ('.', Tile::Floor),
        ('#', Tile::Wall),
        ('E', Tile::Wall),
        ('-', Tile::Floor),
        ('|', Tile::Floor),
        ('@', Tile::Floor),
        ('!', Tile::Floor),
    ]
}

/// The objects of the map characters, in the order they are looked up.
pub open spec fn default_map_objects() -> Seq<(char, ObjKind)> {
    seq![
        ('E', ObjKind::Engine),
        ('-', ObjKind::Door { vertical: false, open: false }),
        ('|', ObjKind::Door { vertical: true, open: false }),
        ('@', ObjKind::Cockpit),
        ('!', ObjKind::Door { vertical: true, open: false }),
    ]
}

impl Cfg {
    /// The built-in settings: `_` is space, `.` floor, `#` wall, `E` an engine
    /// in a wall, `-` and `|` closed doors on the floor (`|` and `!` vertical),
    /// `@` the cockpit.
    pub fn new() -> (r: Cfg)
        ensures
            r.map_parser.raw_map_tiles@ == default_map_tiles(),
            r.map_parser.raw_map_objects@ == default_map_objects(),
    {
        let raw_map_tiles: Vec<(char, Tile)> = vec![
            ('_', Tile::Space),
            ('.', Tile::Floor),
            ('#', Tile::Wall),
            ('E', Tile::Wall),
            ('-', Tile::Floor),
            ('|', Tile::Floor),
            ('@', Tile::Floor),
            ('!', Tile::Floor),
        ];
        let raw_map_objects: Vec<(char, ObjKind)> = vec![
            ('E', ObjKind::Engine),
            ('-', ObjKind::Door { vertical: false, open: false }),
            ('|', ObjKind::Door { vertical: true, open: false }),
            ('@', ObjKind::Cockpit),
            ('!', ObjKind::Door { vertical: true, open: false }),
        ];
        assert(raw_map_tiles@ =~= default_map_tiles());
        assert(raw_map_objects@ =~= default_map_objects());
        Cfg { map_parser: MapParserCfg { raw_map_tiles, raw_map_objects } }
    }
}

} // verus!
