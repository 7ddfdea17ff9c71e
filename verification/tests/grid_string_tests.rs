use spacerl::grid_string::{is_readable, parse_map, parse_map_str, serialize, ParseMapError, Parser};
use spacerl::grid::Grid;
use spacerl::v2i::V2I;

struct TestParser;

#[derive(PartialEq, Debug, Copy, Clone)]
enum Tile {
    Unknown,
    Wall,
    Floor,
}

impl Parser<Tile> for TestParser {
    fn tile_for(&self, ch: char) -> Option<Tile> {
        self.parse_tile(ch)
    }

    fn parse_tile(&self, ch: char) -> Option<Tile> {
        if ch == 'X' {
            Some(Tile::Wall)
        } else if ch == '.' {
            Some(Tile::Floor)
        } else {
            Some(Tile::Unknown)
        }
    }
}

struct StrictParser;

impl Parser<Tile> for StrictParser {
    fn tile_for(&self, ch: char) -> Option<Tile> {
        self.parse_tile(ch)
    }

    fn parse_tile(&self, ch: char) -> Option<Tile> {
        if ch == 'X' {
            Some(Tile::Wall)
        } else {
            None
        }
    }
}

#[test]
fn test_parse_map_and_serialize() {
    let map = r#"XXXX
            X..X
            XXXX"#;

    let grid = parse_map(TestParser, map).unwrap();
    assert_eq!(grid.get_width(), 4);
    assert_eq!(grid.get_height(), 3);
    assert_eq!(*grid.get_at(&[0, 0].into()), Tile::Wall);
    assert_eq!(*grid.get_at(&[1, 1].into()), Tile::Floor);

    let serializer = |tile: &Tile| match tile {
        Tile::Wall => Some('A'),
        Tile::Floor => Some('B'),
        _ => None,
    };

    let lines = serialize(serializer, &grid).unwrap();
    assert_eq!(lines[0], "AAAA");
    assert_eq!(lines[1], "ABBA");
    assert_eq!(lines[2], "AAAA");
}

#[test]
fn parse_map_str_drops_spaces_and_the_outer_empty_lines() {
    let grid = parse_map_str("\n a b \nc d\n").unwrap();
    assert_eq!(2, grid.width);
    assert_eq!(2, grid.height);
    assert_eq!(vec!['a', 'b', 'c', 'd'], grid.list);
}

#[test]
fn parse_map_reports_few_lines() {
    assert!(matches!(parse_map(TestParser, ""), Err(ParseMapError::FewLines)));
}

#[test]
fn parse_map_reports_the_first_uneven_line() {
    match parse_map(TestParser, "XX\nX\nXXX") {
        Err(ParseMapError::InvalidLineWidth(line)) => assert_eq!("X", line),
        _ => panic!("expected an invalid line width"),
    }
}

#[test]
fn parse_map_reports_the_first_unknown_char() {
    match parse_map(StrictParser, "XX\nXY") {
        Err(ParseMapError::UnknownChar(ch)) => assert_eq!('Y', ch),
        _ => panic!("expected an unknown char"),
    }
}

#[test]
fn serialize_reports_the_first_tile_without_char() {
    let mut grid = Grid::new(3, 2, || Tile::Wall);
    grid.set_at(&V2I::new(1, 1), Tile::Unknown);
    grid.set_at(&V2I::new(2, 1), Tile::Unknown);
    let to_char = |tile: &Tile| match tile {
        Tile::Wall => Some('#'),
        _ => None,
    };
    match serialize(to_char, &grid) {
        Err(ParseMapError::UnknownTileAt(p)) => assert_eq!([1, 1], p),
        _ => panic!("expected an unknown tile"),
    }
}

#[test]
fn two_empty_lines_alone_are_not_readable() {
    assert!(!is_readable("\n"));
    assert!(is_readable(""));
    assert!(is_readable("XX\nXX"));
    assert!(is_readable("\nXX\n"));
}

#[test]
fn spaces_and_edge_line_ends_do_not_change_the_map() {
    let plain = parse_map(TestParser, "X.X\n.X.").unwrap();
    for variant in ["X . X\n . X .", "\nX.X\n.X.", "X.X\n.X.\n", "\n X.X \n.X.\n"] {
        let g = parse_map(TestParser, variant).unwrap();
        assert_eq!(plain.width, g.width);
        assert_eq!(plain.height, g.height);
        assert_eq!(plain.list, g.list);
        assert_eq!(plain.written, g.written);
    }
}
