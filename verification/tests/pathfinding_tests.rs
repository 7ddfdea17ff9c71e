use rltk::{Algorithm2D, BaseMap, Point, SmallVec};
use spacerl::area::{opaque_at, walkable_exits, Area, Cell};
use spacerl::cfg::Cfg;
use spacerl::grid::{coords_to_index, index_to_coord, NGrid};
use spacerl::grid_string::parse_map;
use spacerl::loader::{new_grid_from_ast, new_parser};
use spacerl::v2i::V2I;

/// An area's grid seen by `rltk`'s path finding.
struct MapView<'a>(&'a NGrid<Cell>);

impl<'a> BaseMap for MapView<'a> {
    fn is_opaque(&self, idx: usize) -> bool {
        opaque_at(self.0, idx)
    }

    fn get_available_exits(&self, idx: usize) -> SmallVec<[(usize, f32); 10]> {
        walkable_exits(self.0, idx).into_iter().map(|i| (i, 1.0)).collect()
    }

    fn get_pathing_distance(&self, idx1: usize, idx2: usize) -> f32 {
        let w = self.0.get_width();
        let c1 = index_to_coord(w, idx1 as i32);
        let c2 = index_to_coord(w, idx2 as i32);
        let dx = (c1.x - c2.x) as f32;
        let dy = (c1.y - c2.y) as f32;
        dx * dx + dy * dy
    }
}

impl<'a> Algorithm2D for MapView<'a> {
    fn dimensions(&self) -> Point {
        let size = self.0.get_size();
        Point::new(size.x, size.y)
    }
}

#[test]
fn test_pathfinding() {
    let raw_grid: &str = r"
....
#.##
#.#.
....
";
    let cfg = Cfg::new();
    let ast = parse_map(new_parser(cfg.clone()), raw_grid).expect("fail to load house map");
    let grid = new_grid_from_ast(&ast);
    let area = Area::from(0, grid);

    let width = area.get_grid().get_width();
    let from = coords_to_index(width, &V2I::new(0, 0));
    assert_eq!(0, from);
    let to = coords_to_index(width, &V2I::new(3, 3));
    assert_eq!(15, to);

    let rs = rltk::a_star_search(from as usize, to as usize, &MapView(area.get_grid()));

    assert_eq!(0, rs.steps[0]); // include first
    assert_eq!(5, rs.steps.len());
    assert_eq!(15, rs.steps[rs.steps.len() - 1]); // include last
}
