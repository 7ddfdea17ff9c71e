use spacerl::grid::{get_4_neighbours, get_8_neighbours, index_to_coord, Coord, Dir, FlexGrid, Grid, NGrid, PGrid};
use spacerl::recti::RectI;
use spacerl::v2i::V2I;

#[test]
pub fn test_grid_get_neighbors() {
    let neighbours = get_4_neighbours(&Coord::new(0, 0));
    assert_eq!(
        neighbours,
        vec![
            (Dir::N, Coord::new(0, -1)),
            (Dir::E, Coord::new(1, 0)),
            (Dir::S, Coord::new(0, 1)),
            (Dir::W, Coord::new(-1, 0)),
        ]
    );
}

#[test]
pub fn test_grid_get_valid_neighbors() {
    let grid = Grid::<i32>::new(2, 2, || 0);
    let neighbours = grid.get_valid_8_neighbours(&Coord::new(0, 0));
    assert_eq!(vec![Coord::new(1, 0), Coord::new(1, 1), Coord::new(0, 1),], neighbours);
}

#[test]
pub fn test_grid_raytrace() {
    let mut grid = Grid::<i32>::new(4, 2, || 0);

    // X###
    // ###
    assert_eq!(grid.raytrace(&(0, 0).into(), -1, 0), Vec::<Coord>::new());

    // #X##
    // ####
    assert_eq!(grid.raytrace(&(1, 0).into(), -1, 0), Vec::<Coord>::new());

    // 0###
    // ####
    grid.set_at(&(0, 0).into(), 0);

    // 0X##
    // ####
    assert_eq!(grid.raytrace(&(1, 0).into(), -1, 0), vec![(0, 0).into()]);

    // 00##
    // ####
    grid.set_at(&(1, 0).into(), 0);

    // 00X#
    // ####
    assert_eq!(grid.raytrace(&(2, 0).into(), -1, 0), vec![(1, 0).into(), (0, 0).into()]);

    // 00#X
    // ####
    assert_eq!(grid.raytrace(&(3, 0).into(), -1, 0), vec![]);

    // X0##
    // ####
    assert_eq!(grid.raytrace(&(0, 0).into(), 1, 0), vec![(1, 0).into()]);
}

#[test]
fn raytrace_stops_at_the_border_of_written_cells() {
    let mut grid = Grid::<i32>::new(3, 3, || 0);
    for y in 0..3 {
        for x in 0..3 {
            grid.set_at(&V2I::new(x, y), 1);
        }
    }
    assert_eq!(grid.raytrace(&(0, 0).into(), 1, 1), vec![(1, 1).into(), (2, 2).into()]);
    assert_eq!(grid.raytrace(&(2, 0).into(), -1, 0), vec![(1, 0).into(), (0, 0).into()]);
    assert_eq!(grid.raytrace(&(9, 9).into(), -1, -1), Vec::<Coord>::new());
    assert!(grid.written.iter().all(|w| *w));
}

#[test]
fn test_index_to_coords() {
    assert_eq!(V2I::new(0, 0), index_to_coord(3, 0));
    assert_eq!(V2I::new(1, 0), index_to_coord(3, 1));
    assert_eq!(V2I::new(2, 0), index_to_coord(3, 2));
    assert_eq!(V2I::new(0, 1), index_to_coord(3, 3));
    assert_eq!(V2I::new(1, 1), index_to_coord(3, 4));
    assert_eq!(V2I::new(2, 1), index_to_coord(3, 5));
    assert_eq!(V2I::new(0, 2), index_to_coord(3, 6));
    assert_eq!(V2I::new(1, 2), index_to_coord(3, 7));
    assert_eq!(V2I::new(2, 2), index_to_coord(3, 8));

    assert_eq!(V2I::new(0, 1), index_to_coord(4, 4));
    assert_eq!(V2I::new(1, 1), index_to_coord(4, 5));
    assert_eq!(V2I::new(2, 1), index_to_coord(4, 6));
    assert_eq!(V2I::new(3, 1), index_to_coord(4, 7));
}

#[test]
fn test_ngrid_merge() {
    let g0 = Grid::new(3, 3, || 0);
    let g1 = Grid::new(2, 1, || 1);
    let g2 = Grid::new(2, 2, || 2);

    let mut ng0 = NGrid::from_grid(g0);
    let ng1 = NGrid::from_grid(g1);
    let ng2 = NGrid::from_grid(g2);

    ng0.merge(ng1, &V2I::new(0, 0));
    ng0.merge(ng2, &V2I::new(1, 1));

    assert_eq!(3, ng0.get_width());
    assert_eq!(3, ng0.get_height());
    assert_eq!(Some(&1), ng0.get_at(&V2I::new(0, 0)));
    assert_eq!(Some(&1), ng0.get_at(&V2I::new(1, 0)));
    assert_eq!(Some(&0), ng0.get_at(&V2I::new(2, 0)));
    assert_eq!(Some(&0), ng0.get_at(&V2I::new(0, 1)));
    assert_eq!(Some(&2), ng0.get_at(&V2I::new(1, 1)));
    assert_eq!(Some(&2), ng0.get_at(&V2I::new(2, 1)));
    assert_eq!(Some(&0), ng0.get_at(&V2I::new(0, 2)));
    assert_eq!(Some(&2), ng0.get_at(&V2I::new(1, 2)));
    assert_eq!(Some(&2), ng0.get_at(&V2I::new(2, 2)));
}

#[test]
fn eight_neighbours_go_round_the_cell() {
    let n = get_8_neighbours(&Coord::new(5, 5));
    assert_eq!(8, n.len());
    assert!(!n.contains(&Coord::new(5, 5)));
    assert!(n.contains(&Coord::new(4, 4)));
    assert!(n.contains(&Coord::new(6, 6)));
}

#[test]
fn grid_set_returns_the_previous_cell() {
    let mut grid = Grid::<i32>::new(3, 2, || 7);
    assert_eq!(6, grid.len());
    assert_eq!(7, grid.set_at(&V2I::new(2, 1), 9));
    assert_eq!(9, *grid.get_at(&V2I::new(2, 1)));
    assert_eq!(Some(&9), grid.get_at_opt(&V2I::new(2, 1)));
    assert_eq!(None, grid.get_at_opt(&V2I::new(3, 1)));
    assert_eq!(None, grid.get_at_opt(&V2I::new(-1, 0)));
    assert_eq!(5, grid.coords_to_index(&V2I::new(2, 1)));
    assert_eq!(V2I::new(2, 1), grid.index_to_coords(5));
    assert!(grid.is_valid_coords(&V2I::new(0, 0)));
    assert!(!grid.is_valid_coords(&V2I::new(0, 2)));
    assert_eq!(V2I::new(3, 2), grid.size());
}

#[test]
fn pgrid_works_in_global_coordinates() {
    let mut pgrid = PGrid::new(10, 20, 3, 2, || 0);
    assert_eq!(RectI::new(10, 20, 3, 2), pgrid.get_rect());
    assert_eq!(V2I::new(1, 1), pgrid.to_local(&V2I::new(11, 21)));
    assert_eq!(V2I::new(11, 21), pgrid.to_global(&V2I::new(1, 1)));
    pgrid.set_at(&V2I::new(12, 21), 4);
    assert_eq!(Some(&4), pgrid.get_at_opt(&V2I::new(12, 21)));
    assert_eq!(None, pgrid.get_at_opt(&V2I::new(0, 0)));
    assert_eq!(vec![V2I::new(11, 20), V2I::new(10, 20)], pgrid.raytrace(&V2I::new(12, 20), -1, 0));
    assert_eq!(vec![V2I::new(12, 21), V2I::new(12, 20)], pgrid.raytrace(&V2I::new(12, 22), 0, -1));
    let grid: Grid<i32> = pgrid.into();
    assert_eq!(4, *grid.get_at(&V2I::new(2, 1)));
}

#[test]
fn flex_grid_reads_what_was_written() {
    let mut fg = FlexGrid::<i32>::new();
    assert_eq!(None, fg.get_at(&V2I::new(-5, 7)));
    fg.set_at(&V2I::new(-5, 7), Some(3));
    assert_eq!(Some(&3), fg.get_at(&V2I::new(-5, 7)));
    assert_eq!(None, fg.get_at(&V2I::new(7, -5)));
    fg.set_at(&V2I::new(-5, 7), None);
    assert_eq!(None, fg.get_at(&V2I::new(-5, 7)));
}

#[test]
fn ngrid_layers_answer_from_the_top() {
    let mut ng = NGrid::from_grid(Grid::new(4, 4, || 0));
    ng.push_surface_at(&V2I::new(2, 2), NGrid::from_grid(Grid::new(2, 2, || 5)));
    assert_eq!(2, ng.len());
    assert_eq!(Some(1), ng.get_layer(&V2I::new(3, 3)));
    assert_eq!(Some(0), ng.get_layer(&V2I::new(1, 1)));
    assert_eq!(None, ng.get_layer(&V2I::new(9, 9)));
    let removed = ng.remove(1, 0);
    assert_eq!(1, ng.len());
    assert_eq!(Some(&5), removed.get_at(&V2I::new(0, 0)));
    assert_eq!(Some(&0), ng.get_at(&V2I::new(3, 3)));
}

#[test]
fn merge_leaves_uncovered_points_as_they_were() {
    let mut ng = NGrid::from_grid(Grid::new(4, 4, || 1));
    let before: Vec<(Option<usize>, Option<i32>)> = (0..4)
        .flat_map(|y| (0..4).map(move |x| V2I::new(x, y)))
        .map(|c| (ng.get_layer(&c), ng.get_at(&c).copied()))
        .collect();
    ng.merge(NGrid::from_grid(Grid::new(2, 1, || 7)), &V2I::new(1, 2));
    assert_eq!(2, ng.len());
    assert_eq!(4, ng.get_width());
    assert_eq!(4, ng.get_height());
    for (i, c) in (0..4).flat_map(|y| (0..4).map(move |x| V2I::new(x, y))).enumerate() {
        let covered = c.y == 2 && (c.x == 1 || c.x == 2);
        if covered {
            assert_eq!(Some(&7), ng.get_at(&c));
        } else {
            assert_eq!(before[i], (ng.get_layer(&c), ng.get_at(&c).copied()));
        }
    }
}

#[test]
fn pgrid_raytrace_walks_every_cell_of_the_grid() {
    let pgrid = PGrid::new(0, 0, 2, 1, || 0);
    assert_eq!(vec![V2I::new(0, 0)], pgrid.raytrace(&V2I::new(1, 0), -1, 0));
}
