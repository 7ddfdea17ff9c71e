use spacerl::view::game_window::{kind_name, tile_name};
use spacerl::actions::{get_available_actions, Action};
use spacerl::area::{opaque_at, walkable_exits, Cell, Tile};
use spacerl::combat::Dice;
use spacerl::grid::{index_to_coord, Grid, NGrid};
use spacerl::models::ObjKind;
use spacerl::recti::RectI;
use spacerl::v2i::V2I;

#[test]
fn index_to_coord_divides_as_rust_does() {
    assert_eq!(V2I::new(-1, 0), index_to_coord(3, -1));
    assert_eq!(V2I::new(-1, -1), index_to_coord(3, -4));
    assert_eq!(V2I::new(1, -2), index_to_coord(-3, 7));
    assert_eq!(V2I::new(-2, 0), index_to_coord(i32::MIN, -2));
    assert_eq!(V2I::new(0, i32::MIN), index_to_coord(1, i32::MIN));
}

#[test]
fn the_centre_of_a_rectangle_rounds_towards_zero() {
    assert_eq!(V2I::new(12, 22), RectI::new(10, 20, 5, 4).center());
    assert_eq!(V2I::new(9, 19), RectI::new(10, 20, -3, -2).center());
}

#[test]
fn dice_totals_add_the_bonus() {
    let dice = Dice::new(3, -2);
    assert_eq!(7, dice.total(&vec![1, 2, 6]));
    assert_eq!(1, dice.total(&vec![1, 1, 1]));
}

#[test]
fn cells_offer_their_actions() {
    let objects = vec![(1, ObjKind::Door { vertical: true, open: false }), (2, ObjKind::Cockpit), (3, ObjKind::Item)];
    assert_eq!(vec![Action::Interact(2), Action::Pickup(3)], get_available_actions(&objects));
    assert!(Action::Interact(2).is_interact());
    assert!(!Action::Interact(2).is_pickup());
    assert!(ObjKind::Cockpit.can_interact());
    assert!(!ObjKind::Engine.can_interact());
    assert!(ObjKind::Item.can_pickup());
}

#[test]
fn walls_block_sight_and_steps() {
    let mut grid = Grid::new(3, 3, || Cell::new(Tile::Floor));
    grid.set_at(&V2I::new(1, 0), Cell::new(Tile::Wall));
    let ngrid = NGrid::from_grid(grid);
    assert!(opaque_at(&ngrid, 1));
    assert!(!opaque_at(&ngrid, 4));
    assert_eq!(vec![2, 5, 8, 7, 6, 3, 0], walkable_exits(&ngrid, 4));
    assert_eq!(vec![4, 3], walkable_exits(&ngrid, 0));
}

#[test]
fn info_box_names_tiles_and_objects() {
    assert_eq!("ground", tile_name(Tile::Ground));
    assert_eq!("floor", tile_name(Tile::Floor));
    assert_eq!("?", tile_name(Tile::Wall));
    assert_eq!("space", tile_name(Tile::Space));
    assert_eq!("oom", tile_name(Tile::OutOfMap));
    assert_eq!("door", kind_name(ObjKind::Door { vertical: true, open: false }));
    assert_eq!("engine", kind_name(ObjKind::Engine));
    assert_eq!("cockpit", kind_name(ObjKind::Cockpit));
    assert_eq!("player", kind_name(ObjKind::Player));
    assert_eq!("mob", kind_name(ObjKind::Mob));
    assert_eq!("item", kind_name(ObjKind::Item));
}

#[test]
fn a_ship_lands_only_on_open_ground() {
    let mut surface = Grid::new(10, 10, || Cell::new(Tile::Ground));
    surface.set_at(&V2I::new(2, 2), Cell::new(Tile::Wall));
    let target = NGrid::from_grid(surface);
    let mut hull = Grid::new(3, 3, || Cell::new(Tile::Space));
    hull.set_at(&V2I::new(1, 1), Cell::new(Tile::Floor));
    hull.set_at(&V2I::new(2, 1), Cell::new(Tile::Wall));
    let ship = NGrid::from_grid(hull);
    assert!(spacerl::ship::can_land(&target, &ship, V2I::new(4, 4)));
    // only space of the ship comes down on the wall at (2, 2)
    assert!(spacerl::ship::can_land(&target, &ship, V2I::new(2, 2)));
    // the ship's floor at (1, 1) comes down on the wall
    assert!(!spacerl::ship::can_land(&target, &ship, V2I::new(1, 1)));
    // the ship's wall at (2, 1) comes down outside the surface
    assert!(!spacerl::ship::can_land(&target, &ship, V2I::new(8, 0)));
}

#[test]
fn enemies_are_the_fighters_of_other_teams() {
    let objects = vec![
        (1, true, Some(spacerl::team::Team::Mob)),
        (2, false, Some(spacerl::team::Team::Mob)),
        (3, true, Some(spacerl::team::Team::Player)),
        (4, true, None),
        (5, true, Some(spacerl::team::Team::Mob)),
    ];
    assert_eq!(vec![1, 5], spacerl::team::enemies_among(&objects, spacerl::team::Team::Player));
    assert_eq!(vec![3], spacerl::team::enemies_among(&objects, spacerl::team::Team::Mob));
    assert!(spacerl::team::enemies_among(&vec![], spacerl::team::Team::Mob).is_empty());
}

#[test]
fn a_surface_knows_its_zones() {
    let surface = spacerl::models::Surface { width: 2, height: 1, tiles: vec![], zones: vec![7, 9] };
    assert!(surface.has_zone(9));
    assert!(!surface.has_zone(8));
}
