use spacerl::area::{take_entity, Area, Cell, Tile};
use spacerl::grid::{Grid, NGrid};
use spacerl::input::{get_key_index, read_key_direction, Key};
use spacerl::models::{BasicEntity, Dir, Location, ObjKind, Position, Surface, SurfaceTileKind};
use spacerl::v2i::V2I;
use spacerl::view::cockpit_window::{list_commands, next_land_selection, sector_map_cell, MenuOption};

fn floor_area(id: u64, size: i32) -> Area {
    Area::from(id, Grid::new(size, size, || Cell::new(Tile::Floor)))
}

#[test]
fn objects_are_added_moved_and_removed() {
    let mut area = floor_area(1, 4);
    let door = BasicEntity { id: 10, kind: ObjKind::Door { vertical: true, open: false } };
    let mob = BasicEntity { id: 11, kind: ObjKind::Mob };
    area.add_object(V2I::new(1, 1), door);
    area.add_object(V2I::new(1, 1), mob);
    assert_eq!(&vec![door, mob], area.list_objects_at(V2I::new(1, 1)));
    area.move_object(10, Position { grid_id: 1, point: V2I::new(1, 1) }, Position { grid_id: 1, point: V2I::new(2, 2) });
    assert_eq!(&vec![mob], area.list_objects_at(V2I::new(1, 1)));
    assert_eq!(&vec![door], area.list_objects_at(V2I::new(2, 2)));
    assert_eq!(mob, area.remove_entity(11, V2I::new(1, 1)));
    assert!(area.list_objects_at(V2I::new(1, 1)).is_empty());
    area.clear_objects();
    assert!(area.list_objects_at(V2I::new(2, 2)).is_empty());
}

#[test]
fn layers_are_merged_and_removed_with_their_owners() {
    let mut area = floor_area(1, 10);
    let ship = floor_area(2, 3);
    area.merge(ship, &V2I::new(4, 4));
    assert_eq!(&vec![1, 2], area.get_layers());
    assert!(area.contains_layer(2));
    assert_eq!(Some(2), area.get_layer_entity_at(&V2I::new(5, 5)));
    assert_eq!(Some(1), area.get_layer_entity_at(&V2I::new(0, 0)));
    assert_eq!(None, area.get_layer_entity_at(&V2I::new(20, 0)));
    let (removed, pos) = area.remove_layer(2).unwrap();
    assert_eq!(V2I::new(4, 4), pos);
    assert_eq!(&vec![2], removed.get_layers());
    assert_eq!(3, removed.get_grid().get_width());
    assert!(!area.contains_layer(2));
    assert!(area.remove_layer(2).is_none());
    assert_eq!(1, area.get_grid().len());
}

#[test]
fn a_space_cell_lets_the_layer_below_show() {
    let mut area = floor_area(1, 4);
    let holes = Area::from(2, Grid::new(2, 2, || Cell::new(Tile::Space)));
    area.merge(holes, &V2I::new(0, 0));
    assert_eq!(Some(1), area.get_layer_entity_at(&V2I::new(0, 0)));
    let e = BasicEntity { id: 5, kind: ObjKind::Item };
    area.add_object(V2I::new(0, 0), e);
    assert_eq!(&vec![e], area.list_objects_at(V2I::new(0, 0)));
    let _ = NGrid::<Cell>::new();
}

#[test]
fn taking_an_absent_entity_leaves_the_cell() {
    let cell = Cell { tile: Tile::Floor, objects: vec![BasicEntity { id: 1, kind: ObjKind::Item }] };
    let (same, none) = take_entity(cell, 2);
    assert!(none.is_none());
    assert_eq!(1, same.objects.len());
}

#[test]
fn keys_give_steps_and_menu_entries() {
    assert_eq!(Some(V2I::new(-1, 0)), read_key_direction(Some(Key::Left)));
    assert_eq!(Some(V2I::new(1, 1)), read_key_direction(Some(Key::Numpad3)));
    assert_eq!(Some(V2I::new(0, 0)), read_key_direction(Some(Key::Numpad5)));
    assert_eq!(None, read_key_direction(Some(Key::Escape)));
    assert_eq!(None, read_key_direction(None));
    assert_eq!(Some(7), get_key_index(Some(Key::Key7)));
    assert_eq!(None, get_key_index(Some(Key::A)));
}

#[test]
fn the_cockpit_offers_what_the_location_allows() {
    let in_sector = Location::Sector { sector_id: 1, pos: V2I::new(0, 0) };
    assert_eq!(
        vec![MenuOption::FlyTo { target_id: 3 }, MenuOption::FlyTo { target_id: 4 }],
        list_commands(&in_sector, &vec![3, 9, 4], 9)
    );
    assert_eq!(vec![MenuOption::Land], list_commands(&Location::Orbit { target_id: 3 }, &vec![], 9));
    let landed = Location::BodySurfacePlace { body_id: 3, place_coords: V2I::new(0, 0), grid_pos: V2I::new(1, 1) };
    assert_eq!(vec![MenuOption::Launch], list_commands(&landed, &vec![], 9));
    assert_eq!(Some(3), Location::Orbit { target_id: 3 }.get_orbiting_body());
    assert_eq!(None, in_sector.get_orbiting_body());
}

#[test]
fn the_landing_selection_wraps_round() {
    let size = V2I::new(2, 2);
    assert_eq!(V2I::new(1, 0), next_land_selection(size, V2I::new(0, 0), Dir::E));
    assert_eq!(V2I::new(0, 0), next_land_selection(size, V2I::new(1, 0), Dir::E));
    assert_eq!(V2I::new(0, 0), next_land_selection(size, V2I::new(0, 0), Dir::W));
    assert_eq!(V2I::new(0, 1), next_land_selection(size, V2I::new(0, 0), Dir::S));
}

#[test]
fn sector_bodies_show_around_the_centre_of_the_map() {
    assert_eq!(Some(V2I::new(5, 5)), sector_map_cell(V2I::new(0, 0), 11));
    assert_eq!(Some(V2I::new(10, 0)), sector_map_cell(V2I::new(5, -5), 11));
    assert_eq!(None, sector_map_cell(V2I::new(6, 0), 11));
}

#[test]
fn surface_tiles_are_read_row_by_row() {
    let surface = Surface {
        width: 2,
        height: 2,
        tiles: vec![SurfaceTileKind::Structure, SurfaceTileKind::Plain, SurfaceTileKind::Plain, SurfaceTileKind::Plain],
        zones: vec![1, 2, 3, 4],
    };
    assert_eq!(Some(SurfaceTileKind::Structure), surface.get_tile(0, 0));
    assert_eq!(Some(SurfaceTileKind::Plain), surface.get_tile(1, 1));
    assert_eq!(None, surface.get_tile(0, 2));
    assert_eq!(None, surface.get_tile(-1, 0));
}

#[test]
fn grid_changes_through_the_mutable_borrow() {
    let mut area = floor_area(1, 3);
    area.get_grid_mut().update_all(|c: &Cell| Cell::new(if c.tile == Tile::Floor { Tile::Wall } else { c.tile }));
    assert_eq!(Tile::Wall, area.get_grid().get_at(&V2I::new(1, 1)).unwrap().tile);
    assert_eq!(&vec![1], area.get_layers());
}
