use spacerl::models::Position;
use spacerl::recti::RectI;
use spacerl::v2i::V2I;
use spacerl::view::camera::Camera;

fn new_camera(center_x: i32, center_y: i32, screen_x: i32, screen_y: i32, w: i32, h: i32) -> Camera {
    Camera::from_center(
        Position { grid_id: 0, point: V2I::new(center_x, center_y) },
        RectI::new(screen_x, screen_y, w, h),
    )
}

#[test]
fn test_camera_on_camera_on_0_0() {
    let camera = new_camera(2, 2, 0, 0, 3, 3);

    assert_eq!(V2I::new(0, 0), camera.world_to_screen(V2I::new(1, 1)));
    assert_eq!(V2I::new(1, 1), camera.world_to_screen(V2I::new(2, 2)));
    assert_eq!(V2I::new(2, 2), camera.world_to_screen(V2I::new(3, 3)));

    assert_eq!(V2I::new(1, 1), camera.screen_to_world(V2I::new(0, 0)));
    assert_eq!(V2I::new(2, 2), camera.screen_to_world(V2I::new(1, 1)));
    assert_eq!(V2I::new(3, 3), camera.screen_to_world(V2I::new(2, 2)));
}

#[test]
fn test_camera_on_camera_on_2_2() {
    let camera = new_camera(2, 2, 2, 2, 3, 3);

    assert_eq!(V2I::new(2, 2), camera.world_to_screen(V2I::new(1, 1)));
    assert_eq!(V2I::new(3, 3), camera.world_to_screen(V2I::new(2, 2)));
    assert_eq!(V2I::new(4, 4), camera.world_to_screen(V2I::new(3, 3)));

    assert_eq!(V2I::new(1, 1), camera.screen_to_world(V2I::new(2, 2)));
    assert_eq!(V2I::new(2, 2), camera.screen_to_world(V2I::new(3, 3)));
    assert_eq!(V2I::new(3, 3), camera.screen_to_world(V2I::new(4, 4)));

    let list: Vec<_> = camera.list_cells();
    assert_eq!(9, list.len());
    assert_eq!(V2I::new(2, 2), list[0].screen_pos);
    assert_eq!(V2I::new(1, 1), list[0].world_pos);
    assert_eq!(V2I::new(3, 3), list[4].screen_pos);
    assert_eq!(V2I::new(2, 2), list[4].world_pos);
    assert_eq!(V2I::new(4, 4), list[8].screen_pos);
    assert_eq!(V2I::new(3, 3), list[8].world_pos);
}

#[test]
fn camera_world_region_is_centred_and_odd_sizes_round_towards_zero() {
    let camera = new_camera(10, 10, 0, 0, 5, 4);
    assert_eq!(RectI::new(8, 8, 5, 4), camera.get_world_rect());
    assert_eq!(RectI::new(0, 0, 5, 4), camera.get_screen_rect());
    assert_eq!(V2I::new(10, 10), camera.get_world_center());
    assert!(camera.in_world(V2I::new(8, 8)));
    assert!(!camera.in_world(V2I::new(13, 8)));
    let negative = new_camera(0, 0, 0, 0, -3, -3);
    assert_eq!(RectI::new(1, 1, -3, -3), negative.get_world_rect());
}

#[test]
fn screen_and_world_conversions_undo_each_other() {
    let camera = new_camera(-7, 40, 3, 5, 9, 11);
    let p = V2I::new(12, -3);
    assert_eq!(p, camera.screen_to_world(camera.world_to_screen(p)));
}
