use rand::rngs::StdRng;
use rand::SeedableRng;
use spacerl::random_grid::{LevelGrid, RandomGrid, RandomGridCfg};
use std::collections::VecDeque;

fn all_reachable(level: &LevelGrid) -> bool {
    let total = level.len();
    let mut seen = vec![false; total];
    let mut queue = VecDeque::new();
    seen[0] = true;
    queue.push_back(0usize);
    while let Some(i) = queue.pop_front() {
        for j in level.neighbors(i) {
            if !seen[j] && level.is_portal(i, j) {
                seen[j] = true;
                queue.push_back(j);
            }
        }
    }
    seen.into_iter().all(|s| s)
}

#[test]
pub fn test_generate_rooms() {
    let mut rng: StdRng = SeedableRng::seed_from_u64(0);
    let grids = RandomGrid::new(
        &RandomGridCfg { width: 5, height: 5, portal_num: 1, portal_den: 2, deep_levels: 3 },
        &mut rng,
    );

    for level in grids.levels {
        let buffer = level.print();
        println!("{}", buffer.as_str());
    }
}

#[test]
fn every_level_is_connected_and_has_its_stairs() {
    let mut rng: StdRng = SeedableRng::seed_from_u64(7);
    let grids = RandomGrid::new(
        &RandomGridCfg { width: 6, height: 6, portal_num: 2, portal_den: 10, deep_levels: 3 },
        &mut rng,
    );
    assert_eq!(3, grids.levels.len());
    for (i, level) in grids.levels.iter().enumerate() {
        assert!(all_reachable(level));
        assert_eq!(i < 2, level.get_down_portal().is_some());
        assert_eq!(i > 0, level.get_up_portal().is_some());
        for (a, b) in level.get_portals() {
            assert!(level.neighbors(a).contains(&b));
        }
    }
}

#[test]
fn a_level_without_portals_gets_joined_up() {
    let level = LevelGrid::from_portals(3, 3, &vec![]);
    assert!(all_reachable(&level));
    assert_eq!(8, level.get_portals().len());
}

#[test]
fn given_portals_are_kept() {
    let level = LevelGrid::from_portals(2, 2, &vec![(1, 0), (3, 1), (2, 3)]);
    assert!(level.is_portal(0, 1));
    assert!(level.is_portal(1, 3));
    assert!(level.is_portal(3, 2));
    assert_eq!(3, level.get_portals().len());
    assert!(all_reachable(&level));
}

#[test]
fn coordinates_and_neighbours_of_rooms() {
    let level = LevelGrid::from_portals(3, 3, &vec![(1, 0)]);
    assert_eq!(9, level.len());
    assert_eq!(3, level.get_width());
    assert_eq!(3, level.get_height());
    assert_eq!(7, level.get_index(1, 2));
    assert_eq!((1, 2), level.get_coords(7));
    assert_eq!(vec![3, 5, 1, 7], level.neighbors(4));
    assert_eq!(vec![1, 3], level.neighbors(0));
    let small = LevelGrid::from_portals(2, 2, &vec![(1, 0), (3, 1), (2, 3)]);
    assert_eq!(vec![1], small.neighbors_connected(0));
    assert_eq!(vec![0, 3], small.neighbors_connected(1));
}

#[test]
fn print_draws_rooms_and_portals() {
    let level = LevelGrid::from_portals(2, 2, &vec![(1, 0), (3, 1), (2, 3)]);
    let text = level.print();
    let lines: Vec<&str> = text.split('\n').collect();
    assert_eq!(6, lines.len());
    assert_eq!("     ", lines[0]);
    assert_eq!(" #-# ", lines[1]);
    assert_eq!("   | ", lines[2]);
    assert_eq!(" #-# ", lines[3]);
    assert_eq!("     ", lines[4]);
    assert_eq!("", lines[5]);
}

#[test]
fn the_dungeon_text_lists_every_level() {
    let mut rng: StdRng = SeedableRng::seed_from_u64(4);
    let grids = RandomGrid::new(
        &RandomGridCfg { width: 3, height: 3, portal_num: 1, portal_den: 2, deep_levels: 2 },
        &mut rng,
    );
    let mut expected = String::from("randomgrid\n");
    for level in &grids.levels {
        expected.push_str(&level.print());
        expected.push('\n');
    }
    let text = grids.print();
    assert_eq!(expected, text);
    assert!(text.starts_with("randomgrid\n"));
    assert_eq!(1 + 2 * (2 * 3 + 1) + 2, text.lines().count());
}

#[test]
fn two_parts_are_joined_by_one_portal() {
    let level = LevelGrid::from_portals(2, 2, &vec![(1, 0), (3, 2)]);
    assert!(all_reachable(&level));
    assert_eq!(3, level.get_portals().len());
    assert!(level.is_portal(0, 1));
    assert!(level.is_portal(2, 3));
}

#[test]
fn added_portals_join_the_first_unreached_room_to_its_first_reached_neighbour() {
    let level = LevelGrid::from_portals(2, 2, &vec![(1, 0), (3, 2)]);
    let mut portals = level.get_portals();
    portals.sort();
    assert_eq!(vec![(1, 0), (2, 0), (3, 2)], portals);

    let empty = LevelGrid::from_portals(3, 3, &vec![]);
    let mut portals = empty.get_portals();
    portals.sort();
    assert_eq!(vec![(1, 0), (2, 1), (3, 0), (4, 3), (5, 4), (6, 3), (7, 6), (8, 7)], portals);
}
