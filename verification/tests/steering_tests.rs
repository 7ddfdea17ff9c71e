use spacerl::input::Key;
use spacerl::steering::{numpad_direction, Steering};
use spacerl::v2i::V2I;

fn start() -> Steering {
    Steering { player_pos: V2I::new(40, 25), player_last_pos: V2I::new(40, 26) }
}

#[test]
fn numpad_keys_give_the_eight_neighbours() {
    assert_eq!(Some(V2I::new(-1, -1)), numpad_direction(Some(Key::Numpad7)));
    assert_eq!(Some(V2I::new(0, 0)), numpad_direction(Some(Key::Numpad5)));
    assert_eq!(Some(V2I::new(1, 1)), numpad_direction(Some(Key::Numpad3)));
    assert_eq!(None, numpad_direction(Some(Key::Up)));
    assert_eq!(None, numpad_direction(None));
}

#[test]
fn heading_and_front_follow_the_last_step() {
    let s = start();
    assert_eq!(V2I::new(0, -1), s.get_player_dir());
    assert_eq!(V2I::new(40, 24), s.front());
}

#[test]
fn steps_forward_and_diagonally_ahead() {
    let mut s = start();
    assert!(s.steer(V2I::new(0, -1)));
    assert_eq!(V2I::new(40, 24), s.player_pos);
    assert_eq!(V2I::new(40, 25), s.player_last_pos);
    assert!(s.steer(V2I::new(1, -1)));
    assert_eq!(V2I::new(41, 23), s.player_pos);
    assert_eq!(V2I::new(1, -1), s.get_player_dir());
}

#[test]
fn refuses_to_turn_back_sideways_or_stay() {
    let mut s = start();
    assert!(!s.steer(V2I::new(0, 1)));
    assert!(!s.steer(V2I::new(1, 0)));
    assert!(!s.steer(V2I::new(-1, 0)));
    assert!(!s.steer(V2I::new(0, 0)));
    assert_eq!(start(), s);
}

#[test]
fn diagonal_heading_allows_both_adjacent_axes() {
    let mut s = Steering { player_pos: V2I::new(5, 5), player_last_pos: V2I::new(4, 4) };
    assert!(s.steer(V2I::new(1, 0)));
    let mut s = Steering { player_pos: V2I::new(5, 5), player_last_pos: V2I::new(4, 4) };
    assert!(s.steer(V2I::new(0, 1)));
    let mut s = Steering { player_pos: V2I::new(5, 5), player_last_pos: V2I::new(4, 4) };
    assert!(!s.steer(V2I::new(1, -1)));
}
