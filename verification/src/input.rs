//! The keys the game reads, and what they mean.

use crate::steering::{keypad_step, numpad_digit};
use crate::v2i::V2I;
use vstd::prelude::*;

verus! {

/// A key of the keyboard, as far as the game tells keys apart.
#[derive(Clone, Copy, Debug, PartialEq, Eq, Structural)]
pub enum Key {
    Key0,
    Key1,
    Key2,
    Key3,
    Key4,
    Key5,
    Key6,
    Key7,
    Key8,
    Key9,
    Left,
    Right,
    Up,
    Down,
    A,
    D,
    W,
    S,
    I,
    P,
    X,
    Escape,
    Numpad1,
    Numpad2,
    Numpad3,
    Numpad4,
    Numpad5,
    Numpad6,
    Numpad7,
    Numpad8,
    Numpad9,
    /// Any key the game has no use for.
    Other,
}

/// The step a key asks for: arrows and `WASD` go one cell along an axis, the
/// numeric pad goes to the eight neighbours (`5` stays).
pub open spec fn key_direction(key: Option<Key>) -> Option<(int, int)> {
    match key {
        Some(Key::Left) | Some(Key::A) | Some(Key::Numpad4) => Some((-1, 0)),
        Some(Key::Right) | Some(Key::D) | Some(Key::Numpad6) => Some((1, 0)),
        Some(Key::Up) | Some(Key::W) | Some(Key::Numpad8) => Some((0, -1)),
        Some(Key::Down) | Some(Key::S) | Some(Key::Numpad2) => Some((0, 1)),
        Some(Key::Numpad7) => Some((-1, -1)),
        Some(Key::Numpad9) => Some((1, -1)),
        Some(Key::Numpad5) => Some((0, 0)),
        Some(Key::Numpad1) => Some((-1, 1)),
        Some(Key::Numpad3) => Some((1, 1)),
        _ => None,
    }
}

/// The step the pressed key asks for, if any.
pub fn read_key_direction(key: Option<Key>) -> (r: Option<V2I>)
    ensures
        match key_direction(key) {
            Some(d) => r matches Some(v) && v.x == d.0 && v.y == d.1,
            None => r is None,
        },
        numpad_digit(key) matches Some(d) ==> r matches Some(v) && v.x == keypad_step(d).0 && v.y
            == keypad_step(d).1,
        key == Some(Key::Up) || key == Some(Key::W) ==> r == Some(V2I { x: 0i32, y: -1i32 }),
        key == Some(Key::Down) || key == Some(Key::S) ==> r == Some(V2I { x: 0, y: 1 }),
        key == Some(Key::Left) || key == Some(Key::A) ==> r == Some(V2I { x: -1i32, y: 0i32 }),
        key == Some(Key::Right) || key == Some(Key::D) ==> r == Some(V2I { x: 1, y: 0 }),
{
    match key {
        Some(Key::Left) | Some(Key::A) => Some(V2I::new(-1, 0)),
        Some(Key::Right) | Some(Key::D) => Some(V2I::new(1, 0)),
        Some(Key::Up) | Some(Key::W) => Some(V2I::new(0, -1)),
        Some(Key::Down) | Some(Key::S) => Some(V2I::new(0, 1)),
        Some(Key::Numpad7) => Some(V2I::new(-1, -1)),
        Some(Key::Numpad8) => Some(V2I::new(0, -1)),
        Some(Key::Numpad9) => Some(V2I::new(1, -1)),
        Some(Key::Numpad4) => Some(V2I::new(-1, 0)),
        Some(Key::Numpad5) => Some(V2I::new(0, 0)),
        Some(Key::Numpad6) => Some(V2I::new(1, 0)),
        Some(Key::Numpad1) => Some(V2I::new(-1, 1)),
        Some(Key::Numpad2) => Some(V2I::new(0, 1)),
        Some(Key::Numpad3) => Some(V2I::new(1, 1)),
        _ => None,
    }
}

/// The digit of a number key.
pub open spec fn key_digit(key: Option<Key>) -> Option<usize> {
    match key {
        Some(Key::Key0) => Some(0usize),
        Some(Key::Key1) => Some(1usize),
        Some(Key::Key2) => Some(2usize),
        Some(Key::Key3) => Some(3usize),
        Some(Key::Key4) => Some(4usize),
        Some(Key::Key5) => Some(5usize),
        Some(Key::Key6) => Some(6usize),
        Some(Key::Key7) => Some(7usize),
        Some(Key::Key8) => Some(8usize),
        Some(Key::Key9) => Some(9usize),
        _ => None,
    }
}

/// The menu entry a number key picks.
pub fn get_key_index(key: Option<Key>) -> (r: Option<usize>)
    ensures
        r == key_digit(key),
{
    match key {
        Some(Key::Key0) => Some(0),
        Some(Key::Key1) => Some(1),
        Some(Key::Key2) => Some(2),
        Some(Key::Key3) => Some(3),
        Some(Key::Key4) => Some(4),
        Some(Key::Key5) => Some(5),
        Some(Key::Key6) => Some(6),
        Some(Key::Key7) => Some(7),
        Some(Key::Key8) => Some(8),
        Some(Key::Key9) => Some(9),
        _ => None,
    }
}

} // verus!
