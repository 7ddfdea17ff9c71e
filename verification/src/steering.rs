//! A walker with a heading: it remembers the cell it came from, and steps only
//! where the new direction keeps with the old one (never back, never at a right
//! angle).

use crate::input::Key;
use crate::v2i::{can_add, can_sub, v_add, v_sub, V2I};
use vstd::prelude::*;

verus! {

/// The dot product of two vectors, on mathematical integers.
pub open spec fn dot(a: V2I, b: V2I) -> int {
    a.x * b.x + a.y * b.y
}

/// A product of two `i32` stays within `2^62` either way.
proof fn lemma_i32_product_bound(a: i32, b: i32)
    ensures
        -0x4000_0000_0000_0000 <= a * b <= 0x4000_0000_0000_0000,
{
    assert(-0x4000_0000_0000_0000 <= a * b <= 0x4000_0000_0000_0000) by (nonlinear_arith)
        requires
            -0x8000_0000 <= a <= 0x7fff_ffff,
            -0x8000_0000 <= b <= 0x7fff_ffff,
    ;
}

/// The step a numeric-pad key asks for: the eight neighbours, `5` staying put.
pub open spec fn numpad_step(key: Option<Key>) -> Option<(int, int)> {
    match key {
        Some(Key::Numpad7) => Some((-1, -1)),
        Some(Key::Numpad8) => Some((0, -1)),
        Some(Key::Numpad9) => Some((1, -1)),
        Some(Key::Numpad4) => Some((-1, 0)),
        Some(Key::Numpad5) => Some((0, 0)),
        Some(Key::Numpad6) => Some((1, 0)),
        Some(Key::Numpad1) => Some((-1, 1)),
        Some(Key::Numpad2) => Some((0, 1)),
        Some(Key::Numpad3) => Some((1, 1)),
        _ => None,
    }
}

/// The digit printed on a key of the numeric pad.
pub open spec fn numpad_digit(key: Option<Key>) -> Option<int> {
    match key {
        Some(Key::Numpad1) => Some(1int),
        Some(Key::Numpad2) => Some(2int),
        Some(Key::Numpad3) => Some(3int),
        Some(Key::Numpad4) => Some(4int),
        Some(Key::Numpad5) => Some(5int),
        Some(Key::Numpad6) => Some(6int),
        Some(Key::Numpad7) => Some(7int),
        Some(Key::Numpad8) => Some(8int),
        Some(Key::Numpad9) => Some(9int),
        _ => None,
    }
}

/// The step of the key with digit `d` in the layout of a numeric pad: `7 8 9`
/// on top, `1 2 3` at the bottom, `5` in the middle; up on the pad is up on the
/// screen (`y` decreasing).
pub open spec fn keypad_step(d: int) -> (int, int) {
    ((d - 1) % 3 - 1, 1 - (d - 1) / 3)
}

/// Each key of the numeric pad steps to the neighbour in its place on the pad
/// (8 up, 2 down, 4 left, 6 right, the corners diagonally, 5 nowhere), and keys
/// facing each other across 5 step opposite ways.
pub proof fn lemma_numpad_layout(key: Option<Key>)
    ensures
        numpad_step(key) == match numpad_digit(key) {
            Some(d) => Some(keypad_step(d)),
            None => None,
        },
        numpad_digit(key) matches Some(d) ==> keypad_step(10 - d) == ((-keypad_step(d).0) as int, (-keypad_step(d).1) as int),
        numpad_step(Some(Key::Numpad8)) == Some((0int, -1int)),
        numpad_step(Some(Key::Numpad2)) == Some((0int, 1int)),
{
}

/// The step the pressed numeric-pad key asks for; other keys ask for none.
pub fn numpad_direction(key: Option<Key>) -> (r: Option<V2I>)
    ensures
        match numpad_step(key) {
            Some(d) => r matches Some(v) && v.x == d.0 && v.y == d.1,
            None => r is None,
        },
        match numpad_digit(key) {
            Some(d) => r matches Some(v) && v.x == keypad_step(d).0 && v.y == keypad_step(d).1,
            None => r is None,
        },
{
    match key {
        Some(Key::Numpad7) => Some(V2I::new(-1, -1)),
        Some(Key::Numpad8) => Some(V2I::new(0, -1)),
        Some(Key::Numpad9) => Some(V2I::new(1, -1)),
        Some(Key::Numpad4) => Some(V2I::new(-1, 0)),
        Some(Key::Numpad5) => Some(V2I::new(0, 0)),
        Some(Key::Numpad6) => Some(V2I::new(1, 0)),
        Some(Key::Numpad1) => Some(V2I::new(-1, 1)),
        Some(Key::Numpad2) => Some(V2I::new(0, 1)),
        Some(Key::Numpad3) => Some(V2I::new(1, 1)),
        _ => None,
    }
}

/// Where the walker stands and the cell it stood on before.
#[derive(Clone, Copy, Debug, PartialEq, Eq, Structural)]
pub struct Steering {
    pub player_pos: V2I,
    pub player_last_pos: V2I,
}

impl Steering {
    /// The heading: the last step taken.
    pub open spec fn heading(self) -> V2I {
        v_sub(self.player_pos, self.player_last_pos)
    }

    /// The last step taken.
    pub fn get_player_dir(&self) -> (r: V2I)
        requires
            can_sub(self.player_pos, self.player_last_pos),
        ensures
            r == self.heading(),
    {
        self.player_pos - self.player_last_pos
    }

    /// The cell straight ahead: one more step along the heading.
    pub fn front(&self) -> (r: V2I)
        requires
            can_sub(self.player_pos, self.player_last_pos),
            can_add(self.player_pos, self.heading()),
        ensures
            r == v_add(self.player_pos, self.heading()),
    {
        self.player_pos + self.get_player_dir()
    }

    /// Steps by `desire` when it keeps with the heading, that is when their dot
    /// product is at least one; otherwise stays. Says whether it stepped.
    pub fn steer(&mut self, desire: V2I) -> (moved: bool)
        requires
            can_sub(old(self).player_pos, old(self).player_last_pos),
            can_add(old(self).player_pos, desire),
        ensures
            moved == (dot(desire, old(self).heading()) >= 1),
            moved ==> final(self).player_last_pos == old(self).player_pos && final(self).player_pos
                == v_add(old(self).player_pos, desire),
            !moved ==> *final(self) == *old(self),
    {
        let dir = self.get_player_dir();
        proof {
            lemma_i32_product_bound(desire.x, dir.x);
            lemma_i32_product_bound(desire.y, dir.y);
        }
        let angle = (desire.x as i128) * (dir.x as i128) + (desire.y as i128) * (dir.y as i128);
        if angle >= 1 {
            self.player_last_pos = self.player_pos;
            self.player_pos = self.player_pos + desire;
            true
        } else {
            false
        }
    }
}

/// A step that keeps with the heading never leads back to the cell the walker
/// came from, and afterwards the heading is that step.
pub proof fn lemma_steer_never_turns_back(s: Steering, desire: V2I)
    requires
        can_sub(s.player_pos, s.player_last_pos),
        can_add(s.player_pos, desire),
        dot(desire, s.heading()) >= 1,
    ensures
        v_add(s.player_pos, desire) != s.player_last_pos,
        (Steering { player_pos: v_add(s.player_pos, desire), player_last_pos: s.player_pos }).heading()
            == desire,
{
    if v_add(s.player_pos, desire) == s.player_last_pos {
        let h = s.heading();
        assert(desire.x == -h.x && desire.y == -h.y);
        assert(dot(desire, h) == -(h.x * h.x) - h.y * h.y) by (nonlinear_arith)
            requires
                desire.x == -h.x,
                desire.y == -h.y,
        ;
        assert(h.x * h.x >= 0 && h.y * h.y >= 0) by (nonlinear_arith);
    }
}

} // verus!
