//! Axis aligned integer rectangles and the conversions between a rectangle's
//! local frame and the global frame.

use vstd::prelude::*;
use crate::v2i::{V2I, fits_i32};

verus! {

/// A rectangle given by its top left corner and its size.
#[derive(Clone, Copy, PartialEq, Eq, Structural, Debug)]
pub struct RectI {
    pub x: i32,
    pub y: i32,
    pub width: i32,
    pub height: i32,
}

/// True when `p` lies inside the rectangle at `(x, y)` of size `(w, h)`.
pub open spec fn inside(x: int, y: int, w: int, h: int, p: V2I) -> bool {
    x <= p.x < x + w && y <= p.y < y + h
}

/// `v / 2`, rounded towards zero as Rust divides.
pub open spec fn half(v: int) -> int {
    if v >= 0 {
        v / 2
    } else {
        -((-v) / 2)
    }
}

/// `v / 2`, rounded towards zero.
pub fn half_of(v: i32) -> (r: i32)
    ensures
        r == half(v as int),
{
    if v >= 0 {
        v / 2
    } else {
        let m: i64 = -(v as i64);
        -((m / 2) as i32)
    }
}

/// The rectangle at `(x, y)` of size `(w, h)`.
pub open spec fn rect_of(x: int, y: int, w: int, h: int) -> RectI {
    RectI { x: x as i32, y: y as i32, width: w as i32, height: h as i32 }
}

impl RectI {
    pub fn new(x: i32, y: i32, width: i32, height: i32) -> (r: RectI)
        ensures
            r.x == x,
            r.y == y,
            r.width == width,
            r.height == height,
    {
        RectI { x, y, width, height }
    }

    /// A rectangle from its corner and its size, both given as vectors.
    pub fn new_2_points(pos: V2I, size: V2I) -> (r: RectI)
        ensures
            r.x == pos.x,
            r.y == pos.y,
            r.width == size.x,
            r.height == size.y,
    {
        RectI { x: pos.x, y: pos.y, width: size.x, height: size.y }
    }

    pub fn get_x(&self) -> (r: i32)
        ensures
            r == self.x,
    {
        self.x
    }

    pub fn get_y(&self) -> (r: i32)
        ensures
            r == self.y,
    {
        self.y
    }

    pub fn get_width(&self) -> (r: i32)
        ensures
            r == self.width,
    {
        self.width
    }

    pub fn get_height(&self) -> (r: i32)
        ensures
            r == self.height,
    {
        self.height
    }

    /// The top left corner.
    pub fn get_xy(&self) -> (r: V2I)
        ensures
            r.x == self.x,
            r.y == self.y,
    {
        V2I::new(self.x, self.y)
    }

    /// True when `p` lies inside the rectangle: its left and top edges are inside,
    /// its right and bottom edges are not.
    pub fn is_inside(&self, p: &V2I) -> (r: bool)
        ensures
            r == inside(self.x as int, self.y as int, self.width as int, self.height as int, *p),
    {
        let px = p.x as i64;
        let py = p.y as i64;
        let x = self.x as i64;
        let y = self.y as i64;
        x <= px && px < x + self.width as i64 && y <= py && py < y + self.height as i64
    }

    /// The cell at the middle of the rectangle: the corner moved by half the
    /// size, halves rounded towards zero.
    pub fn center(&self) -> (r: V2I)
        requires
            fits_i32(self.x + half(self.width as int)),
            fits_i32(self.y + half(self.height as int)),
        ensures
            r.x == self.x + half(self.width as int),
            r.y == self.y + half(self.height as int),
    {
        V2I::new(self.x + half_of(self.width), self.y + half_of(self.height))
    }

    /// The rectangle moved in by `n` cells on each side.
    pub fn shrink(&self, n: i32) -> (r: RectI)
        requires
            fits_i32(self.x + n),
            fits_i32(self.y + n),
            fits_i32(self.width - 2 * n),
            fits_i32(self.height - 2 * n),
        ensures
            r.x == self.x + n,
            r.y == self.y + n,
            r.width == self.width - 2 * n,
            r.height == self.height - 2 * n,
    {
        let n64 = n as i64;
        let w = (self.width as i64 - 2 * n64) as i32;
        let h = (self.height as i64 - 2 * n64) as i32;
        RectI::new(self.x + n, self.y + n, w, h)
    }

    /// The coordinates of `coords` relative to the top left corner.
    pub fn to_local(&self, coords: &V2I) -> (r: V2I)
        requires
            fits_i32(coords.x - self.x),
            fits_i32(coords.y - self.y),
        ensures
            r.x == coords.x - self.x,
            r.y == coords.y - self.y,
    {
        V2I::new(coords.x - self.x, coords.y - self.y)
    }
}

/// The coordinates of the global point `coord` in the frame whose origin is `pos`.
pub fn to_local(pos: &V2I, coord: &V2I) -> (r: V2I)
    requires
        fits_i32(coord.x - pos.x),
        fits_i32(coord.y - pos.y),
    ensures
        r.x == coord.x - pos.x,
        r.y == coord.y - pos.y,
{
    V2I::new(coord.x - pos.x, coord.y - pos.y)
}

/// The global coordinates of the point `coord` of the frame whose origin is `pos`.
pub fn to_global(pos: &V2I, coord: &V2I) -> (r: V2I)
    requires
        fits_i32(coord.x + pos.x),
        fits_i32(coord.y + pos.y),
    ensures
        r.x == coord.x + pos.x,
        r.y == coord.y + pos.y,
{
    V2I::new(coord.x + pos.x, coord.y + pos.y)
}

/// Going from the global frame to a local one and back gives the point again.
pub proof fn lemma_local_global_roundtrip(pos: V2I, coord: V2I, local: V2I)
    requires
        local.x == coord.x - pos.x,
        local.y == coord.y - pos.y,
    ensures
        fits_i32(local.x + pos.x),
        fits_i32(local.y + pos.y),
        local.x + pos.x == coord.x,
        local.y + pos.y == coord.y,
{
}

} // verus!
