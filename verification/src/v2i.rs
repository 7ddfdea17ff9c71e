//! Integer 2D vectors.

use vstd::prelude::*;

verus! {

/// A point or displacement on the integer plane.
#[derive(Clone, Copy, PartialEq, Eq, Structural, Debug, Hash, PartialOrd)]
pub struct V2I {
    pub x: i32,
    pub y: i32,
}

/// The origin.
pub fn zero() -> (r: V2I)
    ensures
        r.x == 0,
        r.y == 0,
{
    V2I { x: 0, y: 0 }
}

/// True when `a + b` fits in an `i32`.
pub open spec fn fits_i32(v: int) -> bool {
    i32::MIN <= v <= i32::MAX
}

/// True when both components of `a + b` fit in an `i32`.
pub open spec fn can_add(a: V2I, b: V2I) -> bool {
    fits_i32(a.x + b.x) && fits_i32(a.y + b.y)
}

/// True when both components of `a - b` fit in an `i32`.
pub open spec fn can_sub(a: V2I, b: V2I) -> bool {
    fits_i32(a.x - b.x) && fits_i32(a.y - b.y)
}

/// The componentwise sum, on mathematical integers.
pub open spec fn v_add(a: V2I, b: V2I) -> V2I {
    V2I { x: (a.x + b.x) as i32, y: (a.y + b.y) as i32 }
}

/// The componentwise difference, on mathematical integers.
pub open spec fn v_sub(a: V2I, b: V2I) -> V2I {
    V2I { x: (a.x - b.x) as i32, y: (a.y - b.y) as i32 }
}

impl V2I {
    pub fn new(x: i32, y: i32) -> (r: V2I)
        ensures
            r.x == x,
            r.y == y,
    {
        V2I { x, y }
    }

    /// Moves the vector by `(dx, dy)`.
    pub fn translate(&self, dx: i32, dy: i32) -> (r: V2I)
        requires
            fits_i32(self.x + dx),
            fits_i32(self.y + dy),
        ensures
            r.x == self.x + dx,
            r.y == self.y + dy,
    {
        V2I::new(self.x + dx, self.y + dy)
    }

    pub fn as_array(&self) -> (r: [i32; 2])
        ensures
            r@ == seq![self.x, self.y],
    {
        [self.x, self.y]
    }

    pub fn as_tuple(&self) -> (r: (i32, i32))
        ensures
            r == (self.x, self.y),
    {
        (self.x, self.y)
    }

    /// The opposite vector.
    pub fn inverse(self) -> (r: V2I)
        requires
            self.x != i32::MIN,
            self.y != i32::MIN,
        ensures
            r.x == -self.x,
            r.y == -self.y,
    {
        V2I { x: -self.x, y: -self.y }
    }
}

impl Default for V2I {
    fn default() -> (r: V2I)
        ensures
            r.x == 0,
            r.y == 0,
    {
        V2I { x: 0, y: 0 }
    }
}

impl From<(i32, i32)> for V2I {
    fn from(t: (i32, i32)) -> (r: V2I) {
        V2I { x: t.0, y: t.1 }
    }
}

impl vstd::std_specs::convert::FromSpecImpl<(i32, i32)> for V2I {
    open spec fn obeys_from_spec() -> bool {
        true
    }

    open spec fn from_spec(t: (i32, i32)) -> V2I {
        V2I { x: t.0, y: t.1 }
    }
}

impl From<[i32; 2]> for V2I {
    fn from(array: [i32; 2]) -> (r: V2I) {
        V2I { x: array[0], y: array[1] }
    }
}

impl vstd::std_specs::convert::FromSpecImpl<[i32; 2]> for V2I {
    open spec fn obeys_from_spec() -> bool {
        true
    }

    open spec fn from_spec(array: [i32; 2]) -> V2I {
        V2I { x: array@[0], y: array@[1] }
    }
}

impl std::ops::Add for V2I {
    type Output = V2I;

    fn add(self, other: V2I) -> (r: V2I) {
        V2I::new(self.x + other.x, self.y + other.y)
    }
}

impl vstd::std_specs::ops::AddSpecImpl for V2I {
    open spec fn obeys_add_spec() -> bool {
        true
    }

    open spec fn add_req(self, other: V2I) -> bool {
        can_add(self, other)
    }

    open spec fn add_spec(self, other: V2I) -> V2I {
        v_add(self, other)
    }
}

impl std::ops::Sub for V2I {
    type Output = V2I;

    fn sub(self, other: V2I) -> (r: V2I) {
        V2I::new(self.x - other.x, self.y - other.y)
    }
}

impl vstd::std_specs::ops::SubSpecImpl for V2I {
    open spec fn obeys_sub_spec() -> bool {
        true
    }

    open spec fn sub_req(self, other: V2I) -> bool {
        can_sub(self, other)
    }

    open spec fn sub_spec(self, other: V2I) -> V2I {
        v_sub(self, other)
    }
}

/// Adding a vector and subtracting it again gives back the start.
pub proof fn lemma_add_sub_inverse(a: V2I, b: V2I)
    requires
        can_add(a, b),
    ensures
        can_sub(v_add(a, b), b),
        v_sub(v_add(a, b), b) == a,
{
}

} // verus!
