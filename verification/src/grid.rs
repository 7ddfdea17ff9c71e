//! Rectangular grids stored row by row, grids placed at a position, sparse grids
//! and stacks of placed grids.

use vstd::prelude::*;
use crate::recti::{self, RectI};
use crate::v2i::{V2I, can_add, fits_i32, v_add};
use std::collections::HashMap;

verus! {

/// A compass direction.
#[derive(Clone, Copy, PartialEq, Eq, Structural, Debug, Hash)]
pub enum Dir {
    N,
    E,
    S,
    W,
}

/// All directions, clockwise from north.
pub fn dir_all() -> (r: [Dir; 4])
    ensures
        r@ == seq![Dir::N, Dir::E, Dir::S, Dir::W],
{
    [Dir::N, Dir::E, Dir::S, Dir::W]
}

pub type Coord = V2I;

pub type Index = i32;

/// The position in row major order of the cell `c` in a grid `width` cells wide.
pub open spec fn index_of(width: int, c: V2I) -> int {
    c.y * width + c.x
}

/// The cells around `c`, clockwise from north, each with its direction.
pub open spec fn four_neighbours(c: V2I) -> Seq<(Dir, V2I)> {
    seq![
        (Dir::N, V2I { x: c.x, y: (c.y - 1) as i32 }),
        (Dir::E, V2I { x: (c.x + 1) as i32, y: c.y }),
        (Dir::S, V2I { x: c.x, y: (c.y + 1) as i32 }),
        (Dir::W, V2I { x: (c.x - 1) as i32, y: c.y }),
    ]
}

/// The eight cells around `c`, clockwise from north.
pub open spec fn eight_neighbours(c: V2I) -> Seq<V2I> {
    seq![
        V2I { x: c.x, y: (c.y - 1) as i32 },
        V2I { x: (c.x + 1) as i32, y: (c.y - 1) as i32 },
        V2I { x: (c.x + 1) as i32, y: c.y },
        V2I { x: (c.x + 1) as i32, y: (c.y + 1) as i32 },
        V2I { x: c.x, y: (c.y + 1) as i32 },
        V2I { x: (c.x - 1) as i32, y: (c.y + 1) as i32 },
        V2I { x: (c.x - 1) as i32, y: c.y },
        V2I { x: (c.x - 1) as i32, y: (c.y - 1) as i32 },
    ]
}

/// True when all neighbours of `c` have coordinates that fit in an `i32`.
pub open spec fn has_neighbours(c: V2I) -> bool {
    i32::MIN < c.x < i32::MAX && i32::MIN < c.y < i32::MAX
}

/// The index of `xy` in a grid `width` cells wide.
pub fn coords_to_index(width: i32, xy: &Coord) -> (r: Index)
    requires
        fits_i32(index_of(width as int, *xy)),
    ensures
        r == index_of(width as int, *xy),
{
    let v = (xy.y as i64) * (width as i64) + (xy.x as i64);
    v as i32
}

/// `a / b` rounded towards zero, as Rust divides integers.
pub open spec fn trunc_div(a: int, b: int) -> int {
    let q = magnitude(a) / magnitude(b);
    if (a >= 0) == (b > 0) { q } else { -q }
}

/// The absolute value of `a`.
pub open spec fn magnitude(a: int) -> int {
    if a >= 0 { a } else { -a }
}

/// The remainder of `a / b` rounded towards zero: it has the sign of `a`.
pub open spec fn trunc_rem(a: int, b: int) -> int {
    a - b * trunc_div(a, b)
}

/// The cell at `index` in a grid `width` cells wide: column `index % width`
/// and row `index / width`, both as Rust computes them.
pub fn index_to_coord(width: i32, index: Index) -> (r: Coord)
    requires
        width != 0,
        !(index == i32::MIN && width == -1),
    ensures
        r.x == trunc_rem(index as int, width as int),
        r.y == trunc_div(index as int, width as int),
        index >= 0 && width > 0 ==> r.x == index % width && r.y == index / width,
{
    let a: i64 = if index >= 0 { index as i64 } else { -(index as i64) };
    let b: i64 = if width >= 0 { width as i64 } else { -(width as i64) };
    let q: i64 = a / b;
    let r0: i64 = a % b;
    proof {
        vstd::arithmetic::div_mod::lemma_fundamental_div_mod(a as int, b as int);
        assert(0 <= r0 < b) by (nonlinear_arith)
            requires
                r0 == a % b,
                b >= 1,
        ;
        assert(0 <= q <= a) by (nonlinear_arith)
            requires
                q == a / b,
                a >= 0,
                b >= 1,
        ;
        if q == a && a > 0 {
            assert(b == 1) by (nonlinear_arith)
                requires
                    q == a / b,
                    q == a,
                    a > 0,
                    b >= 1,
            ;
        }
    }
    let y: i64 = if (index >= 0) == (width > 0) { q } else { -q };
    let x: i64 = if index >= 0 { r0 } else { -r0 };
    proof {
        assert(a == b * q + r0);
        let p = b * q;
        if index >= 0 {
            assert(index == p + r0);
        } else {
            assert(index == -(p + r0));
        }
        if width > 0 {
            assert(width * y == (if index >= 0 { p } else { -p })) by (nonlinear_arith)
                requires
                    width == b,
                    p == b * q,
                    index >= 0 ==> y == q,
                    index < 0 ==> y == -q,
            ;
        } else {
            assert(width * y == (if index >= 0 { p } else { -p })) by (nonlinear_arith)
                requires
                    width == -b,
                    p == b * q,
                    index >= 0 ==> y == -q,
                    index < 0 ==> y == q,
            ;
        }
        assert(x == index - width * y);
        if index >= 0 && width > 0 {
            vstd::arithmetic::div_mod::lemma_fundamental_div_mod_converse(
                index as int,
                width as int,
                q as int,
                r0 as int,
            );
        }
    }
    Coord::new(x as i32, y as i32)
}

/// Turning a valid cell into an index and back gives the cell.
pub proof fn lemma_index_roundtrip(width: int, c: V2I)
    requires
        0 <= c.x < width,
        0 <= c.y,
    ensures
        index_of(width, c) >= 0,
        index_of(width, c) % width == c.x,
        index_of(width, c) / width == c.y,
{
    assert(c.y * width >= 0) by (nonlinear_arith)
        requires
            c.y >= 0,
            width > 0,
    ;
    vstd::arithmetic::div_mod::lemma_fundamental_div_mod_converse(
        index_of(width, c),
        width,
        c.y as int,
        c.x as int,
    );
}

/// The four cells around `coords`, clockwise from north.
pub fn get_4_neighbours(coords: &Coord) -> (r: Vec<(Dir, Coord)>)
    requires
        has_neighbours(*coords),
    ensures
        r@ == four_neighbours(*coords),
{
    let r = vec![
        (Dir::N, coords.translate(0, -1)),
        (Dir::E, coords.translate(1, 0)),
        (Dir::S, coords.translate(0, 1)),
        (Dir::W, coords.translate(-1, 0)),
    ];
    assert(r@ == four_neighbours(*coords));
    r
}

/// The eight cells around `coords`, clockwise from north.
pub fn get_8_neighbours(coords: &Coord) -> (r: Vec<Coord>)
    requires
        has_neighbours(*coords),
    ensures
        r@ == eight_neighbours(*coords),
{
    let r = vec![
        coords.translate(0, -1),
        coords.translate(1, -1),
        coords.translate(1, 0),
        coords.translate(1, 1),
        coords.translate(0, 1),
        coords.translate(-1, 1),
        coords.translate(-1, 0),
        coords.translate(-1, -1),
    ];
    assert(r@ == eight_neighbours(*coords));
    r
}

/**
    A grid of cells stored row by row:

    0 1 2
    3 4 5
    6 7 8
*/
#[derive(Debug, Clone)]
pub struct Grid<T> {
    pub width: i32,
    pub height: i32,
    pub list: Vec<T>,
    /// For each cell, whether a value was ever set in it (a cell only made by
    /// the grid's default was not).
    pub written: Vec<bool>,
}

/// `n` flags, each `value`.
pub(crate) fn uniform_flags(n: usize, value: bool) -> (r: Vec<bool>)
    ensures
        r@.len() == n,
        forall|i: int| 0 <= i < n ==> #[trigger] r@[i] == value,
{
    let mut r: Vec<bool> = Vec::new();
    let mut i: usize = 0;
    while i < n
        invariant
            i <= n,
            r@.len() == i,
            forall|j: int| 0 <= j < i ==> #[trigger] r@[j] == value,
        decreases n - i,
    {
        r.push(value);
        i = i + 1;
    }
    r
}

/// `(x, y)` lies in the `width` by `height` grid.
pub open spec fn in_bounds(width: int, height: int, c: V2I) -> bool {
    0 <= c.x < width && 0 <= c.y < height
}

/// A valid cell of a grid has an index inside the grid's cell list.
pub proof fn lemma_index_in_bounds(width: int, height: int, c: V2I)
    requires
        in_bounds(width, height, c),
    ensures
        0 <= index_of(width, c) < width * height,
{
    assert(0 <= c.y * width + c.x < width * height) by (nonlinear_arith)
        requires
            0 <= c.x < width,
            0 <= c.y < height,
    ;
}

/// Distinct valid cells have distinct indexes.
pub proof fn lemma_index_injective(width: int, height: int, a: V2I, b: V2I)
    requires
        in_bounds(width, height, a),
        in_bounds(width, height, b),
        index_of(width, a) == index_of(width, b),
    ensures
        a.x == b.x,
        a.y == b.y,
{
    lemma_index_roundtrip(width, a);
    lemma_index_roundtrip(width, b);
}

/// What a grid gives back at a cell is what was last written there: writing
/// at `c` (the list updated at `c`'s index, as `set_at` does) leaves every
/// other valid cell `d` as it was.
pub proof fn lemma_grid_read_after_write<T>(list: Seq<T>, width: int, height: int, c: V2I, d: V2I, v: T)
    requires
        list.len() == width * height,
        in_bounds(width, height, c),
        in_bounds(width, height, d),
    ensures
        list.update(index_of(width, c), v)[index_of(width, c)] == v,
        d != c ==> list.update(index_of(width, c), v)[index_of(width, d)] == list[index_of(width, d)],
{
    lemma_index_in_bounds(width, height, c);
    lemma_index_in_bounds(width, height, d);
    if d != c && index_of(width, c) == index_of(width, d) {
        lemma_index_injective(width, height, c, d);
    }
}

impl<T> Grid<T> {
    /// The grid's dimensions are non negative, its cell count fits an `i32` and
    /// its list holds exactly one cell per position.
    pub open spec fn wf(&self) -> bool {
        &&& 0 <= self.width
        &&& 0 <= self.height
        &&& self.width * self.height <= i32::MAX
        &&& self.list@.len() == self.width * self.height
        &&& self.written@.len() == self.list@.len()
    }

    /// A value was set in the cell at `c`.
    pub open spec fn written_at(&self, c: V2I) -> bool {
        self.written@[index_of(self.width as int, c)]
    }

    /// True when `c` is a cell of this grid.
    pub open spec fn valid(&self, c: V2I) -> bool {
        in_bounds(self.width as int, self.height as int, c)
    }

    /// The cell at `c`.
    pub open spec fn cell(&self, c: V2I) -> T {
        self.list@[index_of(self.width as int, c)]
    }

    /// A square grid of `size` by `size` cells, each made by `default`.
    pub fn new_square<F: Fn() -> T>(size: i32, default: F) -> (r: Self)
        requires
            fits_i32(size * size),
            call_requires(default, ()),
        ensures
            r.width == size,
            r.height == size,
            size >= 0 ==> r.wf(),
            forall|i: int| 0 <= i < r.list@.len() ==> call_ensures(default, (), #[trigger] r.list@[i]),
            r.written@.len() == r.list@.len(),
            forall|i: int| 0 <= i < r.written@.len() ==> !#[trigger] r.written@[i],
    {
        Grid::new(size, size, default)
    }

    /// A `width` by `height` grid, each cell made by `default`.
    pub fn new<F: Fn() -> T>(width: i32, height: i32, default: F) -> (r: Self)
        requires
            fits_i32(width * height),
            call_requires(default, ()),
        ensures
            r.width == width,
            r.height == height,
            r.list@.len() == (if width * height > 0 { width * height } else { 0 }),
            width >= 0 && height >= 0 ==> r.wf(),
            forall|i: int| 0 <= i < r.list@.len() ==> call_ensures(default, (), #[trigger] r.list@[i]),
            r.written@.len() == r.list@.len(),
            forall|i: int| 0 <= i < r.written@.len() ==> !#[trigger] r.written@[i],
    {
        let prod: i64 = (width as i64) * (height as i64);
        let total: i32 = prod as i32;
        let mut list: Vec<T> = Vec::new();
        let mut i: i32 = 0;
        while i < total
            invariant
                0 <= i,
                i <= (if total > 0 { total } else { 0 }),
                total == width * height,
                list@.len() == i,
                call_requires(default, ()),
                forall|j: int| 0 <= j < list@.len() ==> call_ensures(default, (), #[trigger] list@[j]),
            decreases total - i,
        {
            list.push(default());
            i = i + 1;
        }
        proof {
            if width >= 0 && height >= 0 {
                assert(width * height >= 0) by (nonlinear_arith)
                    requires
                        width >= 0,
                        height >= 0,
                ;
            }
        }
        let written = uniform_flags(list.len(), false);
        Grid { width, height, list, written }
    }

    /// Replaces the cell at list position `index`, which is then written.
    pub fn set(&mut self, index: Index, value: T)
        requires
            0 <= index < old(self).list@.len(),
            old(self).written@.len() == old(self).list@.len(),
        ensures
            final(self).width == old(self).width,
            final(self).height == old(self).height,
            final(self).list@ == old(self).list@.update(index as int, value),
            final(self).written@ == old(self).written@.update(index as int, true),
    {
        self.list.set(index as usize, value);
        self.written.set(index as usize, true);
    }

    /// Replaces the cell at `coord` and returns the cell that was there.
    pub fn set_at(&mut self, coord: &Coord, value: T) -> (r: T)
        requires
            old(self).wf(),
            old(self).valid(*coord),
        ensures
            final(self).width == old(self).width,
            final(self).height == old(self).height,
            final(self).list@ == old(self).list@.update(index_of(old(self).width as int, *coord), value),
            final(self).written@ == old(self).written@.update(index_of(old(self).width as int, *coord), true),
            r == old(self).cell(*coord),
    {
        proof {
            lemma_index_in_bounds(self.width as int, self.height as int, *coord);
        }
        let index = self.coords_to_index(coord);
        let mut v = value;
        std::mem::swap(&mut v, &mut self.list[index as usize]);
        self.written.set(index as usize, true);
        v
    }

    /// The cell at list position `index`.
    pub fn get(&self, index: i32) -> (r: &T)
        requires
            0 <= index < self.list@.len(),
        ensures
            *r == self.list@[index as int],
    {
        &self.list[index as usize]
    }

    /// The cell at `coord`.
    pub fn get_at(&self, coord: &Coord) -> (r: &T)
        requires
            self.wf(),
            self.valid(*coord),
        ensures
            *r == self.cell(*coord),
    {
        proof {
            lemma_index_in_bounds(self.width as int, self.height as int, *coord);
        }
        let index = self.coords_to_index(coord);
        &self.list[index as usize]
    }

    /// The cell at `coord`, or `None` outside the grid.
    pub fn get_at_opt(&self, coord: &Coord) -> (r: Option<&T>)
        requires
            self.wf(),
        ensures
            self.valid(*coord) ==> r == Some(&self.cell(*coord)),
            !self.valid(*coord) ==> r.is_none(),
    {
        if self.is_valid_coords(coord) {
            Some(self.get_at(coord))
        } else {
            None
        }
    }

    /// True when `index` is below the number of cells (only meaningful for non
    /// negative indexes).
    pub fn is_valid_index(&self, index: Index) -> (r: bool)
        requires
            self.list@.len() <= i32::MAX,
        ensures
            r == (index < self.list@.len()),
    {
        index < self.list.len() as i32
    }

    /// True when `coord` is a cell of the grid.
    pub fn is_valid_coords(&self, coord: &Coord) -> (r: bool)
        ensures
            r == self.valid(*coord),
    {
        coord.x >= 0 && coord.y >= 0 && coord.x < self.width && coord.y < self.height
    }

    /// The list position of `coords`.
    pub fn coords_to_index(&self, coords: &Coord) -> (r: Index)
        requires
            fits_i32(index_of(self.width as int, *coords)),
        ensures
            r == index_of(self.width as int, *coords),
    {
        coords_to_index(self.width, coords)
    }

    /// The cell at list position `index`.
    pub fn index_to_coords(&self, index: Index) -> (r: Coord)
        requires
            self.width != 0,
            !(index == i32::MIN && self.width == -1),
        ensures
            r.x == trunc_rem(index as int, self.width as int),
            r.y == trunc_div(index as int, self.width as int),
            index >= 0 && self.width > 0 ==> r.x == index % self.width && r.y == index / self.width,
    {
        index_to_coord(self.width, index)
    }

    /// The cells north, east, south and west of `coords` that lie in the grid,
    /// in that order.
    pub fn get_valid_4_neighbours(&self, coords: &Coord) -> (r: Vec<Coord>)
        requires
            has_neighbours(*coords),
        ensures
            r@ == four_neighbours(*coords).map_values(|p: (Dir, V2I)| p.1).filter(
                |c: V2I| self.valid(c),
            ),
    {
        let all = get_4_neighbours(coords);
        let ghost coords_only = four_neighbours(*coords).map_values(|p: (Dir, V2I)| p.1);
        let ghost pred = |c: V2I| self.valid(c);
        let mut r: Vec<Coord> = Vec::new();
        let mut i: usize = 0;
        while i < all.len()
            invariant
                all@ == four_neighbours(*coords),
                coords_only == four_neighbours(*coords).map_values(|p: (Dir, V2I)| p.1),
                pred == (|c: V2I| self.valid(c)),
                i <= all@.len(),
                r@ == coords_only.take(i as int).filter(pred),
            decreases all@.len() - i,
        {
            reveal_with_fuel(Seq::<_>::filter, 1);
            let c = all[i].1;
            assert(coords_only.take(i + 1).drop_last() =~= coords_only.take(i as int));
            if self.is_valid_coords(&c) {
                r.push(c);
            }
            i = i + 1;
        }
        assert(coords_only.take(all@.len() as int) =~= coords_only);
        r
    }

    /// The eight cells around `coords` that lie in the grid, clockwise from north.
    pub fn get_valid_8_neighbours(&self, coords: &Coord) -> (r: Vec<Coord>)
        requires
            has_neighbours(*coords),
        ensures
            r@ == eight_neighbours(*coords).filter(|c: V2I| self.valid(c)),
    {
        let all = get_8_neighbours(coords);
        let ghost pred = |c: V2I| self.valid(c);
        let mut r: Vec<Coord> = Vec::new();
        let mut i: usize = 0;
        while i < all.len()
            invariant
                all@ == eight_neighbours(*coords),
                pred == (|c: V2I| self.valid(c)),
                i <= all@.len(),
                r@ == all@.take(i as int).filter(pred),
            decreases all@.len() - i,
        {
            reveal_with_fuel(Seq::<_>::filter, 1);
            let c = all[i];
            assert(all@.take(i + 1).drop_last() =~= all@.take(i as int));
            if self.is_valid_coords(&c) {
                r.push(c);
            }
            i = i + 1;
        }
        assert(all@.take(all@.len() as int) =~= all@);
        r
    }

    /// The grid's width and height.
    pub fn size(&self) -> (r: V2I)
        ensures
            r.x == self.width,
            r.y == self.height,
    {
        V2I::new(self.width, self.height)
    }

    pub fn get_width(&self) -> (r: i32)
        ensures
            r == self.width,
    {
        self.width
    }

    pub fn get_height(&self) -> (r: i32)
        ensures
            r == self.height,
    {
        self.height
    }

    /// The number of cells.
    pub fn len(&self) -> (r: usize)
        ensures
            r == self.list@.len(),
    {
        self.list.len()
    }
}


/// The point a ray reaches before its `k`-th step: the start for the first step,
/// else the point of the previous step.
pub open spec fn ray_prev(r: Seq<V2I>, start: V2I, k: int) -> V2I {
    if k == 0 {
        start
    } else {
        r[k - 1]
    }
}

/// `r` is a walk from `start` (not included) that moves by `(dx, dy)` at each step.
pub open spec fn ray_steps(r: Seq<V2I>, start: V2I, dx: int, dy: int) -> bool {
    forall|k: int|
        0 <= k < r.len() ==> #[trigger] r[k].x == ray_prev(r, start, k).x + dx && r[k].y
            == ray_prev(r, start, k).y + dy
}

/// The number of further steps a ray moving by `(dx, dy)` from `c` can still take
/// inside `[0, width) x [0, height)` before it leaves it.
pub open spec fn ray_room(c: V2I, dx: int, dy: int, width: int, height: int) -> int {
    if dx > 0 {
        width - c.x
    } else if dx < 0 {
        c.x + 1
    } else if dy > 0 {
        height - c.y
    } else {
        c.y + 1
    }
}

impl<T> Grid<T> {
    /// True when the integer point `(x, y)` is a cell of this grid.
    pub open spec fn valid_at(&self, x: int, y: int) -> bool {
        0 <= x < self.width && 0 <= y < self.height
    }

    /// True when the integer point `(x, y)` is a cell of this grid in which a
    /// value was set.
    pub open spec fn open_at(&self, x: int, y: int) -> bool {
        self.valid_at(x, y) && self.written_at(V2I { x: x as i32, y: y as i32 })
    }

    /// The cells met walking from `pos` (not included) by steps of `(dir_x, dir_y)`,
    /// up to the last one before the walk leaves the grid or meets a cell in
    /// which no value was ever set.
    pub fn raytrace(&self, pos: &Coord, dir_x: i32, dir_y: i32) -> (r: Vec<Coord>)
        requires
            self.wf(),
            fits_i32(pos.x + dir_x),
            fits_i32(pos.y + dir_y),
            self.width - 1 + dir_x <= i32::MAX,
            self.height - 1 + dir_y <= i32::MAX,
            dir_x != 0 || dir_y != 0 || !self.valid(*pos),
        ensures
            ray_steps(r@, *pos, dir_x as int, dir_y as int),
            forall|k: int| 0 <= k < r@.len() ==> self.valid(#[trigger] r@[k]) && self.written_at(r@[k]),
            !self.open_at(
                ray_prev(r@, *pos, r@.len() as int).x + dir_x,
                ray_prev(r@, *pos, r@.len() as int).y + dir_y,
            ),
    {
        let mut current = *pos;
        let mut result: Vec<Coord> = Vec::new();
        loop
            invariant_except_break
                result@.len() == 0 ==> current == *pos,
                result@.len() > 0 ==> current == result@.last() && self.valid(current),
                result@.len() > 0 ==> (dir_x != 0 || dir_y != 0),
                ray_steps(result@, *pos, dir_x as int, dir_y as int),
                forall|k: int| 0 <= k < result@.len() ==> self.valid(#[trigger] result@[k]) && self.written_at(result@[k]),
                self.wf(),
                fits_i32(pos.x + dir_x),
                fits_i32(pos.y + dir_y),
                self.width - 1 + dir_x <= i32::MAX,
                self.height - 1 + dir_y <= i32::MAX,
                dir_x != 0 || dir_y != 0 || !self.valid(*pos),
            ensures
                ray_steps(result@, *pos, dir_x as int, dir_y as int),
                forall|k: int| 0 <= k < result@.len() ==> self.valid(#[trigger] result@[k]) && self.written_at(result@[k]),
                !self.open_at(
                    ray_prev(result@, *pos, result@.len() as int).x + dir_x,
                    ray_prev(result@, *pos, result@.len() as int).y + dir_y,
                ),
            decreases
                (if result@.len() == 0 { 1int } else { 0int }),
                (if result@.len() == 0 { 0int } else { ray_room(current, dir_x as int, dir_y as int, self.width as int, self.height as int) }),
        {
            let ghost prev = current;
            assert(ray_prev(result@, *pos, result@.len() as int) == current);
            let nx = current.x + dir_x;
            let ny = current.y + dir_y;
            if nx < 0 || ny < 0 {
                break;
            }
            current = V2I::new(nx, ny);
            if !self.is_valid_coords(&current) {
                break;
            }
            proof {
                lemma_index_in_bounds(self.width as int, self.height as int, current);
            }
            let idx = self.coords_to_index(&current);
            if !self.written[idx as usize] {
                break;
            }
            result.push(current);
            assert(ray_prev(result@, *pos, result@.len() - 1) == prev);
        }
        result
    }
}

/// The coordinates of `c` in the frame whose origin is `pos`, on mathematical integers.
pub open spec fn local_of(pos: V2I, c: V2I) -> V2I {
    V2I { x: (c.x - pos.x) as i32, y: (c.y - pos.y) as i32 }
}

/// A grid placed with its top left corner at `pos` in a global frame.
#[derive(Clone, Debug)]
pub struct PGrid<T> {
    pub pos: V2I,
    pub grid: Grid<T>,
}

impl<T> PGrid<T> {
    pub open spec fn wf(&self) -> bool {
        self.grid.wf()
    }

    /// True when the global point `c` is covered by this grid.
    pub open spec fn contains(&self, c: V2I) -> bool {
        crate::recti::inside(
            self.pos.x as int,
            self.pos.y as int,
            self.grid.width as int,
            self.grid.height as int,
            c,
        )
    }

    /// The cell at the global point `c`.
    pub open spec fn cell_at(&self, c: V2I) -> T {
        self.grid.cell(local_of(self.pos, c))
    }

    /// A `width` by `height` grid placed at `(x, y)`, each cell made by `default`.
    pub fn new<F: Fn() -> T>(x: i32, y: i32, width: i32, height: i32, default: F) -> (r: Self)
        requires
            fits_i32(width * height),
            call_requires(default, ()),
        ensures
            r.pos.x == x,
            r.pos.y == y,
            r.grid.width == width,
            r.grid.height == height,
            width >= 0 && height >= 0 ==> r.wf(),
            forall|i: int|
                0 <= i < r.grid.list@.len() ==> call_ensures(default, (), #[trigger] r.grid.list@[i]),
    {
        PGrid { pos: V2I::new(x, y), grid: Grid::new(width, height, default) }
    }

    /// The grid `grid` placed at `coord`.
    pub fn from_grid(coord: &V2I, grid: Grid<T>) -> (r: Self)
        ensures
            r.pos == *coord,
            r.grid == grid,
    {
        PGrid { pos: *coord, grid }
    }

    pub fn get_pos(&self) -> (r: Coord)
        ensures
            r == self.pos,
    {
        self.pos
    }

    pub fn set_pos(&mut self, pos: &V2I)
        ensures
            final(self).pos == *pos,
            final(self).grid == old(self).grid,
    {
        self.pos = *pos;
    }

    pub fn get_width(&self) -> (r: i32)
        ensures
            r == self.grid.width,
    {
        self.grid.width
    }

    pub fn get_height(&self) -> (r: i32)
        ensures
            r == self.grid.height,
    {
        self.grid.height
    }

    /// The rectangle the grid covers in the global frame.
    pub fn get_rect(&self) -> (r: RectI)
        ensures
            r.x == self.pos.x,
            r.y == self.pos.y,
            r.width == self.grid.width,
            r.height == self.grid.height,
    {
        RectI::new(self.pos.x, self.pos.y, self.grid.width, self.grid.height)
    }

    /// The global point `coord` in the grid's own frame.
    pub fn to_local(&self, coord: &Coord) -> (r: Coord)
        requires
            fits_i32(coord.x - self.pos.x),
            fits_i32(coord.y - self.pos.y),
        ensures
            r == local_of(self.pos, *coord),
    {
        recti::to_local(&self.pos, coord)
    }

    /// The point `coord` of the grid's own frame in the global frame.
    pub fn to_global(&self, coord: &Coord) -> (r: Coord)
        requires
            fits_i32(coord.x + self.pos.x),
            fits_i32(coord.y + self.pos.y),
        ensures
            r.x == coord.x + self.pos.x,
            r.y == coord.y + self.pos.y,
    {
        recti::to_global(&self.pos, coord)
    }

    /// Replaces the cell at the global point `coord`, returning the old cell.
    pub fn set_at(&mut self, coord: &Coord, value: T) -> (r: T)
        requires
            old(self).wf(),
            old(self).contains(*coord),
        ensures
            final(self).pos == old(self).pos,
            final(self).grid.width == old(self).grid.width,
            final(self).grid.height == old(self).grid.height,
            final(self).grid.list@ == old(self).grid.list@.update(
                index_of(old(self).grid.width as int, local_of(old(self).pos, *coord)),
                value,
            ),
            r == old(self).cell_at(*coord),
    {
        let local = self.to_local(coord);
        self.grid.set_at(&local, value)
    }

    /// The cell at the global point `coord`.
    pub fn get_at(&self, coord: &Coord) -> (r: &T)
        requires
            self.wf(),
            self.contains(*coord),
        ensures
            *r == self.cell_at(*coord),
    {
        let local = self.to_local(coord);
        self.grid.get_at(&local)
    }

    /// The cell at the global point `coord`, or `None` where the grid does not reach.
    pub fn get_at_opt(&self, coord: &Coord) -> (r: Option<&T>)
        requires
            self.wf(),
        ensures
            self.contains(*coord) ==> r == Some(&self.cell_at(*coord)),
            !self.contains(*coord) ==> r.is_none(),
    {
        if self.is_valid_coords(coord) {
            Some(self.get_at(coord))
        } else {
            None
        }
    }

    /// True when the global point `coord` is covered by the grid.
    pub fn is_valid_coords(&self, coord: &Coord) -> (r: bool)
        ensures
            r == self.contains(*coord),
    {
        self.get_rect().is_inside(coord)
    }

    /// The cells north, east, south and west of `coords` that the grid covers, in
    /// that order.
    pub fn get_valid_4_neighbours(&self, coords: &Coord) -> (r: Vec<Coord>)
        requires
            has_neighbours(*coords),
        ensures
            r@ == four_neighbours(*coords).map_values(|p: (Dir, V2I)| p.1).filter(
                |c: V2I| self.contains(c),
            ),
    {
        let all = get_4_neighbours(coords);
        let ghost coords_only = four_neighbours(*coords).map_values(|p: (Dir, V2I)| p.1);
        let ghost pred = |c: V2I| self.contains(c);
        let mut r: Vec<Coord> = Vec::new();
        let mut i: usize = 0;
        while i < all.len()
            invariant
                all@ == four_neighbours(*coords),
                coords_only == four_neighbours(*coords).map_values(|p: (Dir, V2I)| p.1),
                pred == (|c: V2I| self.contains(c)),
                i <= all@.len(),
                r@ == coords_only.take(i as int).filter(pred),
            decreases all@.len() - i,
        {
            reveal_with_fuel(Seq::<_>::filter, 1);
            let c = all[i].1;
            assert(coords_only.take(i + 1).drop_last() =~= coords_only.take(i as int));
            if self.is_valid_coords(&c) {
                r.push(c);
            }
            i = i + 1;
        }
        assert(coords_only.take(all@.len() as int) =~= coords_only);
        r
    }

    /// The eight cells around `coords` that the grid covers, clockwise from north.
    pub fn get_valid_8_neighbours(&self, coords: &Coord) -> (r: Vec<Coord>)
        requires
            has_neighbours(*coords),
        ensures
            r@ == eight_neighbours(*coords).filter(|c: V2I| self.contains(c)),
    {
        let all = get_8_neighbours(coords);
        let ghost pred = |c: V2I| self.contains(c);
        let mut r: Vec<Coord> = Vec::new();
        let mut i: usize = 0;
        while i < all.len()
            invariant
                all@ == eight_neighbours(*coords),
                pred == (|c: V2I| self.contains(c)),
                i <= all@.len(),
                r@ == all@.take(i as int).filter(pred),
            decreases all@.len() - i,
        {
            reveal_with_fuel(Seq::<_>::filter, 1);
            let c = all[i];
            assert(all@.take(i + 1).drop_last() =~= all@.take(i as int));
            if self.is_valid_coords(&c) {
                r.push(c);
            }
            i = i + 1;
        }
        assert(all@.take(all@.len() as int) =~= all@);
        r
    }

    /// True when the integer point `(x, y)` is covered by the grid and has non
    /// negative coordinates.
    pub open spec fn reaches(&self, x: int, y: int) -> bool {
        0 <= x && 0 <= y && self.pos.x <= x < self.pos.x + self.grid.width && self.pos.y <= y
            < self.pos.y + self.grid.height
    }

    /// The global points met walking from `pos` (not included) by steps of
    /// `(dir_x, dir_y)`, up to the last one before the walk leaves the grid or the
    /// non negative quadrant.
    pub fn raytrace(&self, pos: &Coord, dir_x: i32, dir_y: i32) -> (r: Vec<Coord>)
        requires
            fits_i32(pos.x + dir_x),
            fits_i32(pos.y + dir_y),
            self.pos.x + self.grid.width - 1 + dir_x <= i32::MAX,
            self.pos.y + self.grid.height - 1 + dir_y <= i32::MAX,
            dir_x != 0 || dir_y != 0 || !self.reaches(pos.x as int, pos.y as int),
        ensures
            ray_steps(r@, *pos, dir_x as int, dir_y as int),
            forall|k: int| 0 <= k < r@.len() ==> self.reaches(#[trigger] r@[k].x as int, r@[k].y as int),
            !self.reaches(
                ray_prev(r@, *pos, r@.len() as int).x + dir_x,
                ray_prev(r@, *pos, r@.len() as int).y + dir_y,
            ),
    {
        let mut current = *pos;
        let mut result: Vec<Coord> = Vec::new();
        loop
            invariant_except_break
                result@.len() == 0 ==> current == *pos,
                result@.len() > 0 ==> current == result@.last() && self.reaches(current.x as int, current.y as int),
                result@.len() > 0 ==> (dir_x != 0 || dir_y != 0),
                ray_steps(result@, *pos, dir_x as int, dir_y as int),
                forall|k: int| 0 <= k < result@.len() ==> self.reaches(#[trigger] result@[k].x as int, result@[k].y as int),
                fits_i32(pos.x + dir_x),
                fits_i32(pos.y + dir_y),
                self.pos.x + self.grid.width - 1 + dir_x <= i32::MAX,
                self.pos.y + self.grid.height - 1 + dir_y <= i32::MAX,
                dir_x != 0 || dir_y != 0 || !self.reaches(pos.x as int, pos.y as int),
            ensures
                ray_steps(result@, *pos, dir_x as int, dir_y as int),
                forall|k: int| 0 <= k < result@.len() ==> self.reaches(#[trigger] result@[k].x as int, result@[k].y as int),
                !self.reaches(
                    ray_prev(result@, *pos, result@.len() as int).x + dir_x,
                    ray_prev(result@, *pos, result@.len() as int).y + dir_y,
                ),
            decreases
                (if result@.len() == 0 { 1int } else { 0int }),
                (if result@.len() == 0 { 0int } else { ray_room(local_of(self.pos, current), dir_x as int, dir_y as int, self.grid.width as int, self.grid.height as int) }),
        {
            let ghost prev = current;
            assert(ray_prev(result@, *pos, result@.len() as int) == current);
            let nx = current.x + dir_x;
            let ny = current.y + dir_y;
            if nx < 0 || ny < 0 {
                break;
            }
            current = V2I::new(nx, ny);
            if !self.is_valid_coords(&current) {
                break;
            }
            result.push(current);
            assert(ray_prev(result@, *pos, result@.len() - 1) == prev);
        }
        result
    }
}

impl<T> From<PGrid<T>> for Grid<T> {
    fn from(pgrid: PGrid<T>) -> (r: Grid<T>) {
        pgrid.grid
    }
}

impl<T> vstd::std_specs::convert::FromSpecImpl<PGrid<T>> for Grid<T> {
    open spec fn obeys_from_spec() -> bool {
        true
    }

    open spec fn from_spec(pgrid: PGrid<T>) -> Grid<T> {
        pgrid.grid
    }
}

/// The key under which a sparse grid stores the cell `c`: distinct cells get
/// distinct keys, all within `i64`.
pub open spec fn flex_key_of(c: V2I) -> int {
    c.x * 4294967296 + (c.y + 2147483648)
}

pub(crate) fn flex_key(c: &V2I) -> (r: i64)
    ensures
        r == flex_key_of(*c),
{
    (c.x as i64) * 4294967296i64 + ((c.y as i64) + 2147483648i64)
}

pub(crate) proof fn lemma_flex_key_injective(a: V2I, b: V2I)
    requires
        flex_key_of(a) == flex_key_of(b),
    ensures
        a == b,
{
}

/// A sparse grid: only the cells that were set are stored.
#[derive(Debug, Clone)]
pub struct FlexGrid<T> {
    cells: HashMap<i64, T>,
}

impl<T> FlexGrid<T> {
    /// The stored cells by their coordinates.
    pub closed spec fn view(&self) -> Map<V2I, T> {
        Map::new(
            |c: V2I| self.cells@.contains_key(flex_key_of(c) as i64),
            |c: V2I| self.cells@[flex_key_of(c) as i64],
        )
    }

    /// An empty sparse grid.
    pub fn new() -> (r: Self)
        ensures
            r.view() == Map::<V2I, T>::empty(),
    {
        let r = FlexGrid { cells: HashMap::new() };
        assert(r.view() =~= Map::<V2I, T>::empty());
        r
    }

    /// Stores `value` at `coord`, or clears `coord` when `value` is `None`.
    pub fn set_at(&mut self, coord: &Coord, value: Option<T>)
        ensures
            match value {
                Some(v) => final(self).view() == old(self).view().insert(*coord, v),
                None => final(self).view() == old(self).view().remove(*coord),
            },
    {
        broadcast use vstd::std_specs::hash::group_hash_axioms;
        let key = flex_key(coord);
        let ghost old_view = self.view();
        match value {
            Some(v) => {
                self.cells.insert(key, v);
                assert forall|c: V2I| #![trigger flex_key_of(c)]
                    self.view().contains_key(c) == old_view.insert(*coord, v).contains_key(c) by {
                    if flex_key_of(c) == flex_key_of(*coord) {
                        lemma_flex_key_injective(c, *coord);
                    }
                }
                assert(self.view() =~= old_view.insert(*coord, v));
            },
            None => {
                self.cells.remove(&key);
                assert forall|c: V2I| #![trigger flex_key_of(c)]
                    self.view().contains_key(c) == old_view.remove(*coord).contains_key(c) by {
                    if flex_key_of(c) == flex_key_of(*coord) {
                        lemma_flex_key_injective(c, *coord);
                    }
                }
                assert(self.view() =~= old_view.remove(*coord));
            },
        };
    }

    /// The cell stored at `coord`, if any.
    pub fn get_at(&self, coord: &Coord) -> (r: Option<&T>)
        ensures
            match r {
                Some(v) => self.view().contains_key(*coord) && *v == self.view()[*coord],
                None => !self.view().contains_key(*coord),
            },
    {
        broadcast use vstd::std_specs::hash::group_hash_axioms;
        let key = flex_key(coord);
        self.cells.get(&key)
    }
}

/// Reading a sparse grid where a value was just stored gives that value.
pub proof fn lemma_flex_read_after_write<T>(m: Map<V2I, T>, c: V2I, v: T)
    ensures
        m.insert(c, v).contains_key(c),
        m.insert(c, v)[c] == v,
        !m.remove(c).contains_key(c),
{
}

/// A cell of a layered grid: a layer whose cell at a point is empty lets the
/// layers below show through.
pub trait GridCell {
    /// True when the cell is empty.
    spec fn empty_cell(&self) -> bool;

    fn is_empty(&self) -> (r: bool)
        ensures
            r == self.empty_cell(),
    ;
}

impl GridCell for i32 {
    open spec fn empty_cell(&self) -> bool {
        false
    }

    fn is_empty(&self) -> (r: bool) {
        false
    }
}

/// The layer that answers for the global point `c` in a stack of layers: the
/// topmost layer whose cell there is not empty; when every covering layer is
/// empty there, the bottommost covering layer; `None` when no layer covers `c`.
pub open spec fn top_layer<T: GridCell>(layers: Seq<PGrid<T>>, c: V2I, r: Option<usize>) -> bool {
    match r {
        None => forall|j: int| 0 <= j < layers.len() ==> !(#[trigger] layers[j]).contains(c),
        Some(l) => {
            &&& 0 <= l < layers.len()
            &&& layers[l as int].contains(c)
            &&& {
                ||| {
                    &&& !layers[l as int].cell_at(c).empty_cell()
                    &&& forall|j: int|
                        l < j < layers.len() && (#[trigger] layers[j]).contains(c)
                            ==> layers[j].cell_at(c).empty_cell()
                }
                ||| {
                    &&& forall|j: int|
                        0 <= j < layers.len() && (#[trigger] layers[j]).contains(c)
                            ==> layers[j].cell_at(c).empty_cell()
                    &&& forall|j: int| 0 <= j < l ==> !(#[trigger] layers[j]).contains(c)
                }
            }
        },
    }
}

/// At most one layer answers for a point: the cell a layered grid shows there
/// is well defined.
pub proof fn lemma_top_layer_unique<T: GridCell>(layers: Seq<PGrid<T>>, c: V2I, r1: Option<usize>, r2: Option<usize>)
    requires
        top_layer(layers, c, r1),
        top_layer(layers, c, r2),
    ensures
        r1 == r2,
{
    match (r1, r2) {
        (Some(a), None) => {
            assert(layers[a as int].contains(c));
        },
        (None, Some(b)) => {
            assert(layers[b as int].contains(c));
        },
        (Some(a), Some(b)) => {
            if a < b {
                assert(layers[a as int].contains(c));
                assert(layers[b as int].contains(c));
            } else if b < a {
                assert(layers[a as int].contains(c));
                assert(layers[b as int].contains(c));
            }
        },
        (None, None) => {},
    }
}

/// Merging a stack `gmap` moved by `pos` onto `before` (as `NGrid::merge`
/// does) puts its layers on top and leaves the rest as it was: the stack grows
/// by the merged layers, the bottom layer (and so the width and height) stays,
/// and at a point that no merged layer covers, the same layer answers, so the
/// same cell shows.
pub proof fn lemma_merge_keeps_uncovered<T: GridCell>(
    before: NGrid<T>,
    gmap: NGrid<T>,
    pos: V2I,
    after: NGrid<T>,
    c: V2I,
    r: Option<usize>,
)
    requires
        after.layers() == before.layers() + gmap.layers().map_values(|l: PGrid<T>| shifted(l, pos)),
        forall|j: int| 0 <= j < gmap.layers().len() ==> !(#[trigger] shifted(gmap.layers()[j], pos)).contains(c),
    ensures
        after.layers().len() == before.layers().len() + gmap.layers().len(),
        before.layers().len() > 0 ==> after.layers()[0] == before.layers()[0],
        top_layer(after.layers(), c, r) == top_layer(before.layers(), c, r),
{
    let a = after.layers();
    let b = before.layers();
    let n = b.len();
    assert forall|j: int| 0 <= j < n implies #[trigger] a[j] == b[j] by {}
    assert forall|j: int| n <= j < a.len() implies !(#[trigger] a[j]).contains(c) by {
        assert(a[j] == shifted(gmap.layers()[j - n], pos));
    }
    match r {
        None => {
            if top_layer(b, c, r) {
                assert forall|j: int| 0 <= j < a.len() implies !(#[trigger] a[j]).contains(c) by {
                    if j < n {
                        assert(!b[j].contains(c));
                    }
                }
            }
            if top_layer(a, c, r) {
                assert forall|j: int| 0 <= j < b.len() implies !(#[trigger] b[j]).contains(c) by {
                    assert(!a[j].contains(c));
                }
            }
        },
        Some(l) => {
            if l as int >= n && l < a.len() {
                assert(!a[l as int].contains(c));
            }
            if l < n {
                assert(a[l as int] == b[l as int]);
                if top_layer(b, c, r) {
                    assert forall|j: int| l < j < a.len() && (#[trigger] a[j]).contains(c) implies a[j].cell_at(c).empty_cell() by {
                        if j < n {
                            assert(b[j].contains(c));
                        }
                    }
                    assert forall|j: int| 0 <= j < a.len() && (#[trigger] a[j]).contains(c) implies a[j].cell_at(c).empty_cell()
                        || !(forall|k: int| 0 <= k < b.len() && (#[trigger] b[k]).contains(c) ==> b[k].cell_at(c).empty_cell()) by {
                        if j < n {
                            assert(b[j].contains(c));
                        }
                    }
                    assert forall|j: int| 0 <= j < l implies !(#[trigger] a[j]).contains(c) || !(forall|k: int| 0 <= k < l ==> !(#[trigger] b[k]).contains(c)) by {
                        if forall|k: int| 0 <= k < l ==> !(#[trigger] b[k]).contains(c) {
                            assert(!b[j].contains(c));
                        }
                    }
                }
                if top_layer(a, c, r) {
                    assert forall|j: int| l < j < b.len() && (#[trigger] b[j]).contains(c) implies b[j].cell_at(c).empty_cell() || !(forall|k: int| l < k < a.len() && (#[trigger] a[k]).contains(c) ==> a[k].cell_at(c).empty_cell()) by {
                        assert(a[j] == b[j]);
                    }
                    assert forall|j: int| 0 <= j < b.len() && (#[trigger] b[j]).contains(c) implies b[j].cell_at(c).empty_cell() || !(forall|k: int| 0 <= k < a.len() && (#[trigger] a[k]).contains(c) ==> a[k].cell_at(c).empty_cell()) by {
                        assert(a[j] == b[j]);
                    }
                    assert forall|j: int| 0 <= j < l implies !(#[trigger] b[j]).contains(c) || !(forall|k: int| 0 <= k < l ==> !(#[trigger] a[k]).contains(c)) by {
                        assert(a[j] == b[j]);
                    }
                }
            }
        },
    }
}

/// A layer moved by `d`.
pub open spec fn shifted<T>(l: PGrid<T>, d: V2I) -> PGrid<T> {
    PGrid { pos: v_add(l.pos, d), grid: l.grid }
}

/// A stack of placed grids; later layers lie on top of earlier ones.
#[derive(Clone, Debug)]
pub struct NGrid<T: GridCell> {
    grids: Vec<PGrid<T>>,
}

impl<T: GridCell> NGrid<T> {
    /// The layers, bottom first.
    pub closed spec fn layers(&self) -> Seq<PGrid<T>> {
        self.grids@
    }

    /// Every layer is a well formed grid.
    pub open spec fn wf(&self) -> bool {
        forall|i: int| 0 <= i < self.layers().len() ==> (#[trigger] self.layers()[i]).wf()
    }

    /// An empty stack.
    pub fn new() -> (r: Self)
        ensures
            r.layers() == Seq::<PGrid<T>>::empty(),
    {
        NGrid { grids: Vec::new() }
    }

    /// The layer that answers for `coord` (see `top_layer`).
    pub fn get_layer(&self, coord: &Coord) -> (r: Option<usize>)
        requires
            self.wf(),
        ensures
            top_layer(self.layers(), *coord, r),
    {
        let mut found: Option<usize> = None;
        let mut i: usize = self.grids.len();
        while i > 0
            invariant_except_break
                self.wf(),
                i <= self.layers().len(),
                forall|j: int|
                    i <= j < self.layers().len() && (#[trigger] self.layers()[j]).contains(*coord)
                        ==> self.layers()[j].cell_at(*coord).empty_cell(),
                found.is_none() ==> forall|j: int|
                    i <= j < self.layers().len() ==> !(#[trigger] self.layers()[j]).contains(*coord),
                found matches Some(l) ==> i <= l < self.layers().len()
                    && self.layers()[l as int].contains(*coord)
                    && forall|j: int| i <= j < l ==> !(#[trigger] self.layers()[j]).contains(*coord),
            ensures
                top_layer(self.layers(), *coord, found),
            decreases i,
        {
            i = i - 1;
            match self.grids[i].get_at_opt(coord) {
                Some(tile) => {
                    if !tile.is_empty() {
                        found = Some(i);
                        break;
                    }
                    found = Some(i);
                },
                None => {},
            }
        }
        found
    }

    /// A stack holding `grid` alone, placed at the origin.
    pub fn from_grid(grid: Grid<T>) -> (r: Self)
        ensures
            r.layers() == seq![PGrid { pos: V2I { x: 0, y: 0 }, grid: grid }],
    {
        let origin = crate::v2i::zero();
        let r = NGrid { grids: vec![PGrid::from_grid(&origin, grid)] };
        assert(r.layers() =~= seq![PGrid { pos: V2I { x: 0, y: 0 }, grid: grid }]);
        r
    }

    /// The width and height of the bottom layer.
    pub fn get_size(&self) -> (r: V2I)
        requires
            self.layers().len() > 0,
        ensures
            r.x == self.layers()[0].grid.width,
            r.y == self.layers()[0].grid.height,
    {
        V2I::new(self.grids[0].get_width(), self.grids[0].get_height())
    }

    /// The width of the bottom layer.
    pub fn get_width(&self) -> (r: i32)
        requires
            self.layers().len() > 0,
        ensures
            r == self.layers()[0].grid.width,
    {
        self.grids[0].get_width()
    }

    /// The height of the bottom layer.
    pub fn get_height(&self) -> (r: i32)
        requires
            self.layers().len() > 0,
        ensures
            r == self.layers()[0].grid.height,
    {
        self.grids[0].get_height()
    }

    /// True when the bottom layer covers `coords`.
    pub fn is_valid(&self, coords: &Coord) -> (r: bool)
        requires
            self.layers().len() > 0,
        ensures
            r == self.layers()[0].contains(*coords),
    {
        self.grids[0].is_valid_coords(coords)
    }

    /// The cell that shows at `coord`: that of the layer `get_layer` picks.
    pub fn get_at(&self, coord: &Coord) -> (r: Option<&T>)
        requires
            self.wf(),
        ensures
            exists|l: Option<usize>|
                top_layer(self.layers(), *coord, l) && match l {
                    Some(l) => r == Some(&self.layers()[l as int].cell_at(*coord)),
                    None => r.is_none(),
                },
    {
        let layer_id = self.get_layer(coord);
        match layer_id {
            Some(index) => {
                let r = self.grids[index].get_at_opt(coord);
                assert(top_layer(self.layers(), *coord, layer_id));
                r
            },
            None => {
                assert(top_layer(self.layers(), *coord, layer_id));
                None
            },
        }
    }

    /// Puts the layers of `surf` on top, each moved by `coord`.
    pub fn push_surface_at(&mut self, coord: &V2I, surf: NGrid<T>)
        requires
            forall|i: int| 0 <= i < surf.layers().len() ==> can_add(#[trigger] surf.layers()[i].pos, *coord),
        ensures
            final(self).layers() == old(self).layers() + surf.layers().map_values(
                |l: PGrid<T>| shifted(l, *coord),
            ),
    {
        self.append_shifted(surf, coord);
    }

    /// The number of layers.
    pub fn len(&self) -> (r: usize)
        ensures
            r == self.layers().len(),
    {
        self.grids.len()
    }

    /// Replaces every cell of every layer by what `f` makes of it.
    pub fn update_all<F: Fn(&T) -> T>(&mut self, f: F)
        requires
            forall|t: &T| call_requires(f, (t,)),
        ensures
            final(self).layers().len() == old(self).layers().len(),
            forall|j: int|
                0 <= j < old(self).layers().len() ==> {
                    let before = old(self).layers()[j];
                    let after = #[trigger] final(self).layers()[j];
                    &&& after.pos == before.pos
                    &&& after.grid.width == before.grid.width
                    &&& after.grid.height == before.grid.height
                    &&& after.grid.list@.len() == before.grid.list@.len()
                    &&& forall|k: int|
                        0 <= k < before.grid.list@.len() ==> call_ensures(
                            f,
                            (&before.grid.list@[k],),
                            #[trigger] after.grid.list@[k],
                        )
                },
    {
        let ghost orig = self.grids@;
        let mut grids: Vec<PGrid<T>> = Vec::new();
        std::mem::swap(&mut grids, &mut self.grids);
        let n = grids.len();
        let mut out: Vec<PGrid<T>> = Vec::new();
        let mut k: usize = 0;
        while k < n
            invariant
                n == orig.len(),
                k <= n,
                grids@ == orig.skip(k as int),
                out@.len() == k,
                forall|t: &T| call_requires(f, (t,)),
                forall|j: int|
                    0 <= j < k ==> {
                        let before = orig[j];
                        let after = #[trigger] out@[j];
                        &&& after.pos == before.pos
                        &&& after.grid.width == before.grid.width
                        &&& after.grid.height == before.grid.height
                        &&& after.grid.list@.len() == before.grid.list@.len()
                        &&& forall|q: int|
                            0 <= q < before.grid.list@.len() ==> call_ensures(
                                f,
                                (&before.grid.list@[q],),
                                #[trigger] after.grid.list@[q],
                            )
                    },
            decreases n - k,
        {
            let mut g = grids.remove(0);
            assert(g == orig[k as int]);
            assert(orig.skip(k + 1) =~= orig.skip(k as int).drop_first());
            let ghost before = g;
            let m = g.grid.list.len();
            let mut i: usize = 0;
            while i < m
                invariant
                    m == before.grid.list@.len(),
                    i <= m,
                    g.pos == before.pos,
                    g.grid.width == before.grid.width,
                    g.grid.height == before.grid.height,
                    g.grid.list@.len() == m,
                    g.grid.written == before.grid.written,
                    forall|t: &T| call_requires(f, (t,)),
                    forall|q: int| i <= q < m ==> #[trigger] g.grid.list@[q] == before.grid.list@[q],
                    forall|q: int|
                        0 <= q < i ==> call_ensures(f, (&before.grid.list@[q],), #[trigger] g.grid.list@[q]),
                decreases m - i,
            {
                let v = f(&g.grid.list[i]);
                g.grid.list.set(i, v);
                i = i + 1;
            }
            out.push(g);
            k = k + 1;
        }
        self.grids = out;
    }

    /// Where the layer at `index` is placed.
    pub fn get_layer_pos(&self, index: usize) -> (r: V2I)
        requires
            index < self.layers().len(),
        ensures
            r == self.layers()[index as int].pos,
    {
        self.grids[index].pos
    }

    /// Replaces the cell that shows at `coord` (that of the layer `get_layer`
    /// picks) by what `f` makes of it, and returns what else `f` gives; `None`,
    /// and nothing changed, where no layer covers `coord`.
    pub fn update_at<R, F: Fn(T) -> (T, R)>(&mut self, coord: &Coord, f: F) -> (r: Option<R>)
        requires
            old(self).wf(),
            forall|t: T| call_requires(f, (t,)),
        ensures
            final(self).wf(),
            final(self).layers().len() == old(self).layers().len(),
            exists|l: Option<usize>|
                #[trigger] top_layer(old(self).layers(), *coord, l) && match l {
                    None => r is None && final(self).layers() == old(self).layers(),
                    Some(l) => {
                        let before = old(self).layers()[l as int];
                        let after = final(self).layers()[l as int];
                        let i = index_of(before.grid.width as int, local_of(before.pos, *coord));
                        &&& forall|j: int|
                            0 <= j < old(self).layers().len() && j != l ==> #[trigger] final(self).layers()[j]
                                == old(self).layers()[j]
                        &&& after.pos == before.pos
                        &&& after.grid.width == before.grid.width
                        &&& after.grid.height == before.grid.height
                        &&& after.grid.list@.len() == before.grid.list@.len()
                        &&& forall|k: int|
                            0 <= k < before.grid.list@.len() && k != i ==> #[trigger] after.grid.list@[k]
                                == before.grid.list@[k]
                        &&& r matches Some(x) && call_ensures(f, (before.cell_at(*coord),), (after.grid.list@[i], x))
                    },
                },
    {
        let layer = self.get_layer(coord);
        match layer {
            Some(l) => {
                let ghost before = self.layers()[l as int];
                let mut g = self.grids.remove(l);
                let local = g.to_local(coord);
                proof {
                    lemma_index_in_bounds(g.grid.width as int, g.grid.height as int, local);
                }
                let idx = coords_to_index(g.grid.width, &local);
                let cell = g.grid.list.remove(idx as usize);
                let (new_cell, x) = f(cell);
                g.grid.list.insert(idx as usize, new_cell);
                self.grids.insert(l, g);
                proof {
                    let after = self.layers()[l as int];
                    assert(after.grid.list@ == before.grid.list@.update(idx as int, new_cell));
                    assert forall|j: int| 0 <= j < old(self).layers().len() && j != l implies #[trigger] self.layers()[j]
                        == old(self).layers()[j] by {
                        if j < l {
                            assert(self.layers()[j] == old(self).layers()[j]);
                        } else {
                            assert(self.layers()[j] == old(self).layers()[j]);
                        }
                    }
                    assert forall|j: int| 0 <= j < self.layers().len() implies (#[trigger] self.layers()[j]).wf() by {
                        if j != l {
                            assert(old(self).layers()[j].wf());
                        }
                    }
                    assert(top_layer(old(self).layers(), *coord, layer));
                }
                Some(x)
            },
            None => {
                assert(top_layer(old(self).layers(), *coord, layer));
                None
            },
        }
    }

    /// Takes out the layer at `index` and returns it as a stack of its own, its
    /// grid placed at the origin.
    pub fn remove(&mut self, index: usize, _default: T) -> (r: NGrid<T>)
        requires
            index < old(self).layers().len(),
        ensures
            final(self).layers() == old(self).layers().remove(index as int),
            r.layers() == seq![PGrid { pos: V2I { x: 0, y: 0 }, grid: old(self).layers()[index as int].grid }],
    {
        let grid = self.grids.remove(index);
        NGrid::from_grid(grid.into())
    }

    /// Puts the layers of `gmap` on top, each moved by `pos`.
    pub fn merge(&mut self, gmap: NGrid<T>, pos: &Coord)
        requires
            forall|i: int| 0 <= i < gmap.layers().len() ==> can_add(#[trigger] gmap.layers()[i].pos, *pos),
        ensures
            final(self).layers() == old(self).layers() + gmap.layers().map_values(
                |l: PGrid<T>| shifted(l, *pos),
            ),
    {
        self.append_shifted(gmap, pos);
    }

    fn append_shifted(&mut self, other: NGrid<T>, d: &V2I)
        requires
            forall|i: int| 0 <= i < other.layers().len() ==> can_add(#[trigger] other.layers()[i].pos, *d),
        ensures
            final(self).layers() == old(self).layers() + other.layers().map_values(
                |l: PGrid<T>| shifted(l, *d),
            ),
    {
        let ghost orig = other.grids@;
        let ghost start = self.grids@;
        assert(orig == other.layers());
        assert forall|i: int| 0 <= i < orig.len() implies can_add(#[trigger] orig[i].pos, *d) by {
            assert(other.layers()[i] == orig[i]);
        }
        let mut src = other.grids;
        let n = src.len();
        let mut k: usize = 0;
        while k < n
            invariant
                n == orig.len(),
                k <= n,
                src@ == orig.skip(k as int),
                self.grids@ == start + orig.take(k as int).map_values(|l: PGrid<T>| shifted(l, *d)),
                forall|i: int| 0 <= i < orig.len() ==> can_add(#[trigger] orig[i].pos, *d),
            decreases n - k,
        {
            let mut g = src.remove(0);
            assert(g == orig[k as int]);
            let p = g.pos.translate(d.x, d.y);
            g.pos = p;
            self.grids.push(g);
            assert(orig.take(k + 1) =~= orig.take(k as int).push(orig[k as int]));
            assert(orig.skip(k + 1) =~= orig.skip(k as int).drop_first());
            assert(self.grids@ =~= start + orig.take(k + 1).map_values(|l: PGrid<T>| shifted(l, *d)));
            k = k + 1;
        }
        assert(orig.take(n as int) =~= orig);
    }
}
} // verus!
