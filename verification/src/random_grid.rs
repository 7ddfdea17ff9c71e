//! Levels of rooms laid out on a grid and joined by portals. The portals are
//! drawn at random, then more are added until every room can be reached from
//! the first one.

use crate::rng::{draw_below, draw_ratio};
use crate::text::push_char;
use rand::rngs::StdRng;
use std::collections::HashSet;
use crate::seqs::lemma_filter_push;
use vstd::prelude::*;
use vstd::string::StringExecFns;
use vstd::std_specs::iter::IteratorSpec;

verus! {

broadcast use vstd::std_specs::hash::group_hash_axioms;

/// How a random dungeon is made.
pub struct RandomGridCfg {
    pub width: usize,
    pub height: usize,
    /// Each portal to the north or west of a room is drawn with chance
    /// `portal_num / portal_den`.
    pub portal_num: u32,
    pub portal_den: u32,
    pub deep_levels: u32,
}

/// A dungeon: its levels, from the top down.
pub struct RandomGrid {
    pub levels: Vec<LevelGrid>,
}

/// One level: `width * height` rooms, numbered row by row, and the portals
/// between them, each an ordered pair of rooms.
#[derive(Debug)]
pub struct LevelGrid {
    width: usize,
    height: usize,
    portals: HashSet<u128>,
    up_portal: Option<usize>,
    down_portal: Option<usize>,
}

/// What a level is: its size, its portals, and the rooms that lead up and down.
pub struct LevelGridView {
    pub width: int,
    pub height: int,
    pub portals: Set<(int, int)>,
    pub up: Option<usize>,
    pub down: Option<usize>,
}

/// The base of the two-digit code of a pair of rooms.
pub open spec fn key_base() -> int {
    0x1_0000_0000_0000_0000
}

/// The code under which the portal `(a, b)` is stored.
pub open spec fn portal_key(a: int, b: int) -> int {
    a * key_base() + b
}

/// The number of rooms of a level.
pub open spec fn room_count(w: int, h: int) -> int {
    w * h
}

/// The room at column `x` of row `y`.
pub open spec fn room_at(w: int, x: int, y: int) -> int {
    y * w + x
}

/// The column and row that a level gives to room `i`: the column is `i % w`
/// and the row is `i / h`, which is the room's row when the level is square.
pub open spec fn room_coords(w: int, h: int, i: int) -> (int, int) {
    (i % w, i / h)
}

/// The rooms next to room `i`, in the order west, east, north, south.
pub open spec fn room_neighbors(w: int, h: int, i: int) -> Seq<int> {
    let (x, y) = room_coords(w, h, i);
    (if x > 0 { seq![i - 1] } else { Seq::empty() })
        + (if x < w - 1 { seq![i + 1] } else { Seq::empty() })
        + (if y > 0 { seq![i - w] } else { Seq::empty() })
        + (if y < h - 1 { seq![i + w] } else { Seq::empty() })
}

/// Room `o` is one of the rooms next to room `i`.
pub open spec fn is_room_neighbor(w: int, h: int, i: int, o: int) -> bool {
    let (x, y) = room_coords(w, h, i);
    ||| (x > 0 && o == i - 1)
    ||| (x < w - 1 && o == i + 1)
    ||| (y > 0 && o == i - w)
    ||| (y < h - 1 && o == i + w)
}

/// A portal joins `a` and `b`, in either direction.
pub open spec fn linked(p: Set<(int, int)>, a: int, b: int) -> bool {
    p.contains((a, b)) || p.contains((b, a))
}

/// Steps `i` and `i + 1` of `s` are joined by a portal.
pub open spec fn step_linked(p: Set<(int, int)>, s: Seq<int>, i: int) -> bool {
    linked(p, s[i], s[i + 1])
}

/// `s` is a walk through portals.
pub open spec fn is_walk(p: Set<(int, int)>, s: Seq<int>) -> bool {
    &&& s.len() > 0
    &&& forall|i: int| 0 <= i < s.len() - 1 ==> #[trigger] step_linked(p, s, i)
}

/// Room `b` can be reached from room `a` through the portals `p`.
pub open spec fn reachable(p: Set<(int, int)>, a: int, b: int) -> bool {
    exists|s: Seq<int>| is_walk(p, s) && s[0] == a && s.last() == b
}

/// Every room of a `w` by `h` level can be reached from the first room.
pub open spec fn all_reachable(p: Set<(int, int)>, w: int, h: int) -> bool {
    forall|r: int| 0 <= r < room_count(w, h) ==> #[trigger] reachable(p, 0, r)
}

/// Every portal joins two rooms of a `w` by `h` level that are next to each other.
pub open spec fn portals_between_neighbors(p: Set<(int, int)>, w: int, h: int) -> bool {
    forall|q: (int, int)|
        #[trigger] p.contains(q) ==> 0 <= q.0 < room_count(w, h) && 0 <= q.1 < room_count(w, h)
            && is_room_neighbor(w, h, q.0, q.1)
}

pub proof fn lemma_reachable_self(p: Set<(int, int)>, a: int)
    ensures
        reachable(p, a, a),
{
    let s = seq![a];
    assert(is_walk(p, s));
    assert(s.last() == a);
}

pub proof fn lemma_reachable_step(p: Set<(int, int)>, a: int, b: int, c: int)
    requires
        reachable(p, a, b),
        linked(p, b, c),
    ensures
        reachable(p, a, c),
{
    let s = choose|s: Seq<int>| is_walk(p, s) && s[0] == a && s.last() == b;
    let t = s.push(c);
    assert forall|i: int| 0 <= i < t.len() - 1 implies #[trigger] step_linked(p, t, i) by {
        if i < s.len() - 1 {
            assert(step_linked(p, s, i));
        }
    }
    assert(is_walk(p, t));
    assert(t.last() == c);
}

pub proof fn lemma_reachable_grows(p: Set<(int, int)>, q: Set<(int, int)>, a: int, b: int)
    requires
        p.subset_of(q),
        reachable(p, a, b),
    ensures
        reachable(q, a, b),
{
    let s = choose|s: Seq<int>| is_walk(p, s) && s[0] == a && s.last() == b;
    assert forall|i: int| 0 <= i < s.len() - 1 implies #[trigger] step_linked(q, s, i) by {
        assert(step_linked(p, s, i));
    }
    assert(is_walk(q, s));
}

/// Room `i` of a square level of side `n` sits at column `i % n` of row
/// `i / n`, and its neighbours are rooms of the level.
pub proof fn lemma_square_room(n: int, i: int)
    requires
        n > 0,
        0 <= i < n * n,
    ensures
        0 <= i % n < n,
        0 <= i / n < n,
        i == room_at(n, i % n, i / n),
        i / n > 0 ==> i >= n,
        i / n < n - 1 ==> i + n < n * n,
        forall|o: int| #[trigger] is_room_neighbor(n, n, i, o) ==> 0 <= o < n * n,
{
    let x = i % n;
    let y = i / n;
    vstd::arithmetic::div_mod::lemma_fundamental_div_mod(i, n);
    assert(i == y * n + x) by (nonlinear_arith)
        requires
            i == n * (i / n) + (i % n),
            x == i % n,
            y == i / n,
    ;
    assert(0 <= x < n) by (nonlinear_arith)
        requires
            n > 0,
            x == i % n,
    ;
    assert(0 <= y < n) by (nonlinear_arith)
        requires
            n > 0,
            0 <= x < n,
            i == y * n + x,
            0 <= i < n * n,
    ;
    assert(y > 0 ==> i >= n) by (nonlinear_arith)
        requires
            i == y * n + x,
            0 <= x,
            n > 0,
    ;
    assert(y < n - 1 ==> i + n < n * n) by (nonlinear_arith)
        requires
            i == y * n + x,
            0 <= x < n,
            0 <= y,
            n > 0,
    ;
    assert(x < n - 1 ==> i + 1 < n * n) by (nonlinear_arith)
        requires
            i == y * n + x,
            0 <= x,
            0 <= y < n,
            n > 0,
    ;
    assert(i >= x) by (nonlinear_arith)
        requires
            i == y * n + x,
            0 <= y,
            n > 0,
    ;
}

/// The room at column `x` of row `y` of a square level has those coordinates.
pub proof fn lemma_room_at(n: int, x: int, y: int)
    requires
        0 <= x < n,
        0 <= y < n,
    ensures
        0 <= room_at(n, x, y) < n * n,
        room_coords(n, n, room_at(n, x, y)) == (x, y),
{
    assert(0 <= y * n + x < n * n) by (nonlinear_arith)
        requires
            0 <= x < n,
            0 <= y < n,
    ;
    vstd::arithmetic::div_mod::lemma_fundamental_div_mod_converse(y * n + x, n, y, x);
}

/// The list of neighbours holds exactly the rooms next to `i`.
pub proof fn lemma_neighbors_list(w: int, h: int, i: int, o: int)
    ensures
        room_neighbors(w, h, i).contains(o) <==> is_room_neighbor(w, h, i, o),
{
    let (x, y) = room_coords(w, h, i);
    let a: Seq<int> = if x > 0 { seq![i - 1] } else { Seq::empty() };
    let b: Seq<int> = if x < w - 1 { seq![i + 1] } else { Seq::empty() };
    let c: Seq<int> = if y > 0 { seq![i - w] } else { Seq::empty() };
    let d: Seq<int> = if y < h - 1 { seq![i + w] } else { Seq::empty() };
    let s = a + b + c + d;
    assert(room_neighbors(w, h, i) == s);
    if is_room_neighbor(w, h, i, o) {
        if x > 0 && o == i - 1 {
            assert(s[0] == o);
        } else if x < w - 1 && o == i + 1 {
            assert(s[a.len() as int] == o);
        } else if y > 0 && o == i - w {
            assert(s[(a.len() + b.len()) as int] == o);
        } else {
            assert(s[(a.len() + b.len() + c.len()) as int] == o);
        }
    }
    if s.contains(o) {
        let k = choose|k: int| 0 <= k < s.len() && s[k] == o;
        if k < a.len() {
            assert(s[k] == a[k]);
        } else if k < a.len() + b.len() {
            assert(s[k] == b[k - a.len()]);
        } else if k < a.len() + b.len() + c.len() {
            assert(s[k] == c[k - a.len() - b.len()]);
        } else {
            assert(s[k] == d[k - a.len() - b.len() - c.len()]);
        }
    }
}

/// The room at column `x` of row `y` of a `w` by `h` level is a room of it.
pub proof fn lemma_room_in(w: int, h: int, x: int, y: int)
    requires
        0 <= x < w,
        0 <= y < h,
    ensures
        0 <= room_at(w, x, y) < w * h,
{
    assert(0 <= y * w + x < w * h) by (nonlinear_arith)
        requires
            0 <= x < w,
            0 <= y < h,
    ;
}

/// Rooms seen so far: room numbers held in a set of `usize`.
pub open spec fn seen(vis: Set<usize>, i: int) -> bool {
    vis.contains(i as usize)
}

/// Every room next to a room of `vis` is in `vis`.
pub open spec fn closed_under_neighbors(vis: Set<usize>, n: int) -> bool {
    forall|j: int, o: int|
        0 <= j < n * n && #[trigger] is_room_neighbor(n, n, j, o) && seen(vis, o) ==> seen(vis, j)
}

proof fn lemma_closed_west(vis: Set<usize>, n: int, x: int, y: int)
    requires
        closed_under_neighbors(vis, n),
        0 <= x < n,
        0 <= y < n,
        seen(vis, room_at(n, x, y)),
    ensures
        seen(vis, room_at(n, 0, y)),
    decreases x,
{
    if x > 0 {
        lemma_room_at(n, x - 1, y);
        assert(is_room_neighbor(n, n, room_at(n, x - 1, y), room_at(n, x, y)));
        lemma_closed_west(vis, n, x - 1, y);
    }
}

proof fn lemma_closed_east(vis: Set<usize>, n: int, x: int, y: int)
    requires
        closed_under_neighbors(vis, n),
        0 <= x < n,
        0 <= y < n,
        seen(vis, room_at(n, 0, y)),
    ensures
        seen(vis, room_at(n, x, y)),
    decreases x,
{
    if x > 0 {
        lemma_closed_east(vis, n, x - 1, y);
        lemma_room_at(n, x, y);
        assert(is_room_neighbor(n, n, room_at(n, x, y), room_at(n, x - 1, y)));
    }
}

proof fn lemma_closed_north(vis: Set<usize>, n: int, y: int)
    requires
        closed_under_neighbors(vis, n),
        0 <= y < n,
        seen(vis, room_at(n, 0, y)),
    ensures
        seen(vis, room_at(n, 0, 0)),
    decreases y,
{
    if y > 0 {
        lemma_room_at(n, 0, y - 1);
        assert(room_at(n, 0, y) == room_at(n, 0, y - 1) + n) by (nonlinear_arith);
        assert(is_room_neighbor(n, n, room_at(n, 0, y - 1), room_at(n, 0, y)));
        lemma_closed_north(vis, n, y - 1);
    }
}

proof fn lemma_closed_south(vis: Set<usize>, n: int, y: int)
    requires
        closed_under_neighbors(vis, n),
        0 <= y < n,
        seen(vis, room_at(n, 0, 0)),
    ensures
        seen(vis, room_at(n, 0, y)),
    decreases y,
{
    if y > 0 {
        lemma_closed_south(vis, n, y - 1);
        lemma_room_at(n, 0, y);
        assert(room_at(n, 0, y) == room_at(n, 0, y - 1) + n) by (nonlinear_arith);
        assert(is_room_neighbor(n, n, room_at(n, 0, y), room_at(n, 0, y - 1)));
    }
}

/// A set of rooms of a square level that holds one room and every neighbour of
/// its rooms holds every room: the rooms of a grid are all joined through
/// their neighbours.
pub proof fn lemma_closed_is_all(vis: Set<usize>, n: int, v: int)
    requires
        n > 0,
        closed_under_neighbors(vis, n),
        0 <= v < n * n,
        seen(vis, v),
    ensures
        forall|j: int| 0 <= j < n * n ==> #[trigger] seen(vis, j),
{
    lemma_square_room(n, v);
    lemma_closed_west(vis, n, v % n, v / n);
    lemma_closed_north(vis, n, v / n);
    assert forall|j: int| 0 <= j < n * n implies #[trigger] seen(vis, j) by {
        lemma_square_room(n, j);
        lemma_closed_south(vis, n, j / n);
        lemma_closed_east(vis, n, j % n, j / n);
    }
}

/// On a square level, being next to each other goes both ways.
proof fn lemma_room_neighbor_symmetric(n: int, i: int, o: int)
    requires
        n > 0,
        0 <= i < n * n,
        is_room_neighbor(n, n, i, o),
    ensures
        is_room_neighbor(n, n, o, i),
{
    lemma_square_room(n, i);
    let x = i % n;
    let y = i / n;
    if x > 0 && o == i - 1 {
        lemma_room_at(n, x - 1, y);
    } else if x < n - 1 && o == i + 1 {
        lemma_room_at(n, x + 1, y);
    } else if y > 0 && o == i - n {
        lemma_room_at(n, x, y - 1);
        assert(room_at(n, x, y - 1) == i - n) by (nonlinear_arith)
            requires
                i == room_at(n, x, y),
        ;
    } else {
        lemma_room_at(n, x, y + 1);
        assert(room_at(n, x, y + 1) == i + n) by (nonlinear_arith)
            requires
                i == room_at(n, x, y),
        ;
    }
}

/// Every portal from a room of `vis` leads to a room of `vis` or to one
/// waiting in `queue`.
pub open spec fn links_followed(p: Set<(int, int)>, vis: Set<usize>, queue: Seq<usize>) -> bool {
    forall|v: int, o: int|
        0 <= v && seen(vis, v) && #[trigger] linked(p, v, o) ==> 0 <= o && (seen(vis, o) || queue.contains(
            o as usize,
        ))
}

/// When the rooms of `vis` lead through portals only to rooms of `vis`, a walk
/// that starts in `vis` stays in it.
proof fn lemma_walk_stays(p: Set<(int, int)>, vis: Set<usize>, s: Seq<int>, i: int)
    requires
        is_walk(p, s),
        0 <= s[0],
        seen(vis, s[0]),
        links_followed(p, vis, Seq::<usize>::empty()),
        0 <= i < s.len(),
    ensures
        0 <= s[i],
        seen(vis, s[i]),
    decreases i,
{
    if i > 0 {
        lemma_walk_stays(p, vis, s, i - 1);
        assert(step_linked(p, s, i - 1));
        assert(linked(p, s[i - 1], s[i]));
    }
}

/// While some room of a `n` by `n` level is left out of `vis`, although `vis`
/// holds the first room and every portal from it leads back into it, the
/// portals `start` (some of `p`) do not reach every room.
proof fn lemma_unreached_room(
    start: Set<(int, int)>,
    p: Set<(int, int)>,
    vis: Set<usize>,
    range: Set<usize>,
    n: int,
    total: int,
)
    requires
        n > 0,
        total == n * n,
        start.subset_of(p),
        links_followed(p, vis, Seq::<usize>::empty()),
        vis.contains(0usize),
        range.finite(),
        range.len() == total,
        forall|i: usize| #[trigger] range.contains(i) <==> i < total,
        vis.subset_of(range),
        vis.len() < total,
    ensures
        !all_reachable(start, n, n),
{
    if all_reachable(start, n, n) {
        assert forall|i: usize| range.contains(i) implies vis.contains(i) by {
            assert(reachable(start, 0, i as int));
            lemma_reachable_grows(start, p, 0, i as int);
            let s = choose|s: Seq<int>| is_walk(p, s) && s[0] == 0 && s.last() == i as int;
            lemma_walk_stays(p, vis, s, s.len() - 1);
        }
        assert(vis =~= range);
    }
}

/// With portals that all join rooms next to each other, a room linked to a
/// room of a square level is a room of the level next to it.
proof fn lemma_linked_neighbor(start: Set<(int, int)>, p: Set<(int, int)>, n: int, v: int, o: int)
    requires
        n > 0,
        portals_between_neighbors(start, n, n),
        forall|q: (int, int)|
            #[trigger] p.contains(q) && !start.contains(q) ==> 0 <= q.0 < n * n && 0 <= q.1 < n * n
                && is_room_neighbor(n, n, q.0, q.1),
        linked(p, v, o),
    ensures
        0 <= v < n * n,
        0 <= o < n * n,
        is_room_neighbor(n, n, v, o),
{
    if p.contains((v, o)) {
        if start.contains((v, o)) {
        }
    } else {
        if start.contains((o, v)) {
        }
        lemma_room_neighbor_symmetric(n, o, v);
    }
}

/// The portals listed in `s`, as pairs of room numbers.
pub open spec fn portal_pairs(s: Seq<(usize, usize)>) -> Set<(int, int)> {
    Set::new(|q: (int, int)| exists|j: int| 0 <= j < s.len() && q == (#[trigger] s[j].0 as int, s[j].1 as int))
}

/// The portal from the room at column `x` of row `y` of a square level of
/// side `n` to the room north of it.
pub open spec fn north_portal(n: int, x: int, y: int) -> (int, int) {
    (room_at(n, x, y), room_at(n, x, y - 1))
}

/// The portal from the room at column `x` of row `y` of a square level of
/// side `n` to the room west of it.
pub open spec fn west_portal(n: int, x: int, y: int) -> (int, int) {
    (room_at(n, x, y), room_at(n, x - 1, y))
}

/// `q` is the portal north of the room at column `x` of row `y` (not on the
/// first row), or the one west of it (not on the first column).
pub open spec fn is_drawn_portal(n: int, x: int, y: int, q: (int, int)) -> bool {
    ||| (y > 0 && q == north_portal(n, x, y))
    ||| (x > 0 && q == west_portal(n, x, y))
}

/// `q` leads from a room of a square level of side `n` to the room north or
/// west of it.
pub open spec fn north_west_portal(n: int, q: (int, int)) -> bool {
    exists|x: int, y: int| 0 <= x < n && 0 <= y < n && #[trigger] is_drawn_portal(n, x, y, q)
}

/// The portals `start` together with those listed in `adds`.
pub open spec fn with_portals(start: Set<(int, int)>, adds: Seq<(int, int)>) -> Set<(int, int)> {
    start.union(adds.to_set())
}

/// Through the portals `p` of a square level of side `n`, room `a` is the
/// first room, in order, that cannot be reached from the first room but is next
/// to one that can, and `b` is its first neighbour (west, east, north, south)
/// that can be reached.
pub open spec fn first_frontier(p: Set<(int, int)>, n: int, a: int, b: int) -> bool {
    &&& 0 <= a < n * n
    &&& !reachable(p, 0, a)
    &&& reachable(p, 0, b)
    &&& exists|t: int|
        0 <= t < room_neighbors(n, n, a).len() && room_neighbors(n, n, a)[t] == b && forall|u: int|
            0 <= u < t ==> !reachable(p, 0, #[trigger] room_neighbors(n, n, a)[u])
    &&& forall|i: int, o: int|
        0 <= i < a && #[trigger] is_room_neighbor(n, n, i, o) && reachable(p, 0, o) ==> reachable(p, 0, i)
}

/// Each portal of `adds`, added in turn to `start` on a square level of side
/// `n`, joins the first room that cannot yet be reached to its first neighbour
/// that can (see `first_frontier`).
pub open spec fn added_in_turn(start: Set<(int, int)>, n: int, adds: Seq<(int, int)>) -> bool {
    forall|j: int|
        0 <= j < adds.len() ==> #[trigger] first_frontier(with_portals(start, adds.take(j)), n, adds[j].0, adds[j].1)
}

/// While every portal from a room of `vis` leads back into `vis`, and `vis`
/// holds the first room, every room reachable from the first one is in `vis`.
proof fn lemma_reached_is_seen(p: Set<(int, int)>, vis: Set<usize>, r: int)
    requires
        links_followed(p, vis, Seq::<usize>::empty()),
        vis.contains(0usize),
        reachable(p, 0, r),
    ensures
        0 <= r,
        seen(vis, r),
{
    let s = choose|s: Seq<int>| is_walk(p, s) && s[0] == 0 && s.last() == r;
    lemma_walk_stays(p, vis, s, s.len() - 1);
}

/// How many entries of `q` are rooms of `vis`.
pub open spec fn seen_entries(vis: Set<usize>, q: Seq<usize>) -> nat
    decreases q.len(),
{
    if q.len() == 0 {
        0
    } else {
        seen_entries(vis, q.drop_last()) + if vis.contains(q.last()) { 1nat } else { 0nat }
    }
}

/// What a level draws in the place of room `i`: `X` when it leads both up and
/// down, `^` up, `v` down, `#` otherwise.
pub open spec fn room_char(g: LevelGridView, i: int) -> char {
    let up = g.up == Some(i as usize);
    let down = g.down == Some(i as usize);
    if up && down {
        'X'
    } else if up {
        '^'
    } else if down {
        'v'
    } else {
        '#'
    }
}

/// The line drawn above row `y`: under each room a `|` where a portal joins it
/// to the room to its north.
pub open spec fn north_line(g: LevelGridView, y: int) -> Seq<char> {
    Seq::new(
        (2 * g.width + 2) as nat,
        |i: int|
            if i < 2 * g.width {
                if i % 2 == 0 {
                    ' '
                } else if y > 0 && linked(
                    g.portals,
                    room_at(g.width, i / 2, y),
                    room_at(g.width, i / 2, y - 1),
                ) {
                    '|'
                } else {
                    ' '
                }
            } else if i == 2 * g.width {
                ' '
            } else {
                '\n'
            },
    )
}

/// The line of row `y`: each room, after a `-` where a portal joins it to the
/// room to its west.
pub open spec fn room_line(g: LevelGridView, y: int) -> Seq<char> {
    Seq::new(
        (2 * g.width + 2) as nat,
        |i: int|
            if i < 2 * g.width {
                if i % 2 == 0 {
                    if i / 2 > 0 && linked(
                        g.portals,
                        room_at(g.width, i / 2, y),
                        room_at(g.width, i / 2 - 1, y),
                    ) {
                        '-'
                    } else {
                        ' '
                    }
                } else {
                    room_char(g, room_at(g.width, i / 2, y))
                }
            } else if i == 2 * g.width {
                ' '
            } else {
                '\n'
            },
    )
}

/// The drawing of the first `k` rows.
pub open spec fn rows_text(g: LevelGridView, k: int) -> Seq<char>
    decreases k,
{
    if k <= 0 {
        Seq::empty()
    } else {
        rows_text(g, k - 1) + north_line(g, k - 1) + room_line(g, k - 1)
    }
}

/// The drawing of a level: its rows, then a blank line.
pub open spec fn level_text(g: LevelGridView) -> Seq<char> {
    rows_text(g, g.height) + Seq::new((2 * g.width + 1) as nat, |i: int| ' ') + seq!['\n']
}

proof fn lemma_rows_text_len(g: LevelGridView, k: int)
    requires
        g.width >= 0,
        k >= 0,
    ensures
        rows_text(g, k).len() == k * (2 * (2 * g.width + 2)),
    decreases k,
{
    let l = 2 * (2 * g.width + 2);
    if k > 0 {
        lemma_rows_text_len(g, k - 1);
        assert(rows_text(g, k).len() == rows_text(g, k - 1).len() + l);
        assert(k * l == (k - 1) * l + l) by (nonlinear_arith);
    } else {
        assert(k * l == 0) by (nonlinear_arith)
            requires
                k == 0,
        ;
    }
}

proof fn lemma_rows_text_prefix(g: LevelGridView, k: int, m: int, j: int)
    requires
        g.width >= 0,
        0 <= k <= m,
        0 <= j < rows_text(g, k).len(),
    ensures
        j < rows_text(g, m).len(),
        rows_text(g, m)[j] == rows_text(g, k)[j],
    decreases m - k,
{
    if m > k {
        lemma_rows_text_prefix(g, k, m - 1, j);
    }
}

/// In the drawing of a level, the room at column `x` of row `y` is drawn at
/// position `(2 * y + 1) * (2 * width + 2) + 2 * x + 1` (on the second line of
/// its row): as `^` when it is the room leading up and not down, as `v` when it
/// leads down and not up, as `X` when it leads both ways, and as `#` otherwise.
pub proof fn lemma_print_marks_stairs(g: LevelGridView, x: int, y: int)
    requires
        0 <= x < g.width,
        0 <= y < g.height,
    ensures
        ({
            let c = level_text(g)[(2 * y + 1) * (2 * g.width + 2) + 2 * x + 1];
            let room = (y * g.width + x) as usize;
            &&& (c == '^') == (g.up == Some(room) && g.down != Some(room))
            &&& (c == 'v') == (g.down == Some(room) && g.up != Some(room))
            &&& (c == 'X') == (g.up == Some(room) && g.down == Some(room))
            &&& (c == '#') == (g.up != Some(room) && g.down != Some(room))
        }),
{
    let w = g.width;
    let l = 2 * w + 2;
    let j = (2 * y + 1) * l + 2 * x + 1;
    lemma_rows_text_len(g, y);
    lemma_rows_text_len(g, y + 1);
    lemma_rows_text_len(g, g.height);
    assert((2 * y + 1) * l == y * (2 * l) + l) by (nonlinear_arith);
    assert((y + 1) * (2 * l) == y * (2 * l) + 2 * l) by (nonlinear_arith);
    let r = rows_text(g, y + 1);
    assert(r == rows_text(g, y) + north_line(g, y) + room_line(g, y));
    assert(r[j] == room_line(g, y)[2 * x + 1]);
    assert((2 * x + 1) / 2 == x);
    assert((2 * x + 1) % 2 == 1);
    lemma_rows_text_prefix(g, y + 1, g.height, j);
    assert(level_text(g)[j] == rows_text(g, g.height)[j]);
}

/// The numbers of `s`, as integers.
pub open spec fn as_ints(s: Seq<usize>) -> Seq<int> {
    s.map_values(|v: usize| v as int)
}

impl View for LevelGrid {
    type V = LevelGridView;

    closed spec fn view(&self) -> LevelGridView {
        LevelGridView {
            width: self.width as int,
            height: self.height as int,
            portals: Set::new(
                |q: (int, int)|
                    0 <= q.0 <= usize::MAX && 0 <= q.1 <= usize::MAX && self.portals@.contains(
                        portal_key(q.0, q.1) as u128,
                    ),
            ),
            up: self.up_portal,
            down: self.down_portal,
        }
    }
}

/// The dungeon as text: a `randomgrid` line, then each level's drawing
/// followed by a line end.
pub open spec fn dungeon_text(levels: Seq<LevelGridView>) -> Seq<char>
    decreases levels.len(),
{
    if levels.len() == 0 {
        "randomgrid\n"@
    } else {
        dungeon_text(levels.drop_last()) + level_text(levels.last()) + seq!['\n']
    }
}

/// The views of the levels of a dungeon.
pub open spec fn level_views(levels: Seq<LevelGrid>) -> Seq<LevelGridView> {
    levels.map_values(|l: LevelGrid| l@)
}

impl RandomGrid {
    /// The dungeon as text (see `dungeon_text`).
    pub fn print(&self) -> (r: String)
        requires
            forall|i: int| 0 <= i < self.levels@.len() ==> 2 * (#[trigger] self.levels@[i])@.width + 1 <= usize::MAX,
        ensures
            r@ == dungeon_text(level_views(self.levels@)),
    {
        let mut s = String::from_str("randomgrid\n");
        let mut i: usize = 0;
        while i < self.levels.len()
            invariant
                i <= self.levels@.len(),
                forall|k: int| 0 <= k < self.levels@.len() ==> 2 * (#[trigger] self.levels@[k])@.width + 1 <= usize::MAX,
                s@ == dungeon_text(level_views(self.levels@.take(i as int))),
            decreases self.levels@.len() - i,
        {
            let text = self.levels[i].print();
            s.append(text.as_str());
            push_char(&mut s, '\n');
            proof {
                let next = level_views(self.levels@.take(i + 1));
                assert(next.drop_last() =~= level_views(self.levels@.take(i as int)));
                assert(next.last() == self.levels@[i as int]@);
            }
            i = i + 1;
        }
        assert(self.levels@.take(i as int) =~= self.levels@);
        s
    }

    /// `deep_levels` levels, each made as `LevelGrid::new` makes one. Every
    /// level but the last has a room, drawn at random, that leads down; every
    /// level but the first has one that leads up.
    pub fn new(cfg: &RandomGridCfg, rng: &mut StdRng) -> (r: RandomGrid)
        requires
            cfg.deep_levels > 0,
            cfg.width == cfg.height,
            cfg.width > 0,
            cfg.width * cfg.height <= usize::MAX,
            0 < cfg.portal_den,
            10 * cfg.portal_num > cfg.portal_den,
            cfg.portal_num < cfg.portal_den,
        ensures
            r.levels@.len() == cfg.deep_levels,
            forall|i: int|
                0 <= i < r.levels@.len() ==> {
                    let g = (#[trigger] r.levels@[i])@;
                    &&& g.width == cfg.width
                    &&& g.height == cfg.height
                    &&& portals_between_neighbors(g.portals, g.width, g.height)
                    &&& all_reachable(g.portals, g.width, g.height)
                    &&& (g.down is Some <==> i < cfg.deep_levels - 1)
                    &&& (g.up is Some <==> i > 0)
                    &&& (g.down matches Some(d) ==> d < g.width * g.height)
                    &&& (g.up matches Some(u) ==> u < g.width * g.height)
                },
    {
        let mut levels: Vec<LevelGrid> = Vec::new();
        let mut deep: u32 = 0;
        while deep < cfg.deep_levels
            invariant
                cfg.deep_levels > 0,
                cfg.width == cfg.height,
                cfg.width > 0,
                cfg.width * cfg.height <= usize::MAX,
                0 < cfg.portal_den,
                10 * cfg.portal_num > cfg.portal_den,
                cfg.portal_num < cfg.portal_den,
                deep <= cfg.deep_levels,
                levels@.len() == deep,
                forall|i: int|
                    0 <= i < levels@.len() ==> {
                        let g = (#[trigger] levels@[i])@;
                        &&& g.width == cfg.width
                        &&& g.height == cfg.height
                        &&& portals_between_neighbors(g.portals, g.width, g.height)
                        &&& all_reachable(g.portals, g.width, g.height)
                        &&& (g.down is Some <==> i < cfg.deep_levels - 1)
                        &&& (g.up is Some <==> i > 0)
                        &&& (g.down matches Some(d) ==> d < g.width * g.height)
                        &&& (g.up matches Some(u) ==> u < g.width * g.height)
                    },
            decreases cfg.deep_levels - deep,
        {
            let mut grid = LevelGrid::new(cfg, rng);
            proof {
                use_type_invariant(&grid);
                assert(cfg.width * cfg.height > 0) by (nonlinear_arith)
                    requires
                        cfg.width == cfg.height,
                        cfg.width > 0,
                ;
            }
            let count = grid.len();
            if deep < cfg.deep_levels - 1 {
                let down_index = draw_below(rng, count);
                grid.down_portal = Some(down_index);
            }
            if deep > 0 {
                let up_index = draw_below(rng, count);
                grid.up_portal = Some(up_index);
            }
            levels.push(grid);
            deep = deep + 1;
        }
        RandomGrid { levels }
    }
}

impl LevelGrid {
    /// Every room has a number that fits a `usize`, and every stored code is
    /// that of a pair of such numbers.
    #[verifier::type_invariant]
    spec fn inv(self) -> bool {
        &&& self.width * self.height <= usize::MAX
        &&& forall|k: u128|
            #[trigger] self.portals@.contains(k) ==> k / (key_base() as u128) <= usize::MAX && k % (
            key_base() as u128) <= usize::MAX
    }

    /// The number of rooms of the level.
    pub open spec fn len_spec(&self) -> int {
        room_count(self@.width, self@.height)
    }

    fn key(a: usize, b: usize) -> (k: u128)
        ensures
            k == portal_key(a as int, b as int),
    {
        assert(portal_key(a as int, b as int) < 0x1_0000_0000_0000_0000_0000_0000_0000_0000);
        (a as u128) * 0x1_0000_0000_0000_0000u128 + (b as u128)
    }

    /// True when a portal joins the two rooms, in either direction.
    pub fn is_portal(&self, room_a: usize, room_b: usize) -> (r: bool)
        ensures
            r == linked(self@.portals, room_a as int, room_b as int),
    {
        let ka = Self::key(room_a, room_b);
        let kb = Self::key(room_b, room_a);
        self.portals.contains(&ka) || self.portals.contains(&kb)
    }

    /// The room at column `x` of row `y`.
    pub fn get_index(&self, x: usize, y: usize) -> (r: usize)
        requires
            room_at(self@.width, x as int, y as int) <= usize::MAX,
        ensures
            r == room_at(self@.width, x as int, y as int),
    {
        proof {
            assert(y * self.width >= 0) by (nonlinear_arith)
                requires
                    y >= 0,
                    self.width >= 0,
            ;
        }
        y * self.width + x
    }

    /// The number of rooms.
    pub fn len(&self) -> (r: usize)
        ensures
            r == self.len_spec(),
    {
        proof {
            use_type_invariant(self);
        }
        self.width * self.height
    }

    /// The column and row of room `index`: `index % width` and `index / height`.
    pub fn get_coords(&self, index: usize) -> (r: (usize, usize))
        requires
            self@.width > 0,
            self@.height > 0,
        ensures
            r.0 == room_coords(self@.width, self@.height, index as int).0,
            r.1 == room_coords(self@.width, self@.height, index as int).1,
    {
        (index % self.width, index / self.height)
    }

    /// The rooms next to room `index`, west, east, north and south, as far as
    /// they exist.
    pub fn neighbors(&self, index: usize) -> (r: Vec<usize>)
        requires
            self@.width > 0,
            self@.height > 0,
            room_coords(self@.width, self@.height, index as int).1 > 0 ==> index >= self@.width,
            room_coords(self@.width, self@.height, index as int).1 < self@.height - 1 ==> index
                + self@.width <= usize::MAX,
            room_coords(self@.width, self@.height, index as int).0 < self@.width - 1 ==> index + 1
                <= usize::MAX,
        ensures
            as_ints(r@) == room_neighbors(self@.width, self@.height, index as int),
    {
        let mut list: Vec<usize> = Vec::new();
        let (x, y) = self.get_coords(index);
        let ghost w = self@.width;
        let ghost h = self@.height;
        let ghost i = index as int;
        let ghost a: Seq<int> = if x > 0 { seq![i - 1] } else { Seq::empty() };
        let ghost b: Seq<int> = if x < w - 1 { seq![i + 1] } else { Seq::empty() };
        let ghost c: Seq<int> = if y > 0 { seq![i - w] } else { Seq::empty() };
        let ghost d: Seq<int> = if y < h - 1 { seq![i + w] } else { Seq::empty() };
        if x > 0 {
            assert(index > 0) by (nonlinear_arith)
                requires
                    x == index % self.width,
                    x > 0,
                    self.width > 0,
            ;
            list.push(index - 1);
        }
        assert(as_ints(list@) =~= a);
        if x < self.width - 1 {
            list.push(index + 1);
        }
        assert(as_ints(list@) =~= a + b);
        if y > 0 {
            list.push(index - self.width);
        }
        assert(as_ints(list@) =~= a + b + c);
        if y < self.height - 1 {
            list.push(index + self.width);
        }
        assert(as_ints(list@) =~= a + b + c + d);
        assert(room_neighbors(w, h, i) == a + b + c + d);
        list
    }

    /// The rooms next to room `index` that a portal joins to it, in the order
    /// of `neighbors`.
    pub fn neighbors_connected(&self, index: usize) -> (r: Vec<usize>)
        requires
            self@.width > 0,
            self@.height > 0,
            room_coords(self@.width, self@.height, index as int).1 > 0 ==> index >= self@.width,
            room_coords(self@.width, self@.height, index as int).1 < self@.height - 1 ==> index
                + self@.width <= usize::MAX,
            room_coords(self@.width, self@.height, index as int).0 < self@.width - 1 ==> index + 1
                <= usize::MAX,
        ensures
            as_ints(r@) == room_neighbors(self@.width, self@.height, index as int).filter(
                |o: int| linked(self@.portals, index as int, o),
            ),
    {
        let nbrs = self.neighbors(index);
        let ghost pred = |o: int| linked(self@.portals, index as int, o);
        let mut r: Vec<usize> = Vec::new();
        let mut k: usize = 0;
        while k < nbrs.len()
            invariant
                k <= nbrs@.len(),
                pred == (|o: int| linked(self@.portals, index as int, o)),
                as_ints(r@) == as_ints(nbrs@).take(k as int).filter(pred),
            decreases nbrs@.len() - k,
        {
            let o = nbrs[k];
            proof {
                assert(as_ints(nbrs@).take(k + 1) =~= as_ints(nbrs@).take(k as int).push(o as int));
                lemma_filter_push(as_ints(nbrs@).take(k as int), o as int, pred);
            }
            let ghost before = r@;
            if self.is_portal(index, o) {
                r.push(o);
                assert(as_ints(r@) =~= as_ints(before).push(o as int));
            }
            k = k + 1;
        }
        assert(as_ints(nbrs@).take(nbrs@.len() as int) =~= as_ints(nbrs@));
        r
    }

    /// Adds the portal `(a, b)`.
    fn add_portal(&mut self, a: usize, b: usize)
        ensures
            final(self)@.portals == old(self)@.portals.insert((a as int, b as int)),
            final(self)@.width == old(self)@.width,
            final(self)@.height == old(self)@.height,
            final(self)@.up == old(self)@.up,
            final(self)@.down == old(self)@.down,
    {
        proof {
            use_type_invariant(&*self);
        }
        let k = Self::key(a, b);
        proof {
            vstd::arithmetic::div_mod::lemma_fundamental_div_mod_converse(
                k as int,
                key_base(),
                a as int,
                b as int,
            );
        }
        let mut portals: HashSet<u128> = HashSet::new();
        std::mem::swap(&mut portals, &mut self.portals);
        portals.insert(k);
        assert(k / (key_base() as u128) == a && k % (key_base() as u128) == b);
        self.portals = portals;
        proof {
            let p = self@.portals;
            let q = old(self)@.portals.insert((a as int, b as int));
            assert forall|x: (int, int)| p.contains(x) <==> q.contains(x) by {
                if 0 <= x.0 <= usize::MAX && 0 <= x.1 <= usize::MAX {
                    if portal_key(x.0, x.1) == portal_key(a as int, b as int) {
                        assert(x == (a as int, b as int));
                    }
                }
            }
            assert(p =~= q);
        }
    }

    /// Every portal, once, as the pair of rooms it was made with.
    pub fn get_portals(&self) -> (r: Vec<(usize, usize)>)
        ensures
            r@.no_duplicates(),
            forall|a: usize, b: usize|
                r@.contains((a, b)) <==> self@.portals.contains((a as int, b as int)),
    {
        proof {
            use_type_invariant(self);
        }
        let mut r: Vec<(usize, usize)> = Vec::new();
        let ghost all = self.portals.iter().remaining().unref();
        let base: u128 = 0x1_0000_0000_0000_0000u128;
        for k in it: self.portals.iter()
            invariant
                it.seq().unref() == all,
                all.to_set() == self.portals@,
                all.no_duplicates(),
                base == key_base(),
                forall|k: u128|
                    #[trigger] self.portals@.contains(k) ==> k / base <= usize::MAX && k % base
                        <= usize::MAX,
                r@.len() == it.index(),
                forall|j: int|
                    0 <= j < r@.len() ==> portal_key(r@[j].0 as int, r@[j].1 as int) == all[j],
        {
            let key = *k;
            assert(all.to_set().contains(key));
            proof {
                vstd::arithmetic::div_mod::lemma_fundamental_div_mod(key as int, base as int);
            }
            r.push(((key / base) as usize, (key % base) as usize));
        }
        proof {
            assert forall|j1: int, j2: int| 0 <= j1 < r@.len() && 0 <= j2 < r@.len() && j1 != j2 implies r@[j1]
                != r@[j2] by {
                assert(all[j1] != all[j2]);
            }
            assert forall|a: usize, b: usize| r@.contains((a, b)) <==> self@.portals.contains(
                (a as int, b as int),
            ) by {
                if r@.contains((a, b)) {
                    let j = choose|j: int| 0 <= j < r@.len() && r@[j] == (a, b);
                    assert(all.to_set().contains(all[j]));
                }
                if self@.portals.contains((a as int, b as int)) {
                    let key = portal_key(a as int, b as int) as u128;
                    assert(all.to_set().contains(key));
                    let j = choose|j: int| 0 <= j < all.len() && all[j] == key;
                    let (c, d) = r@[j];
                    assert(portal_key(c as int, d as int) == portal_key(a as int, b as int));
                    assert(r@[j] == (a, b));
                }
            }
        }
        r
    }

    /// The first room, in order, that is not in `visited` but has a neighbour
    /// in it, with its first such neighbour. There is one as long as `visited`
    /// holds some rooms of a square level and not all of them.
    fn find_frontier(&self, visited: &HashSet<usize>) -> (r: (usize, usize))
        requires
            self@.width == self@.height,
            self@.width > 0,
            forall|v: usize| #[trigger] visited@.contains(v) ==> v < self.len_spec(),
            visited@.finite(),
            visited@.len() > 0,
            visited@.len() < self.len_spec(),
        ensures
            r.0 < self.len_spec(),
            r.1 < self.len_spec(),
            !visited@.contains(r.0),
            visited@.contains(r.1),
            is_room_neighbor(self@.width, self@.height, r.0 as int, r.1 as int),
            exists|t: int|
                0 <= t < room_neighbors(self@.width, self@.width, r.0 as int).len() && room_neighbors(
                    self@.width,
                    self@.width,
                    r.0 as int,
                )[t] == r.1 as int && forall|u: int|
                    0 <= u < t ==> !seen(visited@, #[trigger] room_neighbors(self@.width, self@.width, r.0 as int)[u]),
            forall|j: int, o: int|
                0 <= j < r.0 && #[trigger] is_room_neighbor(self@.width, self@.width, j, o) && seen(visited@, o)
                    ==> seen(visited@, j),
    {
        proof {
            use_type_invariant(self);
        }
        let total = self.len();
        let ghost n = self@.width;
        let mut index: usize = 0;
        while index < total
            invariant
                n == self@.width,
                n == self@.height,
                n > 0,
                total == n * n,
                index <= total,
                forall|j: int, o: int|
                    0 <= j < index && #[trigger] is_room_neighbor(n, n, j, o) && seen(visited@, o)
                        ==> seen(visited@, j),
            decreases total - index,
        {
            if !visited.contains(&index) {
                proof {
                    lemma_square_room(n, index as int);
                }
                let nbrs = self.neighbors(index);
                let mut k: usize = 0;
                while k < nbrs.len()
                    invariant
                        n == self@.width,
                        n == self@.height,
                        n > 0,
                        total == n * n,
                        index < total,
                        !visited@.contains(index),
                        as_ints(nbrs@) == room_neighbors(n, n, index as int),
                        k <= nbrs@.len(),
                        forall|t: int| 0 <= t < k ==> !visited@.contains(#[trigger] nbrs@[t]),
                        forall|j: int, o: int|
                            0 <= j < index && #[trigger] is_room_neighbor(n, n, j, o) && seen(visited@, o)
                                ==> seen(visited@, j),
                    decreases nbrs@.len() - k,
                {
                    let other = nbrs[k];
                    if visited.contains(&other) {
                        proof {
                            assert(room_neighbors(n, n, index as int)[k as int] == other as int);
                            lemma_neighbors_list(n, n, index as int, other as int);
                            lemma_square_room(n, index as int);
                            assert forall|u: int| 0 <= u < k implies !seen(visited@, #[trigger] room_neighbors(n, n, index as int)[u]) by {
                                assert(as_ints(nbrs@)[u] == nbrs@[u] as int);
                                assert(!visited@.contains(nbrs@[u]));
                            }
                        }
                        return (index, other);
                    }
                    k = k + 1;
                }
                proof {
                    assert forall|o: int|
                        #[trigger] is_room_neighbor(n, n, index as int, o) && seen(visited@, o) implies seen(
                        visited@,
                        index as int,
                    ) by {
                        lemma_neighbors_list(n, n, index as int, o);
                        let t = choose|t: int|
                            0 <= t < room_neighbors(n, n, index as int).len() && room_neighbors(
                                n,
                                n,
                                index as int,
                            )[t] == o;
                        assert(as_ints(nbrs@)[t] == nbrs@[t] as int);
                        assert(!visited@.contains(nbrs@[t]));
                        lemma_square_room(n, index as int);
                    }
                }
            }
            index = index + 1;
        }
        proof {
            let v = visited@.choose();
            vstd::set::axiom_set_choose_len(visited@);
            assert(closed_under_neighbors(visited@, n));
            lemma_closed_is_all(visited@, n, v as int);
            let range = Set::<usize>::new(|i: usize| i < total);
            <usize as vstd::set_lib::FiniteRange>::range_properties(0, total);
            assert(range == <usize as vstd::set_lib::FiniteRange>::range_set(0, total));
            assert forall|i: usize| range.contains(i) implies visited@.contains(i) by {
                assert(seen(visited@, i as int));
            }
            assert(visited@ =~= range);
        }
        (0, 0)
    }

    /// Adds portals until every room can be reached from the first room: a
    /// walk through the portals marks the rooms it reaches, and while some
    /// room is left, a portal joins the first room left that is next to a
    /// marked room to that room.
    fn connect_all_rooms(&mut self)
        requires
            old(self)@.width == old(self)@.height,
            old(self)@.width > 0,
        ensures
            final(self)@.width == old(self)@.width,
            final(self)@.height == old(self)@.height,
            final(self)@.up == old(self)@.up,
            final(self)@.down == old(self)@.down,
            old(self)@.portals.subset_of(final(self)@.portals),
            forall|q: (int, int)|
                #[trigger] final(self)@.portals.contains(q) && !old(self)@.portals.contains(q) ==> 0
                    <= q.0 < old(self).len_spec() && 0 <= q.1 < old(self).len_spec()
                    && is_room_neighbor(old(self)@.width, old(self)@.height, q.0, q.1),
            all_reachable(final(self)@.portals, final(self)@.width, final(self)@.height),
            portals_between_neighbors(old(self)@.portals, old(self)@.width, old(self)@.height)
                && all_reachable(old(self)@.portals, old(self)@.width, old(self)@.height)
                ==> final(self)@.portals == old(self)@.portals,
            portals_between_neighbors(old(self)@.portals, old(self)@.width, old(self)@.height) ==> exists|
                adds: Seq<(int, int)>,
            |
                final(self)@.portals == with_portals(old(self)@.portals, adds) && #[trigger] added_in_turn(
                    old(self)@.portals,
                    old(self)@.width,
                    adds,
                ),
    {
        proof {
            use_type_invariant(&*self);
        }
        let total = self.len();
        let ghost n = self@.width;
        let ghost start = self@.portals;
        let ghost range = Set::<usize>::new(|i: usize| i < total);
        proof {
            <usize as vstd::set_lib::FiniteRange>::range_properties(0, total);
            assert(range == <usize as vstd::set_lib::FiniteRange>::range_set(0, total));
            lemma_reachable_self(self@.portals, 0);
            assert(total > 0) by (nonlinear_arith)
                requires
                    total == n * n,
                    n > 0,
            ;
        }
        let mut visit_queue: Vec<usize> = Vec::new();
        visit_queue.push(0);
        let mut visited: HashSet<usize> = HashSet::new();
        let ghost mut adds: Seq<(int, int)> = Seq::empty();
        assert(with_portals(start, adds) =~= start);
        loop
            invariant
                n == self@.width,
                n == self@.height,
                n > 0,
                total == n * n,
                self@.up == old(self)@.up,
                self@.down == old(self)@.down,
                start == old(self)@.portals,
                range.finite(),
                range.len() == total,
                forall|i: usize| #[trigger] range.contains(i) <==> i < total,
                start.subset_of(self@.portals),
                forall|q: (int, int)|
                    #[trigger] self@.portals.contains(q) && !start.contains(q) ==> 0 <= q.0 < total
                        && 0 <= q.1 < total && is_room_neighbor(n, n, q.0, q.1),
                visited@.subset_of(range),
                forall|v: usize| #[trigger] visited@.contains(v) ==> reachable(self@.portals, 0, v as int),
                forall|k: int|
                    0 <= k < visit_queue@.len() ==> #[trigger] visit_queue@[k] < total && reachable(
                        self@.portals,
                        0,
                        visit_queue@[k] as int,
                    ),
                visited@.len() > 0 || visit_queue@ == seq![0usize],
                visited@.len() > 0 ==> visited@.contains(0usize),
                portals_between_neighbors(start, n, n) ==> links_followed(self@.portals, visited@, visit_queue@),
                portals_between_neighbors(start, n, n) && all_reachable(start, n, n) ==> self@.portals == start,
                self@.portals == with_portals(start, adds),
                portals_between_neighbors(start, n, n) ==> added_in_turn(start, n, adds),
            ensures
                all_reachable(self@.portals, n, n),
                portals_between_neighbors(start, n, n) && all_reachable(start, n, n) ==> self@.portals == start,
                self@.portals == with_portals(start, adds),
                portals_between_neighbors(start, n, n) ==> added_in_turn(start, n, adds),
            decreases total - visited@.len(), seen_entries(visited@, visit_queue@), if visit_queue@.len()
                == 0 {
                1int
            } else {
                0int
            },
        {
            proof {
                vstd::set_lib::lemma_len_subset(visited@, range);
            }
            if visit_queue.len() == 0 {
                if visited.len() == total {
                    proof {
                        vstd::set_lib::lemma_subset_equality(visited@, range);
                        assert forall|r: int| 0 <= r < room_count(n, n) implies #[trigger] reachable(
                            self@.portals,
                            0,
                            r,
                        ) by {
                            assert(range.contains(r as usize));
                        }
                    }
                    break;
                } else {
                    let (index, other) = self.find_frontier(&visited);
                    let ghost before = self@.portals;
                    proof {
                        if portals_between_neighbors(start, n, n) {
                            assert(visit_queue@ =~= Seq::<usize>::empty());
                            lemma_unreached_room(start, self@.portals, visited@, range, n, total as int);
                            let p = self@.portals;
                            if reachable(p, 0, index as int) {
                                lemma_reached_is_seen(p, visited@, index as int);
                            }
                            let t = choose|t: int|
                                0 <= t < room_neighbors(n, n, index as int).len() && room_neighbors(n, n, index as int)[t]
                                    == other as int && forall|u: int|
                                    0 <= u < t ==> !seen(visited@, #[trigger] room_neighbors(n, n, index as int)[u]);
                            assert forall|u: int| 0 <= u < t implies !reachable(p, 0, #[trigger] room_neighbors(n, n, index as int)[u]) by {
                                if reachable(p, 0, room_neighbors(n, n, index as int)[u]) {
                                    lemma_reached_is_seen(p, visited@, room_neighbors(n, n, index as int)[u]);
                                }
                            }
                            assert forall|i: int, o: int|
                                0 <= i < index && #[trigger] is_room_neighbor(n, n, i, o) && reachable(p, 0, o) implies reachable(p, 0, i) by {
                                lemma_reached_is_seen(p, visited@, o);
                                assert(seen(visited@, i));
                                assert(visited@.contains(i as usize));
                            }
                            assert(first_frontier(p, n, index as int, other as int));
                        }
                    }
                    self.add_portal(index, other);
                    let ghost prev_adds = adds;
                    proof {
                        adds = adds.push((index as int, other as int));
                        assert(adds.take(prev_adds.len() as int) =~= prev_adds);
                        let x = (index as int, other as int);
                        assert forall|q: (int, int)| adds.to_set().contains(q) <==> (prev_adds.to_set().contains(q) || q == x) by {
                            if prev_adds.contains(q) {
                                let i = choose|i: int| 0 <= i < prev_adds.len() && prev_adds[i] == q;
                                assert(adds[i] == q);
                            }
                            if q == x {
                                assert(adds[prev_adds.len() as int] == x);
                            }
                            if adds.contains(q) {
                                let i = choose|i: int| 0 <= i < adds.len() && adds[i] == q;
                                if i < prev_adds.len() {
                                    assert(prev_adds[i] == q);
                                }
                            }
                        }
                        assert(self@.portals =~= with_portals(start, adds));
                        if portals_between_neighbors(start, n, n) {
                            assert forall|j: int| 0 <= j < adds.len() implies #[trigger] first_frontier(
                                with_portals(start, adds.take(j)),
                                n,
                                adds[j].0,
                                adds[j].1,
                            ) by {
                                if j < prev_adds.len() {
                                    assert(adds.take(j) =~= prev_adds.take(j));
                                    assert(first_frontier(with_portals(start, prev_adds.take(j)), n, prev_adds[j].0, prev_adds[j].1));
                                }
                            }
                        }
                    }
                    proof {
                        assert(before.subset_of(self@.portals));
                        lemma_reachable_grows(before, self@.portals, 0, other as int);
                        assert(self@.portals.contains((index as int, other as int)));
                        lemma_reachable_step(self@.portals, 0, other as int, index as int);
                        assert forall|v: usize| #[trigger] visited@.contains(v) implies reachable(
                            self@.portals,
                            0,
                            v as int,
                        ) by {
                            lemma_reachable_grows(before, self@.portals, 0, v as int);
                        }
                    }
                    visit_queue.push(index);
                    proof {
                        assert(visit_queue@ =~= seq![index]);
                        if portals_between_neighbors(start, n, n) {
                            assert forall|v: int, o: int|
                                0 <= v && seen(visited@, v) && #[trigger] linked(self@.portals, v, o) implies 0 <= o
                                && (seen(visited@, o) || visit_queue@.contains(o as usize)) by {
                                if !linked(before, v, o) {
                                    assert(o == index as int);
                                    assert(visit_queue@[0] == index);
                                } else {
                                    assert(Seq::<usize>::empty().contains(o as usize) == false);
                                }
                            }
                        }
                        assert(visit_queue@.drop_last() =~= Seq::<usize>::empty());
                        assert(seen_entries(visited@, Seq::<usize>::empty()) == 0);
                        assert(seen_entries(visited@, visit_queue@) == 0);
                    }
                }
            } else {
                let ghost full = visit_queue@;
                let index = visit_queue.pop().unwrap();
                let ghost rest = visit_queue@;
                let ghost old_visited = visited@;
                assert(full == rest.push(index));
                visited.insert(index);
                proof {
                    lemma_square_room(n, index as int);
                    vstd::set_lib::lemma_len_subset(visited@, range);
                }
                let ghost vis1 = visited@;
                let nbrs = self.neighbors(index);
                let mut k: usize = 0;
                while k < nbrs.len()
                    invariant
                        n == self@.width,
                        n == self@.height,
                        n > 0,
                        total == n * n,
                        index < total,
                        visited@.contains(index),
                        reachable(self@.portals, 0, index as int),
                        as_ints(nbrs@) == room_neighbors(n, n, index as int),
                        k <= nbrs@.len(),
                        rest.len() <= visit_queue@.len(),
                        forall|t: int| 0 <= t < rest.len() ==> visit_queue@[t] == rest[t],
                        seen_entries(visited@, visit_queue@) == seen_entries(visited@, rest),
                        forall|t: int|
                            0 <= t < visit_queue@.len() ==> #[trigger] visit_queue@[t] < total && reachable(
                                self@.portals,
                                0,
                                visit_queue@[t] as int,
                            ),
                        visit_queue@.len() > rest.len() ==> !visited@.contains(visit_queue@.last()),
                        visited@ == vis1,
                        forall|t: int|
                            0 <= t < k ==> seen(visited@, #[trigger] nbrs@[t] as int) || !linked(
                                self@.portals,
                                index as int,
                                nbrs@[t] as int,
                            ) || visit_queue@.contains(nbrs@[t]),
                    decreases nbrs@.len() - k,
                {
                    let other = nbrs[k];
                    if !visited.contains(&other) && self.is_portal(index, other) {
                        proof {
                            assert(room_neighbors(n, n, index as int)[k as int] == other as int);
                            lemma_neighbors_list(n, n, index as int, other as int);
                            lemma_square_room(n, index as int);
                            lemma_reachable_step(self@.portals, 0, index as int, other as int);
                        }
                        let ghost q = visit_queue@;
                        visit_queue.push(other);
                        proof {
                            assert(visit_queue@.drop_last() =~= q);
                            assert forall|x: usize| q.contains(x) implies visit_queue@.contains(x) by {
                                let j = choose|j: int| 0 <= j < q.len() && q[j] == x;
                                assert(visit_queue@[j] == x);
                            }
                            assert(visit_queue@[q.len() as int] == other);
                        }
                    }
                    k = k + 1;
                }
                proof {
                    if old_visited.contains(index) {
                        assert(visited@ =~= old_visited);
                        assert(full.drop_last() =~= rest);
                    }
                    if portals_between_neighbors(start, n, n) {
                        assert forall|v: int, o: int|
                            0 <= v && seen(visited@, v) && #[trigger] linked(self@.portals, v, o) implies 0 <= o
                            && (seen(visited@, o) || visit_queue@.contains(o as usize)) by {
                            lemma_linked_neighbor(start, self@.portals, n, v, o);
                            if v == index as int {
                                lemma_neighbors_list(n, n, index as int, o);
                                let t = choose|t: int|
                                    0 <= t < room_neighbors(n, n, index as int).len() && room_neighbors(
                                        n,
                                        n,
                                        index as int,
                                    )[t] == o;
                                assert(as_ints(nbrs@)[t] == nbrs@[t] as int);
                                assert(seen(visited@, nbrs@[t] as int) || !linked(
                                    self@.portals,
                                    index as int,
                                    nbrs@[t] as int,
                                ) || visit_queue@.contains(nbrs@[t]));
                            } else {
                                assert(seen(old_visited, v));
                                if !seen(old_visited, o) {
                                    assert(full.contains(o as usize));
                                    let j = choose|j: int| 0 <= j < full.len() && full[j] == o as usize;
                                    if j < rest.len() {
                                        assert(visit_queue@[j] == rest[j]);
                                    }
                                }
                            }
                        }
                    }
                }
            }
        }
    }

    /// A level of `width` by `height` rooms with no portal.
    fn empty(width: usize, height: usize) -> (r: LevelGrid)
        requires
            width * height <= usize::MAX,
        ensures
            r@.width == width,
            r@.height == height,
            r@.portals == Set::<(int, int)>::empty(),
            r@.up is None,
            r@.down is None,
    {
        let r = LevelGrid {
            width,
            height,
            portals: HashSet::new(),
            up_portal: None,
            down_portal: None,
        };
        assert(r@.portals =~= Set::<(int, int)>::empty());
        r
    }

    /// Draws, for each room, a portal to the room to its north and one to the
    /// room to its west, each with chance `num / den`: none is drawn when `num`
    /// is 0, and all of them when `num` is `den`.
    fn create_portals(&mut self, rng: &mut StdRng, num: u32, den: u32)
        requires
            old(self)@.width == old(self)@.height,
            0 < den,
            num <= den,
        ensures
            final(self)@.width == old(self)@.width,
            final(self)@.height == old(self)@.height,
            final(self)@.up == old(self)@.up,
            final(self)@.down == old(self)@.down,
            old(self)@.portals.subset_of(final(self)@.portals),
            forall|q: (int, int)|
                #[trigger] final(self)@.portals.contains(q) && !old(self)@.portals.contains(q) ==> 0
                    <= q.0 < old(self).len_spec() && 0 <= q.1 < old(self).len_spec()
                    && is_room_neighbor(old(self)@.width, old(self)@.height, q.0, q.1)
                    && north_west_portal(old(self)@.width, q),
            num == 0 ==> final(self)@.portals == old(self)@.portals,
            num == den ==> forall|x: int, y: int|
                0 <= x < old(self)@.width && 0 < y < old(self)@.width ==> #[trigger] final(self)@.portals.contains(
                    north_portal(old(self)@.width, x, y),
                ),
            num == den ==> forall|x: int, y: int|
                0 < x < old(self)@.width && 0 <= y < old(self)@.width ==> #[trigger] final(self)@.portals.contains(
                    west_portal(old(self)@.width, x, y),
                ),
    {
        proof {
            use_type_invariant(&*self);
        }
        let ghost n = self@.width;
        let ghost start = self@.portals;
        let mut y: usize = 0;
        while y < self.height
            invariant
                n == self@.width,
                n == self@.height,
                n * n <= usize::MAX,
                0 < den,
                num <= den,
                y <= n,
                self@.up == old(self)@.up,
                self@.down == old(self)@.down,
                start == old(self)@.portals,
                start.subset_of(self@.portals),
                forall|q: (int, int)|
                    #[trigger] self@.portals.contains(q) && !start.contains(q) ==> 0 <= q.0 < n * n && 0
                        <= q.1 < n * n && is_room_neighbor(n, n, q.0, q.1) && north_west_portal(n, q),
                num == 0 ==> self@.portals == start,
                num == den ==> forall|a: int, b: int|
                    0 <= a < n && 0 < b < y ==> #[trigger] self@.portals.contains(north_portal(n, a, b)),
                num == den ==> forall|a: int, b: int|
                    0 < a < n && 0 <= b < y ==> #[trigger] self@.portals.contains(west_portal(n, a, b)),
            decreases n - y,
        {
            let mut x: usize = 0;
            while x < self.width
                invariant
                    n == self@.width,
                    n == self@.height,
                    n * n <= usize::MAX,
                    0 < den,
                    num <= den,
                    y < n,
                    x <= n,
                    self@.up == old(self)@.up,
                    self@.down == old(self)@.down,
                    start == old(self)@.portals,
                    start.subset_of(self@.portals),
                    forall|q: (int, int)|
                        #[trigger] self@.portals.contains(q) && !start.contains(q) ==> 0 <= q.0 < n * n
                            && 0 <= q.1 < n * n && is_room_neighbor(n, n, q.0, q.1) && north_west_portal(n, q),
                    num == 0 ==> self@.portals == start,
                    num == den ==> forall|a: int, b: int|
                        0 <= a < n && 0 < b && (b < y || (b == y && a < x)) ==> #[trigger] self@.portals.contains(
                            north_portal(n, a, b),
                        ),
                    num == den ==> forall|a: int, b: int|
                        0 < a < n && 0 <= b && (b < y || (b == y && a < x)) ==> #[trigger] self@.portals.contains(
                            west_portal(n, a, b),
                        ),
                decreases n - x,
            {
                proof {
                    lemma_room_at(n, x as int, y as int);
                }
                let index = self.get_index(x, y);
                if y != 0 && draw_ratio(rng, num, den) {
                    proof {
                        lemma_room_at(n, x as int, y - 1);
                        assert(room_at(n, x as int, y as int) == room_at(n, x as int, y - 1) + n)
                            by (nonlinear_arith);
                    }
                    let north = self.get_index(x, y - 1);
                    let ghost before = self@.portals;
                    self.add_portal(index, north);
                    proof {
                        assert(is_drawn_portal(n, x as int, y as int, (index as int, north as int)));
                        assert(north_portal(n, x as int, y as int) == (index as int, north as int));
                        assert(before.subset_of(self@.portals));
                    }
                }
                if x != 0 && draw_ratio(rng, num, den) {
                    proof {
                        lemma_room_at(n, x - 1, y as int);
                    }
                    let west = self.get_index(x - 1, y);
                    let ghost before = self@.portals;
                    self.add_portal(index, west);
                    proof {
                        assert(is_drawn_portal(n, x as int, y as int, (index as int, west as int)));
                        assert(west_portal(n, x as int, y as int) == (index as int, west as int));
                        assert(before.subset_of(self@.portals));
                    }
                }
                x = x + 1;
            }
            y = y + 1;
        }
    }

    /// A square level of `width` by `height` rooms whose portals are drawn with
    /// chance `portal_num / portal_den` each, then completed so that every
    /// room can be reached from the first one.
    pub fn new(cfg: &RandomGridCfg, rng: &mut StdRng) -> (r: LevelGrid)
        requires
            cfg.width == cfg.height,
            cfg.width > 0,
            cfg.width * cfg.height <= usize::MAX,
            0 < cfg.portal_den,
            10 * cfg.portal_num > cfg.portal_den,
            cfg.portal_num < cfg.portal_den,
        ensures
            r@.width == cfg.width,
            r@.height == cfg.height,
            r@.up is None,
            r@.down is None,
            portals_between_neighbors(r@.portals, r@.width, r@.height),
            all_reachable(r@.portals, r@.width, r@.height),
            exists|drawn: Set<(int, int)>, adds: Seq<(int, int)>|
                (forall|q: (int, int)| #[trigger] drawn.contains(q) ==> north_west_portal(cfg.width as int, q))
                    && r@.portals == with_portals(drawn, adds) && #[trigger] added_in_turn(
                    drawn,
                    cfg.width as int,
                    adds,
                ),
    {
        let mut rooms = LevelGrid::empty(cfg.width, cfg.height);
        rooms.create_portals(rng, cfg.portal_num, cfg.portal_den);
        let ghost drawn = rooms@.portals;
        rooms.connect_all_rooms();
        proof {
            let adds = choose|adds: Seq<(int, int)>|
                rooms@.portals == with_portals(drawn, adds) && #[trigger] added_in_turn(drawn, cfg.width as int, adds);
            assert(forall|q: (int, int)| #[trigger] drawn.contains(q) ==> north_west_portal(cfg.width as int, q));
        }
        rooms
    }

    /// A square level of `width` by `height` rooms with the given portals,
    /// completed so that every room can be reached from the first one: each
    /// portal added joins, in turn, the first room that cannot yet be reached to
    /// its first neighbour (west, east, north, south) that can.
    pub fn from_portals(width: usize, height: usize, portals: &Vec<(usize, usize)>) -> (r: LevelGrid)
        requires
            width == height,
            width > 0,
            width * height <= usize::MAX,
            forall|k: int|
                0 <= k < portals@.len() ==> #[trigger] portals@[k].0 < width * height
                    && portals@[k].1 < width * height && is_room_neighbor(
                    width as int,
                    height as int,
                    portals@[k].0 as int,
                    portals@[k].1 as int,
                ),
        ensures
            r@.width == width,
            r@.height == height,
            r@.up is None,
            r@.down is None,
            forall|k: int|
                0 <= k < portals@.len() ==> r@.portals.contains(
                    (#[trigger] portals@[k].0 as int, portals@[k].1 as int),
                ),
            portals_between_neighbors(r@.portals, r@.width, r@.height),
            all_reachable(r@.portals, r@.width, r@.height),
            all_reachable(portal_pairs(portals@), r@.width, r@.height) ==> r@.portals == portal_pairs(
                portals@,
            ),
            exists|adds: Seq<(int, int)>|
                r@.portals == with_portals(portal_pairs(portals@), adds) && #[trigger] added_in_turn(
                    portal_pairs(portals@),
                    width as int,
                    adds,
                ),
    {
        let mut rooms = LevelGrid::empty(width, height);
        let mut k: usize = 0;
        while k < portals.len()
            invariant
                width == height,
                width > 0,
                width * height <= usize::MAX,
                k <= portals@.len(),
                forall|j: int|
                    0 <= j < portals@.len() ==> #[trigger] portals@[j].0 < width * height
                        && portals@[j].1 < width * height && is_room_neighbor(
                        width as int,
                        height as int,
                        portals@[j].0 as int,
                        portals@[j].1 as int,
                    ),
                rooms@.width == width,
                rooms@.height == height,
                rooms@.up is None,
                rooms@.down is None,
                forall|j: int|
                    0 <= j < k ==> rooms@.portals.contains(
                        (#[trigger] portals@[j].0 as int, portals@[j].1 as int),
                    ),
                portals_between_neighbors(rooms@.portals, width as int, height as int),
                rooms@.portals == portal_pairs(portals@.take(k as int)),
            decreases portals@.len() - k,
        {
            let (a, b) = portals[k];
            let ghost before = rooms@.portals;
            rooms.add_portal(a, b);
            proof {
                let s = portals@.take(k + 1);
                let s0 = portals@.take(k as int);
                assert forall|q: (int, int)| portal_pairs(s).contains(q) == before.insert((a as int, b as int)).contains(q) by {
                    if portal_pairs(s).contains(q) {
                        let j = choose|j: int| 0 <= j < s.len() && q == (#[trigger] s[j].0 as int, s[j].1 as int);
                        if j < k {
                            assert(s0[j] == s[j]);
                        }
                    }
                    if before.contains(q) {
                        let j = choose|j: int| 0 <= j < s0.len() && q == (#[trigger] s0[j].0 as int, s0[j].1 as int);
                        assert(s[j] == s0[j]);
                    }
                    if q == (a as int, b as int) {
                        assert(s[k as int] == (a, b));
                    }
                }
                assert(portal_pairs(s) =~= rooms@.portals);
            }
            k = k + 1;
        }
        assert(portals@.take(k as int) =~= portals@);
        rooms.connect_all_rooms();
        rooms
    }

    /// The level drawn as text: each room a `#` (`^` leading up, `v` down, `X`
    /// both), with `|` and `-` for its portals to the north and west, two lines
    /// per row and a blank line at the end.
    pub fn print(&self) -> (r: String)
        requires
            2 * self@.width + 1 <= usize::MAX,
        ensures
            r@ == level_text(self@),
    {
        proof {
            use_type_invariant(self);
        }
        let ghost g = self@;
        let ghost w = g.width;
        let ghost h = g.height;
        let mut buffer = String::new();
        let mut y: usize = 0;
        while y < self.height
            invariant
                g == self@,
                w == self@.width,
                h == self@.height,
                w * h <= usize::MAX,
                2 * w + 1 <= usize::MAX,
                y <= h,
                buffer@ == rows_text(g, y as int),
            decreases h - y,
        {
            let ghost top = north_line(g, y as int);
            let ghost start = buffer@;
            let mut x: usize = 0;
            while x < self.width
                invariant
                    g == self@,
                    w == self@.width,
                    h == self@.height,
                    w * h <= usize::MAX,
                    y < h,
                    x <= w,
                    top == north_line(g, y as int),
                    buffer@ == start + top.take(2 * x),
                decreases w - x,
            {
                proof {
                    lemma_room_in(w, h, x as int, y as int);
                }
                let portal_n = if y == 0 {
                    false
                } else {
                    proof {
                        lemma_room_in(w, h, x as int, y - 1);
                    }
                    self.is_portal(self.get_index(x, y), self.get_index(x, y - 1))
                };
                push_char(&mut buffer, ' ');
                if portal_n {
                    push_char(&mut buffer, '|');
                } else {
                    push_char(&mut buffer, ' ');
                }
                assert(top.take(2 * x + 2) =~= top.take(2 * x).push(top[2 * x]).push(top[2 * x + 1]));
                x = x + 1;
            }
            push_char(&mut buffer, ' ');
            push_char(&mut buffer, '\n');
            assert(top.take(2 * w) + seq![' ', '\n'] =~= top);
            let ghost mid = room_line(g, y as int);
            let ghost start2 = buffer@;
            assert(start2 == start + top);
            let mut x: usize = 0;
            while x < self.width
                invariant
                    g == self@,
                    w == self@.width,
                    h == self@.height,
                    w * h <= usize::MAX,
                    y < h,
                    x <= w,
                    mid == room_line(g, y as int),
                    buffer@ == start2 + mid.take(2 * x),
                decreases w - x,
            {
                proof {
                    lemma_room_in(w, h, x as int, y as int);
                }
                let index = y * self.width + x;
                let portal_w = if x == 0 {
                    false
                } else {
                    proof {
                        lemma_room_in(w, h, x - 1, y as int);
                    }
                    self.is_portal(self.get_index(x, y), self.get_index(x - 1, y))
                };
                if portal_w {
                    push_char(&mut buffer, '-');
                } else {
                    push_char(&mut buffer, ' ');
                }
                let up = match self.up_portal {
                    Some(u) => u == index,
                    None => false,
                };
                let down = match self.down_portal {
                    Some(d) => d == index,
                    None => false,
                };
                let room_ch = if up && down {
                    'X'
                } else if up {
                    '^'
                } else if down {
                    'v'
                } else {
                    '#'
                };
                push_char(&mut buffer, room_ch);
                assert(mid.take(2 * x + 2) =~= mid.take(2 * x).push(mid[2 * x]).push(mid[2 * x + 1]));
                x = x + 1;
            }
            push_char(&mut buffer, ' ');
            push_char(&mut buffer, '\n');
            assert(mid.take(2 * w) + seq![' ', '\n'] =~= mid);
            assert(buffer@ =~= rows_text(g, y + 1));
            y = y + 1;
        }
        let ghost start = buffer@;
        let mut i: usize = 0;
        while i < self.width * 2 + 1
            invariant
                w == self@.width,
                2 * w + 1 <= usize::MAX,
                i <= 2 * w + 1,
                buffer@ == start + Seq::new(i as nat, |j: int| ' '),
            decreases 2 * w + 1 - i,
        {
            push_char(&mut buffer, ' ');
            assert(Seq::new((i + 1) as nat, |j: int| ' ') =~= Seq::new(i as nat, |j: int| ' ').push(' '));
            i = i + 1;
        }
        push_char(&mut buffer, '\n');
        assert(buffer@ =~= level_text(g));
        buffer
    }

    /// The first room that leads up a level, if any.
    pub fn get_up_portal(&self) -> (r: Option<usize>)
        ensures
            r == self@.up,
    {
        self.up_portal
    }

    /// The room that leads down a level, if any.
    pub fn get_down_portal(&self) -> (r: Option<usize>)
        ensures
            r == self@.down,
    {
        self.down_portal
    }

    /// The number of columns.
    pub fn get_width(&self) -> (r: usize)
        ensures
            r == self@.width,
    {
        self.width
    }

    /// The number of rows.
    pub fn get_height(&self) -> (r: usize)
        ensures
            r == self@.height,
    {
        self.height
    }
}

} // verus!
