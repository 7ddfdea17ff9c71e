//! What an entity sees, and the cells it remembers having seen.

use crate::grid::{flex_key_of, in_bounds};
use crate::v2i::V2I;
use std::collections::{HashMap, HashSet};
use crate::seqs::lemma_filter_push;
use vstd::prelude::*;

verus! {

broadcast use vstd::std_specs::hash::group_hash_axioms;

/// The cells an entity sees now, and how far it sees.
#[derive(Clone, Debug)]
pub struct Visibility {
    pub visible_tiles: Vec<V2I>,
    pub range: i32,
}

impl Default for Visibility {
    /// Sees nothing, at range 0.
    fn default() -> (r: Visibility)
        ensures
            r.visible_tiles@ == Seq::<V2I>::empty(),
            r.range == 0,
    {
        Visibility { visible_tiles: Vec::new(), range: 0 }
    }
}

/// The cells of `tiles` that lie on a `width` by `height` grid, in order.
pub open spec fn tiles_inside(tiles: Seq<V2I>, width: int, height: int) -> Seq<V2I> {
    tiles.filter(|p: V2I| in_bounds(width, height, p))
}

/// Keeps, in order, the cells of `tiles` that lie on a `width` by `height`
/// grid.
pub fn retain_inside(tiles: &Vec<V2I>, width: i32, height: i32) -> (r: Vec<V2I>)
    ensures
        r@ == tiles_inside(tiles@, width as int, height as int),
{
    let ghost pred = |p: V2I| in_bounds(width as int, height as int, p);
    let mut r: Vec<V2I> = Vec::new();
    let mut i: usize = 0;
    while i < tiles.len()
        invariant
            i <= tiles@.len(),
            pred == (|p: V2I| in_bounds(width as int, height as int, p)),
            r@ == tiles@.take(i as int).filter(pred),
        decreases tiles@.len() - i,
    {
        let p = tiles[i];
        proof {
            assert(tiles@.take(i + 1) =~= tiles@.take(i as int).push(p));
            lemma_filter_push(tiles@.take(i as int), p, pred);
        }
        if p.x >= 0 && p.x < width && p.y >= 0 && p.y < height {
            r.push(p);
        }
        i = i + 1;
    }
    assert(tiles@.take(tiles@.len() as int) =~= tiles@);
    r
}

/// The cells an entity has seen, for each grid.
#[derive(Clone, Debug)]
pub struct VisibilityMemory {
    know_tiles: HashMap<u64, HashSet<i64>>,
}

impl VisibilityMemory {
    /// The cells known on each grid.
    pub closed spec fn known(&self) -> Map<u64, Set<V2I>> {
        Map::new(
            |g: u64| self.know_tiles@.contains_key(g),
            |g: u64| Set::new(|p: V2I| self.know_tiles@[g]@.contains(flex_key_of(p) as i64)),
        )
    }

    /// Knows nothing.
    pub fn new() -> (r: VisibilityMemory)
        ensures
            r.known() == Map::<u64, Set<V2I>>::empty(),
    {
        let r = VisibilityMemory { know_tiles: HashMap::new() };
        assert(r.known() =~= Map::<u64, Set<V2I>>::empty());
        r
    }

    /// True when the cell `point` of the grid `grid_id` was seen.
    pub fn is_know(&self, grid_id: u64, point: V2I) -> (r: bool)
        ensures
            r == (self.known().contains_key(grid_id) && self.known()[grid_id].contains(point)),
    {
        match self.know_tiles.get(&grid_id) {
            Some(set) => {
                let k = crate::grid::flex_key(&point);
                set.contains(&k)
            },
            None => false,
        }
    }

    /// Remembers every cell of `tiles` as seen on the grid `grid_id`.
    pub fn remember(&mut self, grid_id: u64, tiles: &Vec<V2I>)
        ensures
            final(self).known().contains_key(grid_id),
            forall|g: u64| g != grid_id ==> #[trigger] final(self).known().contains_key(g)
                == old(self).known().contains_key(g),
            forall|g: u64|
                g != grid_id && old(self).known().contains_key(g) ==> #[trigger] final(self).known()[g]
                    == old(self).known()[g],
            forall|p: V2I|
                #[trigger] final(self).known()[grid_id].contains(p) <==> ((old(self).known().contains_key(
                    grid_id,
                ) && old(self).known()[grid_id].contains(p)) || tiles@.contains(p)),
    {
        let ghost before = self.known();
        let mut set: HashSet<i64> = match self.know_tiles.remove(&grid_id) {
            Some(s) => s,
            None => HashSet::new(),
        };
        let ghost start = set@;
        assert(before.contains_key(grid_id) ==> forall|p: V2I| before[grid_id].contains(p) <==> start.contains(flex_key_of(p) as i64));
        let mut i: usize = 0;
        while i < tiles.len()
            invariant
                i <= tiles@.len(),
                forall|k: i64|
                    #[trigger] set@.contains(k) <==> (start.contains(k) || exists|j: int|
                        0 <= j < i && k == flex_key_of(tiles@[j])),
            decreases tiles@.len() - i,
        {
            let k = crate::grid::flex_key(&tiles[i]);
            set.insert(k);
            i = i + 1;
        }
        self.know_tiles.insert(grid_id, set);
        proof {
            assert forall|p: V2I|
                #[trigger] self.known()[grid_id].contains(p) <==> ((before.contains_key(grid_id)
                    && before[grid_id].contains(p)) || tiles@.contains(p)) by {
                if tiles@.contains(p) {
                    let j = choose|j: int| 0 <= j < tiles@.len() && tiles@[j] == p;
                    assert(set@.contains(flex_key_of(p) as i64));
                }
                if self.known()[grid_id].contains(p) && !(before.contains_key(grid_id) && before[grid_id].contains(p)) {
                    let j = choose|j: int| 0 <= j < tiles@.len() && flex_key_of(p) as i64 == flex_key_of(tiles@[j]);
                    crate::grid::lemma_flex_key_injective(p, tiles@[j]);
                    assert(tiles@[j] == p);
                }
            }
        }
    }
}

} // verus!
