//! The ground an area is made of, and its cells.

use crate::grid::{eight_neighbours, index_of, index_to_coord, local_of, top_layer, Coord, Grid, GridCell, NGrid, PGrid};
use crate::models::{BasicEntity, Position};
use crate::v2i::{can_add, V2I};
use crate::seqs::lemma_filter_push;
use vstd::prelude::*;

verus! {

/// What fills a cell of an area.
#[derive(Clone, Copy, Debug, PartialEq, Eq, Structural)]
pub enum Tile {
    Ground,
    Floor,
    Wall,
    Space,
    /// Outside of any map: behaves as nothing at all.
    OutOfMap,
}

impl Tile {
    /// Walls, and what is outside the map, block the sight.
    pub fn is_opaque(&self) -> (r: bool)
        ensures
            r == (*self == Tile::Wall || *self == Tile::OutOfMap),
    {
        match self {
            Tile::Wall => true,
            Tile::OutOfMap => true,
            _ => false,
        }
    }

    /// Space, and what is outside the map, hold nothing.
    pub fn is_nothing(&self) -> (r: bool)
        ensures
            r == (*self == Tile::Space || *self == Tile::OutOfMap),
    {
        match self {
            Tile::Space => true,
            Tile::OutOfMap => true,
            _ => false,
        }
    }
}

impl Default for Tile {
    /// Empty space.
    fn default() -> (r: Tile)
        ensures
            r == Tile::Space,
    {
        Tile::Space
    }
}

/// A cell of an area: its tile and the objects standing on it.
#[derive(Clone, Debug)]
pub struct Cell {
    pub tile: Tile,
    pub objects: Vec<BasicEntity>,
}

impl Cell {
    /// A cell of `tile` with nothing on it.
    pub fn new(tile: Tile) -> (r: Cell)
        ensures
            r.tile == tile,
            r.objects@ == Seq::<BasicEntity>::empty(),
    {
        Cell { tile, objects: Vec::new() }
    }

    /// Takes every object off the cell.
    pub fn clear(&mut self)
        ensures
            final(self).tile == old(self).tile,
            final(self).objects@ == Seq::<BasicEntity>::empty(),
    {
        self.objects.clear();
    }

    /// The cell blocks the sight.
    pub fn is_opaque(&self) -> (r: bool)
        ensures
            r == (self.tile == Tile::Wall || self.tile == Tile::OutOfMap),
    {
        self.tile.is_opaque()
    }

    /// The cell can be walked on: it does not block the sight.
    pub fn is_walkable(&self) -> (r: bool)
        ensures
            r == !(self.tile == Tile::Wall || self.tile == Tile::OutOfMap),
    {
        !self.tile.is_opaque()
    }
}

impl Default for Cell {
    /// A cell of space with nothing on it.
    fn default() -> (r: Cell)
        ensures
            r.tile == Tile::Space,
            r.objects@ == Seq::<BasicEntity>::empty(),
    {
        Cell::new(Tile::Space)
    }
}

impl GridCell for Cell {
    /// A cell of space, or out of the map, is empty.
    open spec fn empty_cell(&self) -> bool {
        self.tile == Tile::Space || self.tile == Tile::OutOfMap
    }

    fn is_empty(&self) -> (r: bool) {
        self.tile.is_nothing()
    }
}

/// An area: grids of cells layered on top of each other (see `NGrid`), and the
/// entity that owns each layer, in the same order.
#[derive(Clone, Debug)]
pub struct Area {
    grid: NGrid<Cell>,
    layers: Vec<u64>,
}

/// The first position of `id` in `ids`.
pub open spec fn first_index(ids: Seq<u64>, id: u64) -> int {
    choose|i: int| 0 <= i < ids.len() && ids[i] == id && forall|j: int| 0 <= j < i ==> ids[j] != id
}

/// The first position in `objs` of an object of entity `id`.
pub open spec fn first_object(objs: Seq<BasicEntity>, id: u64) -> int {
    choose|i: int| 0 <= i < objs.len() && objs[i].id == id && forall|j: int| 0 <= j < i ==> objs[j].id != id
}

/// `r` is the cell `c` less its first object of entity `id` (the last object
/// taking its place), with that object; or `c` itself and `None` when no object
/// of `id` is on `c`.
pub open spec fn takes_entity(c: Cell, id: u64, r: (Cell, Option<BasicEntity>)) -> bool {
    &&& r.0.tile == c.tile
    &&& match r.1 {
        Some(e) => {
            let i = first_object(c.objects@, id);
            &&& 0 <= i < c.objects@.len()
            &&& e == c.objects@[i]
            &&& e.id == id
            &&& r.0.objects@ == c.objects@.update(i, c.objects@.last()).drop_last()
        },
        None => (forall|k: int| 0 <= k < c.objects@.len() ==> (#[trigger] c.objects@[k]).id != id)
            && r.0.objects@ == c.objects@,
    }
}

/// Takes the first object of entity `id` off the cell `c` (see `takes_entity`).
pub fn take_entity(cell: Cell, id: u64) -> (r: (Cell, Option<BasicEntity>))
    ensures
        takes_entity(cell, id, r),
{
    let ghost start = cell;
    let mut c = cell;
    let ghost objs = c.objects@;
    let mut i: usize = 0;
    while i < c.objects.len()
        invariant
            start == cell,
            c == start,
            c.objects@ == objs,
            i <= objs.len(),
            forall|j: int| 0 <= j < i ==> (#[trigger] objs[j]).id != id,
        decreases objs.len() - i,
    {
        if c.objects[i].id == id {
            proof {
                let f = first_object(objs, id);
                assert(0 <= i < objs.len() && objs[i as int].id == id && forall|j: int| 0 <= j < i ==> objs[j].id != id);
                if f != i {
                    if f < i {
                        assert(objs[f].id != id);
                    } else {
                        assert(objs[i as int].id != id);
                    }
                }
            }
            let e = c.objects.swap_remove(i);
            assert(takes_entity(start, id, (c, Some(e))));
            return (c, Some(e));
        }
        i = i + 1;
    }
    assert(forall|k: int| 0 <= k < start.objects@.len() ==> (#[trigger] start.objects@[k]).id != id);
    (c, None)
}

/// `after` is `before` with `be` put on the cell that shows at `point`, after
/// the objects already there; every other cell and layer stays as it was.
pub open spec fn object_added(before: NGrid<Cell>, point: V2I, be: BasicEntity, after: NGrid<Cell>) -> bool {
    &&& after.layers().len() == before.layers().len()
    &&& exists|l: usize|
        #[trigger] top_layer(before.layers(), point, Some(l)) && {
            let b = before.layers()[l as int];
            let a = after.layers()[l as int];
            let i = index_of(b.grid.width as int, local_of(b.pos, point));
            &&& forall|j: int|
                0 <= j < before.layers().len() && j != l ==> #[trigger] after.layers()[j] == before.layers()[j]
            &&& a.pos == b.pos
            &&& a.grid.width == b.grid.width
            &&& a.grid.height == b.grid.height
            &&& a.grid.list@.len() == b.grid.list@.len()
            &&& forall|k: int| 0 <= k < b.grid.list@.len() && k != i ==> #[trigger] a.grid.list@[k] == b.grid.list@[k]
            &&& a.grid.list@[i].tile == b.cell_at(point).tile
            &&& a.grid.list@[i].objects@ == b.cell_at(point).objects@.push(be)
        }
}

/// `after` is `before` with the first object of entity `id` taken off the
/// cell that shows at `point` (see `takes_entity`), that object being `r`;
/// every other cell stays as it was, and no layer moves or changes size.
pub open spec fn entity_taken(before: NGrid<Cell>, id: u64, point: V2I, after: NGrid<Cell>, r: BasicEntity) -> bool {
    &&& after.layers().len() == before.layers().len()
    &&& forall|j: int|
        0 <= j < before.layers().len() ==> {
            &&& (#[trigger] after.layers()[j]).pos == before.layers()[j].pos
            &&& after.layers()[j].grid.width == before.layers()[j].grid.width
            &&& after.layers()[j].grid.height == before.layers()[j].grid.height
        }
    &&& exists|l: usize|
        #[trigger] top_layer(before.layers(), point, Some(l)) && {
            let b = before.layers()[l as int];
            let a = after.layers()[l as int];
            let i = index_of(b.grid.width as int, local_of(b.pos, point));
            &&& forall|j: int|
                0 <= j < before.layers().len() && j != l ==> #[trigger] after.layers()[j] == before.layers()[j]
            &&& a.grid.list@.len() == b.grid.list@.len()
            &&& forall|k: int| 0 <= k < b.grid.list@.len() && k != i ==> #[trigger] a.grid.list@[k] == b.grid.list@[k]
            &&& takes_entity(b.cell_at(point), id, (a.grid.list@[i], Some(r)))
        }
}

/// Some layer of `g` covers `c`.
pub open spec fn covered(g: NGrid<Cell>, c: V2I) -> bool {
    exists|j: int| 0 <= j < g.layers().len() && (#[trigger] g.layers()[j]).contains(c)
}

impl Area {
    /// The layered grid.
    pub closed spec fn grid_view(&self) -> NGrid<Cell> {
        self.grid
    }

    /// The owner of each layer.
    pub closed spec fn layer_ids(&self) -> Seq<u64> {
        self.layers@
    }

    pub fn new(grid: NGrid<Cell>, layers: Vec<u64>) -> (r: Area)
        ensures
            r.grid_view() == grid,
            r.layer_ids() == layers@,
    {
        Area { grid, layers }
    }

    /// An area of the single grid `grid`, owned by `id`.
    pub fn from(id: u64, grid: Grid<Cell>) -> (r: Area)
        ensures
            r.grid_view().layers() == seq![PGrid { pos: V2I { x: 0, y: 0 }, grid: grid }],
            r.layer_ids() == seq![id],
    {
        Area::new(NGrid::from_grid(grid), vec![id])
    }

    /// The owner of the layer that shows at `coord`, if any.
    pub fn get_layer_entity_at(&self, coord: &V2I) -> (r: Option<u64>)
        requires
            self.grid_view().wf(),
        ensures
            exists|l: Option<usize>|
                #[trigger] top_layer(self.grid_view().layers(), *coord, l) && r == match l {
                    Some(i) => if i < self.layer_ids().len() {
                        Some(self.layer_ids()[i as int])
                    } else {
                        None::<u64>
                    },
                    None => None::<u64>,
                },
    {
        let layer = self.grid.get_layer(coord);
        let r = match layer {
            Some(index) => if index < self.layers.len() {
                Some(self.layers[index])
            } else {
                None
            },
            None => None,
        };
        assert(top_layer(self.grid_view().layers(), *coord, layer));
        r
    }

    pub fn get_grid(&self) -> (r: &NGrid<Cell>)
        ensures
            *r == self.grid_view(),
    {
        &self.grid
    }

    /// The layered grid, to change in place; the owners stay as they are.
    pub fn get_grid_mut(&mut self) -> (r: &mut NGrid<Cell>)
        ensures
            *r == old(self).grid_view(),
            final(self).grid_view() == *final(r),
            final(self).layer_ids() == old(self).layer_ids(),
    {
        &mut self.grid
    }

    /// Puts the layers of `gmap` on top, moved by `pos`, with their owners.
    pub fn merge(&mut self, gmap: Area, pos: &V2I)
        requires
            forall|i: int|
                0 <= i < gmap.grid_view().layers().len() ==> can_add(
                    #[trigger] gmap.grid_view().layers()[i].pos,
                    *pos,
                ),
        ensures
            final(self).grid_view().layers() == old(self).grid_view().layers() + gmap.grid_view().layers().map_values(
                |l: PGrid<Cell>| crate::grid::shifted(l, *pos),
            ),
            final(self).layer_ids() == old(self).layer_ids() + gmap.layer_ids(),
    {
        assert forall|i: int| 0 <= i < gmap.grid.layers().len() implies can_add(
            #[trigger] gmap.grid.layers()[i].pos,
            *pos,
        ) by {
            assert(gmap.grid_view().layers()[i] == gmap.grid.layers()[i]);
        }
        self.grid.merge(gmap.grid, pos);
        let mut others = gmap.layers;
        self.layers.append(&mut others);
    }

    /// True when `grid_id` owns a layer.
    pub fn contains_layer(&self, grid_id: u64) -> (r: bool)
        ensures
            r == self.layer_ids().contains(grid_id),
    {
        let mut i: usize = 0;
        while i < self.layers.len()
            invariant
                i <= self.layers@.len(),
                forall|j: int| 0 <= j < i ==> self.layers@[j] != grid_id,
            decreases self.layers@.len() - i,
        {
            if self.layers[i] == grid_id {
                assert(self.layers@[i as int] == grid_id);
                return true;
            }
            i = i + 1;
        }
        false
    }

    pub fn get_layers(&self) -> (r: &Vec<u64>)
        ensures
            r@ == self.layer_ids(),
    {
        &self.layers
    }

    fn position_of(&self, id: u64) -> (r: Option<usize>)
        ensures
            match r {
                Some(i) => i == first_index(self.layer_ids(), id) && i < self.layer_ids().len()
                    && self.layer_ids()[i as int] == id,
                None => !self.layer_ids().contains(id),
            },
    {
        let mut i: usize = 0;
        while i < self.layers.len()
            invariant
                i <= self.layers@.len(),
                forall|j: int| 0 <= j < i ==> self.layers@[j] != id,
            decreases self.layers@.len() - i,
        {
            if self.layers[i] == id {
                let ghost ids = self.layer_ids();
                assert(0 <= i < ids.len() && ids[i as int] == id && forall|j: int| 0 <= j < i ==> ids[j] != id);
                proof {
                    let c = first_index(ids, id);
                    if c != i {
                        if c < i {
                            assert(ids[c] != id);
                        } else {
                            assert(ids[i as int] != id);
                        }
                    }
                }
                return Some(i);
            }
            i = i + 1;
        }
        None
    }

    /// Takes out the first layer that `entity` owns, as an area of its own (its
    /// grid placed at the origin), with the place the layer had; `None`, and
    /// nothing changed, when `entity` owns no layer.
    pub fn remove_layer(&mut self, entity: u64) -> (r: Option<(Area, V2I)>)
        requires
            old(self).grid_view().layers().len() == old(self).layer_ids().len(),
        ensures
            !old(self).layer_ids().contains(entity) ==> r is None && final(self).grid_view() == old(self).grid_view() && final(self).layer_ids() == old(self).layer_ids(),
            old(self).layer_ids().contains(entity) ==> {
                let i = first_index(old(self).layer_ids(), entity);
                &&& final(self).layer_ids() == old(self).layer_ids().remove(i)
                &&& final(self).grid_view().layers() == old(self).grid_view().layers().remove(i)
                &&& r matches Some((a, p)) && {
                    &&& p == old(self).grid_view().layers()[i].pos
                    &&& a.layer_ids() == seq![entity]
                    &&& a.grid_view().layers() == seq![
                        PGrid { pos: V2I { x: 0, y: 0 }, grid: old(self).grid_view().layers()[i].grid },
                    ]
                }
            },
    {
        let index = match self.position_of(entity) {
            Some(i) => i,
            None => return None,
        };
        self.layers.remove(index);
        let pos = self.grid.get_layer_pos(index);
        let removed = self.grid.remove(index, Cell::new(Tile::Space));
        Some((Area::new(removed, vec![entity]), pos))
    }

    /// The objects on the cell that shows at `point`.
    pub fn list_objects_at(&self, point: V2I) -> (r: &Vec<BasicEntity>)
        requires
            self.grid_view().wf(),
            covered(self.grid_view(), point),
        ensures
            exists|l: usize|
                #[trigger] top_layer(self.grid_view().layers(), point, Some(l)) && r@
                    == self.grid_view().layers()[l as int].cell_at(point).objects@,
    {
        let cell = self.grid.get_at(&point);
        match cell {
            Some(c) => &c.objects,
            None => {
                proof {
                    let j = choose|j: int|
                        0 <= j < self.grid_view().layers().len() && (#[trigger] self.grid_view().layers()[j]).contains(point);
                    let l = choose|l: Option<usize>| top_layer(self.grid_view().layers(), point, l) && l is None;
                    assert(!self.grid_view().layers()[j].contains(point));
                }
                unreached()
            },
        }
    }

    /// Takes every object off every cell.
    pub fn clear_objects(&mut self)
        ensures
            final(self).layer_ids() == old(self).layer_ids(),
            final(self).grid_view().layers().len() == old(self).grid_view().layers().len(),
            forall|j: int|
                0 <= j < old(self).grid_view().layers().len() ==> {
                    let before = old(self).grid_view().layers()[j];
                    let after = #[trigger] final(self).grid_view().layers()[j];
                    &&& after.pos == before.pos
                    &&& after.grid.width == before.grid.width
                    &&& after.grid.height == before.grid.height
                    &&& after.grid.list@.len() == before.grid.list@.len()
                    &&& forall|k: int|
                        0 <= k < before.grid.list@.len() ==> (#[trigger] after.grid.list@[k]).tile
                            == before.grid.list@[k].tile && after.grid.list@[k].objects@.len() == 0
                },
    {
        let clear = |c: &Cell| -> (r: Cell)
            ensures
                r.tile == c.tile,
                r.objects@.len() == 0,
            { Cell::new(c.tile) };
        self.grid.update_all(clear);
    }

    /// Puts `basic_entity` on the cell that shows at `point`, after the objects
    /// already there.
    pub fn add_object(&mut self, point: V2I, basic_entity: BasicEntity)
        requires
            old(self).grid_view().wf(),
            covered(old(self).grid_view(), point),
        ensures
            final(self).grid_view().wf(),
            final(self).layer_ids() == old(self).layer_ids(),
            object_added(old(self).grid_view(), point, basic_entity, final(self).grid_view()),
    {
        let add = |c: Cell| -> (r: (Cell, bool))
            ensures
                r.0.tile == c.tile,
                r.0.objects@ == c.objects@.push(basic_entity),
            {
                let mut c = c;
                c.objects.push(basic_entity);
                (c, true)
            };
        let done = self.grid.update_at(&point, add);
        proof {
            let l = choose|l: Option<usize>| #[trigger] top_layer(old(self).grid_view().layers(), point, l) && match l {
                None => done is None && self.grid_view().layers() == old(self).grid_view().layers(),
                Some(l) => true,
            };
            if l is None {
                let j = choose|j: int|
                    0 <= j < old(self).grid_view().layers().len() && (#[trigger] old(self).grid_view().layers()[j]).contains(point);
                assert(!old(self).grid_view().layers()[j].contains(point));
            }
        }
    }

    /// Takes the first object of entity `id` off the cell that shows at
    /// `point` (the last object of the cell taking its place), and returns it.
    #[verifier::rlimit(50)]
    pub fn remove_entity(&mut self, id: u64, point: V2I) -> (r: BasicEntity)
        requires
            old(self).grid_view().wf(),
            exists|l: usize|
                #[trigger] top_layer(old(self).grid_view().layers(), point, Some(l)) && exists|k: int|
                    0 <= k < old(self).grid_view().layers()[l as int].cell_at(point).objects@.len()
                        && (#[trigger] old(self).grid_view().layers()[l as int].cell_at(point).objects@[k]).id
                        == id,
        ensures
            r.id == id,
            final(self).grid_view().wf(),
            final(self).layer_ids() == old(self).layer_ids(),
            final(self).grid_view().layers().len() == old(self).grid_view().layers().len(),
            forall|j: int|
                0 <= j < old(self).grid_view().layers().len() ==> {
                    &&& (#[trigger] final(self).grid_view().layers()[j]).pos == old(self).grid_view().layers()[j].pos
                    &&& final(self).grid_view().layers()[j].grid.width == old(self).grid_view().layers()[j].grid.width
                    &&& final(self).grid_view().layers()[j].grid.height == old(self).grid_view().layers()[j].grid.height
                },
            exists|l: usize|
                #[trigger] top_layer(old(self).grid_view().layers(), point, Some(l)) && {
                    let before = old(self).grid_view().layers()[l as int];
                    let after = final(self).grid_view().layers()[l as int];
                    let i = index_of(before.grid.width as int, local_of(before.pos, point));
                    &&& forall|j: int|
                        0 <= j < old(self).grid_view().layers().len() && j != l ==> #[trigger] final(self).grid_view().layers()[j]
                            == old(self).grid_view().layers()[j]
                    &&& after.grid.list@.len() == before.grid.list@.len()
                    &&& forall|k: int|
                        0 <= k < before.grid.list@.len() && k != i ==> #[trigger] after.grid.list@[k]
                            == before.grid.list@[k]
                    &&& takes_entity(before.cell_at(point), id, (after.grid.list@[i], Some(r)))
                },
    {
        let take = |c: Cell| -> (r: (Cell, Option<BasicEntity>))
            ensures
                takes_entity(c, id, r),
            { take_entity(c, id) };
        let taken = self.grid.update_at(&point, take);
        proof {
            let l = choose|l: usize| #[trigger] top_layer(old(self).grid_view().layers(), point, Some(l)) && exists|k: int|
                0 <= k < old(self).grid_view().layers()[l as int].cell_at(point).objects@.len()
                    && (#[trigger] old(self).grid_view().layers()[l as int].cell_at(point).objects@[k]).id == id;
            let m = choose|m: Option<usize>| #[trigger] top_layer(old(self).grid_view().layers(), point, m) && match m {
                None => taken is None && self.grid_view().layers() == old(self).grid_view().layers(),
                Some(m) => true,
            };
            crate::grid::lemma_top_layer_unique(old(self).grid_view().layers(), point, Some(l), m);
            let k = choose|k: int|
                0 <= k < old(self).grid_view().layers()[l as int].cell_at(point).objects@.len()
                    && (#[trigger] old(self).grid_view().layers()[l as int].cell_at(point).objects@[k]).id == id;
            assert(old(self).grid_view().layers()[l as int].cell_at(point).objects@[k].id == id);
        }
        match taken {
            Some(Some(e)) => e,
            _ => unreached(),
        }
    }

    /// Moves the object of entity `id` from the cell that shows at `from` to
    /// the cell that shows at `to` (see `remove_entity` and `add_object`).
    pub fn move_object(&mut self, id: u64, from: Position, to: Position)
        requires
            old(self).grid_view().wf(),
            exists|l: usize|
                #[trigger] top_layer(old(self).grid_view().layers(), from.point, Some(l)) && exists|k: int|
                    0 <= k < old(self).grid_view().layers()[l as int].cell_at(from.point).objects@.len()
                        && (#[trigger] old(self).grid_view().layers()[l as int].cell_at(from.point).objects@[k]).id
                        == id,
            covered(old(self).grid_view(), to.point),
        ensures
            final(self).grid_view().wf(),
            final(self).layer_ids() == old(self).layer_ids(),
            exists|mid: NGrid<Cell>, e: BasicEntity|
                e.id == id && #[trigger] entity_taken(old(self).grid_view(), id, from.point, mid, e)
                    && object_added(mid, to.point, e, final(self).grid_view()),
    {
        let be = self.remove_entity(id, from.point);
        let ghost mid = self.grid_view();
        proof {
            let j = choose|j: int|
                0 <= j < old(self).grid_view().layers().len() && (#[trigger] old(self).grid_view().layers()[j]).contains(to.point);
            assert(self.grid_view().layers()[j].contains(to.point));
        }
        self.add_object(to.point, be);
        assert(entity_taken(old(self).grid_view(), id, from.point, mid, be));
    }
}

/// The tile that shows at `c`: that of the layer that answers there (see
/// `top_layer`), if any layer covers `c`.
pub open spec fn shown_tile(g: NGrid<Cell>, c: V2I) -> Option<Tile> {
    if exists|l: usize| #[trigger] top_layer(g.layers(), c, Some(l)) {
        Some(g.layers()[(choose|l: usize| #[trigger] top_layer(g.layers(), c, Some(l))) as int].cell_at(c).tile)
    } else {
        None
    }
}

/// A tile blocks sight and moves when it is a wall or out of the map; where
/// nothing shows, everything is blocked.
pub open spec fn blocks(t: Option<Tile>) -> bool {
    match t {
        Some(t) => t == Tile::Wall || t == Tile::OutOfMap,
        None => true,
    }
}

/// The tile that shows at `c`.
pub fn tile_shown(grid: &NGrid<Cell>, c: &Coord) -> (r: Option<Tile>)
    requires
        grid.wf(),
    ensures
        r == shown_tile(*grid, *c),
{
    let cell = grid.get_at(c);
    proof {
        let l = choose|l: Option<usize>|
            top_layer(grid.layers(), *c, l) && match l {
                Some(l) => cell == Some(&grid.layers()[l as int].cell_at(*c)),
                None => cell.is_none(),
            };
        if let Some(k) = l {
            let m = choose|m: usize| #[trigger] top_layer(grid.layers(), *c, Some(m));
            crate::grid::lemma_top_layer_unique(grid.layers(), *c, Some(k), Some(m));
        } else {
            if exists|m: usize| #[trigger] top_layer(grid.layers(), *c, Some(m)) {
                let m = choose|m: usize| #[trigger] top_layer(grid.layers(), *c, Some(m));
                crate::grid::lemma_top_layer_unique(grid.layers(), *c, None, Some(m));
            }
        }
    }
    match cell {
        Some(x) => Some(x.tile),
        None => None,
    }
}

/// The cell at `index` of a grid `width` cells wide.
pub open spec fn cell_at_index(width: int, index: int) -> V2I {
    V2I { x: (index % width) as i32, y: (index / width) as i32 }
}

/// True when the cell at `idx` of the bottom layer's frame blocks sight.
pub fn opaque_at(grid: &NGrid<Cell>, idx: usize) -> (r: bool)
    requires
        grid.wf(),
        grid.layers().len() > 0,
        grid.layers()[0].grid.width > 0,
        idx <= i32::MAX,
    ensures
        r == blocks(shown_tile(*grid, cell_at_index(grid.layers()[0].grid.width as int, idx as int))),
{
    let w = grid.get_width();
    let c = index_to_coord(w, idx as i32);
    let t = tile_shown(grid, &c);
    match t {
        Some(t) => t.is_opaque(),
        None => true,
    }
}

/// The neighbours of a cell that a walk may go to: those inside the bottom
/// layer whose shown tile does not block.
pub open spec fn is_exit(g: NGrid<Cell>) -> spec_fn(V2I) -> bool {
    |n: V2I| g.layers()[0].contains(n) && !blocks(shown_tile(g, n))
}

/// The index of a cell in the bottom layer's frame.
pub open spec fn exit_index(g: NGrid<Cell>) -> spec_fn(V2I) -> usize {
    |n: V2I| index_of(g.layers()[0].grid.width as int, n) as usize
}

/// The cells a walk from the cell at `idx` may step to: its eight neighbours,
/// clockwise from north, that lie in the bottom layer (placed at the origin)
/// and whose shown tile does not block, as indexes.
pub fn walkable_exits(grid: &NGrid<Cell>, idx: usize) -> (r: Vec<usize>)
    requires
        grid.wf(),
        grid.layers().len() > 0,
        grid.layers()[0].pos == (V2I { x: 0, y: 0 }),
        grid.layers()[0].grid.width > 0,
        idx < i32::MAX,
    ensures
        r@ == eight_neighbours(cell_at_index(grid.layers()[0].grid.width as int, idx as int)).filter(
            is_exit(*grid),
        ).map_values(exit_index(*grid)),
{
    let w = grid.get_width();
    let c = index_to_coord(w, idx as i32);
    assert(0 <= c.y <= idx) by (nonlinear_arith)
        requires
            c.y == idx as int / w as int,
            w >= 1,
            idx >= 0,
    ;
    let nbrs = crate::grid::get_8_neighbours(&c);
    let ghost pred = is_exit(*grid);
    let ghost f = exit_index(*grid);
    let mut r: Vec<usize> = Vec::new();
    let mut k: usize = 0;
    while k < nbrs.len()
        invariant
            grid.wf(),
            grid.layers().len() > 0,
            grid.layers()[0].pos == (V2I { x: 0, y: 0 }),
            w == grid.layers()[0].grid.width,
            w > 0,
            pred == is_exit(*grid),
            f == exit_index(*grid),
            k <= nbrs@.len(),
            r@ == nbrs@.take(k as int).filter(pred).map_values(f),
        decreases nbrs@.len() - k,
    {
        let n = nbrs[k];
        proof {
            assert(nbrs@.take(k + 1) =~= nbrs@.take(k as int).push(n));
            lemma_filter_push(nbrs@.take(k as int), n, pred);
        }
        if grid.is_valid(&n) {
            let t = tile_shown(grid, &n);
            let blocked = match t {
                Some(t) => t.is_opaque(),
                None => true,
            };
            if !blocked {
                assert(grid.layers()[0].grid.wf());
                assert(0 <= n.y * w + n.x < w * grid.layers()[0].grid.height) by (nonlinear_arith)
                    requires
                        0 <= n.x < w,
                        0 <= n.y < grid.layers()[0].grid.height,
                ;
                let i = crate::grid::coords_to_index(w, &n);
                r.push(i as usize);
                assert(r@ =~= nbrs@.take(k + 1).filter(pred).map_values(f));
            } else {
                assert(r@ =~= nbrs@.take(k + 1).filter(pred).map_values(f));
            }
        } else {
            assert(r@ =~= nbrs@.take(k + 1).filter(pred).map_values(f));
        }
        k = k + 1;
    }
    assert(nbrs@.take(nbrs@.len() as int) =~= nbrs@);
    r
}

} // verus!
