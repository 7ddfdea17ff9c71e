//! A camera: the part of the world that a region of the screen shows.

use crate::models::Position;
use crate::recti::{half, half_of, rect_of, RectI};
use crate::v2i::{fits_i32, V2I};
use vstd::prelude::*;

verus! {

/// The screen region `screen_rect` showing the world region `world_rect` of
/// the grid `grid_id`, both of the same size.
#[derive(Clone, Copy, Debug)]
pub struct Camera {
    pub grid_id: u64,
    screen_rect: RectI,
    world_rect: RectI,
}

/// A cell shown by a camera: where it is on the screen and in the world.
#[derive(Clone, Copy, Debug)]
pub struct CameraCell {
    pub screen_pos: V2I,
    pub world_pos: V2I,
}

impl Camera {
    pub closed spec fn grid(&self) -> u64 {
        self.grid_id
    }

    pub closed spec fn screen(&self) -> RectI {
        self.screen_rect
    }

    pub closed spec fn world(&self) -> RectI {
        self.world_rect
    }

    /// The camera of `screen_rect` centred on `pos`.
    pub fn from_center(pos: Position, screen_rect: RectI) -> (r: Camera)
        requires
            fits_i32(pos.point.x - half(screen_rect.width as int)),
            fits_i32(pos.point.y - half(screen_rect.height as int)),
        ensures
            r.grid() == pos.grid_id,
            r.screen() == screen_rect,
            r.world() == rect_of(
                pos.point.x - half(screen_rect.width as int),
                pos.point.y - half(screen_rect.height as int),
                screen_rect.width as int,
                screen_rect.height as int,
            ),
    {
        Camera {
            grid_id: pos.grid_id,
            screen_rect,
            world_rect: RectI::new(
                pos.point.x - half_of(screen_rect.get_width()),
                pos.point.y - half_of(screen_rect.get_height()),
                screen_rect.get_width(),
                screen_rect.get_height(),
            ),
        }
    }

    pub fn get_world_rect(&self) -> (r: RectI)
        ensures
            r == self.world(),
    {
        self.world_rect
    }

    pub fn get_screen_rect(&self) -> (r: RectI)
        ensures
            r == self.screen(),
    {
        self.screen_rect
    }

    /// The centre of the world region.
    pub fn get_world_center(&self) -> (r: V2I)
        requires
            fits_i32(self.world().x + half(self.world().width as int)),
            fits_i32(self.world().y + half(self.world().height as int)),
        ensures
            r.x == self.world().x + half(self.world().width as int),
            r.y == self.world().y + half(self.world().height as int),
    {
        self.world_rect.center()
    }

    /// Where the world point `p` shows on the screen.
    pub fn world_to_screen(&self, p: V2I) -> (r: V2I)
        requires
            fits_i32(p.x + self.screen().x),
            fits_i32(p.y + self.screen().y),
            fits_i32(p.x + self.screen().x - self.world().x),
            fits_i32(p.y + self.screen().y - self.world().y),
        ensures
            r.x == p.x + self.screen().x - self.world().x,
            r.y == p.y + self.screen().y - self.world().y,
    {
        p + self.screen_rect.get_xy() - self.world_rect.get_xy()
    }

    /// The world point shown at the screen point `p`.
    pub fn screen_to_world(&self, p: V2I) -> (r: V2I)
        requires
            fits_i32(p.x - self.screen().x),
            fits_i32(p.y - self.screen().y),
            fits_i32(p.x - self.screen().x + self.world().x),
            fits_i32(p.y - self.screen().y + self.world().y),
        ensures
            r.x == p.x - self.screen().x + self.world().x,
            r.y == p.y - self.screen().y + self.world().y,
    {
        p - self.screen_rect.get_xy() + self.world_rect.get_xy()
    }

    /// True when the camera shows the world point `p`.
    pub fn in_world(&self, p: V2I) -> (r: bool)
        ensures
            r == crate::recti::inside(
                self.world().x as int,
                self.world().y as int,
                self.world().width as int,
                self.world().height as int,
                p,
            ),
    {
        self.world_rect.is_inside(&p)
    }

    /// Every cell the camera shows, row by row: the `i`-th is at column
    /// `i % width` and row `i / width` of the screen region.
    pub fn list_cells(&self) -> (r: Vec<CameraCell>)
        requires
            self.screen().width > 0,
            self.screen().height >= 0,
            self.screen().width * self.screen().height <= i32::MAX,
            fits_i32(self.screen().x + self.screen().width - 1),
            fits_i32(self.screen().y + self.screen().height - 1),
            fits_i32(self.world().x + self.screen().width - 1),
            fits_i32(self.world().y + self.screen().height - 1),
        ensures
            r@.len() == self.screen().width * self.screen().height,
            forall|i: int|
                0 <= i < r@.len() ==> {
                    let x = i % (self.screen().width as int);
                    let y = i / (self.screen().width as int);
                    &&& (#[trigger] r@[i]).screen_pos.x == x + self.screen().x
                    &&& r@[i].screen_pos.y == y + self.screen().y
                    &&& r@[i].world_pos.x == x + self.world().x
                    &&& r@[i].world_pos.y == y + self.world().y
                },
    {
        let w = self.screen_rect.width;
        let h = self.screen_rect.height;
        let ghost s = self.screen();
        let ghost wr = self.world();
        let mut list: Vec<CameraCell> = Vec::new();
        let mut y: i32 = 0;
        while y < h
            invariant
                s == self.screen(),
                wr == self.world(),
                w == s.width,
                h == s.height,
                w > 0,
                w * h <= i32::MAX,
                0 <= y <= h,
                fits_i32(s.x + s.width - 1),
                fits_i32(s.y + s.height - 1),
                fits_i32(wr.x + s.width - 1),
                fits_i32(wr.y + s.height - 1),
                list@.len() == y * w,
                forall|i: int|
                    0 <= i < list@.len() ==> {
                        let x = i % (w as int);
                        let yy = i / (w as int);
                        &&& (#[trigger] list@[i]).screen_pos.x == x + s.x
                        &&& list@[i].screen_pos.y == yy + s.y
                        &&& list@[i].world_pos.x == x + wr.x
                        &&& list@[i].world_pos.y == yy + wr.y
                    },
            decreases h - y,
        {
            let mut x: i32 = 0;
            while x < w
                invariant
                    s == self.screen(),
                    wr == self.world(),
                    w == s.width,
                    h == s.height,
                    w > 0,
                    w * h <= i32::MAX,
                    0 <= y < h,
                    0 <= x <= w,
                    fits_i32(s.x + s.width - 1),
                    fits_i32(s.y + s.height - 1),
                    fits_i32(wr.x + s.width - 1),
                    fits_i32(wr.y + s.height - 1),
                    list@.len() == y * w + x,
                    forall|i: int|
                        0 <= i < list@.len() ==> {
                            let xx = i % (w as int);
                            let yy = i / (w as int);
                            &&& (#[trigger] list@[i]).screen_pos.x == xx + s.x
                            &&& list@[i].screen_pos.y == yy + s.y
                            &&& list@[i].world_pos.x == xx + wr.x
                            &&& list@[i].world_pos.y == yy + wr.y
                        },
                decreases w - x,
            {
                assert(fits_i32(x + s.x) && fits_i32(y + s.y) && fits_i32(x + wr.x) && fits_i32(
                    y + wr.y,
                ));
                let screen_pos = V2I::new(x + self.screen_rect.x, y + self.screen_rect.y);
                let world_pos = V2I::new(x + self.world_rect.x, y + self.world_rect.y);
                proof {
                    let i = y * w + x;
                    vstd::arithmetic::div_mod::lemma_fundamental_div_mod_converse(
                        i as int,
                        w as int,
                        y as int,
                        x as int,
                    );
                }
                list.push(CameraCell { screen_pos, world_pos });
                x = x + 1;
            }
            proof {
                assert((y + 1) * w == y * w + w) by (nonlinear_arith);
            }
            y = y + 1;
        }
        assert(y * w == w * h) by (nonlinear_arith)
            requires
                y == h,
        ;
        list
    }
}

/// Going from the world to the screen and back gives the world point again.
pub proof fn lemma_camera_roundtrip(screen: RectI, world: RectI, p: V2I)
    requires
        fits_i32(p.x + screen.x - world.x),
        fits_i32(p.y + screen.y - world.y),
    ensures
        (p.x + screen.x - world.x) - screen.x + world.x == p.x,
        (p.y + screen.y - world.y) - screen.y + world.y == p.y,
{
}

} // verus!
