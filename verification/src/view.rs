//! The layout of the screen: where the map, the side column, the log and the
//! info box go.

pub mod camera;
pub mod cockpit_window;
pub mod game_window;

use crate::cfg::{SCREEN_H, SCREEN_W};
use crate::recti::{rect_of, RectI};
use crate::v2i::fits_i32;
use vstd::prelude::*;

verus! {

/// The regions of a screen of the given size.
#[derive(Clone, Copy, Debug)]
pub struct ScreenLayout {
    screen_width: i32,
    screen_height: i32,
    left_column_width: i32,
    bottom_bar_height: i32,
    info_box_width: i32,
}

impl View for ScreenLayout {
    type V = (int, int);

    /// The size of the screen.
    closed spec fn view(&self) -> (int, int) {
        (self.screen_width as int, self.screen_height as int)
    }
}

/// The width of the left column and of the info box.
pub open spec fn left_column() -> int {
    30
}

/// The height of the bar at the bottom.
pub open spec fn bottom_bar() -> int {
    9
}

impl ScreenLayout {
    /// A layout whose left column and info box are 30 cells wide and whose
    /// bottom bar is 9 cells high.
    pub fn new(screen_width: i32, screen_height: i32) -> (r: ScreenLayout)
        ensures
            r@ == (screen_width as int, screen_height as int),
            r.inv(),
    {
        ScreenLayout {
            screen_width,
            screen_height,
            left_column_width: 30,
            bottom_bar_height: 9,
            info_box_width: 30,
        }
    }

    /// The fixed sizes are those `new` gives.
    pub closed spec fn inv(&self) -> bool {
        &&& self.left_column_width == left_column()
        &&& self.bottom_bar_height == bottom_bar()
        &&& self.info_box_width == left_column()
    }

    /// The map: right of the left column, above the bottom bar.
    pub fn get_main_area_rect(&self) -> (r: RectI)
        requires
            self.inv(),
            fits_i32(self@.0 - left_column()),
            fits_i32(self@.1 - bottom_bar()),
        ensures
            r == rect_of(left_column(), 0, self@.0 - left_column(), self@.1 - bottom_bar()),
    {
        RectI::new(
            self.left_column_width,
            0,
            self.screen_width - self.left_column_width,
            self.screen_height - self.bottom_bar_height,
        )
    }

    /// The left column, above the bottom bar, less its border cell.
    pub fn get_left_rect(&self) -> (r: RectI)
        requires
            self.inv(),
            fits_i32(self@.1 - bottom_bar() - 1),
        ensures
            r == rect_of(0, 0, left_column() - 1, self@.1 - bottom_bar() - 1),
    {
        RectI::new(0, 0, self.info_box_width - 1, self.screen_height - self.bottom_bar_height - 1)
    }

    /// The log: the bottom bar right of the info box.
    pub fn get_logs_rect(&self) -> (r: RectI)
        requires
            self.inv(),
            fits_i32(self@.0 - left_column() - 1),
            fits_i32(self@.1 - bottom_bar()),
        ensures
            r == rect_of(
                left_column(),
                self@.1 - bottom_bar(),
                self@.0 - left_column() - 1,
                bottom_bar() - 1,
            ),
    {
        RectI::new(
            self.info_box_width,
            self.screen_height - self.bottom_bar_height,
            self.screen_width - self.info_box_width - 1,
            self.bottom_bar_height - 1,
        )
    }

    /// The info box: the bottom bar under the left column.
    pub fn get_info_rect(&self) -> (r: RectI)
        requires
            self.inv(),
            fits_i32(self@.1 - bottom_bar()),
        ensures
            r == rect_of(0, self@.1 - bottom_bar(), left_column() - 1, bottom_bar() - 1),
    {
        RectI::new(
            0,
            self.screen_height - self.bottom_bar_height,
            self.info_box_width - 1,
            self.bottom_bar_height - 1,
        )
    }
}

/// The whole window.
pub fn get_window_rect() -> (r: RectI)
    ensures
        r == rect_of(0, 0, 120, 100),
{
    RectI::new(0, 0, SCREEN_W, SCREEN_H)
}

} // verus!
