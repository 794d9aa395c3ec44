//! The part of the world the camera shows.
use crate::gamedata::{CAM_H, CAM_W};
use crate::rect::Rect;
use vstd::prelude::*;

verus! {

/// The camera's view of the world: a screen-sized rectangle in world
/// coordinates. The images drawn in it are kept by the program that draws.
#[derive(PartialEq, Eq, Debug, Copy, Clone, Structural)]
pub struct Background {
    pub curr_bg: Rect,
}

/// The view centred on a body at (`x`, `y`) of size `w` x `h`.
pub open spec fn view_around(x: int, y: int, w: int, h: int) -> Rect {
    Rect::spec_new(x + w / 2 - CAM_W / 2, y + h / 2 - CAM_H / 2, CAM_W as int, CAM_H as int)
}

impl Background {
    pub fn new(curr_bg: Rect) -> (b: Background)
        ensures
            b.curr_bg == curr_bg,
    {
        Background { curr_bg }
    }

    /// Centres the view on a body at (`x`, `y`) of size `w` x `h`.
    pub fn set_curr_background(&mut self, x: i32, y: i32, w: u32, h: u32)
        requires
            -1_000_000_000 <= x <= 1_000_000_000,
            -1_000_000_000 <= y <= 1_000_000_000,
            w <= 1_000_000_000,
            h <= 1_000_000_000,
        ensures
            final(self).curr_bg == view_around(x as int, y as int, w as int, h as int),
    {
        self.curr_bg = Rect::new(
            (x + (w / 2) as i32) - (CAM_W / 2) as i32,
            (y + (h / 2) as i32) - (CAM_H / 2) as i32,
            CAM_W,
            CAM_H,
        );
    }

    pub fn get_curr_background(&self) -> (r: Rect)
        ensures
            r == self.curr_bg,
    {
        self.curr_bg
    }
}

} // verus!
