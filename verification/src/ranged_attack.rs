//! A ranged attack that slides out from where it started, frame by frame.
use crate::player::clamp_i32;
use crate::player::clampi;
use crate::rect::{clamped_position, Rect};
use vstd::prelude::*;

verus! {

const TILE_SIZE: u32 = 64;

#[derive(PartialEq, Eq, Debug, Copy, Clone, Structural)]
pub struct RangedAttack {
    pub start_p: Rect,
    pub pos: Rect,
    pub src: Rect,
    pub use_ability: bool,
    pub frame: i32,
}

/// `a % b` as Rust computes it: the sign follows `a`.
pub open spec fn trunc_rem(a: int, b: int) -> int {
    if a >= 0 { a % b } else { -((-a) % b) }
}

/// How far the attack has slid out at `frame`: nothing for the first six
/// frames, then 16 pixels a frame.
pub open spec fn slide(start: int, frame: int) -> int {
    if frame < 6 { start } else { start + (frame - 6) * 16 }
}

impl RangedAttack {
    pub fn new(start_p: Rect, pos: Rect, use_ability: bool, frame: i32) -> (r: RangedAttack)
        ensures
            r == (RangedAttack { start_p, pos, src: Rect::spec_new(0, 0, 64, 64), use_ability, frame }),
    {
        RangedAttack { start_p, pos, src: Rect::new(0, 0, TILE_SIZE, TILE_SIZE), use_ability, frame }
    }

    /// Starts the attack at (`x`, `y`).
    pub fn start_pos(&mut self, x: i32, y: i32)
        ensures
            *final(self) == (RangedAttack {
                start_p: Rect { x, y, ..old(self).start_p },
                pos: Rect { x, y, ..old(self).pos },
                ..*old(self)
            }),
    {
        self.start_p.x = x;
        self.pos.x = x;
        self.start_p.y = y;
        self.pos.y = y;
    }

    pub fn set_x(&mut self, x: i32)
        ensures
            *final(self) == (RangedAttack { pos: Rect { x, ..old(self).pos }, ..*old(self) }),
    {
        self.pos.x = x;
    }

    pub fn x(&self) -> (r: i32)
        ensures
            r == self.pos.x,
    {
        self.pos.x
    }

    pub fn set_y(&mut self, y: i32)
        ensures
            *final(self) == (RangedAttack { pos: Rect { y, ..old(self).pos }, ..*old(self) }),
    {
        self.pos.y = y;
    }

    pub fn y(&self) -> (r: i32)
        ensures
            r == self.pos.y,
    {
        self.pos.y
    }

    pub fn set_use(&mut self, b: bool)
        ensures
            *final(self) == (RangedAttack { use_ability: b, ..*old(self) }),
    {
        self.use_ability = b;
    }

    pub fn in_use(&self) -> (r: bool)
        ensures
            r == self.use_ability,
    {
        self.use_ability
    }

    pub fn set_frame(&mut self, frame: i32)
        ensures
            *final(self) == (RangedAttack { frame, ..*old(self) }),
    {
        self.frame = frame;
    }

    pub fn frame(&self) -> (r: i32)
        ensures
            r == self.frame,
    {
        self.frame
    }

    /// Places the attack where it has slid to (see `slide`), held within
    /// `x_bounds`.
    #[allow(non_snake_case)]
    pub fn update_RangedAttack_pos(&mut self, x_bounds: (i32, i32))
        requires
            x_bounds.0 <= x_bounds.1,
            -1_000_000_000 <= old(self).start_p.x <= 1_000_000_000,
            old(self).frame <= 50_000_000,
        ensures
            *final(self) == (RangedAttack {
                pos: Rect {
                    x: clamped_position(clampi(slide(old(self).start_p.x as int, old(self).frame as int), x_bounds.0 as int, x_bounds.1 as int)) as i32,
                    ..old(self).pos
                },
                ..*old(self)
            }),
    {
        if self.frame < 6 {
            self.pos.set_x(clamp_i32(self.start_p.x, x_bounds.0, x_bounds.1));
        } else {
            let shifted: i64 = self.start_p.x as i64 + (self.frame as i64 - 6) * 16;
            let held: i64 = if shifted < x_bounds.0 as i64 { x_bounds.0 as i64 } else if shifted > x_bounds.1 as i64 { x_bounds.1 as i64 } else { shifted };
            self.pos.set_x(held as i32);
        }
    }

    /// The sprite-sheet cell of the current frame in a sheet of `col`
    /// columns (96 pixels apart) and `row` rows (64 pixels apart).
    pub fn src(&self, col: i32, row: i32) -> (r: Rect)
        requires
            0 < col <= 10_000_000,
            0 < row <= 10_000_000,
        ensures
            r == Rect::spec_new(trunc_rem(self.frame as int, col as int) * 64 * 3 / 2, trunc_rem(self.frame as int, row as int) * 64, 64, 64),
    {
        let f: i64 = self.frame as i64;
        let c: i64 = col as i64;
        let rw: i64 = row as i64;
        proof {
            vstd::arithmetic::div_mod::lemma_mod_bound(f as int, c as int);
            vstd::arithmetic::div_mod::lemma_mod_bound(-f as int, c as int);
            vstd::arithmetic::div_mod::lemma_mod_bound(f as int, rw as int);
            vstd::arithmetic::div_mod::lemma_mod_bound(-f as int, rw as int);
        }
        let mc: i64 = if f >= 0 { f % c } else { -((-f) % c) };
        let mr: i64 = if f >= 0 { f % rw } else { -((-f) % rw) };
        Rect::new((mc * 64 * 3 / 2) as i32, (mr * 64) as i32, TILE_SIZE, TILE_SIZE)
    }

    pub fn pos(&self) -> (r: Rect)
        ensures
            r == self.pos,
    {
        self.pos
    }
}

} // verus!
