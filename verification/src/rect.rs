//! Axis-aligned rectangles and points in screen/world pixels, with the
//! clamping rules of the SDL rectangle type the game renders with.
use vstd::prelude::*;

verus! {

/// Largest coordinate or size a rectangle may hold (`i32::MAX / 2`).
pub const MAX_INT_VALUE: i32 = 1073741823;
/// Smallest coordinate a rectangle may hold (`i32::MIN / 2`).
pub const MIN_INT_VALUE: i32 = -1073741824;

/// A coordinate clamped into `[MIN_INT_VALUE, MAX_INT_VALUE]`.
pub open spec fn clamped_position(v: int) -> int {
    if v > MAX_INT_VALUE { MAX_INT_VALUE as int } else if v < MIN_INT_VALUE { MIN_INT_VALUE as int } else { v }
}

/// A size clamped into `[1, MAX_INT_VALUE]`.
pub open spec fn clamped_size(v: int) -> int {
    if v == 0 { 1 } else if v > MAX_INT_VALUE { MAX_INT_VALUE as int } else { v }
}

pub fn clamp_position(v: i32) -> (r: i32)
    ensures r == clamped_position(v as int),
{
    if v > MAX_INT_VALUE { MAX_INT_VALUE } else if v < MIN_INT_VALUE { MIN_INT_VALUE } else { v }
}

pub fn clamp_size(v: u32) -> (r: u32)
    ensures r == clamped_size(v as int),
{
    if v == 0 { 1 } else if v > MAX_INT_VALUE as u32 { MAX_INT_VALUE as u32 } else { v }
}

/// A point; both coordinates lie in the clamped range.
#[derive(Clone, Copy, Debug, PartialEq, Eq, Structural)]
pub struct Point {
    pub x: i32,
    pub y: i32,
}

impl Point {
    pub open spec fn wf(self) -> bool {
        MIN_INT_VALUE <= self.x <= MAX_INT_VALUE && MIN_INT_VALUE <= self.y <= MAX_INT_VALUE
    }

    pub fn new(x: i32, y: i32) -> (p: Point)
        ensures
            p.x == clamped_position(x as int),
            p.y == clamped_position(y as int),
            p.wf(),
    {
        Point { x: clamp_position(x), y: clamp_position(y) }
    }

    pub fn x(&self) -> (r: i32)
        ensures r == self.x,
    {
        self.x
    }

    pub fn y(&self) -> (r: i32)
        ensures r == self.y,
    {
        self.y
    }
}

/// A rectangle with its top-left corner at (`x`, `y`) and size `w` x `h`.
/// Well-formed rectangles keep the corner in the clamped range and the size
/// in `[1, MAX_INT_VALUE]`, so that every edge fits in an `i32`.
#[derive(Clone, Copy, Debug, PartialEq, Eq, Structural)]
pub struct Rect {
    pub x: i32,
    pub y: i32,
    pub w: u32,
    pub h: u32,
}

impl Rect {
    pub open spec fn wf(self) -> bool {
        &&& MIN_INT_VALUE <= self.x <= MAX_INT_VALUE
        &&& MIN_INT_VALUE <= self.y <= MAX_INT_VALUE
        &&& 1 <= self.w <= MAX_INT_VALUE
        &&& 1 <= self.h <= MAX_INT_VALUE
    }

    pub open spec fn spec_right(self) -> int {
        self.x + self.w
    }

    pub open spec fn spec_bottom(self) -> int {
        self.y + self.h
    }

    /// The rectangle that `Rect::new(x, y, w, h)` builds.
    pub open spec fn spec_new(x: int, y: int, w: int, h: int) -> Rect {
        Rect {
            x: clamped_position(x) as i32,
            y: clamped_position(y) as i32,
            w: clamped_size(w) as u32,
            h: clamped_size(h) as u32,
        }
    }

    pub fn new(x: i32, y: i32, w: u32, h: u32) -> (r: Rect)
        ensures
            r == Rect::spec_new(x as int, y as int, w as int, h as int),
            r.wf(),
    {
        Rect { x: clamp_position(x), y: clamp_position(y), w: clamp_size(w), h: clamp_size(h) }
    }

    pub fn x(&self) -> (r: i32)
        ensures r == self.x,
    {
        self.x
    }

    pub fn y(&self) -> (r: i32)
        ensures r == self.y,
    {
        self.y
    }

    pub fn width(&self) -> (r: u32)
        ensures r == self.w,
    {
        self.w
    }

    pub fn height(&self) -> (r: u32)
        ensures r == self.h,
    {
        self.h
    }

    pub fn left(&self) -> (r: i32)
        ensures r == self.x,
    {
        self.x
    }

    pub fn top(&self) -> (r: i32)
        ensures r == self.y,
    {
        self.y
    }

    pub fn right(&self) -> (r: i32)
        requires self.wf(),
        ensures r == self.spec_right(),
    {
        self.x + self.w as i32
    }

    pub fn bottom(&self) -> (r: i32)
        requires self.wf(),
        ensures r == self.spec_bottom(),
    {
        self.y + self.h as i32
    }

    /// The centre, rounded down as integer division does.
    pub fn center(&self) -> (p: Point)
        requires self.wf(),
        ensures
            p.x == clamped_position(self.x + self.w as int / 2),
            p.y == clamped_position(self.y + self.h as int / 2),
            p.wf(),
    {
        Point::new(self.x + (self.w / 2) as i32, self.y + (self.h / 2) as i32)
    }

    pub fn set_x(&mut self, x: i32)
        ensures
            *final(self) == (Rect { x: clamped_position(x as int) as i32, ..*old(self) }),
    {
        self.x = clamp_position(x);
    }

    pub fn set_y(&mut self, y: i32)
        ensures
            *final(self) == (Rect { y: clamped_position(y as int) as i32, ..*old(self) }),
    {
        self.y = clamp_position(y);
    }
}

/// Two rectangles overlap with a positive area (touching edges do not count).
pub open spec fn overlaps(a: Rect, b: Rect) -> bool {
    !(a.spec_bottom() <= b.y || a.y >= b.spec_bottom() || a.spec_right() <= b.x || a.x >= b.spec_right())
}

/// Two rectangles overlap or touch.
pub open spec fn touches(a: Rect, b: Rect) -> bool {
    !(a.spec_bottom() < b.y || a.y > b.spec_bottom() || a.spec_right() < b.x || a.x > b.spec_right())
}

} // verus!
