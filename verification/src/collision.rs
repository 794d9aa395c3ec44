//! Deciding how bodies push back when they run into walls, crates and
//! each other: the side of a hit, the distance between centres, and the
//! velocity limits a list of hits imposes.
use crate::player::Direction;
use crate::rect::{clamped_position, Point, Rect};
use vstd::prelude::*;

verus! {

/// A hit on one side, with the distance between the two centres.
#[derive(Clone, Copy, Debug, PartialEq, Eq, Structural)]
pub struct CollisionDecider {
    pub dir: Direction,
    pub dist: i32,
}

impl CollisionDecider {
    pub fn new(dir: Direction, dist: i32) -> (c: CollisionDecider)
        ensures
            c.dir == dir,
            c.dist == dist,
    {
        CollisionDecider { dir, dist }
    }
}

/// The floor of the square root of `n`.
pub open spec fn is_isqrt(n: int, r: int) -> bool {
    0 <= r && r * r <= n < (r + 1) * (r + 1)
}

/// The floor of the square root of `n`, for `n >= 0`.
pub open spec fn floor_sqrt(n: int) -> int {
    choose|r: int| is_isqrt(n, r)
}

/// The floor of a square root is unique.
pub proof fn lemma_isqrt_unique(n: int, a: int, b: int)
    requires
        is_isqrt(n, a),
        is_isqrt(n, b),
    ensures
        a == b,
{
    assert(a < b + 1) by (nonlinear_arith)
        requires 0 <= a, 0 <= b, a * a <= n, n < (b + 1) * (b + 1);
    assert(b < a + 1) by (nonlinear_arith)
        requires 0 <= a, 0 <= b, b * b <= n, n < (a + 1) * (a + 1);
}

/// The whole-pixel distance between two points (see `pixel_distance`).
pub open spec fn pixel_dist(a: Point, b: Point) -> int {
    let dx = a.x - b.x;
    let dy = a.y - b.y;
    let n = dx * dx + dy * dy;
    if n >= i32::MAX * i32::MAX { i32::MAX as int } else { floor_sqrt(n) }
}

/// The floor of the square root of `n` (`n` below 2^66).
pub fn isqrt(n: u128) -> (r: u64)
    requires
        n < 0x4_0000_0000_0000_0000u128,
    ensures
        is_isqrt(n as int, r as int),
{
    let mut lo: u128 = 0;
    let mut hi: u128 = 0x2_0000_0000;
    assert(hi * hi == 0x4_0000_0000_0000_0000u128);
    while hi - lo > 1
        invariant
            lo < hi <= 0x2_0000_0000,
            lo * lo <= n,
            n < hi * hi,
        decreases hi - lo,
    {
        let mid = lo + (hi - lo) / 2;
        assert(mid * mid <= 0x4_0000_0000_0000_0000u128) by (nonlinear_arith)
            requires mid <= 0x2_0000_0000;
        if mid * mid <= n {
            lo = mid;
        } else {
            hi = mid;
        }
    }
    assert(hi == lo + 1);
    lo as u64
}

/// Whole-pixel distance between two points, as the game computes it: the
/// square root of the squared distance, rounded down and capped at
/// `i32::MAX`.
pub open spec fn pixel_distance(a: Point, b: Point, d: int) -> bool {
    let dx = a.x - b.x;
    let dy = a.y - b.y;
    let n = dx * dx + dy * dy;
    ||| (d < i32::MAX && is_isqrt(n, d))
    ||| (d == i32::MAX && n >= i32::MAX * i32::MAX)
}

pub fn distance(a: Point, b: Point) -> (d: i32)
    ensures
        pixel_distance(a, b, d as int),
        d == pixel_dist(a, b),
{
    let dx: i128 = a.x as i128 - b.x as i128;
    let dy: i128 = a.y as i128 - b.y as i128;
    assert(dx * dx <= 0x1_0000_0000_0000_0000) by (nonlinear_arith)
        requires -0x1_0000_0000 <= dx <= 0x1_0000_0000;
    assert(dy * dy <= 0x1_0000_0000_0000_0000) by (nonlinear_arith)
        requires -0x1_0000_0000 <= dy <= 0x1_0000_0000;
    assert(dx * dx >= 0) by (nonlinear_arith);
    assert(dy * dy >= 0) by (nonlinear_arith);
    let sq: u128 = (dx * dx + dy * dy) as u128;
    let r = isqrt(sq);
    proof {
        let n = sq as int;
        lemma_isqrt_unique(n, floor_sqrt(n), r as int);
    }
    if r >= i32::MAX as u64 {
        assert(r * r >= i32::MAX * i32::MAX) by (nonlinear_arith) requires r >= i32::MAX;
        i32::MAX
    } else {
        assert(sq < i32::MAX * i32::MAX) by (nonlinear_arith)
            requires r < i32::MAX, sq < (r + 1) * (r + 1), r >= 0;
        r as i32
    }
}

/// The side of `other` that a body at `p_pos` (centre `p_center`) ran
/// into, seen from the body: `Down` when the body came from above, then
/// `Right` from the left, `Up` from below, and `Left` otherwise.
pub open spec fn hit_side(p_pos: Rect, p_center: Point, other: Rect) -> Direction {
    if p_pos.spec_bottom() >= other.y && p_center.y < other.y {
        Direction::Down
    } else if p_pos.spec_right() >= other.x && p_center.x < other.x {
        Direction::Right
    } else if p_pos.y <= other.spec_bottom() && p_center.y > other.spec_bottom() {
        Direction::Up
    } else {
        Direction::Left
    }
}

/// Records a hit of a body against `other_pos`: its side and the distance
/// between the body's centre and `other_pos`'s centre.
pub fn collect_col(p_pos: Rect, p_center: Point, other_pos: Rect) -> (c: CollisionDecider)
    requires
        p_pos.wf(),
        other_pos.wf(),
    ensures
        c.dir == hit_side(p_pos, p_center, other_pos),
        pixel_distance(p_center, Point { x: clamped_position(other_pos.x + other_pos.w as int / 2) as i32,
            y: clamped_position(other_pos.y + other_pos.h as int / 2) as i32 }, c.dist as int),
        c.dist == pixel_dist(p_center, Point { x: clamped_position(other_pos.x + other_pos.w as int / 2) as i32,
            y: clamped_position(other_pos.y + other_pos.h as int / 2) as i32 }),
{
    let distance = distance(p_center, other_pos.center());
    if p_pos.bottom() >= other_pos.top() && p_center.y() < other_pos.top() {
        // above the other
        CollisionDecider::new(Direction::Down, distance)
    } else if p_pos.right() >= other_pos.left() && p_center.x() < other_pos.left() {
        // left of the other
        CollisionDecider::new(Direction::Right, distance)
    } else if p_pos.top() <= other_pos.bottom() && p_center.y() > other_pos.bottom() {
        // below the other
        CollisionDecider::new(Direction::Up, distance)
    } else {
        // right of the other
        CollisionDecider::new(Direction::Left, distance)
    }
}

/// `s` with `x` placed after every element not farther than `x`: one step
/// of a stable sort by distance.
pub open spec fn sorted_insert(s: Seq<CollisionDecider>, x: CollisionDecider) -> Seq<CollisionDecider>
    decreases s.len(),
{
    if s.len() == 0 {
        seq![x]
    } else if s.last().dist <= x.dist {
        s.push(x)
    } else {
        sorted_insert(s.drop_last(), x).push(s.last())
    }
}

/// The hits ordered by distance, nearest first; hits at the same distance
/// keep their order.
pub open spec fn sorted_by_dist(s: Seq<CollisionDecider>) -> Seq<CollisionDecider>
    decreases s.len(),
{
    if s.len() == 0 {
        Seq::empty()
    } else {
        sorted_insert(sorted_by_dist(s.drop_last()), s.last())
    }
}

/// Places `x` into `s` (already ordered) after every hit not farther away.
pub fn insert_by_dist(s: Vec<CollisionDecider>, x: CollisionDecider) -> (r: Vec<CollisionDecider>)
    ensures
        r@ == sorted_insert(s@, x),
{
    let ghost target = sorted_insert(s@, x);
    let mut s = s;
    let mut tail: Vec<CollisionDecider> = Vec::new();
    while s.len() > 0 && s[s.len() - 1].dist > x.dist
        invariant
            target == sorted_insert(s@, x) + tail@,
        decreases s.len(),
    {
        let ghost s_before = s@;
        let ghost tail_before = tail@;
        let last = s.pop().unwrap();
        assert(s_before.drop_last() =~= s@);
        assert(sorted_insert(s_before, x) =~= sorted_insert(s@, x).push(last));
        tail.insert(0, last);
        assert(sorted_insert(s@, x).push(last) + tail_before =~= sorted_insert(s@, x) + tail@);
    }
    s.push(x);
    s.append(&mut tail);
    s
}

/// The hits ordered by distance, nearest first, equal distances keeping
/// their order.
pub fn sort_by_dist(collisions: &Vec<CollisionDecider>) -> (r: Vec<CollisionDecider>)
    ensures
        r@ == sorted_by_dist(collisions@),
{
    let mut sorted: Vec<CollisionDecider> = Vec::new();
    let mut i: usize = 0;
    while i < collisions.len()
        invariant
            i <= collisions.len(),
            sorted@ == sorted_by_dist(collisions@.take(i as int)),
        decreases collisions.len() - i,
    {
        assert(collisions@.take(i as int + 1).drop_last() =~= collisions@.take(i as int));
        sorted = insert_by_dist(sorted, collisions[i]);
        i += 1;
    }
    assert(collisions@.take(collisions.len() as int) =~= collisions@);
    sorted
}

/// A limit on one velocity component: held to at least 0 or at most 0
/// (within [-100, 100]).
#[derive(Clone, Copy, Debug, PartialEq, Eq, Structural)]
pub enum Clamp {
    YNonNeg,
    YNonPos,
    XNonNeg,
    XNonPos,
}

/// The velocity limits a list of wall hits, nearest first, imposes on an
/// enemy or a crate: the nearest hit stops motion into it, and, with more
/// than two hits, the third (or, for a hit on the left, the second) hit
/// may stop a second motion.
pub open spec fn wall_clamps(s: Seq<CollisionDecider>) -> Seq<Clamp> {
    if s.len() == 0 {
        Seq::empty()
    } else {
        match s[0].dir {
            Direction::Up => seq![Clamp::YNonNeg] + if s.len() > 2 {
                match s[2].dir {
                    Direction::Up => seq![Clamp::YNonNeg],
                    Direction::Left => seq![Clamp::XNonNeg],
                    Direction::Right => seq![Clamp::XNonPos],
                    _ => Seq::empty(),
                }
            } else {
                Seq::empty()
            },
            Direction::Down => seq![Clamp::YNonPos] + if s.len() > 2 {
                match s[2].dir {
                    Direction::Down => seq![Clamp::YNonPos],
                    Direction::Left => seq![Clamp::XNonNeg],
                    Direction::Right => seq![Clamp::XNonPos],
                    _ => Seq::empty(),
                }
            } else {
                Seq::empty()
            },
            Direction::Right => seq![Clamp::XNonPos] + if s.len() > 2 {
                match s[2].dir {
                    Direction::Up => seq![Clamp::YNonNeg],
                    Direction::Down => seq![Clamp::YNonPos],
                    Direction::Right => seq![Clamp::XNonPos],
                    _ => Seq::empty(),
                }
            } else {
                Seq::empty()
            },
            Direction::Left => seq![Clamp::XNonNeg] + if s.len() > 2 {
                match s[1].dir {
                    Direction::Up => seq![Clamp::YNonNeg],
                    Direction::Down => seq![Clamp::YNonPos],
                    Direction::Left => seq![Clamp::XNonNeg],
                    _ => Seq::empty(),
                }
            } else {
                Seq::empty()
            },
            Direction::NoDirection => Seq::empty(),
        }
    }
}

fn follow_up(d: Direction, up: Option<Clamp>, down: Option<Clamp>, left: Option<Clamp>, right: Option<Clamp>) -> (r: Option<Clamp>)
    ensures
        r == match d {
            Direction::Up => up,
            Direction::Down => down,
            Direction::Left => left,
            Direction::Right => right,
            Direction::NoDirection => None,
        },
{
    match d {
        Direction::Up => up,
        Direction::Down => down,
        Direction::Left => left,
        Direction::Right => right,
        Direction::NoDirection => None,
    }
}

/// The velocity limits that a list of wall hits imposes (see
/// `wall_clamps`), after ordering the hits by distance.
pub fn resolve_col_clamps(collisions: &Vec<CollisionDecider>) -> (r: Vec<Clamp>)
    ensures
        r@ == wall_clamps(sorted_by_dist(collisions@)),
{
    let sorted = sort_by_dist(collisions);
    let mut r: Vec<Clamp> = Vec::new();
    if sorted.len() > 0 {
        let second: Option<Clamp>;
        match sorted[0].dir {
            Direction::Up => {
                r.push(Clamp::YNonNeg);
                second = if sorted.len() > 2 {
                    follow_up(sorted[2].dir, Some(Clamp::YNonNeg), None, Some(Clamp::XNonNeg), Some(Clamp::XNonPos))
                } else {
                    None
                };
            },
            Direction::Down => {
                r.push(Clamp::YNonPos);
                second = if sorted.len() > 2 {
                    follow_up(sorted[2].dir, None, Some(Clamp::YNonPos), Some(Clamp::XNonNeg), Some(Clamp::XNonPos))
                } else {
                    None
                };
            },
            Direction::Right => {
                r.push(Clamp::XNonPos);
                second = if sorted.len() > 2 {
                    follow_up(sorted[2].dir, Some(Clamp::YNonNeg), Some(Clamp::YNonPos), None, Some(Clamp::XNonPos))
                } else {
                    None
                };
            },
            Direction::Left => {
                r.push(Clamp::XNonNeg);
                second = if sorted.len() > 2 {
                    follow_up(sorted[1].dir, Some(Clamp::YNonNeg), Some(Clamp::YNonPos), Some(Clamp::XNonNeg), None)
                } else {
                    None
                };
            },
            Direction::NoDirection => {
                second = None;
            },
        }
        if let Some(c) = second {
            r.push(c);
        }
        assert(r@ =~= wall_clamps(sorted@));
    } else {
        assert(r@ =~= wall_clamps(sorted@));
    }
    r
}

} // verus!
