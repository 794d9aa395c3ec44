//! Crates: pushable boxes, heavy metal crates and explosive barrels.
//! Velocities, masses and friction are kept in hundredths (a velocity of
//! 250 is two and a half pixels per frame).
use crate::collision::{collect_col, hit_side, is_isqrt, isqrt, pixel_dist, resolve_col_clamps, sorted_by_dist, wall_clamps, Clamp, CollisionDecider};
use crate::gamedata::{on_world, screen_rect, to_screen, CrateType, TILE_SIZE_32, TILE_SIZE_64, TILE_SIZE_CAM, TILE_SIZE_PROJECTILE};
use crate::map::grid_wf;
use crate::player::{clamp_i32, clampi, small, Player};
use crate::projectile::{pixels_of, whole_pixels, Projectile, ProjectileType};
use crate::rect::{clamped_position, Point, Rect};
use crate::view::{block_hits, blocking_collisions};
use vstd::prelude::*;

verus! {

/// How fast shrapnel flies from an explosion, in hundredths of a pixel per
/// frame.
pub const EXPLODE_SPEED: i32 = 600;

#[derive(Debug, Copy, Clone)]
pub struct Crate {
    pub src: Rect,
    pub pos: Rect,
    pub vel: (i32, i32),
    pub mass: i32,
    pub friction: i32,
    pub crate_type: CrateType,
    pub killing_weight: i32,
    pub max_crate_vel: i32,
    pub active: bool,
}

/// A crate type's (mass, friction, top speed), in hundredths.
pub open spec fn crate_physics(t: CrateType) -> (int, int, int) {
    match t {
        CrateType::Explosive => (300, 40, 700),
        CrateType::Heavy => (700, 80, 400),
        CrateType::Regular => (100, 25, 1000),
    }
}

/// A velocity component after one limit from a hit (held to `[0, 100]`
/// or `[-100, 0]` pixels) and then to the crate's top speed.
pub open spec fn crate_clamp(v: (i32, i32), c: Clamp, max: int) -> (i32, i32) {
    match c {
        Clamp::YNonNeg => (v.0, clampi(clampi(v.1 as int, 0, 10000), -max, max) as i32),
        Clamp::YNonPos => (v.0, clampi(clampi(v.1 as int, -10000, 0), -max, max) as i32),
        Clamp::XNonNeg => (clampi(clampi(v.0 as int, 0, 10000), -max, max) as i32, v.1),
        Clamp::XNonPos => (clampi(clampi(v.0 as int, -10000, 0), -max, max) as i32, v.1),
    }
}

pub open spec fn crate_clamps(v: (i32, i32), cs: Seq<Clamp>, max: int) -> (i32, i32)
    decreases cs.len(),
{
    if cs.len() == 0 {
        v
    } else {
        crate_clamp(crate_clamps(v, cs.drop_last(), max), cs.last(), max)
    }
}

/// One velocity component after friction: moved towards rest by the
/// friction (possibly past it), within the top speed.
pub open spec fn rubbed(v: int, f: int, max: int) -> int {
    if v > 0 { clampi(v - f, -max, max) } else if v < 0 { clampi(v + f, -max, max) } else { v }
}

/// The direction (in steps of 45 degrees, starting north, clockwise) of
/// each of the eight pieces of shrapnel.
pub open spec fn shrapnel_dir(i: int) -> (int, int) {
    if i == 0 { (0, -1) }
    else if i == 1 { (1, -1) }
    else if i == 2 { (1, 0) }
    else if i == 3 { (1, 1) }
    else if i == 4 { (0, 1) }
    else if i == 5 { (-1, 1) }
    else if i == 6 { (-1, 0) }
    else { (-1, -1) }
}

fn shrapnel_step(i: i32) -> (r: (i32, i32))
    requires
        0 <= i < 8,
    ensures
        r.0 == shrapnel_dir(i as int).0,
        r.1 == shrapnel_dir(i as int).1,
{
    if i == 0 { (0, -1) }
    else if i == 1 { (1, -1) }
    else if i == 2 { (1, 0) }
    else if i == 3 { (1, 1) }
    else if i == 4 { (0, 1) }
    else if i == 5 { (-1, 1) }
    else if i == 6 { (-1, 0) }
    else { (-1, -1) }
}

/// The `i`-th piece of shrapnel of a crate whose corner is at (`x`, `y`):
/// 40 pixels out in its direction, flying that way at `EXPLODE_SPEED`.
pub open spec fn shrapnel_ok(s: Projectile, x: int, y: int, elapsed: u128, i: int) -> bool {
    let d = shrapnel_dir(i);
    &&& s.pos == (clamped_position(x + 40 * d.0) as i32, clamped_position(y + 40 * d.1) as i32)
    &&& s.vel == ((EXPLODE_SPEED * d.0) as i32, (EXPLODE_SPEED * d.1) as i32)
    &&& s.p_type == ProjectileType::Shrapnel
    &&& s.is_active
    &&& !s.facing_right
    &&& s.bounce_counter == 0
    &&& s.elapsed == elapsed
    &&& s.damage == 2
    &&& s.angle == 45 * i
}

impl Crate {
    /// The crate's velocity stays within its top speed, which with its
    /// friction stays within the values the crate types use.
    pub open spec fn wf(&self) -> bool {
        &&& 0 < self.max_crate_vel <= 1000
        &&& 0 <= self.friction <= 100
        &&& -self.max_crate_vel <= self.vel.0 <= self.max_crate_vel
        &&& -self.max_crate_vel <= self.vel.1 <= self.max_crate_vel
    }

    /// A crate at rest at `pos`.
    pub fn new(pos: Rect, crate_type: CrateType) -> (c: Crate)
        ensures
            c.pos == pos,
            c.vel == (0i32, 0i32),
            c.crate_type == crate_type,
            c.active,
            (c.mass as int, c.friction as int, c.max_crate_vel as int) == crate_physics(crate_type),
            c.killing_weight == c.mass * c.friction / 100,
            c.src == (match crate_type {
                CrateType::Explosive => Rect::spec_new(0, 0, 64, 64),
                _ => Rect::spec_new(0, 0, 32, 32),
            }),
            c.wf(),
    {
        let src: Rect;
        let mass: i32;
        let friction: i32;
        let max_crate_vel: i32;
        match crate_type {
            CrateType::Explosive => {
                src = Rect::new(0, 0, TILE_SIZE_64, TILE_SIZE_64);
                mass = 300;
                friction = 40;
                max_crate_vel = 700;
            },
            CrateType::Heavy => {
                src = Rect::new(0, 0, TILE_SIZE_32, TILE_SIZE_32);
                mass = 700;
                friction = 80;
                max_crate_vel = 400;
            },
            CrateType::Regular => {
                src = Rect::new(0, 0, TILE_SIZE_32, TILE_SIZE_32);
                mass = 100;
                friction = 25;
                max_crate_vel = 1000;
            },
        }
        let killing_weight = mass * friction / 100;
        Crate { src, pos, vel: (0, 0), mass, friction, crate_type, killing_weight, max_crate_vel, active: true }
    }

    pub fn is_active(&self) -> (r: bool)
        ensures
            r == self.active,
    {
        self.active
    }

    pub fn src(&self) -> (r: Rect)
        ensures
            r == self.src,
    {
        self.src
    }

    pub fn set_src(&mut self, new_src: Rect)
        ensures
            *final(self) == (Crate { src: new_src, ..*old(self) }),
    {
        self.src = new_src;
    }

    pub fn pos(&self) -> (r: Rect)
        ensures
            r == self.pos,
    {
        self.pos
    }

    pub fn x(&self) -> (r: i32)
        ensures
            r == self.pos.x,
    {
        self.pos.x
    }

    pub fn y(&self) -> (r: i32)
        ensures
            r == self.pos.y,
    {
        self.pos.y
    }

    pub fn x_vel(&self) -> (r: i32)
        ensures
            r == self.vel.0,
    {
        self.vel.0
    }

    pub fn y_vel(&self) -> (r: i32)
        ensures
            r == self.vel.1,
    {
        self.vel.1
    }

    /// Adds to the velocity, within the top speed.
    pub fn update_velocity(&mut self, x: i32, y: i32)
        requires
            old(self).wf(),
            -1_000_000 <= x <= 1_000_000,
            -1_000_000 <= y <= 1_000_000,
        ensures
            *final(self) == (Crate {
                vel: (clampi(old(self).vel.0 + x, -old(self).max_crate_vel, old(self).max_crate_vel as int) as i32,
                    clampi(old(self).vel.1 + y, -old(self).max_crate_vel, old(self).max_crate_vel as int) as i32),
                ..*old(self)
            }),
            final(self).wf(),
    {
        let max = self.max_crate_vel;
        self.vel.0 = clamp_i32(self.vel.0 + x, -max, max);
        self.vel.1 = clamp_i32(self.vel.1 + y, -max, max);
    }

    /// The speed, rounded down to whole hundredths.
    pub fn get_magnitude(&self) -> (r: i32)
        requires
            self.wf(),
        ensures
            is_isqrt(self.vel.0 * self.vel.0 + self.vel.1 * self.vel.1, r as int),
    {
        let vx: i64 = self.vel.0 as i64;
        let vy: i64 = self.vel.1 as i64;
        assert(vx * vx <= 1_000_000 && vy * vy <= 1_000_000) by (nonlinear_arith)
            requires -1000 <= vx <= 1000, -1000 <= vy <= 1000;
        assert(vx * vx >= 0 && vy * vy >= 0) by (nonlinear_arith);
        let n: u128 = (vx * vx + vy * vy) as u128;
        let r = isqrt(n);
        assert(r <= 2000) by (nonlinear_arith)
            requires r * r <= n, n <= 2_000_000, r >= 0;
        r as i32
    }

    /// Whether the crate moves faster than `speed` hundredths per frame.
    pub fn moves_faster_than(&self, speed: i32) -> (r: bool)
        requires
            self.wf(),
            0 <= speed,
        ensures
            r == (self.vel.0 * self.vel.0 + self.vel.1 * self.vel.1 > speed * speed),
    {
        let vx: i64 = self.vel.0 as i64;
        let vy: i64 = self.vel.1 as i64;
        let s: i128 = speed as i128;
        assert(vx * vx <= 1_000_000 && vy * vy <= 1_000_000) by (nonlinear_arith)
            requires -1000 <= vx <= 1000, -1000 <= vy <= 1000;
        assert(vx * vx >= 0 && vy * vy >= 0) by (nonlinear_arith);
        assert(s * s <= 0x4000_0000_0000_0000) by (nonlinear_arith)
            requires 0 <= s <= 0x8000_0000;
        ((vx * vx + vy * vy) as i128) > s * s
    }

    pub fn set_x(&mut self, x: i32)
        ensures
            *final(self) == (Crate { pos: Rect { x: clamped_position(x as int) as i32, ..old(self).pos }, ..*old(self) }),
    {
        self.pos.set_x(x);
    }

    pub fn set_y(&mut self, y: i32)
        ensures
            *final(self) == (Crate { pos: Rect { y: clamped_position(y as int) as i32, ..old(self).pos }, ..*old(self) }),
    {
        self.pos.set_y(y);
    }

    pub fn set_x_vel(&mut self, x_vel: i32)
        requires
            old(self).wf(),
        ensures
            *final(self) == (Crate {
                vel: (clampi(x_vel as int, -old(self).max_crate_vel, old(self).max_crate_vel as int) as i32, old(self).vel.1),
                ..*old(self)
            }),
            final(self).wf(),
    {
        let max = self.max_crate_vel;
        self.vel.0 = clamp_i32(x_vel, -max, max);
    }

    pub fn set_y_vel(&mut self, y_vel: i32)
        requires
            old(self).wf(),
        ensures
            *final(self) == (Crate {
                vel: (old(self).vel.0, clampi(y_vel as int, -old(self).max_crate_vel, old(self).max_crate_vel as int) as i32),
                ..*old(self)
            }),
            final(self).wf(),
    {
        let max = self.max_crate_vel;
        self.vel.1 = clamp_i32(y_vel, -max, max);
    }

    /// Walls and moss in view stop the crate's motion into them (see
    /// `resolve_col`); then the crate moves by the whole pixels of its
    /// velocity.
    pub fn update_crates(&mut self, map: &Vec<i32>)
        requires
            old(self).wf(),
            grid_wf(map@),
            old(self).pos.wf(),
            small(old(self).pos.x as int),
            small(old(self).pos.y as int),
        ensures
            ({
                let s = *old(self);
                let hits = block_hits(map@, s.pos, s.pos.x as int, s.pos.y as int, true, TILE_SIZE_CAM as int);
                let v = crate_clamps(s.vel, wall_clamps(sorted_by_dist(hits)), s.max_crate_vel as int);
                *final(self) == (Crate {
                    vel: v,
                    pos: Rect {
                        x: clamped_position(s.pos.x + whole_pixels(v.0 as int)) as i32,
                        y: clamped_position(s.pos.y + whole_pixels(v.1 as int)) as i32,
                        ..s.pos
                    },
                    ..s
                })
            }),
            final(self).wf(),
    {
        let hits = blocking_collisions(map, self.pos, self.x(), self.y(), true, TILE_SIZE_CAM);
        self.resolve_col(&hits);
        let dx = pixels_of(self.vel.0);
        let dy = pixels_of(self.vel.1);
        self.set_x(self.x() + dx);
        self.set_y(self.y() + dy);
    }

    /// Where the crate is drawn on screen.
    pub fn offset_pos(&self, player: &Player) -> (r: Rect)
        requires
            on_world(self.pos.x as int),
            on_world(self.pos.y as int),
            on_world(player.pos.0 as int),
            on_world(player.pos.1 as int),
        ensures
            r == screen_rect(self.pos.x as int, self.pos.y as int, player.pos.0 as int, player.pos.1 as int,
                self.pos.w as int, self.pos.h as int),
    {
        to_screen(self.x(), self.y(), player.x(), player.y(), self.pos.w, self.pos.h)
    }

    /// Records a hit of a body at `p_pos` (centre `p_center`) against
    /// `other_pos`.
    pub fn collect_col(&mut self, p_pos: Rect, p_center: Point, other_pos: Rect) -> (c: CollisionDecider)
        requires
            p_pos.wf(),
            other_pos.wf(),
        ensures
            c.dir == hit_side(p_pos, p_center, other_pos),
            c.dist == pixel_dist(p_center, Point { x: clamped_position(other_pos.x + other_pos.w as int / 2) as i32,
                y: clamped_position(other_pos.y + other_pos.h as int / 2) as i32 }),
            *final(self) == *old(self),
    {
        collect_col(p_pos, p_center, other_pos)
    }

    /// Stops the crate's motion into the hits, nearest first (see
    /// `wall_clamps`).
    pub fn resolve_col(&mut self, collisions: &Vec<CollisionDecider>)
        requires
            old(self).wf(),
        ensures
            *final(self) == (Crate {
                vel: crate_clamps(old(self).vel, wall_clamps(sorted_by_dist(collisions@)), old(self).max_crate_vel as int),
                ..*old(self)
            }),
            final(self).wf(),
    {
        let clamps = resolve_col_clamps(collisions);
        let mut i: usize = 0;
        while i < clamps.len()
            invariant
                i <= clamps.len(),
                old(self).wf(),
                *self == (Crate { vel: crate_clamps(old(self).vel, clamps@.take(i as int), old(self).max_crate_vel as int), ..*old(self) }),
                self.wf(),
            decreases clamps.len() - i,
        {
            assert(clamps@.take(i as int + 1).drop_last() =~= clamps@.take(i as int));
            match clamps[i] {
                Clamp::YNonNeg => self.set_y_vel(clamp_i32(self.y_vel(), 0, 10000)),
                Clamp::YNonPos => self.set_y_vel(clamp_i32(self.y_vel(), -10000, 0)),
                Clamp::XNonNeg => self.set_x_vel(clamp_i32(self.x_vel(), 0, 10000)),
                Clamp::XNonPos => self.set_x_vel(clamp_i32(self.x_vel(), -10000, 0)),
            }
            i += 1;
        }
        assert(clamps@.take(clamps.len() as int) =~= clamps@);
    }

    /// Slows a crate that nothing pushes: each moving component goes
    /// towards rest by the crate's friction.
    pub fn friction(&mut self)
        requires
            old(self).wf(),
        ensures
            *final(self) == (Crate {
                vel: (rubbed(old(self).vel.0 as int, old(self).friction as int, old(self).max_crate_vel as int) as i32,
                    rubbed(old(self).vel.1 as int, old(self).friction as int, old(self).max_crate_vel as int) as i32),
                ..*old(self)
            }),
            final(self).wf(),
    {
        let f = self.friction;
        if self.x_vel() > 0 {
            self.update_velocity(-f, 0);
        } else if self.x_vel() < 0 {
            self.update_velocity(f, 0);
        }
        if self.y_vel() > 0 {
            self.update_velocity(0, -f);
        } else if self.y_vel() < 0 {
            self.update_velocity(0, f);
        }
    }

    /// Blows the crate up: it is gone, and eight pieces of shrapnel fly
    /// out from it in the eight compass directions (see `shrapnel_ok`).
    pub fn explode(&mut self, elapsed: u128) -> (shrapnel: Vec<Projectile>)
        requires
            old(self).pos.wf(),
        ensures
            *final(self) == (Crate { active: false, ..*old(self) }),
            shrapnel.len() == 8,
            forall|i: int| 0 <= i < 8 ==> #[trigger] shrapnel_ok(shrapnel@[i], old(self).pos.x as int, old(self).pos.y as int, elapsed, i),
    {
        self.active = false;
        let x = self.x();
        let y = self.y();
        let mut shrapnel: Vec<Projectile> = Vec::new();
        let mut i: i32 = 0;
        while i < 8
            invariant
                0 <= i <= 8,
                shrapnel.len() == i,
                x == old(self).pos.x,
                y == old(self).pos.y,
                old(self).pos.wf(),
                forall|k: int| 0 <= k < i ==> #[trigger] shrapnel_ok(shrapnel@[k], x as int, y as int, elapsed, k),
            decreases 8 - i,
        {
            let (dx, dy) = shrapnel_step(i);
            let pos = Rect::new(x + 40 * dx, y + 40 * dy, TILE_SIZE_PROJECTILE, TILE_SIZE_PROJECTILE);
            let mut scrap = Projectile::new(pos, false, (EXPLODE_SPEED * dx, EXPLODE_SPEED * dy), ProjectileType::Shrapnel, elapsed);
            scrap.angle = 45 * i;
            shrapnel.push(scrap);
            i += 1;
        }
        shrapnel
    }
}

} // verus!
