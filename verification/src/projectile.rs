//! Projectiles: bullets, fireballs, shields and shrapnel in flight.
//! Velocities are kept in hundredths of a pixel per frame; a step moves a
//! projectile by the whole pixels of its velocity.
use crate::collision::{collect_col, pixel_dist, sort_by_dist, sorted_by_dist, hit_side, CollisionDecider};
use crate::gamedata::{on_world, screen_rect, to_screen, TILE_SIZE, TILE_SIZE_CAM, TILE_SIZE_PROJECTILE};
use crate::map::grid_wf;
use crate::player::{small, Direction, Player};
use crate::rect::{Point, Rect};
use crate::view::{block_hits, blocking_collisions};
use vstd::prelude::*;

verus! {

#[derive(PartialEq, Eq, Debug, Copy, Clone, Structural)]
pub enum ProjectileType {
    Bullet,
    Fireball,
    Shield,
    Shrapnel,
}

/// A projectile whose hit box has its corner at `pos`.
#[derive(Debug, Copy, Clone)]
pub struct Projectile {
    pub pos: (i32, i32),
    pub vel: (i32, i32),
    pub src: Rect,
    pub facing_right: bool,
    pub is_active: bool,
    pub p_type: ProjectileType,
    pub bounce_counter: i32,
    pub elapsed: u128,
    pub damage: i32,
    pub angle: i32,
}

/// The damage each kind of projectile deals.
pub open spec fn projectile_damage(t: ProjectileType) -> int {
    match t {
        ProjectileType::Bullet => 5,
        ProjectileType::Fireball => 10,
        ProjectileType::Shield => 0,
        ProjectileType::Shrapnel => 2,
    }
}

/// How many bounces a projectile survives: a fireball none after the
/// first, the others four.
pub open spec fn bounce_limit(t: ProjectileType) -> int {
    match t {
        ProjectileType::Fireball => 1,
        _ => 4,
    }
}

/// The velocity after running into the nearest of the hits `s`, when that
/// turns the projectile back: the component moving into the hit side
/// changes sign. `None` when there is no hit or the projectile already
/// moves away.
pub open spec fn reflected(v: (i32, i32), s: Seq<CollisionDecider>) -> Option<(i32, i32)> {
    if s.len() == 0 {
        None
    } else {
        match s[0].dir {
            Direction::Up => if v.1 < 0 { Some((v.0, -v.1 as i32)) } else { None },
            Direction::Down => if v.1 > 0 { Some((v.0, -v.1 as i32)) } else { None },
            Direction::Right => if v.0 > 0 { Some((-v.0 as i32, v.1)) } else { None },
            Direction::Left => if v.0 < 0 { Some((-v.0 as i32, v.1)) } else { None },
            Direction::NoDirection => None,
        }
    }
}

/// The projectile after the hits `collisions`: turned back by the nearest
/// one, counting a bounce when it turns.
pub open spec fn after_hits(p: Projectile, collisions: Seq<CollisionDecider>) -> Projectile {
    match reflected(p.vel, sorted_by_dist(collisions)) {
        Some(v) => Projectile { vel: v, bounce_counter: (p.bounce_counter + 1) as i32, ..p },
        None => p,
    }
}

/// The projectile's hit box.
pub open spec fn projectile_rect(p: Projectile) -> Rect {
    Rect::spec_new(p.pos.0 as int, p.pos.1 as int, TILE_SIZE_PROJECTILE as int, TILE_SIZE_PROJECTILE as int)
}

/// The bounce check of a frame: a projectile that used up its bounces
/// stops, and walls in view turn it back without counting as a bounce.
pub open spec fn bounce_checked(p: Projectile, g: Seq<i32>) -> Projectile {
    let p1 = if p.bounce_counter >= bounce_limit(p.p_type) { Projectile { is_active: false, ..p } } else { p };
    let hits = block_hits(g, projectile_rect(p1), p1.pos.0 as int, p1.pos.1 as int, false, TILE_SIZE as int);
    match reflected(p1.vel, sorted_by_dist(hits)) {
        Some(v) => Projectile { vel: v, ..p1 },
        None => p1,
    }
}

/// The whole pixels in `v` hundredths, rounded towards zero.
pub open spec fn whole_pixels(v: int) -> int {
    if v >= 0 { v / 100 } else { -((-v) / 100) }
}

pub fn pixels_of(v: i32) -> (r: i32)
    requires
        v > i32::MIN,
    ensures
        r == whole_pixels(v as int),
        -21_474_837 <= r <= 21_474_837,
{
    if v >= 0 { v / 100 } else { -((-v) / 100) }
}

/// A velocity no reflection can overflow.
pub open spec fn vel_ok(v: (i32, i32)) -> bool {
    v.0 > i32::MIN && v.1 > i32::MIN
}

fn reflect(v: (i32, i32), sorted: &Vec<CollisionDecider>) -> (r: Option<(i32, i32)>)
    requires
        vel_ok(v),
    ensures
        r == reflected(v, sorted@),
{
    if sorted.len() == 0 {
        return None;
    }
    match sorted[0].dir {
        Direction::Up => if v.1 < 0 { Some((v.0, -v.1)) } else { None },
        Direction::Down => if v.1 > 0 { Some((v.0, -v.1)) } else { None },
        Direction::Right => if v.0 > 0 { Some((-v.0, v.1)) } else { None },
        Direction::Left => if v.0 < 0 { Some((-v.0, v.1)) } else { None },
        Direction::NoDirection => None,
    }
}

impl Projectile {
    /// A projectile in flight from the corner of `pos`.
    pub fn new(pos: Rect, facing_right: bool, velocity: (i32, i32), p_type: ProjectileType, elapsed: u128) -> (p: Projectile)
        ensures
            p == (Projectile {
                pos: (pos.x, pos.y),
                vel: velocity,
                src: Rect::spec_new(0, 0, TILE_SIZE as int, TILE_SIZE as int),
                facing_right,
                is_active: true,
                p_type,
                bounce_counter: 0,
                elapsed,
                damage: projectile_damage(p_type) as i32,
                angle: 0,
            }),
    {
        let damage: i32 = match p_type {
            ProjectileType::Bullet => 5,
            ProjectileType::Fireball => 10,
            ProjectileType::Shield => 0,
            ProjectileType::Shrapnel => 2,
        };
        Projectile {
            pos: (pos.x, pos.y),
            vel: velocity,
            src: Rect::new(0, 0, TILE_SIZE, TILE_SIZE),
            facing_right,
            is_active: true,
            p_type,
            bounce_counter: 0,
            elapsed,
            damage,
            angle: 0,
        }
    }

    pub fn x(&self) -> (r: i32)
        ensures
            r == self.pos.0,
    {
        self.pos.0
    }

    pub fn y(&self) -> (r: i32)
        ensures
            r == self.pos.1,
    {
        self.pos.1
    }

    pub fn set_x_vel(&mut self, vel: i32)
        ensures
            *final(self) == (Projectile { vel: (vel, old(self).vel.1), ..*old(self) }),
    {
        self.vel.0 = vel;
    }

    pub fn set_y_vel(&mut self, vel: i32)
        ensures
            *final(self) == (Projectile { vel: (old(self).vel.0, vel), ..*old(self) }),
    {
        self.vel.1 = vel;
    }

    pub fn x_vel(&self) -> (r: i32)
        ensures
            r == self.vel.0,
    {
        self.vel.0
    }

    pub fn y_vel(&self) -> (r: i32)
        ensures
            r == self.vel.1,
    {
        self.vel.1
    }

    pub fn set_x(&mut self, x: i32)
        ensures
            *final(self) == (Projectile { pos: (x, old(self).pos.1), ..*old(self) }),
    {
        self.pos.0 = x;
    }

    pub fn set_y(&mut self, y: i32)
        ensures
            *final(self) == (Projectile { pos: (old(self).pos.0, y), ..*old(self) }),
    {
        self.pos.1 = y;
    }

    pub fn is_active(&self) -> (r: bool)
        ensures
            r == self.is_active,
    {
        self.is_active
    }

    /// Ends a projectile that used up its bounces, then lets the walls in
    /// view turn it back (see `bounce_checked`).
    pub fn check_bounce(&mut self, map: &Vec<i32>)
        requires
            grid_wf(map@),
            small(old(self).pos.0 as int),
            small(old(self).pos.1 as int),
            vel_ok(old(self).vel),
        ensures
            *final(self) == bounce_checked(*old(self), map@),
    {
        let limit: i32 = match self.p_type {
            ProjectileType::Fireball => 1,
            _ => 4,
        };
        if self.get_bounce() >= limit {
            self.die();
        }
        let hits = blocking_collisions(map, self.pos(), self.x(), self.y(), false, TILE_SIZE);
        let sorted = sort_by_dist(&hits);
        match reflect(self.vel, &sorted) {
            Some(v) => {
                self.vel = v;
            },
            None => {},
        }
    }

    /// Records a hit of a body at `p_pos` (centre `p_center`) against
    /// `other_pos`.
    pub fn collect_col(&mut self, p_pos: Rect, p_center: Point, other_pos: Rect) -> (c: CollisionDecider)
        requires
            p_pos.wf(),
            other_pos.wf(),
        ensures
            c.dir == hit_side(p_pos, p_center, other_pos),
            c.dist == pixel_dist(p_center, Point { x: crate::rect::clamped_position(other_pos.x + other_pos.w as int / 2) as i32,
                y: crate::rect::clamped_position(other_pos.y + other_pos.h as int / 2) as i32 }),
            *final(self) == *old(self),
    {
        collect_col(p_pos, p_center, other_pos)
    }

    /// Turns the projectile back from the nearest hit and counts the
    /// bounce (see `after_hits`).
    pub fn resolve_col(&mut self, collisions: &Vec<CollisionDecider>)
        requires
            vel_ok(old(self).vel),
            old(self).bounce_counter < i32::MAX,
        ensures
            *final(self) == after_hits(*old(self), collisions@),
    {
        let sorted = sort_by_dist(collisions);
        match reflect(self.vel, &sorted) {
            Some(v) => {
                self.vel = v;
                self.inc_bounce();
            },
            None => {},
        }
    }

    /// One step: the whole pixels of the velocity.
    pub fn update_pos(&mut self)
        requires
            small(old(self).pos.0 as int),
            small(old(self).pos.1 as int),
            vel_ok(old(self).vel),
        ensures
            *final(self) == (Projectile {
                pos: ((old(self).pos.0 + whole_pixels(old(self).vel.0 as int)) as i32,
                    (old(self).pos.1 + whole_pixels(old(self).vel.1 as int)) as i32),
                ..*old(self)
            }),
    {
        let dx = pixels_of(self.vel.0);
        let dy = pixels_of(self.vel.1);
        self.set_x(self.x() + dx);
        self.set_y(self.y() + dy);
    }

    pub fn set_pos(&mut self, p: Rect)
        ensures
            *final(self) == (Projectile { pos: (p.x, p.y), ..*old(self) }),
    {
        self.pos = (p.x, p.y);
    }

    pub fn src(&self) -> (r: Rect)
        ensures
            r == self.src,
    {
        self.src
    }

    pub fn die(&mut self)
        ensures
            *final(self) == (Projectile { is_active: false, ..*old(self) }),
    {
        self.is_active = false;
    }

    /// The hit box.
    pub fn pos(&self) -> (r: Rect)
        ensures
            r == projectile_rect(*self),
            r.wf(),
    {
        Rect::new(self.x(), self.y(), TILE_SIZE_PROJECTILE, TILE_SIZE_PROJECTILE)
    }

    /// Where the projectile is drawn on screen.
    pub fn set_cam_pos(&self, player: &Player) -> (r: Rect)
        requires
            on_world(self.pos.0 as int),
            on_world(self.pos.1 as int),
            on_world(player.pos.0 as int),
            on_world(player.pos.1 as int),
        ensures
            r == screen_rect(self.pos.0 as int, self.pos.1 as int, player.pos.0 as int, player.pos.1 as int,
                TILE_SIZE_PROJECTILE as int, TILE_SIZE_PROJECTILE as int),
    {
        to_screen(self.x(), self.y(), player.x(), player.y(), TILE_SIZE_PROJECTILE, TILE_SIZE_PROJECTILE)
    }

    /// Where a large projectile (a fireball) is drawn: twice the size,
    /// shifted up and left by half a camera tile.
    pub fn set_cam_pos_large(&self, player: &Player) -> (r: Rect)
        requires
            on_world(self.pos.0 as int),
            on_world(self.pos.1 as int),
            on_world(player.pos.0 as int),
            on_world(player.pos.1 as int),
        ensures
            r == screen_rect(self.pos.0 - TILE_SIZE_CAM / 2, self.pos.1 - TILE_SIZE_CAM / 2, player.pos.0 as int,
                player.pos.1 as int, TILE_SIZE_PROJECTILE * 2, TILE_SIZE_PROJECTILE * 2),
    {
        let half: i32 = (TILE_SIZE_CAM / 2) as i32;
        to_screen(self.x() - half, self.y() - half, player.x(), player.y(), TILE_SIZE_PROJECTILE * 2, TILE_SIZE_PROJECTILE * 2)
    }

    /// A fireball's frame: it burns for 127 frames, then goes out.
    pub fn age(&mut self)
        requires
            old(self).elapsed < u128::MAX,
        ensures
            final(self).elapsed == old(self).elapsed + 1,
            final(self).is_active == (old(self).is_active && old(self).elapsed + 1 != 127),
            *final(self) == (Projectile { elapsed: final(self).elapsed, is_active: final(self).is_active, ..*old(self) }),
    {
        self.elapsed += 1;
        if self.elapsed == 127 {
            self.die();
        }
    }

    pub fn inc_bounce(&mut self)
        requires
            old(self).bounce_counter < i32::MAX,
        ensures
            *final(self) == (Projectile { bounce_counter: (old(self).bounce_counter + 1) as i32, ..*old(self) }),
    {
        self.bounce_counter += 1;
    }

    pub fn get_bounce(&self) -> (r: i32)
        ensures
            r == self.bounce_counter,
    {
        self.bounce_counter
    }
}

} // verus!
