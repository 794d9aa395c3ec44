//! Enemies: their kinds and stats, health and stun timers, drops, and the
//! way they chase, flee, wander and are stopped by walls and crates.
//! Velocities are kept in hundredths of a pixel per frame, and times are
//! millisecond timestamps handed in by the caller.
use crate::collision::{collect_col, floor_sqrt, hit_side, is_isqrt, isqrt, lemma_isqrt_unique, pixel_dist, resolve_col_clamps, sorted_by_dist, wall_clamps, Clamp, CollisionDecider};
use crate::crateobj::Crate;
use crate::gamedata::{check_collision, on_world, screen_rect, to_screen, PowerType, FIRE_COOLDOWN_E, TILE_SIZE, TILE_SIZE_64, TILE_SIZE_CAM, TILE_SIZE_POWER, TILE_SIZE_PROJECTILE};
use crate::gold::Gold;
use crate::map::grid_wf;
use crate::player::{clamp_i32, clampi, elapsed, elapsed_ms, small, spec_center};
use crate::power::{power_stats, Power};
use crate::projectile::{pixels_of, whole_pixels, Projectile, ProjectileType};
use crate::random::random_in;
use crate::rect::{clamped_position, overlaps, Point, Rect};
use crate::view::{block_hits, blocking_collisions};
use vstd::prelude::*;

verus! {

#[derive(PartialEq, Eq, Debug, Copy, Clone, Structural)]
pub enum EnemyType {
    Melee,
    Ranged,
    Skeleton,
    Eyeball,
    Rock,
    Boss,
}

#[derive(Debug, Copy, Clone)]
pub struct Enemy {
    pub vel: (i32, i32),
    pub pos: Rect,
    pub src: Rect,
    pub stun_timer: u128,
    pub fire_timer: u128,
    pub damage_timer: u128,
    pub invincible: bool,
    pub has_money: bool,
    pub has_power: bool,
    pub is_stunned: bool,
    pub x_flipped: bool,
    pub y_flipped: bool,
    pub facing_right: bool,
    pub is_firing: bool,
    pub enemy_type: EnemyType,
    pub enemy_number: usize,
    pub alive: bool,
    pub hp: i32,
    pub stun_time: u128,
    pub knockback_vel: i32,
    pub speed_delta: i32,
    pub aggro_range: i32,
}

/// A kind of enemy's (stun time in ms, health, knockback speed and speed
/// factor in hundredths, aggro range in tiles).
pub open spec fn enemy_stats(t: EnemyType) -> (int, int, int, int, int) {
    match t {
        EnemyType::Melee => (500, 15, 2000, 100, 5),
        EnemyType::Ranged => (250, 10, 1000, 100, 5),
        EnemyType::Skeleton => (100, 30, 300, 70, 8),
        EnemyType::Eyeball => (200, 10, 1000, 130, 6),
        EnemyType::Rock => (250, 20, 500, 70, 5),
        EnemyType::Boss => (50, 100, 0, 50, 100),
    }
}

/// The power an enemy of kind `t` leaves when its drop roll succeeds.
pub open spec fn enemy_power(t: EnemyType) -> PowerType {
    match t {
        EnemyType::Melee => PowerType::Fireball,
        EnemyType::Ranged => PowerType::Slimeball,
        EnemyType::Skeleton => PowerType::Shield,
        EnemyType::Eyeball => PowerType::Dash,
        EnemyType::Rock => PowerType::Slimeball,
        EnemyType::Boss => PowerType::NoPower,
    }
}

pub open spec fn iabs(v: int) -> int {
    if v < 0 { -v } else { v }
}

/// The size of a step of `num / den` hundredths along the axis with offset
/// `a` (one of `dx`, `dy`) towards a point `dx`, `dy` away: the largest
/// whole number `m` with `m / (num / den) <= |a| / sqrt(dx * dx + dy * dy)`,
/// so that the two steps together never exceed `num / den`; an axis on
/// which the point lies off the enemy still gets one hundredth. Nothing
/// when the point is where the enemy is.
pub open spec fn axis_share(a: int, dx: int, dy: int, num: int, den: int) -> int {
    let n = dx * dx + dy * dy;
    if n == 0 {
        0
    } else {
        let m = floor_sqrt((num * num * (a * a)) / (den * den * n));
        if m == 0 && a != 0 && num > 0 { 1 } else { m }
    }
}

/// The squared distance from the enemy's corner to (`px`, `py`).
pub open spec fn dist_sq(e: Enemy, px: int, py: int) -> int {
    (px - e.pos.x) * (px - e.pos.x) + (py - e.pos.y) * (py - e.pos.y)
}

/// The velocity limits of a hit, as in `Clamp`, on an enemy.
pub open spec fn enemy_clamp(v: (i32, i32), c: Clamp) -> (i32, i32) {
    match c {
        Clamp::YNonNeg => (v.0, clampi(v.1 as int, 0, 10000) as i32),
        Clamp::YNonPos => (v.0, clampi(v.1 as int, -10000, 0) as i32),
        Clamp::XNonNeg => (clampi(v.0 as int, 0, 10000) as i32, v.1),
        Clamp::XNonPos => (clampi(v.0 as int, -10000, 0) as i32, v.1),
    }
}

pub open spec fn enemy_clamps(v: (i32, i32), cs: Seq<Clamp>) -> (i32, i32)
    decreases cs.len(),
{
    if cs.len() == 0 {
        v
    } else {
        enemy_clamp(enemy_clamps(v, cs.drop_last()), cs.last())
    }
}

/// A velocity component slowed by `decel`: a component at or above zero
/// goes down, one below zero goes up.
pub open spec fn slowed(v: int, decel: int) -> int {
    if v >= 0 { v - decel } else { v + decel }
}

/// Velocities stay well inside `i32`.
pub open spec fn speed_ok(v: int) -> bool {
    -1_000_000_000 <= v <= 1_000_000_000
}

fn iabs64(v: i64) -> (r: i64)
    requires
        v > i64::MIN,
    ensures
        r == iabs(v as int),
{
    if v < 0 { -v } else { v }
}

/// `axis_share` computed.
pub(crate) fn share(a: i64, dx: i64, dy: i64, num: i64, den: i64) -> (r: i64)
    requires
        a == dx || a == dy,
        -0x1_0000_0000 <= dx <= 0x1_0000_0000,
        -0x1_0000_0000 <= dy <= 0x1_0000_0000,
        0 <= num <= 100_000_000,
        1 <= den <= 3,
    ensures
        r == axis_share(a as int, dx as int, dy as int, num as int, den as int),
        0 <= r <= num,
        a != 0 && num > 0 ==> r >= 1,
{
    let x: i128 = dx as i128;
    let y: i128 = dy as i128;
    let aa: i128 = a as i128;
    assert(x * x <= 0x1_0000_0000_0000_0000 && x * x >= 0) by (nonlinear_arith)
        requires -0x1_0000_0000 <= x <= 0x1_0000_0000;
    assert(y * y <= 0x1_0000_0000_0000_0000 && y * y >= 0) by (nonlinear_arith)
        requires -0x1_0000_0000 <= y <= 0x1_0000_0000;
    let n: i128 = x * x + y * y;
    if n == 0 {
        assert(x == 0 && y == 0) by (nonlinear_arith)
            requires n == x * x + y * y, n == 0;
        return 0;
    }
    let a2: i128 = aa * aa;
    assert(0 <= a2 <= n) by (nonlinear_arith)
        requires a2 == aa * aa, n == x * x + y * y, aa == x || aa == y;
    let nn: i128 = num as i128;
    let dd: i128 = den as i128;
    assert(0 <= nn * nn <= 10_000_000_000_000_000) by (nonlinear_arith)
        requires 0 <= nn <= 100_000_000;
    let num2: i128 = nn * nn;
    assert(0 <= num2 * a2 <= 10_000_000_000_000_000 * 0x2_0000_0000_0000_0000) by (nonlinear_arith)
        requires 0 <= num2 <= 10_000_000_000_000_000, 0 <= a2 <= n, n <= 0x2_0000_0000_0000_0000;
    let top: i128 = num2 * a2;
    assert(1 <= dd * dd <= 9) by (nonlinear_arith)
        requires 1 <= dd <= 3;
    let d2: i128 = dd * dd;
    assert(1 <= d2 * n <= 9 * 0x2_0000_0000_0000_0000) by (nonlinear_arith)
        requires 1 <= d2 <= 9, 1 <= n <= 0x2_0000_0000_0000_0000;
    let bottom: i128 = d2 * n;
    let q: i128 = top / bottom;
    assert(0 <= q <= num2) by (nonlinear_arith)
        requires q == top / bottom, top == num2 * a2, 0 <= a2 <= n, bottom == d2 * n, d2 >= 1, n >= 1, num2 >= 0;
    let m = isqrt(q as u128);
    proof {
        lemma_isqrt_unique(q as int, floor_sqrt(q as int), m as int);
        assert(m <= num) by (nonlinear_arith)
            requires m * m <= q, q <= num2, num2 == nn * nn, nn == num, m >= 0, num >= 0;
        assert(num * num * (a * a) == top) by (nonlinear_arith)
            requires top == num2 * a2, num2 == nn * nn, a2 == aa * aa, nn == num, aa == a;
        assert(den * den * n == bottom) by (nonlinear_arith)
            requires bottom == d2 * n, d2 == dd * dd, dd == den;
        assert(n == dx * dx + dy * dy);
        assert((num * num * (a * a)) / (den * den * (dx * dx + dy * dy)) == q);
    }
    if m == 0 && a != 0 && num > 0 {
        1
    } else {
        m as i64
    }
}

/// Wandering: roll 1 goes right (facing left), 2 up, 3 down, 4 left
/// (facing right), at one pixel per frame; a stunned enemy, or any other
/// roll, changes nothing.
pub open spec fn wandered(e: Enemy, roll: int) -> Enemy {
    if e.is_stunned {
        e
    } else if roll == 1 {
        Enemy { vel: (100i32, 0i32), facing_right: false, ..e }
    } else if roll == 2 {
        Enemy { vel: (0i32, -100i32), ..e }
    } else if roll == 3 {
        Enemy { vel: (0i32, 100i32), ..e }
    } else if roll == 4 {
        Enemy { vel: (-100i32, 0i32), facing_right: true, ..e }
    } else {
        e
    }
}

/// Chasing the point (`px`, `py`) at speed `s`: the velocity points at it,
/// each component taking its share of `s`, and the enemy faces it. A
/// stunned enemy, or one already there, keeps going as it was.
pub open spec fn aggroed(e: Enemy, px: int, py: int, s: int) -> Enemy {
    let dx = px - e.pos.x;
    let dy = py - e.pos.y;
    if e.is_stunned || (dx == 0 && dy == 0) {
        e
    } else {
        let mx = axis_share(dx, dx, dy, s, 1);
        let my = axis_share(dy, dx, dy, s, 1);
        Enemy {
            vel: ((if dx < 0 { -mx } else { mx }) as i32, (if dy < 0 { -my } else { my }) as i32),
            facing_right: dx < 0,
            ..e
        }
    }
}

/// Fleeing the point (`px`, `py`) at two thirds of speed `s`: the velocity
/// points away from it. At the point itself the enemy stops.
pub open spec fn fled(e: Enemy, px: int, py: int, s: int) -> Enemy {
    let dx = px - e.pos.x;
    let dy = py - e.pos.y;
    if e.is_stunned {
        e
    } else {
        let mx = axis_share(dx, dx, dy, 2 * s, 3);
        let my = axis_share(dy, dx, dy, 2 * s, 3);
        Enemy {
            vel: ((if dx >= 0 { -mx } else { mx }) as i32, (if dy >= 0 { -my } else { my }) as i32),
            facing_right: dx < 0,
            ..e
        }
    }
}

/// Knocked back from the point (`px`, `py`): stunned from `now`, pushed two
/// pixels per frame away from it on top of its motion, within its
/// knockback speed, and flipped on each axis where the point lies on the
/// negative side.
pub open spec fn knocked_back(e: Enemy, px: int, py: int, now: u128) -> Enemy {
    let dx = px - e.pos.x;
    let dy = py - e.pos.y;
    let mx = axis_share(dx, dx, dy, 200, 1);
    let my = axis_share(dy, dx, dy, 200, 1);
    let kx = if dx < 0 { mx } else { -mx };
    let ky = if dy < 0 { my } else { -my };
    Enemy {
        x_flipped: dx < 0,
        y_flipped: dy < 0,
        is_stunned: true,
        vel: (clampi(e.vel.0 + kx, -e.knockback_vel, e.knockback_vel as int) as i32,
            clampi(e.vel.1 + ky, -e.knockback_vel, e.knockback_vel as int) as i32),
        stun_timer: now,
        ..e
    }
}

/// Whether the point is farther than the enemy's aggro range (in tiles of
/// 64 pixels) from its corner.
pub open spec fn beyond_aggro(e: Enemy, px: int, py: int) -> bool {
    dist_sq(e, px, py) > (64 * e.aggro_range) * (64 * e.aggro_range)
}

/// The speed of an enemy given the frame's speed limit, in hundredths.
pub open spec fn enemy_speed(e: Enemy, speed_limit: int) -> int {
    speed_limit * e.speed_delta / 100
}

/// The steering of a frame: wander out of aggro range; otherwise chase
/// (melee, skeletons, eyeballs, the boss) or flee (ranged and rock
/// enemies).
#[verifier::opaque]
pub open spec fn steered_enemy(e: Enemy, px: int, py: int, speed_limit: int, roll: int) -> Enemy {
    if beyond_aggro(e, px, py) {
        wandered(e, roll)
    } else {
        match e.enemy_type {
            EnemyType::Ranged | EnemyType::Rock => fled(e, px, py, enemy_speed(e, speed_limit)),
            _ => aggroed(e, px, py, enemy_speed(e, speed_limit)),
        }
    }
}

/// The hits of `body` on the crates it overlaps, in order.
pub open spec fn crate_hits(body: Rect, cs: Seq<Crate>) -> Seq<CollisionDecider>
    decreases cs.len(),
{
    if cs.len() == 0 {
        Seq::empty()
    } else {
        crate_hits(body, cs.drop_last()) + if overlaps(body, cs.last().pos) {
            seq![CollisionDecider {
                dir: hit_side(body, spec_center(body), cs.last().pos),
                dist: pixel_dist(spec_center(body), spec_center(cs.last().pos)) as i32,
            }]
        } else {
            Seq::empty()
        }
    }
}

/// A crate moving faster than a pixel per frame crushes what it overlaps.
pub open spec fn crushes(body: Rect, c: Crate) -> bool {
    overlaps(body, c.pos) && c.vel.0 * c.vel.0 + c.vel.1 * c.vel.1 > 100 * 100
}

pub open spec fn crushed(body: Rect, cs: Seq<Crate>) -> bool {
    exists|i: int| 0 <= i < cs.len() && crushes(body, #[trigger] cs[i])
}

/// The stun wears off once the stun time has passed.
pub open spec fn stun_checked(e: Enemy, now: u128) -> Enemy {
    if elapsed(now, e.stun_timer) > e.stun_time { Enemy { is_stunned: false, ..e } } else { e }
}

/// The hits of an enemy in a frame: walls and moss in view, then the
/// crates it overlaps.
pub open spec fn enemy_hits(e: Enemy, g: Seq<i32>, cs: Seq<Crate>) -> Seq<CollisionDecider> {
    block_hits(g, e.pos, e.pos.x as int, e.pos.y as int, true, TILE_SIZE as int) + crate_hits(e.pos, cs)
}

/// The hits stop the enemy's motion into them, and a fast crate crushes it.
#[verifier::opaque]
pub open spec fn collided(e: Enemy, hits: Seq<CollisionDecider>, cs: Seq<Crate>) -> Enemy {
    Enemy { alive: e.alive && !crushed(e.pos, cs), vel: enemy_clamps(e.vel, wall_clamps(sorted_by_dist(hits))), ..e }
}

/// The step by the whole pixels of the velocity.
#[verifier::opaque]
pub open spec fn stepped(e: Enemy) -> Enemy {
    Enemy {
        pos: Rect {
            x: clamped_position(e.pos.x + whole_pixels(e.vel.0 as int)) as i32,
            y: clamped_position(e.pos.y + whole_pixels(e.vel.1 as int)) as i32,
            ..e.pos
        },
        ..e
    }
}

/// A stunned enemy slows by a pixel per frame.
#[verifier::opaque]
pub open spec fn settled(e: Enemy) -> Enemy {
    if e.is_stunned { Enemy { vel: (slowed(e.vel.0 as int, 100) as i32, slowed(e.vel.1 as int, 100) as i32), ..e } } else { e }
}

/// One frame of an enemy: the stun wears off after its stun time; it
/// steers (see `steered_enemy`); walls, moss and crates stop its motion
/// into them, and a fast crate crushes it; it steps; a stunned enemy
/// slows by a pixel per frame.
pub open spec fn enemy_updated(e: Enemy, g: Seq<i32>, cs: Seq<Crate>, px: int, py: int, speed_limit: int, roll: int, now: u128) -> Enemy {
    let e1 = steered_enemy(stun_checked(e, now), px, py, speed_limit, roll);
    settled(stepped(collided(e1, enemy_hits(e1, g, cs), cs)))
}

/// A hit of `dmg` at time `now`: ignored (the enemy is invincible) within
/// its stun time of the last hit that counted; otherwise it takes the
/// damage, the hit counts from `now`, and it dies at zero health or below.
pub open spec fn hurt(e: Enemy, dmg: int, now: u128) -> Enemy {
    if elapsed(now, e.damage_timer) < e.stun_time {
        Enemy { invincible: true, ..e }
    } else {
        Enemy { invincible: false, damage_timer: now, hp: (e.hp - dmg) as i32, alive: e.alive && e.hp - dmg > 0, ..e }
    }
}

/// The size an enemy is drawn at: four camera tiles for the boss, one
/// for the others.
pub open spec fn enemy_draw_size(t: EnemyType) -> int {
    match t {
        EnemyType::Boss => TILE_SIZE_CAM * 4,
        _ => TILE_SIZE_CAM as int,
    }
}

/// Limits from hits keep velocities well inside `i32`.
pub proof fn lemma_enemy_clamps_ok(v: (i32, i32), cs: Seq<Clamp>)
    requires
        speed_ok(v.0 as int),
        speed_ok(v.1 as int),
    ensures
        speed_ok(enemy_clamps(v, cs).0 as int),
        speed_ok(enemy_clamps(v, cs).1 as int),
    decreases cs.len(),
{
    if cs.len() > 0 {
        lemma_enemy_clamps_ok(v, cs.drop_last());
    }
}

/// Whether a ranged or rock enemy is ready to shoot at (`px`, `py`):
/// within eight tiles and past its fire cooldown.
pub open spec fn attack_ready(e: Enemy, px: int, py: int, now: u128) -> bool {
    &&& (e.enemy_type == EnemyType::Ranged || e.enemy_type == EnemyType::Rock)
    &&& dist_sq(e, px, py) < 512 * 512
    &&& elapsed(now, e.fire_timer) > FIRE_COOLDOWN_E
}

/// The bullet an enemy shoots at (`px`, `py`) at speed `s`.
pub open spec fn aimed_bullet(e: Enemy, px: int, py: int, s: int) -> Projectile {
    let dx = px - e.pos.x;
    let dy = py - e.pos.y;
    let mx = axis_share(dx, dx, dy, s, 1);
    let my = axis_share(dy, dx, dy, s, 1);
    Projectile {
        pos: (e.pos.x, e.pos.y),
        vel: ((if dx < 0 { -mx } else { mx }) as i32, (if dy < 0 { -my } else { my }) as i32),
        src: Rect::spec_new(0, 0, TILE_SIZE as int, TILE_SIZE as int),
        facing_right: true,
        is_active: true,
        p_type: ProjectileType::Bullet,
        bounce_counter: 0,
        elapsed: 0,
        damage: 5,
        angle: 0,
    }
}

/// The power left at the enemy's corner for a drop roll in `1..4`: none
/// when the enemy has no power left or the roll is below 3, otherwise the
/// power of its kind.
pub open spec fn dropped_power(e: Enemy, roll: int) -> PowerType {
    if !e.has_power || roll < 3 { PowerType::NoPower } else { enemy_power(e.enemy_type) }
}

impl Enemy {
    /// Positions and velocities leave room for every step an enemy takes.
    pub open spec fn wf(&self) -> bool {
        &&& self.pos.wf()
        &&& small(self.pos.x as int)
        &&& small(self.pos.y as int)
        &&& speed_ok(self.vel.0 as int)
        &&& speed_ok(self.vel.1 as int)
        &&& 0 <= self.knockback_vel <= 1_000_000
        &&& 0 <= self.speed_delta <= 1000
    }

    /// A fresh enemy of kind `enemy_type` at `pos`, at rest, carrying a
    /// coin and a power; `now` starts its timers.
    pub fn new(pos: Rect, enemy_type: EnemyType, enemy_number: usize, now: u128) -> (e: Enemy)
        ensures
            e.pos == pos,
            e.vel == (0i32, 0i32),
            e.src == Rect::spec_new(0, 0, 64, 64),
            e.stun_timer == now,
            e.fire_timer == now,
            e.damage_timer == now,
            e.invincible,
            e.has_money,
            e.has_power,
            !e.is_stunned,
            !e.x_flipped,
            !e.y_flipped,
            !e.facing_right,
            !e.is_firing,
            e.enemy_type == enemy_type,
            e.enemy_number == enemy_number,
            e.alive,
            (e.stun_time as int, e.hp as int, e.knockback_vel as int, e.speed_delta as int, e.aggro_range as int)
                == enemy_stats(enemy_type),
    {
        let hp: i32;
        let stun_time: u128;
        let knockback_vel: i32;
        let speed_delta: i32;
        let aggro_range: i32;
        match enemy_type {
            EnemyType::Melee => {
                stun_time = 500;
                hp = 15;
                knockback_vel = 2000;
                speed_delta = 100;
                aggro_range = 5;
            },
            EnemyType::Ranged => {
                stun_time = 250;
                hp = 10;
                knockback_vel = 1000;
                speed_delta = 100;
                aggro_range = 5;
            },
            EnemyType::Skeleton => {
                stun_time = 100;
                hp = 30;
                knockback_vel = 300;
                speed_delta = 70;
                aggro_range = 8;
            },
            EnemyType::Eyeball => {
                stun_time = 200;
                hp = 10;
                knockback_vel = 1000;
                speed_delta = 130;
                aggro_range = 6;
            },
            EnemyType::Rock => {
                stun_time = 250;
                hp = 20;
                knockback_vel = 500;
                speed_delta = 70;
                aggro_range = 5;
            },
            EnemyType::Boss => {
                stun_time = 50;
                hp = 100;
                knockback_vel = 0;
                speed_delta = 50;
                aggro_range = 100;
            },
        }
        Enemy {
            vel: (0, 0),
            pos,
            src: Rect::new(0, 0, TILE_SIZE_64, TILE_SIZE_64),
            stun_timer: now,
            fire_timer: now,
            damage_timer: now,
            invincible: true,
            has_money: true,
            has_power: true,
            is_stunned: false,
            x_flipped: false,
            y_flipped: false,
            facing_right: false,
            is_firing: false,
            enemy_type,
            enemy_number,
            alive: true,
            hp,
            stun_time,
            knockback_vel,
            speed_delta,
            aggro_range,
        }
    }

    pub fn set_x(&mut self, x: i32)
        ensures
            *final(self) == (Enemy { pos: Rect { x: clamped_position(x as int) as i32, ..old(self).pos }, ..*old(self) }),
    {
        self.pos.set_x(x);
    }

    pub fn x(&self) -> (r: i32)
        ensures
            r == self.pos.x,
    {
        self.pos.x
    }

    pub fn set_x_vel(&mut self, x: i32)
        ensures
            *final(self) == (Enemy { vel: (x, old(self).vel.1), ..*old(self) }),
    {
        self.vel.0 = x;
    }

    pub fn x_vel(&self) -> (r: i32)
        ensures
            r == self.vel.0,
    {
        self.vel.0
    }

    pub fn width(&self) -> (r: u32)
        ensures
            r == self.pos.w,
    {
        self.pos.width()
    }

    pub fn set_y(&mut self, y: i32)
        ensures
            *final(self) == (Enemy { pos: Rect { y: clamped_position(y as int) as i32, ..old(self).pos }, ..*old(self) }),
    {
        self.pos.set_y(y);
    }

    pub fn y(&self) -> (r: i32)
        ensures
            r == self.pos.y,
    {
        self.pos.y
    }

    pub fn set_y_vel(&mut self, y: i32)
        ensures
            *final(self) == (Enemy { vel: (old(self).vel.0, y), ..*old(self) }),
    {
        self.vel.1 = y;
    }

    pub fn y_vel(&self) -> (r: i32)
        ensures
            r == self.vel.1,
    {
        self.vel.1
    }

    pub fn height(&self) -> (r: u32)
        ensures
            r == self.pos.h,
    {
        self.pos.height()
    }

    /// The whole-pixel distance from the enemy's corner to `p`.
    pub fn radius_from_point(&self, p: (i32, i32)) -> (r: i32)
        ensures
            r == pixel_dist(Point { x: self.pos.x, y: self.pos.y }, Point { x: p.0, y: p.1 }),
    {
        crate::collision::distance(Point { x: self.pos.x, y: self.pos.y }, Point { x: p.0, y: p.1 })
    }

    /// A stunned enemy slows by a pixel per frame (see `settled`).
    fn settle(&mut self)
        requires
            speed_ok(old(self).vel.0 as int),
            speed_ok(old(self).vel.1 as int),
        ensures
            *final(self) == settled(*old(self)),
            final(self).pos == old(self).pos,
            final(self).enemy_type == old(self).enemy_type,
    {
        reveal(settled);
        if self.is_stunned {
            self.slow_vel(100);
        }
    }

    /// One step: the whole pixels of the velocity.
    pub fn update_pos(&mut self)
        requires
            small(old(self).pos.x as int),
            small(old(self).pos.y as int),
            speed_ok(old(self).vel.0 as int),
            speed_ok(old(self).vel.1 as int),
        ensures
            *final(self) == stepped(*old(self)),
            final(self).vel == old(self).vel,
            final(self).is_stunned == old(self).is_stunned,
            final(self).enemy_type == old(self).enemy_type,
            old(self).pos.x - 21_474_837 <= final(self).pos.x <= old(self).pos.x + 21_474_837,
            old(self).pos.y - 21_474_837 <= final(self).pos.y <= old(self).pos.y + 21_474_837,
    {
        reveal(stepped);
        let dx = pixels_of(self.vel.0);
        let dy = pixels_of(self.vel.1);
        self.pos.set_x(self.pos.x + dx);
        self.pos.set_y(self.pos.y + dy);
    }

    /// Whether a crate squeezes the enemy against the wall at `w_pos`: for
    /// each side, the enemy reaches the wall there and the crate on the
    /// other side moves towards it (only the signs of the crate's velocity
    /// count).
    pub fn got_squished(&mut self, w_pos: Rect, c_pos: Rect, c_xvel: i32, c_yvel: i32) -> (r: bool)
        requires
            old(self).pos.wf(),
            w_pos.wf(),
            c_pos.wf(),
        ensures
            *final(self) == *old(self),
            ({
                let p = old(self).pos;
                r == (
                    (p.y <= w_pos.spec_bottom() && p.spec_bottom() >= c_pos.y && c_yvel < 0)
                    || (p.spec_bottom() >= w_pos.y && p.y >= c_pos.spec_bottom() && c_yvel > 0)
                    || (p.x <= w_pos.spec_right() && p.spec_right() >= c_pos.x && c_xvel < 0)
                    || (p.spec_right() >= w_pos.x && p.x <= c_pos.spec_right() && c_xvel > 0))
            }),
    {
        let p = self.pos;
        if p.top() <= w_pos.bottom() && p.bottom() >= c_pos.top() && c_yvel < 0 {
            true
        } else if p.bottom() >= w_pos.top() && p.top() >= c_pos.bottom() && c_yvel > 0 {
            true
        } else if p.left() <= w_pos.right() && p.right() >= c_pos.left() && c_xvel < 0 {
            true
        } else if p.right() >= w_pos.left() && p.left() <= c_pos.right() && c_xvel > 0 {
            true
        } else {
            false
        }
    }

    /// A fresh wandering roll, drawn uniformly from `1..5`.
    pub fn wander_roll() -> (r: i32)
        ensures
            1 <= r < 5,
    {
        random_in(1, 5) as i32
    }

    /// Picks a wandering direction from a roll in `1..5` (see `wandered`).
    pub fn wander(&mut self, roll: i32)
        ensures
            *final(self) == wandered(*old(self), roll as int),
    {
        if self.is_stunned {
            return;
        }
        if roll == 1 {
            self.set_y_vel(0);
            self.set_x_vel(100);
            self.facing_right = false;
        }
        if roll == 2 {
            self.set_y_vel(-100);
            self.set_x_vel(0);
        }
        if roll == 3 {
            self.set_y_vel(100);
            self.set_x_vel(0);
        }
        if roll == 4 {
            self.set_x_vel(-100);
            self.set_y_vel(0);
            self.facing_right = true;
        }
    }

    /// Chases the point (`player_pos_x`, `player_pos_y`) at
    /// `speed_limit_adj` hundredths per frame (see `aggroed`).
    pub fn aggro(&mut self, player_pos_x: i32, player_pos_y: i32, speed_limit_adj: i32)
        requires
            old(self).wf(),
            small(player_pos_x as int),
            small(player_pos_y as int),
            0 <= speed_limit_adj <= 50_000_000,
        ensures
            *final(self) == aggroed(*old(self), player_pos_x as int, player_pos_y as int, speed_limit_adj as int),
            final(self).wf(),
    {
        let dx: i64 = player_pos_x as i64 - self.pos.x as i64;
        let dy: i64 = player_pos_y as i64 - self.pos.y as i64;
        if self.is_stunned || (dx == 0 && dy == 0) {
            return;
        }
        let mx = share(dx, dx, dy, speed_limit_adj as i64, 1);
        let my = share(dy, dx, dy, speed_limit_adj as i64, 1);
        let x: i32 = if dx < 0 { -(mx as i32) } else { mx as i32 };
        let y: i32 = if dy < 0 { -(my as i32) } else { my as i32 };
        self.facing_right = dx < 0;
        self.set_x_vel(x);
        self.set_y_vel(y);
    }

    /// Flees the point (`player_pos_x`, `player_pos_y`) at two thirds of
    /// `speed_limit_adj` (see `fled`).
    pub fn flee(&mut self, player_pos_x: i32, player_pos_y: i32, speed_limit_adj: i32)
        requires
            old(self).wf(),
            small(player_pos_x as int),
            small(player_pos_y as int),
            0 <= speed_limit_adj <= 50_000_000,
        ensures
            *final(self) == fled(*old(self), player_pos_x as int, player_pos_y as int, speed_limit_adj as int),
            final(self).wf(),
    {
        if self.is_stunned {
            return;
        }
        let dx: i64 = player_pos_x as i64 - self.pos.x as i64;
        let dy: i64 = player_pos_y as i64 - self.pos.y as i64;
        let mx = share(dx, dx, dy, 2 * speed_limit_adj as i64, 3);
        let my = share(dy, dx, dy, 2 * speed_limit_adj as i64, 3);
        let x: i32 = if dx >= 0 { -(mx as i32) } else { mx as i32 };
        let y: i32 = if dy >= 0 { -(my as i32) } else { my as i32 };
        self.facing_right = dx < 0;
        self.set_x_vel(x);
        self.set_y_vel(y);
    }

    /// Whether the enemy touches a wall in view (walls only, not moss).
    pub fn force_move(&mut self, map: &Vec<i32>) -> (r: bool)
        requires
            old(self).wf(),
            grid_wf(map@),
        ensures
            *final(self) == *old(self),
            r == (block_hits(map@, old(self).pos, old(self).pos.x as int, old(self).pos.y as int, false, TILE_SIZE as int).len() > 0),
    {
        let hits = blocking_collisions(map, self.pos, self.x(), self.y(), false, TILE_SIZE);
        hits.len() > 0
    }

    /// Knocked back by a hit from the player at (`player_pos_x`,
    /// `player_pos_y`) at time `now` (see `knocked_back`).
    #[verifier::spinoff_prover]
    #[verifier::rlimit(30)]
    pub fn knockback(&mut self, player_pos_x: i32, player_pos_y: i32, now: u128)
        requires
            old(self).wf(),
            small(player_pos_x as int),
            small(player_pos_y as int),
        ensures
            *final(self) == knocked_back(*old(self), player_pos_x as int, player_pos_y as int, now),
            final(self).wf(),
    {
        self.x_flipped = false;
        self.y_flipped = false;
        self.is_stunned = true;
        let dx: i64 = player_pos_x as i64 - self.pos.x as i64;
        let dy: i64 = player_pos_y as i64 - self.pos.y as i64;
        let mx = share(dx, dx, dy, 200, 1) as i32;
        let my = share(dy, dx, dy, 200, 1) as i32;
        let mut x: i32 = -mx;
        if dx < 0 {
            x = mx;
            self.x_flipped = true;
        }
        let mut y: i32 = -my;
        if dy < 0 {
            y = my;
            self.y_flipped = true;
        }
        let kb = self.knockback_vel;
        self.set_x_vel(clamp_i32(self.x_vel() + x, -kb, kb));
        self.set_y_vel(clamp_i32(self.y_vel() + y, -kb, kb));
        self.stun_timer = now;
    }

    /// Pushed by a projectile moving at (`v_x`, `v_y`): stunned from `now`
    /// and carried along.
    pub fn projectile_knockback(&mut self, v_x: i32, v_y: i32, now: u128)
        requires
            speed_ok(old(self).vel.0 + v_x),
            speed_ok(old(self).vel.1 + v_y),
        ensures
            *final(self) == (Enemy {
                is_stunned: true,
                vel: ((old(self).vel.0 + v_x) as i32, (old(self).vel.1 + v_y) as i32),
                stun_timer: now,
                ..*old(self)
            }),
    {
        self.is_stunned = true;
        self.set_x_vel(self.x_vel() + v_x);
        self.set_y_vel(self.y_vel() + v_y);
        self.stun_timer = now;
    }

    pub fn src(&self) -> (r: Rect)
        ensures
            r == self.src,
    {
        self.src
    }

    pub fn pos(&self) -> (r: Rect)
        ensures
            r == self.pos,
    {
        self.pos
    }

    /// The knockback speed, in hundredths.
    pub fn get_vel(&self) -> (r: i32)
        ensures
            r == self.knockback_vel,
    {
        self.knockback_vel
    }

    /// Slows each velocity component by `decel` (see `slowed`).
    pub fn slow_vel(&mut self, decel: i32)
        requires
            0 <= decel <= 1_000_000,
            speed_ok(old(self).vel.0 as int),
            speed_ok(old(self).vel.1 as int),
        ensures
            *final(self) == (Enemy {
                vel: (slowed(old(self).vel.0 as int, decel as int) as i32, slowed(old(self).vel.1 as int, decel as int) as i32),
                ..*old(self)
            }),
            speed_ok(final(self).vel.0 as int),
            speed_ok(final(self).vel.1 as int),
    {
        let x_positive = self.x_vel() >= 0;
        let y_positive = self.y_vel() >= 0;
        if x_positive {
            self.set_x_vel(self.x_vel() - decel);
        } else {
            self.set_x_vel(self.x_vel() + decel);
        }
        if y_positive {
            self.set_y_vel(self.y_vel() - decel);
        } else {
            self.set_y_vel(self.y_vel() + decel);
        }
    }

    /// Shoots at the player at (`px`, `py`) when ready (see
    /// `attack_ready`) and the chance roll, in `1..60`, is below 5; the
    /// bullet flies at `speed` hundredths per frame (see `aimed_bullet`).
    pub fn attack_with_roll(&mut self, enemy_projectiles: &mut Vec<Projectile>, px: i32, py: i32, speed: i32, now: u128, fire_chance: usize)
        requires
            old(self).wf(),
            small(px as int),
            small(py as int),
            0 <= speed <= 50_000_000,
        ensures
            !attack_ready(*old(self), px as int, py as int, now) ==> *final(self) == *old(self) && final(enemy_projectiles)@ == old(enemy_projectiles)@,
            attack_ready(*old(self), px as int, py as int, now) && fire_chance >= 5 ==>
                *final(self) == (Enemy { is_firing: false, ..*old(self) }) && final(enemy_projectiles)@ == old(enemy_projectiles)@,
            attack_ready(*old(self), px as int, py as int, now) && fire_chance < 5 ==>
                *final(self) == (Enemy { is_firing: true, fire_timer: now, ..*old(self) })
                && final(enemy_projectiles)@ == old(enemy_projectiles)@.push(aimed_bullet(*old(self), px as int, py as int, speed as int)),
    {
        match self.enemy_type {
            EnemyType::Ranged | EnemyType::Rock => {},
            _ => {
                return;
            },
        }
        let dx: i64 = px as i64 - self.pos.x as i64;
        let dy: i64 = py as i64 - self.pos.y as i64;
        let dxw: i128 = dx as i128;
        let dyw: i128 = dy as i128;
        assert(0 <= dxw * dxw <= 0x1_0000_0000_0000_0000 && 0 <= dyw * dyw <= 0x1_0000_0000_0000_0000) by (nonlinear_arith)
            requires -0x1_0000_0000 <= dxw <= 0x1_0000_0000, -0x1_0000_0000 <= dyw <= 0x1_0000_0000;
        let dx2: i128 = dxw * dxw;
        let dy2: i128 = dyw * dyw;
        if dx2 + dy2 >= 512 * 512 {
            return;
        }
        if self.get_fire_timer(now) > self.get_fire_cooldown() {
            self.set_fire_cooldown();
            if fire_chance < 5 {
                self.fire(now);
                let mx = share(dx, dx, dy, speed as i64, 1) as i32;
                let my = share(dy, dx, dy, speed as i64, 1) as i32;
                let x: i32 = if dx < 0 { -mx } else { mx };
                let y: i32 = if dy < 0 { -my } else { my };
                let bullet = Projectile::new(
                    Rect::new(self.pos.x, self.pos.y, TILE_SIZE_PROJECTILE, TILE_SIZE_PROJECTILE),
                    true,
                    (x, y),
                    ProjectileType::Bullet,
                    0,
                );
                enemy_projectiles.push(bullet);
            }
        }
    }

    /// Shoots at the player when ready, with a chance of 4 in 59 (see
    /// `attack_with_roll`).
    pub fn check_attack(&mut self, enemy_projectiles: &mut Vec<Projectile>, px: i32, py: i32, speed: i32, now: u128)
        requires
            old(self).wf(),
            small(px as int),
            small(py as int),
            0 <= speed <= 50_000_000,
        ensures
            !attack_ready(*old(self), px as int, py as int, now) ==> *final(self) == *old(self) && final(enemy_projectiles)@ == old(enemy_projectiles)@,
            attack_ready(*old(self), px as int, py as int, now) ==>
                (*final(self) == (Enemy { is_firing: false, ..*old(self) }) && final(enemy_projectiles)@ == old(enemy_projectiles)@)
                || (*final(self) == (Enemy { is_firing: true, fire_timer: now, ..*old(self) })
                    && final(enemy_projectiles)@ == old(enemy_projectiles)@.push(aimed_bullet(*old(self), px as int, py as int, speed as int))),
    {
        let fire_chance = random_in(1, 60);
        self.attack_with_roll(enemy_projectiles, px, py, speed, now, fire_chance);
    }

    /// Milliseconds since the last shot.
    pub fn get_fire_timer(&self, now: u128) -> (r: u128)
        ensures
            r == elapsed(now, self.fire_timer),
    {
        elapsed_ms(now, self.fire_timer)
    }

    /// Starts a shot unless the last one was less than `FIRE_COOLDOWN_E`
    /// ago.
    pub fn fire(&mut self, now: u128)
        ensures
            elapsed(now, old(self).fire_timer) < FIRE_COOLDOWN_E ==> *final(self) == *old(self),
            elapsed(now, old(self).fire_timer) >= FIRE_COOLDOWN_E ==> *final(self) == (Enemy { is_firing: true, fire_timer: now, ..*old(self) }),
    {
        if self.get_fire_timer(now) < FIRE_COOLDOWN_E {
            return;
        }
        self.is_firing = true;
        self.fire_timer = now;
    }

    pub fn get_fire_cooldown(&self) -> (r: u128)
        ensures
            r == FIRE_COOLDOWN_E,
    {
        FIRE_COOLDOWN_E
    }

    pub fn set_fire_cooldown(&mut self)
        ensures
            *final(self) == (Enemy { is_firing: false, ..*old(self) }),
    {
        self.is_firing = false;
    }

    /// Milliseconds since the enemy was last stunned.
    pub fn get_stun_timer(&self, now: u128) -> (r: u128)
        ensures
            r == elapsed(now, self.stun_timer),
    {
        elapsed_ms(now, self.stun_timer)
    }

    pub fn set_stunned(&mut self, stunned: bool)
        ensures
            *final(self) == (Enemy { is_stunned: stunned, ..*old(self) }),
    {
        self.is_stunned = stunned;
    }

    /// Takes `dmg` at time `now` unless still invincible from the last hit
    /// (within its stun time); dies at zero health or below.
    pub fn minus_hp(&mut self, dmg: i32, now: u128)
        requires
            old(self).hp - dmg >= i32::MIN,
            old(self).hp - dmg <= i32::MAX,
        ensures
            *final(self) == hurt(*old(self), dmg as int, now),
    {
        self.set_invincible(now);
        if self.invincible {
            return;
        }
        self.damage_timer = now;
        self.hp -= dmg;
        if self.hp <= 0 {
            self.die();
        }
    }

    /// The enemy is invincible for its stun time after a hit.
    pub fn set_invincible(&mut self, now: u128)
        ensures
            *final(self) == (Enemy { invincible: elapsed(now, old(self).damage_timer) < old(self).stun_time, ..*old(self) }),
    {
        if elapsed_ms(now, self.damage_timer) < self.stun_time {
            self.invincible = true;
        } else {
            self.invincible = false;
        }
    }

    pub fn die(&mut self)
        ensures
            *final(self) == (Enemy { alive: false, ..*old(self) }),
    {
        self.alive = false;
    }

    pub fn is_alive(&self) -> (r: bool)
        ensures
            r == self.alive,
    {
        self.alive
    }

    pub fn has_coin(&self) -> (r: bool)
        ensures
            r == self.has_money,
    {
        self.has_money
    }

    /// Leaves a coin at the enemy's corner; the enemy has no coin left.
    pub fn drop_coin(&mut self) -> (coin: Gold)
        ensures
            *final(self) == (Enemy { has_money: false, ..*old(self) }),
            coin == (Gold {
                pos: Rect::spec_new(old(self).pos.x as int, old(self).pos.y as int, 64, 64),
                src: Rect::spec_new(0, 0, 64, 64),
                amount: 1,
                been_collected: false,
            }),
    {
        let coin = Gold::new(Rect::new(self.x(), self.y(), TILE_SIZE, TILE_SIZE));
        self.has_money = false;
        coin
    }

    pub fn has_power(&self) -> (r: bool)
        ensures
            r == self.has_power,
    {
        self.has_power
    }

    /// Leaves a power at the enemy's corner for a drop roll (see
    /// `dropped_power`); the enemy has no power left.
    pub fn drop_power_with_roll(&mut self, drop_roll: usize) -> (p: Power)
        ensures
            *final(self) == (Enemy { has_power: false, ..*old(self) }),
            p.pos == Rect::spec_new(old(self).pos.x as int, old(self).pos.y as int, 64, 64),
            p.power_type == dropped_power(*old(self), drop_roll as int),
            p.src == Rect::spec_new(0, 0, 64, 64),
            !p.collected,
            (p.damage as int, p.mana_cost as int) == power_stats(p.power_type),
    {
        let pos = Rect::new(self.x(), self.y(), TILE_SIZE_POWER, TILE_SIZE_POWER);
        if !self.has_power || drop_roll < 3 {
            self.has_power = false;
            return Power::new(pos, PowerType::NoPower);
        }
        let power_type = match self.enemy_type {
            EnemyType::Melee => PowerType::Fireball,
            EnemyType::Ranged => PowerType::Slimeball,
            EnemyType::Skeleton => PowerType::Shield,
            EnemyType::Eyeball => PowerType::Dash,
            EnemyType::Rock => PowerType::Slimeball,
            EnemyType::Boss => PowerType::NoPower,
        };
        self.has_power = false;
        Power::new(pos, power_type)
    }

    /// Leaves a power at the enemy's corner: with a roll drawn from `1..4`,
    /// a third of the time the power of its kind (see
    /// `drop_power_with_roll`).
    pub fn drop_power(&mut self) -> (p: Power)
        ensures
            *final(self) == (Enemy { has_power: false, ..*old(self) }),
            p.pos == Rect::spec_new(old(self).pos.x as int, old(self).pos.y as int, 64, 64),
            p.power_type == PowerType::NoPower || (old(self).has_power && p.power_type == enemy_power(old(self).enemy_type)),
            !old(self).has_power ==> p.power_type == PowerType::NoPower,
            !p.collected,
            (p.damage as int, p.mana_cost as int) == power_stats(p.power_type),
    {
        let drop_roll = random_in(1, 4);
        self.drop_power_with_roll(drop_roll)
    }

    pub fn has_item(&self) -> (r: bool)
        ensures
            r == (self.has_money || self.has_power),
    {
        self.has_money || self.has_power
    }

    /// Records a hit of a body at `p_pos` (centre `p_center`) against
    /// `other_pos`.
    pub fn collect_col(&mut self, p_pos: Rect, p_center: Point, other_pos: Rect) -> (c: CollisionDecider)
        requires
            p_pos.wf(),
            other_pos.wf(),
        ensures
            c.dir == hit_side(p_pos, p_center, other_pos),
            c.dist == pixel_dist(p_center, spec_center(other_pos)),
            *final(self) == *old(self),
    {
        collect_col(p_pos, p_center, other_pos)
    }

    /// Stops the enemy's motion into the hits, nearest first (see
    /// `wall_clamps`).
    pub fn resolve_col(&mut self, collisions: &Vec<CollisionDecider>)
        ensures
            *final(self) == (Enemy { vel: enemy_clamps(old(self).vel, wall_clamps(sorted_by_dist(collisions@))), ..*old(self) }),
    {
        let clamps = resolve_col_clamps(collisions);
        let mut i: usize = 0;
        while i < clamps.len()
            invariant
                i <= clamps.len(),
                *self == (Enemy { vel: enemy_clamps(old(self).vel, clamps@.take(i as int)), ..*old(self) }),
            decreases clamps.len() - i,
        {
            assert(clamps@.take(i as int + 1).drop_last() =~= clamps@.take(i as int));
            match clamps[i] {
                Clamp::YNonNeg => self.set_y_vel(clamp_i32(self.y_vel(), 0, 10000)),
                Clamp::YNonPos => self.set_y_vel(clamp_i32(self.y_vel(), -10000, 0)),
                Clamp::XNonNeg => self.set_x_vel(clamp_i32(self.x_vel(), 0, 10000)),
                Clamp::XNonPos => self.set_x_vel(clamp_i32(self.x_vel(), -10000, 0)),
            }
            i += 1;
        }
        assert(clamps@.take(clamps.len() as int) =~= clamps@);
    }

    /// Where the enemy is drawn on screen: four camera tiles square for the
    /// boss, one for the others.
    pub fn offset_pos(&self, player: (i32, i32)) -> (r: Rect)
        requires
            on_world(self.pos.x as int),
            on_world(self.pos.y as int),
            on_world(player.0 as int),
            on_world(player.1 as int),
        ensures
            r == screen_rect(self.pos.x as int, self.pos.y as int, player.0 as int, player.1 as int,
                enemy_draw_size(self.enemy_type), enemy_draw_size(self.enemy_type)),
    {
        let size: u32 = match self.enemy_type {
            EnemyType::Boss => TILE_SIZE_CAM * 4,
            _ => TILE_SIZE_CAM,
        };
        to_screen(self.x(), self.y(), player.0, player.1, size, size)
    }

    /// Whether (`px`, `py`) is out of the enemy's aggro range (see
    /// `beyond_aggro`).
    fn out_of_range(&self, px: i32, py: i32) -> (r: bool)
        requires
            self.wf(),
            small(px as int),
            small(py as int),
        ensures
            r == beyond_aggro(*self, px as int, py as int),
    {
        let dx: i128 = px as i128 - self.pos.x as i128;
        let dy: i128 = py as i128 - self.pos.y as i128;
        assert(0 <= dx * dx <= 0x1_0000_0000_0000_0000 && 0 <= dy * dy <= 0x1_0000_0000_0000_0000) by (nonlinear_arith)
            requires -0x1_0000_0000 <= dx <= 0x1_0000_0000, -0x1_0000_0000 <= dy <= 0x1_0000_0000;
        let reach: i128 = 64 * self.aggro_range as i128;
        assert(0 <= reach * reach <= 0x1_0000_0000_0000_0000_0000_0000) by (nonlinear_arith)
            requires -0x1_0000_0000_0000 <= reach <= 0x1_0000_0000_0000;
        dx * dx + dy * dy > reach * reach
    }

    /// The steering of a frame (see `steered_enemy`).
    fn steer(&mut self, speed_limit: i32, roll: i32, player: (i32, i32))
        requires
            old(self).wf(),
            small(player.0 as int),
            small(player.1 as int),
            0 <= speed_limit <= 1_000_000,
        ensures
            *final(self) == steered_enemy(*old(self), player.0 as int, player.1 as int, speed_limit as int, roll as int),
            final(self).wf(),
    {
        reveal(steered_enemy);
        if self.out_of_range(player.0, player.1) {
            self.wander(roll);
        } else {
            let sl: i64 = speed_limit as i64;
            let sd: i64 = self.speed_delta as i64;
            assert(0 <= sl * sd <= 1_000_000_000) by (nonlinear_arith)
                requires 0 <= sl <= 1_000_000, 0 <= sd <= 1000;
            let sp: i32 = (sl * sd / 100) as i32;
            match self.enemy_type {
                EnemyType::Ranged | EnemyType::Rock => self.flee(player.0, player.1, sp),
                _ => self.aggro(player.0, player.1, sp),
            }
        }
    }

    /// Adds the hits on the crates the enemy overlaps to `collisions`; a
    /// fast crate crushes it (see `crushed`).
    fn hit_crates(&mut self, crates: &Vec<Crate>, collisions: &mut Vec<CollisionDecider>)
        requires
            old(self).pos.wf(),
            forall|k: int| 0 <= k < crates.len() ==> (#[trigger] crates@[k]).pos.wf() && crates@[k].wf(),
        ensures
            *final(self) == (Enemy { alive: old(self).alive && !crushed(old(self).pos, crates@), ..*old(self) }),
            final(collisions)@ == old(collisions)@ + crate_hits(old(self).pos, crates@),
    {
        let ghost e1 = *old(self);
        let ghost walls = old(collisions)@;
        let body = self.pos;
        let mut k: usize = 0;
        assert(crate_hits(body, crates@.take(0)) =~= Seq::<CollisionDecider>::empty());
        while k < crates.len()
            invariant
                k <= crates.len(),
                body == e1.pos,
                body.wf(),
                forall|j: int| 0 <= j < crates.len() ==> (#[trigger] crates@[j]).pos.wf() && crates@[j].wf(),
                collisions@ == walls + crate_hits(body, crates@.take(k as int)),
                *self == (Enemy { alive: e1.alive && !crushed(body, crates@.take(k as int)), ..e1 }),
            decreases crates.len() - k,
        {
            let ghost before = crates@.take(k as int);
            let ghost after = crates@.take(k as int + 1);
            assert(after.drop_last() =~= before);
            assert(after.last() == crates@[k as int]);
            let c = &crates[k];
            if check_collision(&self.pos, &c.pos) {
                if c.moves_faster_than(100) {
                    self.die();
                }
                let hit = collect_col(self.pos, self.pos.center(), c.pos);
                collisions.push(hit);
            }
            proof {
                assert(crushed(body, after) == (crushed(body, before) || crushes(body, crates@[k as int]))) by {
                    if crushed(body, before) {
                        let j = choose|j: int| 0 <= j < before.len() && crushes(body, #[trigger] before[j]);
                        assert(after[j] == before[j]);
                    }
                    if crushes(body, crates@[k as int]) {
                        assert(after[k as int] == crates@[k as int]);
                    }
                    if crushed(body, after) {
                        let j = choose|j: int| 0 <= j < after.len() && crushes(body, #[trigger] after[j]);
                        if j < k {
                            assert(before[j] == after[j]);
                        }
                    }
                }
                assert(collisions@ =~= walls + crate_hits(body, after));
            }
            k += 1;
        }
        assert(crates@.take(crates.len() as int) =~= crates@);
    }

    /// Adds the crates' hits to the walls' `collisions`, then lets them all
    /// stop the enemy (see `collided`).
    fn collide(&mut self, collisions: &mut Vec<CollisionDecider>, crates: &Vec<Crate>)
        requires
            old(self).pos.wf(),
            speed_ok(old(self).vel.0 as int),
            speed_ok(old(self).vel.1 as int),
            forall|k: int| 0 <= k < crates.len() ==> (#[trigger] crates@[k]).pos.wf() && crates@[k].wf(),
        ensures
            final(collisions)@ == old(collisions)@ + crate_hits(old(self).pos, crates@),
            *final(self) == collided(*old(self), final(collisions)@, crates@),
            final(self).pos == old(self).pos,
            final(self).enemy_type == old(self).enemy_type,
            speed_ok(final(self).vel.0 as int),
            speed_ok(final(self).vel.1 as int),
    {
        self.hit_crates(crates, collisions);
        self.resolve_col(collisions);
        proof {
            lemma_enemy_clamps_ok(old(self).vel, wall_clamps(sorted_by_dist(collisions@)));
            reveal(collided);
        }
    }

    /// One frame of the enemy (see `enemy_updated`), with the wandering
    /// roll `rngt[i]`; returns where it is drawn on screen.
    #[verifier::spinoff_prover]
    #[verifier::rlimit(40)]
    pub fn update_enemy(&mut self, speed_limit: i32, rngt: &Vec<i32>, i: usize, player: (i32, i32), map: &Vec<i32>, crates: &Vec<Crate>, now: u128) -> (r: Rect)
        requires
            old(self).wf(),
            -900_000_000 <= old(self).pos.x <= 900_000_000,
            -900_000_000 <= old(self).pos.y <= 900_000_000,
            small(player.0 as int),
            small(player.1 as int),
            0 <= speed_limit <= 1_000_000,
            i < rngt.len(),
            grid_wf(map@),
            forall|k: int| 0 <= k < crates.len() ==> (#[trigger] crates@[k]).pos.wf() && crates@[k].wf(),
        ensures
            *final(self) == enemy_updated(*old(self), map@, crates@, player.0 as int, player.1 as int, speed_limit as int, rngt@[i as int] as int, now),
            r == screen_rect(final(self).pos.x as int, final(self).pos.y as int, player.0 as int, player.1 as int,
                enemy_draw_size(old(self).enemy_type), enemy_draw_size(old(self).enemy_type)),
    {
        let ghost e = *old(self);
        let size: u32 = match self.enemy_type {
            EnemyType::Boss => TILE_SIZE_CAM * 4,
            _ => TILE_SIZE_CAM,
        };
        if self.get_stun_timer(now) > self.stun_time {
            self.set_stunned(false);
        }
        assert(*self == stun_checked(e, now));
        self.steer(speed_limit, rngt[i], player);
        let ghost e1 = *self;
        let mut collisions = blocking_collisions(map, self.pos, self.x(), self.y(), true, TILE_SIZE);
        self.collide(&mut collisions, crates);
        assert(collisions@ == enemy_hits(e1, map@, crates@));
        self.update_pos();
        self.settle();
        to_screen(self.x(), self.y(), player.0, player.1, size, size)
    }
}

} // verus!
