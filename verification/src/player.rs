//! The player: movement, health, mana, coins, attacks and how walls stop
//! it. Times are milliseconds on a clock the caller reads; the player
//! keeps the time of its last attack, shot, hit and mana refill.
use crate::collision::hit_side;
use crate::gamedata::{check_collision, CENTER_H, CENTER_W, DMG_COOLDOWN, FIRE_COOLDOWN_P, TILE_SIZE};
use crate::rect::{overlaps, Point, Rect};
use crate::collision::Clamp;
use crate::map::{at, in_map, grid_wf};
use crate::projectile::{projectile_damage, Projectile, ProjectileType};
use vstd::prelude::*;

verus! {

#[derive(Clone, Copy, Debug, PartialEq, Eq, Structural)]
pub enum Direction {
    Up,
    Down,
    Left,
    Right,
    NoDirection,
}

#[derive(Clone, Copy, Debug, PartialEq, Eq, Structural)]
pub enum Ability {
    Bullet,
}

#[derive(Clone, Copy, Debug, PartialEq, Eq, Structural)]
pub enum Weapon {
    Sword,
}

/// The pull towards rest: with no push (`delta == 0`) a moving player gets
/// a push of one against its motion; otherwise the push stays.
pub open spec fn spec_resist(vel: int, delta: int) -> int {
    if delta == 0 {
        if vel > 0 { -1 } else if vel < 0 { 1 } else { delta }
    } else {
        delta
    }
}

/// Calculates velocity resistance.
pub fn resist(vel: i32, delta: i32) -> (r: i32)
    ensures
        r == spec_resist(vel as int, delta as int),
{
    if delta == 0 {
        if vel > 0 {
            -1
        } else if vel < 0 {
            1
        } else {
            delta
        }
    } else {
        delta
    }
}

/// Least time between two melee attacks, in milliseconds.
pub const ATTK_COOLDOWN: u128 = 300;
/// Reach of the player's melee attack, in pixels (`TILE_SIZE_CAM * 3 / 2`).
pub const ATTACK_LENGTH: u32 = 76;
/// Time it takes to win back one point of mana, in milliseconds.
pub const MANA_RESTORE_RATE: u128 = 1000;

/// Milliseconds from `since` to `now`, or 0 when `now` is earlier.
pub open spec fn elapsed(now: u128, since: u128) -> u128 {
    if now >= since { (now - since) as u128 } else { 0 }
}

pub fn elapsed_ms(now: u128, since: u128) -> (r: u128)
    ensures
        r == elapsed(now, since),
{
    if now >= since { now - since } else { 0 }
}

/// `v` held within `[lo, hi]`.
pub open spec fn clampi(v: int, lo: int, hi: int) -> int {
    if v < lo { lo } else if v > hi { hi } else { v }
}

/// `v` held within `[lo, hi]`, as `i32::clamp` does.
pub fn clamp_i32(v: i32, lo: i32, hi: i32) -> (r: i32)
    requires
        lo <= hi,
    ensures
        r == clampi(v as int, lo as int, hi as int),
{
    if v < lo { lo } else if v > hi { hi } else { v }
}

/// Quotient and remainder of a division by a tile (64 pixels), rounded
/// towards zero as Rust's `/` and `%` do.
pub open spec fn tdiv64(v: int) -> int {
    if v >= 0 { v / 64 } else { -((-v) / 64) }
}

pub open spec fn trem64(v: int) -> int {
    v - 64 * tdiv64(v)
}

pub(crate) fn div_rem_64(v: i32) -> (r: (i32, i32))
    ensures
        r.0 == tdiv64(v as int),
        r.1 == trem64(v as int),
        -64 < r.1 < 64,
{
    if v >= 0 {
        (v / 64, v % 64)
    } else {
        let a: i64 = -(v as i64);
        let q: i64 = a / 64;
        let rr: i64 = a % 64;
        ((-q) as i32, (-rr) as i32)
    }
}

/// The player's velocity limits from the walls it hit, in the order found:
/// the first hit stops motion into it; with more than two hits the third
/// (and, for a first hit on the left, also the second) may stop more.
pub open spec fn player_clamps(c: Seq<Direction>) -> Seq<Clamp> {
    if c.len() == 0 {
        Seq::empty()
    } else {
        match c[0] {
            Direction::Up => seq![Clamp::YNonNeg] + if c.len() > 2 {
                match c[2] {
                    Direction::Up => seq![Clamp::YNonNeg],
                    Direction::Left => seq![Clamp::XNonNeg],
                    Direction::Right => seq![Clamp::XNonPos],
                    _ => Seq::empty(),
                }
            } else {
                Seq::empty()
            },
            Direction::Down => seq![Clamp::YNonPos] + if c.len() > 2 {
                match c[2] {
                    Direction::Down => seq![Clamp::YNonPos],
                    Direction::Left => seq![Clamp::XNonNeg],
                    Direction::Right => seq![Clamp::XNonPos],
                    _ => Seq::empty(),
                }
            } else {
                Seq::empty()
            },
            Direction::Right => seq![Clamp::XNonPos] + if c.len() > 2 {
                match c[2] {
                    Direction::Up => seq![Clamp::YNonNeg],
                    Direction::Down => seq![Clamp::YNonPos],
                    Direction::Right => seq![Clamp::XNonPos],
                    _ => Seq::empty(),
                }
            } else {
                Seq::empty()
            },
            Direction::Left => seq![Clamp::XNonNeg] + if c.len() > 2 {
                (if c[1] == Direction::Left { seq![Clamp::XNonNeg] } else { Seq::empty() }) + match c[2] {
                    Direction::Up => seq![Clamp::YNonNeg],
                    Direction::Down => seq![Clamp::YNonPos],
                    Direction::Left => seq![Clamp::XNonNeg],
                    Direction::Right => seq![Clamp::XNonNeg],
                    _ => Seq::empty(),
                }
            } else {
                Seq::empty()
            },
            Direction::NoDirection => Seq::empty(),
        }
    }
}

/// A velocity after one limit: a component held to `[0, 100]` or
/// `[-100, 0]`.
pub open spec fn apply_clamp(v: (i32, i32), c: Clamp) -> (i32, i32) {
    match c {
        Clamp::YNonNeg => (v.0, clampi(v.1 as int, 0, 100) as i32),
        Clamp::YNonPos => (v.0, clampi(v.1 as int, -100, 0) as i32),
        Clamp::XNonNeg => (clampi(v.0 as int, 0, 100) as i32, v.1),
        Clamp::XNonPos => (clampi(v.0 as int, -100, 0) as i32, v.1),
    }
}

pub open spec fn apply_clamps(v: (i32, i32), cs: Seq<Clamp>) -> (i32, i32)
    decreases cs.len(),
{
    if cs.len() == 0 {
        v
    } else {
        apply_clamp(apply_clamps(v, cs.drop_last()), cs.last())
    }
}

/// Limits never push a velocity component out of `[-b, b]`.
pub proof fn lemma_apply_clamps_bounded(v: (i32, i32), cs: Seq<Clamp>, b: int)
    requires
        b >= 0,
        -b <= v.0 <= b,
        -b <= v.1 <= b,
    ensures
        -b <= apply_clamps(v, cs).0 <= b,
        -b <= apply_clamps(v, cs).1 <= b,
    decreases cs.len(),
{
    if cs.len() > 0 {
        lemma_apply_clamps_bounded(v, cs.drop_last(), b);
    }
}

/// The player's hit box at world position (`x`, `y`): half a tile square.
pub open spec fn player_rect(x: int, y: int) -> Rect {
    Rect::spec_new(x, y, 32, 32)
}

/// The side of `other` the player ran into (`NoDirection` when none of
/// the four tests holds).
pub open spec fn player_hit_side(p_pos: Rect, p_center: Point, other: Rect) -> Direction {
    if p_pos.spec_bottom() >= other.y && p_center.y < other.y {
        Direction::Down
    } else if p_pos.spec_right() >= other.x && p_center.x < other.x {
        Direction::Right
    } else if p_pos.y <= other.spec_bottom() && p_center.y > other.spec_bottom() {
        Direction::Up
    } else if p_pos.x <= other.spec_right() && p_center.x > other.spec_right() {
        Direction::Left
    } else {
        Direction::NoDirection
    }
}

pub open spec fn spec_center(r: Rect) -> Point {
    Point {
        x: crate::rect::clamped_position(r.x + r.w as int / 2) as i32,
        y: crate::rect::clamped_position(r.y + r.h as int / 2) as i32,
    }
}

/// The rectangle, in the coordinates of the player's hit box, of the tile
/// `h` rows and `w` columns from the top-left tile in view.
pub open spec fn view_tile_rect(x: int, y: int, h: int, w: int) -> Rect {
    Rect::spec_new(w * 64 - trem64(x) - (CENTER_W - x), h * 64 - trem64(y) - (CENTER_H - y), 64, 64)
}

/// The hit, if any, of a player at (`x`, `y`) against the tile in view at
/// (`h`, `w`): only walls (2) count.
pub open spec fn wall_hit_at(g: Seq<i32>, x: int, y: int, h: int, w: int) -> Option<Direction> {
    let r = h + tdiv64(y);
    let c = w + tdiv64(x);
    if !in_map(r, c) || at(g, r, c) != 2 {
        None
    } else if overlaps(player_rect(x, y), view_tile_rect(x, y, h, w)) {
        Some(player_hit_side(player_rect(x, y), spec_center(player_rect(x, y)), view_tile_rect(x, y, h, w)))
    } else {
        None
    }
}

pub open spec fn opt_dir(o: Option<Direction>) -> Seq<Direction> {
    match o {
        Some(d) => seq![d],
        None => Seq::empty(),
    }
}

pub open spec fn wall_hits_row(g: Seq<i32>, x: int, y: int, h: int, w: int) -> Seq<Direction>
    decreases w,
{
    if w <= 0 { Seq::empty() } else { wall_hits_row(g, x, y, h, w - 1) + opt_dir(wall_hit_at(g, x, y, h, w - 1)) }
}

pub open spec fn wall_hits_rows(g: Seq<i32>, x: int, y: int, h: int) -> Seq<Direction>
    decreases h,
{
    if h <= 0 { Seq::empty() } else { wall_hits_rows(g, x, y, h - 1) + wall_hits_row(g, x, y, h - 1, 21) }
}

/// The walls the player at (`x`, `y`) overlaps among the 12 x 21 tiles in
/// view, row by row.
pub open spec fn wall_hits(g: Seq<i32>, x: int, y: int) -> Seq<Direction> {
    wall_hits_rows(g, x, y, 12)
}

/// The sprite-sheet cell shown at animation `count` when each frame lasts
/// `f` ticks: twelve frames, three per row of 64-pixel cells.
pub open spec fn frame_cell(count: int, f: int) -> (i32, i32) {
    if count < f { (0, 0) }
    else if count < f * 2 { (64, 0) }
    else if count < f * 3 { (128, 0) }
    else if count < f * 4 { (0, 64) }
    else if count < f * 5 { (64, 64) }
    else if count < f * 6 { (128, 64) }
    else if count < f * 7 { (0, 128) }
    else if count < f * 8 { (64, 128) }
    else if count < f * 9 { (128, 128) }
    else if count < f * 10 { (0, 192) }
    else if count < f * 11 { (64, 192) }
    else if count < f * 12 { (128, 192) }
    else { (0, 0) }
}

/// Positions stay far enough from the `i32` limits for all the arithmetic
/// on them.
pub open spec fn small(v: int) -> bool {
    -1_000_000_000 <= v <= 1_000_000_000
}

/// A position that stays `small` after a step at any speed the frame
/// allows.
pub open spec fn roomy(v: int) -> bool {
    -990_000_000 <= v <= 990_000_000
}

#[derive(Clone, Copy, Debug)]
pub struct Player {
    pub pos: (i32, i32),
    pub cam_pos: Rect,
    pub mass: i32,
    pub vel: (i32, i32),
    pub delta: (i32, i32),
    pub height: u32,
    pub width: u32,
    pub src: Rect,
    pub attack_box: Rect,
    pub attack_time: u128,
    pub fire_time: u128,
    pub damage_time: u128,
    pub mana_time: u128,
    pub invincible: bool,
    pub facing_right: bool,
    pub hp: u32,
    pub mana: i32,
    pub max_mana: i32,
    pub is_attacking: bool,
    pub weapon_frame: i32,
    pub is_firing: bool,
    pub coins: u32,
    pub weapon: Weapon,
    pub ability: Ability,
}

/// The velocity, in hundredths, of a shot towards the mouse at
/// (`mouse_x`, `mouse_y`) on screen, seen from the centre of the player's
/// tile, at three times the speed limit `s`.
pub open spec fn shot_velocity(mouse_x: int, mouse_y: int, s: int) -> (i32, i32) {
    let dx = mouse_x - CENTER_W - 32;
    let dy = mouse_y - CENTER_H - 32;
    let mx = crate::enemy::axis_share(dx, dx, dy, 3 * s, 1);
    let my = crate::enemy::axis_share(dy, dx, dy, 3 * s, 1);
    ((if dx < 0 { -mx } else { mx }) as i32, (if dy < 0 { -my } else { my }) as i32)
}

/// The steering step: the resistance, then the velocity held within the
/// speed limit.
pub open spec fn steered(p: Player, s: int) -> Player {
    let dx = spec_resist(p.vel.0 as int, p.delta.0 as int);
    let dy = spec_resist(p.vel.1 as int, p.delta.1 as int);
    Player {
        delta: (dx as i32, dy as i32),
        vel: (clampi(p.vel.0 + dx, -s, s) as i32, clampi(p.vel.1 + dy, -s, s) as i32),
        ..p
    }
}

/// The position after one step at the current velocity (two pixels per
/// unit of velocity).
pub open spec fn moved(p: Player) -> Player {
    Player { pos: ((p.pos.0 + 2 * p.vel.0) as i32, (p.pos.1 + 2 * p.vel.1) as i32), ..p }
}

/// The attack box in front of the player at (`x`, `y`).
pub open spec fn attack_box_at(facing_right: bool, x: int, y: int) -> Rect {
    if facing_right {
        Rect::spec_new(x + TILE_SIZE, y, ATTACK_LENGTH as int, TILE_SIZE as int)
    } else {
        Rect::spec_new(x - ATTACK_LENGTH, y, ATTACK_LENGTH as int, TILE_SIZE as int)
    }
}

/// The end of a frame for attacks and shots: an ongoing attack follows the
/// player; after the attack cooldown the attack ends and its box shrinks
/// to the player's corner; after the shot cooldown the player may shoot
/// again.
pub open spec fn timers_checked(p: Player, now: u128) -> Player {
    let p1 = if p.is_attacking { Player { attack_box: attack_box_at(p.facing_right, p.pos.0 as int, p.pos.1 as int), ..p } } else { p };
    let p2 = if elapsed(now, p1.attack_time) > ATTK_COOLDOWN {
        Player { is_attacking: false, attack_box: Rect::spec_new(p1.pos.0 as int, p1.pos.1 as int, 0, 0), ..p1 }
    } else {
        p1
    };
    if elapsed(now, p2.fire_time) > FIRE_COOLDOWN_P { Player { is_firing: false, ..p2 } } else { p2 }
}

/// One point of mana comes back once the refill time has passed since the
/// last refill, up to the maximum.
pub open spec fn mana_restored(p: Player, now: u128) -> Player {
    if elapsed(now, p.mana_time) < MANA_RESTORE_RATE || p.mana >= p.max_mana {
        p
    } else {
        Player { mana: (p.mana + 1) as i32, mana_time: now, ..p }
    }
}

/// The player after a frame: steering, walls, motion, attack and shot
/// timers, and mana.
pub open spec fn updated(p: Player, g: Seq<i32>, s: int, now: u128) -> Player {
    let p1 = steered(p, s);
    let p2 = Player { vel: apply_clamps(p1.vel, player_clamps(wall_hits(g, p1.pos.0 as int, p1.pos.1 as int))), ..p1 };
    mana_restored(timers_checked(moved(p2), now), now)
}

impl Player {
    /// A fresh player at `pos`; `now` starts all of its timers.
    pub fn new(pos: (i32, i32), now: u128) -> (p: Player)
        ensures
            p == (Player {
                pos,
                cam_pos: Rect::spec_new(0, 0, 64, 64),
                mass: 150,
                vel: (0i32, 0i32),
                delta: (0i32, 0i32),
                height: 64,
                width: 64,
                src: Rect::spec_new(0, 0, 64, 64),
                attack_box: Rect::spec_new(0, 0, 64, 64),
                attack_time: now,
                fire_time: now,
                damage_time: now,
                mana_time: now,
                invincible: true,
                facing_right: false,
                hp: 30,
                mana: 4,
                max_mana: 4,
                is_attacking: false,
                weapon_frame: 0,
                is_firing: false,
                coins: 0,
                weapon: Weapon::Sword,
                ability: Ability::Bullet,
            }),
    {
        Player {
            pos,
            cam_pos: Rect::new(0, 0, TILE_SIZE, TILE_SIZE),
            mass: 150,
            vel: (0, 0),
            delta: (0, 0),
            height: TILE_SIZE,
            width: TILE_SIZE,
            src: Rect::new(0, 0, TILE_SIZE, TILE_SIZE),
            attack_box: Rect::new(0, 0, TILE_SIZE, TILE_SIZE),
            attack_time: now,
            fire_time: now,
            damage_time: now,
            mana_time: now,
            invincible: true,
            facing_right: false,
            hp: 30,
            mana: 4,
            max_mana: 4,
            is_attacking: false,
            weapon_frame: 0,
            is_firing: false,
            coins: 0,
            weapon: Weapon::Sword,
            ability: Ability::Bullet,
        }
    }

    /// One frame of the player: resistance and speed limit, walls in view
    /// stopping it, the step itself, the attack and shot timers, and mana.
    pub fn update_player(&mut self, map: &Vec<i32>, speed_limit: i32, now: u128)
        requires
            grid_wf(map@),
            roomy(old(self).pos.0 as int),
            roomy(old(self).pos.1 as int),
            -1_000_000 <= old(self).vel.0 <= 1_000_000,
            -1_000_000 <= old(self).vel.1 <= 1_000_000,
            -1_000_000 <= old(self).delta.0 <= 1_000_000,
            -1_000_000 <= old(self).delta.1 <= 1_000_000,
            0 <= speed_limit <= 1_000_000,
        ensures
            *final(self) == updated(*old(self), map@, speed_limit as int, now),
    {
        self.steer(speed_limit);
        let collisions = self.wall_collisions(map);
        self.resolve_col_further(collisions);
        proof {
            let b: int = if speed_limit >= 100 { speed_limit as int } else { 100 };
            lemma_apply_clamps_bounded(steered(*old(self), speed_limit as int).vel, player_clamps(collisions@), b);
        }
        self.update_pos((-100 * TILE_SIZE as i32, 100 * TILE_SIZE as i32), (-100 * TILE_SIZE as i32, 100 * TILE_SIZE as i32));
        // is the player currently attacking?
        if self.is_attacking {
            self.set_attack_box(self.x(), self.y());
        }
        if self.get_attack_timer(now) > ATTK_COOLDOWN {
            self.is_attacking = false;
            // clear attack box
            self.attack_box = Rect::new(self.x(), self.y(), 0, 0);
        }
        // is the player currently firing?
        if elapsed_ms(now, self.fire_time) > FIRE_COOLDOWN_P {
            self.is_firing = false;
        }
        self.restore_mana(now);
    }

    /// The resistance, then the velocity held within `[-speed_limit,
    /// speed_limit]`.
    pub fn steer(&mut self, speed_limit: i32)
        requires
            -1_000_000 <= old(self).vel.0 <= 1_000_000,
            -1_000_000 <= old(self).vel.1 <= 1_000_000,
            -1_000_000 <= old(self).delta.0 <= 1_000_000,
            -1_000_000 <= old(self).delta.1 <= 1_000_000,
            0 <= speed_limit <= 1_000_000,
        ensures
            *final(self) == steered(*old(self), speed_limit as int),
    {
        // slow down to 0 velocity if there is no input
        self.set_x_delta(resist(self.x_vel(), self.x_delta()));
        self.set_y_delta(resist(self.y_vel(), self.y_delta()));
        // don't exceed the speed limit
        let lower: i32 = -speed_limit;
        self.set_x_vel(clamp_i32(self.x_vel() + self.x_delta(), lower, speed_limit));
        self.set_y_vel(clamp_i32(self.y_vel() + self.y_delta(), lower, speed_limit));
    }

    /// The walls in view that the player overlaps, each with the side it
    /// hit (see `wall_hits`).
    pub fn wall_collisions(&self, map: &Vec<i32>) -> (collisions: Vec<Direction>)
        requires
            grid_wf(map@),
            small(self.pos.0 as int),
            small(self.pos.1 as int),
        ensures
            collisions@ == wall_hits(map@, self.pos.0 as int, self.pos.1 as int),
    {
        let x = self.x();
        let y = self.y();
        let ghost g = map@;
        let (h_bounds_offset, y_rem) = div_rem_64(y);
        let (w_bounds_offset, x_rem) = div_rem_64(x);
        let mut collisions: Vec<Direction> = Vec::new();
        let mut h: i32 = 0;
        while h < 12
            invariant
                0 <= h <= 12,
                grid_wf(g),
                g == map@,
                x == self.pos.0,
                y == self.pos.1,
                small(x as int),
                small(y as int),
                h_bounds_offset == tdiv64(y as int),
                w_bounds_offset == tdiv64(x as int),
                y_rem == trem64(y as int),
                x_rem == trem64(x as int),
                -64 < y_rem < 64,
                -64 < x_rem < 64,
                collisions@ == wall_hits_rows(g, x as int, y as int, h as int),
            decreases 12 - h,
        {
            let ghost base = collisions@;
            let mut w: i32 = 0;
            while w < 21
                invariant
                    0 <= h < 12,
                    0 <= w <= 21,
                    grid_wf(g),
                    g == map@,
                    x == self.pos.0,
                    y == self.pos.1,
                    small(x as int),
                    small(y as int),
                    h_bounds_offset == tdiv64(y as int),
                    w_bounds_offset == tdiv64(x as int),
                    y_rem == trem64(y as int),
                    x_rem == trem64(x as int),
                    -64 < y_rem < 64,
                    -64 < x_rem < 64,
                    base == wall_hits_rows(g, x as int, y as int, h as int),
                    collisions@ == base + wall_hits_row(g, x as int, y as int, h as int, w as int),
                decreases 21 - w,
            {
                let ghost before = collisions@;
                let ghost found = wall_hit_at(g, x as int, y as int, h as int, w as int);
                let r = h + h_bounds_offset;
                let c = w + w_bounds_offset;
                if r < 0 || c < 0 || r >= 61 || c >= 61 {
                    assert(found is None);
                } else if map[(r as usize) * 61 + (c as usize)] == 2 {
                    let w_pos = Rect::new(w * 64 - x_rem - (CENTER_W - x), h * 64 - y_rem - (CENTER_H - y), TILE_SIZE, TILE_SIZE);
                    let p_pos = self.pos();
                    if check_collision(&p_pos, &w_pos) {
                        let d = self.resolve_col(p_pos, p_pos.center(), w_pos);
                        collisions.push(d);
                    } else {
                        assert(found is None);
                    }
                } else {
                    assert(found is None);
                }
                assert(collisions@ =~= before + opt_dir(found));
                assert(wall_hits_row(g, x as int, y as int, h as int, w as int + 1)
                    =~= wall_hits_row(g, x as int, y as int, h as int, w as int) + opt_dir(found));
                w += 1;
            }
            assert(wall_hits_rows(g, x as int, y as int, h as int + 1)
                =~= wall_hits_rows(g, x as int, y as int, h as int) + wall_hits_row(g, x as int, y as int, h as int, 21));
            h += 1;
        }
        collisions
    }

    // player x values
    pub fn set_x(&mut self, x: i32)
        ensures
            *final(self) == (Player { pos: (x, old(self).pos.1), ..*old(self) }),
    {
        self.pos.0 = x;
    }

    pub fn x(&self) -> (r: i32)
        ensures
            r == self.pos.0,
    {
        self.pos.0
    }

    pub fn set_x_vel(&mut self, x: i32)
        ensures
            *final(self) == (Player { vel: (x, old(self).vel.1), ..*old(self) }),
    {
        self.vel.0 = x;
    }

    pub fn x_vel(&self) -> (r: i32)
        ensures
            r == self.vel.0,
    {
        self.vel.0
    }

    pub fn set_x_delta(&mut self, x: i32)
        ensures
            *final(self) == (Player { delta: (x, old(self).delta.1), ..*old(self) }),
    {
        self.delta.0 = x;
    }

    pub fn x_delta(&self) -> (r: i32)
        ensures
            r == self.delta.0,
    {
        self.delta.0
    }

    pub fn width(&self) -> (r: u32)
        ensures
            r == self.width,
    {
        self.width
    }

    // player y values
    pub fn set_y(&mut self, y: i32)
        ensures
            *final(self) == (Player { pos: (old(self).pos.0, y), ..*old(self) }),
    {
        self.pos.1 = y;
    }

    pub fn y(&self) -> (r: i32)
        ensures
            r == self.pos.1,
    {
        self.pos.1
    }

    pub fn set_y_vel(&mut self, y: i32)
        ensures
            *final(self) == (Player { vel: (old(self).vel.0, y), ..*old(self) }),
    {
        self.vel.1 = y;
    }

    pub fn y_vel(&self) -> (r: i32)
        ensures
            r == self.vel.1,
    {
        self.vel.1
    }

    pub fn set_y_delta(&mut self, y: i32)
        ensures
            *final(self) == (Player { delta: (old(self).delta.0, y), ..*old(self) }),
    {
        self.delta.1 = y;
    }

    pub fn y_delta(&self) -> (r: i32)
        ensures
            r == self.delta.1,
    {
        self.delta.1
    }

    pub fn height(&self) -> (r: u32)
        ensures
            r == self.height,
    {
        self.height
    }

    /// One step at the current velocity; the bounds are not applied.
    pub fn update_pos(&mut self, x_bounds: (i32, i32), y_bounds: (i32, i32))
        requires
            small(old(self).pos.0 as int),
            small(old(self).pos.1 as int),
            -100_000_000 <= old(self).vel.0 <= 100_000_000,
            -100_000_000 <= old(self).vel.1 <= 100_000_000,
        ensures
            *final(self) == moved(*old(self)),
    {
        self.pos.0 = self.x() + self.x_vel() * 2;
        self.pos.1 = self.y() + self.y_vel() * 2;
    }

    pub fn set_src(&mut self, x: i32, y: i32)
        ensures
            *final(self) == (Player { src: Rect::spec_new(x as int, y as int, 64, 64), ..*old(self) }),
    {
        self.src = Rect::new(x, y, TILE_SIZE, TILE_SIZE);
    }

    pub fn src(&self) -> (r: Rect)
        ensures
            r == self.src,
    {
        self.src
    }

    /// The player's hit box.
    pub fn pos(&self) -> (r: Rect)
        ensures
            r == player_rect(self.pos.0 as int, self.pos.1 as int),
            r.wf(),
    {
        Rect::new(self.x(), self.y(), TILE_SIZE / 2, TILE_SIZE / 2)
    }

    /// Places the player on screen relative to the camera corner (`x`, `y`).
    pub fn set_cam_pos(&mut self, x: i32, y: i32)
        requires
            small(old(self).pos.0 as int),
            small(old(self).pos.1 as int),
            small(x as int),
            small(y as int),
        ensures
            *final(self) == (Player {
                cam_pos: Rect::spec_new(old(self).pos.0 - x, old(self).pos.1 - y, 32, 32),
                ..*old(self)
            }),
    {
        self.cam_pos = Rect::new(self.x() - x, self.y() - y, TILE_SIZE / 2, TILE_SIZE / 2);
    }

    /// The player's mass, in hundredths.
    pub fn get_mass(&self) -> (r: i32)
        ensures
            r == self.mass,
    {
        self.mass
    }

    pub fn get_cam_pos(&self) -> (r: Rect)
        ensures
            r == self.cam_pos,
    {
        self.cam_pos
    }

    /// Shows the animation cell for tick `count` when each frame lasts
    /// `f_display` ticks (see `frame_cell`).
    pub fn get_frame_display(&mut self, count: i32, f_display: i32)
        requires
            -100_000_000 <= f_display <= 100_000_000,
        ensures
            *final(self) == (Player {
                src: Rect::spec_new(frame_cell(count as int, f_display as int).0 as int,
                    frame_cell(count as int, f_display as int).1 as int, 64, 64),
                ..*old(self)
            }),
    {
        if count < f_display {
            self.set_src(0, 0);
        } else if count < f_display * 2 {
            self.set_src(64, 0);
        } else if count < f_display * 3 {
            self.set_src(128, 0);
        } else if count < f_display * 4 {
            self.set_src(0, 64);
        } else if count < f_display * 5 {
            self.set_src(64, 64);
        } else if count < f_display * 6 {
            self.set_src(128, 64);
        } else if count < f_display * 7 {
            self.set_src(0, 128);
        } else if count < f_display * 8 {
            self.set_src(64, 128);
        } else if count < f_display * 9 {
            self.set_src(128, 128);
        } else if count < f_display * 10 {
            self.set_src(0, 192);
        } else if count < f_display * 11 {
            self.set_src(64, 192);
        } else if count < f_display * 12 {
            self.set_src(128, 192);
        } else {
            self.set_src(0, 0);
        }
    }

    // attacking values
    /// Milliseconds since the last attack.
    pub fn get_attack_timer(&self, now: u128) -> (r: u128)
        ensures
            r == elapsed(now, self.attack_time),
    {
        elapsed_ms(now, self.attack_time)
    }

    pub fn get_attack_box(&self) -> (r: Rect)
        ensures
            r == self.attack_box,
    {
        self.attack_box
    }

    /// The attack box in front of the player standing at (`x`, `y`).
    pub fn set_attack_box(&mut self, x: i32, y: i32)
        requires
            small(x as int),
        ensures
            *final(self) == (Player { attack_box: attack_box_at(old(self).facing_right, x as int, y as int), ..*old(self) }),
    {
        if self.facing_right {
            self.attack_box = Rect::new(x + TILE_SIZE as i32, y, ATTACK_LENGTH, TILE_SIZE);
        } else {
            self.attack_box = Rect::new(x - ATTACK_LENGTH as i32, y, ATTACK_LENGTH, TILE_SIZE);
        }
    }

    /// Starts a melee attack unless the last one was less than
    /// `ATTK_COOLDOWN` ago.
    pub fn attack(&mut self, now: u128)
        requires
            small(old(self).pos.0 as int),
        ensures
            elapsed(now, old(self).attack_time) < ATTK_COOLDOWN ==> *final(self) == *old(self),
            elapsed(now, old(self).attack_time) >= ATTK_COOLDOWN ==> *final(self) == (Player {
                is_attacking: true,
                attack_box: attack_box_at(old(self).facing_right, old(self).pos.0 as int, old(self).pos.1 as int),
                attack_time: now,
                ..*old(self)
            }),
    {
        if self.get_attack_timer(now) < ATTK_COOLDOWN {
            return;
        }
        self.is_attacking = true;
        self.set_attack_box(self.x(), self.y());
        self.attack_time = now;
    }

    /// Shoots towards the mouse at (`mouse_x`, `mouse_y`) on screen, at
    /// three times `speed_limit` (see `shot_velocity`): one point of mana
    /// is spent and the shot timer restarts at `now`.
    pub fn fire(&mut self, mouse_x: i32, mouse_y: i32, speed_limit: i32, p_type: ProjectileType, now: u128) -> (bullet: Projectile)
        requires
            old(self).mana > i32::MIN,
            -1_000_000 <= mouse_x <= 1_000_000,
            -1_000_000 <= mouse_y <= 1_000_000,
            0 <= speed_limit <= 10_000_000,
        ensures
            *final(self) == (Player { is_firing: true, mana: (old(self).mana - 1) as i32, fire_time: now, ..*old(self) }),
            bullet == (Projectile {
                pos: (crate::rect::clamped_position(old(self).pos.0 as int) as i32, crate::rect::clamped_position(old(self).pos.1 as int) as i32),
                vel: shot_velocity(mouse_x as int, mouse_y as int, speed_limit as int),
                src: Rect::spec_new(0, 0, 64, 64),
                facing_right: false,
                is_active: true,
                p_type,
                bounce_counter: 0,
                elapsed: 0,
                damage: projectile_damage(p_type) as i32,
                angle: 0,
            }),
    {
        self.is_firing = true;
        self.use_mana();
        self.fire_time = now;
        let dx: i64 = mouse_x as i64 - CENTER_W as i64 - (TILE_SIZE / 2) as i64;
        let dy: i64 = mouse_y as i64 - CENTER_H as i64 - (TILE_SIZE / 2) as i64;
        let speed: i64 = 3 * speed_limit as i64;
        let mx = crate::enemy::share(dx, dx, dy, speed, 1) as i32;
        let my = crate::enemy::share(dy, dx, dy, speed, 1) as i32;
        let x: i32 = if dx < 0 { -mx } else { mx };
        let y: i32 = if dy < 0 { -my } else { my };
        Projectile::new(Rect::new(self.x(), self.y(), TILE_SIZE / 2, TILE_SIZE / 2), false, (x, y), p_type, 0)
    }

    //mana values
    pub fn get_mana(&self) -> (r: i32)
        ensures
            r == self.mana,
    {
        self.mana
    }

    pub fn get_max_mana(&self) -> (r: i32)
        ensures
            r == self.max_mana,
    {
        self.max_mana
    }

    /// Milliseconds since mana last came back.
    pub fn get_mana_timer(&self, now: u128) -> (r: u128)
        ensures
            r == elapsed(now, self.mana_time),
    {
        elapsed_ms(now, self.mana_time)
    }

    pub fn use_mana(&mut self)
        requires
            old(self).mana > i32::MIN,
        ensures
            *final(self) == (Player { mana: (old(self).mana - 1) as i32, ..*old(self) }),
    {
        self.mana -= 1;
    }

    pub fn restore_mana(&mut self, now: u128)
        ensures
            *final(self) == mana_restored(*old(self), now),
    {
        if self.get_mana_timer(now) < MANA_RESTORE_RATE || self.get_mana() >= self.max_mana {
            return;
        }
        self.mana += 1;
        self.mana_time = now;
    }

    // health values
    pub fn get_hp(&self) -> (r: u32)
        ensures
            r == self.hp,
    {
        self.hp
    }

    pub fn is_dead(&self) -> (r: bool)
        ensures
            r == (self.hp == 0),
    {
        self.hp <= 0
    }

    /// Takes `dmg` damage unless the player is invincible; the hit restarts
    /// the damage timer.
    pub fn minus_hp(&mut self, dmg: u32, now: u128)
        requires
            old(self).invincible || dmg <= old(self).hp,
        ensures
            old(self).invincible ==> *final(self) == *old(self),
            !old(self).invincible ==> *final(self) == (Player { hp: (old(self).hp - dmg) as u32, damage_time: now, ..*old(self) }),
    {
        if self.invincible {
            return;
        }
        self.hp -= dmg;
        self.damage_time = now;
    }

    /// The player is invincible for `DMG_COOLDOWN` after a hit.
    pub fn set_invincible(&mut self, now: u128)
        ensures
            *final(self) == (Player { invincible: elapsed(now, old(self).damage_time) < DMG_COOLDOWN, ..*old(self) }),
    {
        if elapsed_ms(now, self.damage_time) < DMG_COOLDOWN {
            self.invincible = true;
        } else {
            self.invincible = false;
        }
    }

    //coin values
    pub fn get_coins(&self) -> (r: u32)
        ensures
            r == self.coins,
    {
        self.coins
    }

    pub fn add_coins(&mut self, coins_to_add: u32)
        requires
            old(self).coins + coins_to_add <= u32::MAX,
        ensures
            *final(self) == (Player { coins: (old(self).coins + coins_to_add) as u32, ..*old(self) }),
    {
        self.coins += coins_to_add;
    }

    pub fn sub_coins(&mut self, coins_to_sub: u32)
        requires
            coins_to_sub <= old(self).coins,
        ensures
            *final(self) == (Player { coins: (old(self).coins - coins_to_sub) as u32, ..*old(self) }),
    {
        self.coins -= coins_to_sub;
    }

    /// The side of `other_pos` the player ran into (see `player_hit_side`).
    pub fn resolve_col(&self, p_pos: Rect, p_center: Point, other_pos: Rect) -> (d: Direction)
        requires
            p_pos.wf(),
            other_pos.wf(),
        ensures
            d == player_hit_side(p_pos, p_center, other_pos),
    {
        // player above other
        if p_pos.bottom() >= other_pos.top() && p_center.y() < other_pos.top() {
            return Direction::Down;
        }
        if p_pos.right() >= other_pos.left() && p_center.x() < other_pos.left() {
            return Direction::Right;
        }
        if p_pos.top() <= other_pos.bottom() && p_center.y() > other_pos.bottom() {
            return Direction::Up;
        }
        // player right of other
        if p_pos.left() <= other_pos.right() && p_center.x() > other_pos.right() {
            return Direction::Left;
        }
        Direction::NoDirection
    }

    /// Stops the player's motion into the walls it hit, in the order found
    /// (see `player_clamps`).
    pub fn resolve_col_further(&mut self, collisions: Vec<Direction>)
        ensures
            *final(self) == (Player { vel: apply_clamps(old(self).vel, player_clamps(collisions@)), ..*old(self) }),
    {
        let mut clamps: Vec<Clamp> = Vec::new();
        if collisions.len() > 0 {
            match collisions[0] {
                Direction::Up => {
                    clamps.push(Clamp::YNonNeg);
                    if collisions.len() > 2 {
                        match collisions[2] {
                            Direction::Up => clamps.push(Clamp::YNonNeg),
                            Direction::Left => clamps.push(Clamp::XNonNeg),
                            Direction::Right => clamps.push(Clamp::XNonPos),
                            _ => {},
                        }
                    }
                },
                Direction::Down => {
                    clamps.push(Clamp::YNonPos);
                    if collisions.len() > 2 {
                        match collisions[2] {
                            Direction::Down => clamps.push(Clamp::YNonPos),
                            Direction::Left => clamps.push(Clamp::XNonNeg),
                            Direction::Right => clamps.push(Clamp::XNonPos),
                            _ => {},
                        }
                    }
                },
                Direction::Right => {
                    clamps.push(Clamp::XNonPos);
                    if collisions.len() > 2 {
                        match collisions[2] {
                            Direction::Up => clamps.push(Clamp::YNonNeg),
                            Direction::Down => clamps.push(Clamp::YNonPos),
                            Direction::Right => clamps.push(Clamp::XNonPos),
                            _ => {},
                        }
                    }
                },
                Direction::Left => {
                    clamps.push(Clamp::XNonNeg);
                    if collisions.len() > 2 {
                        if collisions[1] == Direction::Left {
                            clamps.push(Clamp::XNonNeg);
                        }
                        match collisions[2] {
                            Direction::Up => clamps.push(Clamp::YNonNeg),
                            Direction::Down => clamps.push(Clamp::YNonPos),
                            Direction::Left => clamps.push(Clamp::XNonNeg),
                            Direction::Right => clamps.push(Clamp::XNonNeg),
                            _ => {},
                        }
                    }
                },
                Direction::NoDirection => {},
            }
        }
        assert(clamps@ =~= player_clamps(collisions@));
        let mut i: usize = 0;
        while i < clamps.len()
            invariant
                i <= clamps.len(),
                *self == (Player { vel: apply_clamps(old(self).vel, clamps@.take(i as int)), ..*old(self) }),
            decreases clamps.len() - i,
        {
            assert(clamps@.take(i as int + 1).drop_last() =~= clamps@.take(i as int));
            match clamps[i] {
                Clamp::YNonNeg => self.set_y_vel(clamp_i32(self.y_vel(), 0, 100)),
                Clamp::YNonPos => self.set_y_vel(clamp_i32(self.y_vel(), -100, 0)),
                Clamp::XNonNeg => self.set_x_vel(clamp_i32(self.x_vel(), 0, 100)),
                Clamp::XNonPos => self.set_x_vel(clamp_i32(self.x_vel(), -100, 0)),
            }
            i += 1;
        }
        assert(clamps@.take(clamps.len() as int) =~= clamps@);
    }
}

} // verus!
