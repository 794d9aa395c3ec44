//! Global tuning values of the game and the small value types shared by
//! its entities: power, crate and modifier kinds, and hat modifiers.
use crate::crateobj::Crate;
use crate::gold::Gold;
use crate::power::Power;
use crate::projectile::Projectile;
use crate::random::random_in;
use crate::rect::{overlaps, touches, Rect};
use crate::room::Room;
use crate::weapon::{Weapon, WeaponType};
use vstd::prelude::*;

verus! {

pub const DEVELOP: bool = false;
pub const DEBUG: bool = false;
pub const DEBUG_NO_WALLS: bool = false;

// window
pub const CAM_W: u32 = 1280;
pub const CAM_H: u32 = 720;
pub const TILE_SIZE_64: u32 = 64;
pub const TILE_SIZE_32: u32 = 32;

// tiles
pub const TILE_SIZE: u32 = 64;
pub const TILE_SIZE_HALF: u32 = TILE_SIZE / 2;
pub const TILE_SIZE_CAM: u32 = TILE_SIZE * 4 / 5;
pub const TILE_SIZE_PLAYER: u32 = TILE_SIZE_CAM * 4 / 5;
pub const TILE_SIZE_PROJECTILE: u32 = TILE_SIZE * 2 / 3;
pub const TILE_SIZE_POWER: u32 = TILE_SIZE;

/// Screen position of the centred player tile: `(CAM_W / 2) - TILE_SIZE_HALF`.
pub const CENTER_W: i32 = 608;
/// `(CAM_H / 2) - TILE_SIZE_HALF`.
pub const CENTER_H: i32 = 328;

// rooms
pub const MIN_ROOM_W: usize = 11;
pub const MAX_ROOM_W: usize = 21;
pub const MAP_SIZE_W: usize = 61;
pub const MIN_ROOM_H: usize = 11;
pub const MAX_ROOM_H: usize = 21;
pub const MAP_SIZE_H: usize = 61;

pub const BOSS_ROOM_W: usize = 31;
pub const BOSS_ROOM_H: usize = 21;

// player timers, in milliseconds
/// How often the player can take damage.
pub const DMG_COOLDOWN: u128 = 800;
/// How often the player can shoot.
pub const FIRE_COOLDOWN_P: u128 = 300;
/// How long the player's shield lasts.
pub const SHIELD_TIME: u128 = 1800;

// enemy timers, in milliseconds
/// How often an enemy can shoot.
pub const FIRE_COOLDOWN_E: u128 = 2500;

#[derive(PartialEq, Eq, Debug, Copy, Clone, Structural)]
pub enum PowerType {
    NoPower,
    Fireball,
    Slimeball,
    Shield,
    Dash,
    Rock,
    Shrapnel,
}

#[derive(PartialEq, Eq, Debug, Copy, Clone, Structural)]
pub enum CrateType {
    Explosive,
    Heavy,
    Regular,
}

#[derive(PartialEq, Eq, Debug, Copy, Clone, Structural)]
pub enum ModifierType {
    Heavy,
    Fast,
    Healthy,
    NoModifier,
}

/// What a hat changes about the player. The speed change is kept in
/// hundredths: `speed_delta_hundredths == 20` is a speed change of `+0.2`.
#[derive(PartialEq, Eq, Debug, Copy, Clone, Structural)]
pub struct Modifier {
    pub modifier_type: ModifierType,
    pub health: i32,
    pub mana_restore_rate: i128,
    pub max_mana: i32,
    pub weapon: WeaponType,
    pub power: PowerType,
    pub speed_delta_hundredths: i32,
}

/// The values of each hat: (health, mana restore rate, max mana, speed
/// change in hundredths).
pub open spec fn modifier_values(t: ModifierType) -> (int, int, int, int) {
    match t {
        ModifierType::Heavy => (10, -600, 3, -20),
        ModifierType::Fast => (-10, 500, 2, 20),
        ModifierType::Healthy => (20, -400, 1, -10),
        ModifierType::NoModifier => (0, 0, 0, 0),
    }
}

impl Modifier {
    pub fn new(modifier_type: ModifierType) -> (m: Modifier)
        ensures
            m.modifier_type == modifier_type,
            (m.health as int, m.mana_restore_rate as int, m.max_mana as int, m.speed_delta_hundredths as int)
                == modifier_values(modifier_type),
            m.weapon == WeaponType::NoWeapon,
            m.power == PowerType::NoPower,
    {
        let health: i32;
        let mana_restore_rate: i128;
        let max_mana: i32;
        let speed_delta_hundredths: i32;
        match modifier_type {
            ModifierType::Heavy => {
                health = 10;
                mana_restore_rate = -600;
                max_mana = 3;
                speed_delta_hundredths = -20;
            },
            ModifierType::Fast => {
                health = -10;
                mana_restore_rate = 500;
                max_mana = 2;
                speed_delta_hundredths = 20;
            },
            ModifierType::Healthy => {
                health = 20;
                mana_restore_rate = -400;
                max_mana = 1;
                speed_delta_hundredths = -10;
            },
            ModifierType::NoModifier => {
                health = 0;
                mana_restore_rate = 0;
                max_mana = 0;
                speed_delta_hundredths = 0;
            },
        }
        Modifier {
            modifier_type,
            health,
            mana_restore_rate,
            max_mana,
            weapon: WeaponType::NoWeapon,
            power: PowerType::NoPower,
            speed_delta_hundredths,
        }
    }
}

/// Whether two rectangles overlap with a positive area; rectangles that
/// only share an edge do not collide.
pub fn check_collision(a: &Rect, b: &Rect) -> (r: bool)
    requires
        a.wf(),
        b.wf(),
    ensures
        r == overlaps(*a, *b),
{
    if a.bottom() <= b.top() || a.top() >= b.bottom() || a.right() <= b.left() || a.left() >= b.right() {
        false
    } else {
        true
    }
}

/// Whether two rectangles overlap or touch; this is the test used for
/// stairs, pickups and hits.
pub fn check_collision_touching(a: &Rect, b: &Rect) -> (r: bool)
    requires
        a.wf(),
        b.wf(),
    ensures
        r == touches(*a, *b),
{
    if a.bottom() < b.top() || a.top() > b.bottom() || a.right() < b.left() || a.left() > b.right() {
        false
    } else {
        true
    }
}

/// The state of a run: the floor, what lies on it, and the currencies.
/// The speed limit and acceleration are in hundredths of a pixel per
/// frame; `frame_counter` is the time the run started, in milliseconds.
pub struct GameData {
    pub frame_counter: u128,
    pub speed_limit: i32,
    pub accel_rate: i32,
    pub gold: Vec<Gold>,
    pub blue_gold: Vec<Gold>,
    pub blue_gold_count: u32,
    pub dropped_powers: Vec<Power>,
    pub dropped_weapons: Vec<Weapon>,
    pub player_projectiles: Vec<Projectile>,
    pub enemy_projectiles: Vec<Projectile>,
    pub crates: Vec<Crate>,
    pub map_size_w: usize,
    pub map_size_h: usize,
    pub current_floor: i32,
    pub current_room: usize,
    pub rooms: Vec<Room>,
}

/// What every new room promises: its walls and bounds.
pub open spec fn room_ok(r: Room) -> bool {
    &&& r.xwalls.0 == 1
    &&& 19 <= r.xwalls.1 < 27
    &&& r.ywalls.0 == 1
    &&& 10 <= r.ywalls.1 < 19
    &&& r.xbounds == (64i32, (r.xwalls.1 * 64 - 64) as i32)
    &&& r.ybounds == (64i32, (r.ywalls.1 * 64 - 64) as i32)
}

/// A fresh run's state apart from its rooms: the first floor a 61 x 61
/// map, nothing on it, a speed limit of three pixels per frame, and the
/// blue gold the player keeps between runs.
pub open spec fn fresh_game(g: GameData, blue_gold_count: u32, now: u128) -> bool {
    &&& g.frame_counter == now
    &&& g.speed_limit == 300
    &&& g.accel_rate == 0
    &&& g.gold@.len() == 0
    &&& g.blue_gold@.len() == 0
    &&& g.blue_gold_count == blue_gold_count
    &&& g.dropped_powers@.len() == 0
    &&& g.dropped_weapons@.len() == 0
    &&& g.player_projectiles@.len() == 0
    &&& g.enemy_projectiles@.len() == 0
    &&& g.crates@.len() == 0
    &&& g.map_size_w == 61
    &&& g.map_size_h == 61
    &&& g.current_floor == 4
    &&& g.current_room == 0
}

impl GameData {
    /// A fresh run with `room_count` rooms (see `fresh_game`).
    pub fn new_with_rooms(blue_gold_count: u32, now: u128, room_count: usize) -> (g: GameData)
        ensures
            fresh_game(g, blue_gold_count, now),
            g.rooms@.len() == room_count,
            forall|i: int| 0 <= i < g.rooms@.len() ==> room_ok(#[trigger] g.rooms@[i]),
    {
        let mut rooms: Vec<Room> = Vec::new();
        let mut i: usize = 0;
        while i < room_count
            invariant
                i <= room_count,
                rooms@.len() == i,
                forall|k: int| 0 <= k < rooms@.len() ==> room_ok(#[trigger] rooms@[k]),
            decreases room_count - i,
        {
            rooms.push(Room::new());
            i += 1;
        }
        GameData {
            frame_counter: now,
            speed_limit: 300,
            accel_rate: 0,
            gold: Vec::new(),
            blue_gold: Vec::new(),
            blue_gold_count,
            dropped_powers: Vec::new(),
            dropped_weapons: Vec::new(),
            player_projectiles: Vec::new(),
            enemy_projectiles: Vec::new(),
            crates: Vec::new(),
            map_size_w: 61,
            map_size_h: 61,
            current_floor: 4,
            current_room: 0,
            rooms,
        }
    }

    /// A fresh run (see `fresh_game`) with between 8 and 10 rooms, the
    /// number drawn at random.
    pub fn new(blue_gold_count: u32, now: u128) -> (g: GameData)
        ensures
            fresh_game(g, blue_gold_count, now),
            8 <= g.rooms@.len() < 11,
            forall|i: int| 0 <= i < g.rooms@.len() ==> room_ok(#[trigger] g.rooms@[i]),
    {
        let room_count = random_in(8, 11);
        GameData::new_with_rooms(blue_gold_count, now, room_count)
    }

    pub fn set_speed_limit(&mut self, speed_limit: i32)
        ensures
            final(self).speed_limit == speed_limit,
            final(self).accel_rate == old(self).accel_rate,
            final(self).current_floor == old(self).current_floor,
            final(self).blue_gold_count == old(self).blue_gold_count,
    {
        self.speed_limit = speed_limit;
    }

    pub fn get_speed_limit(&self) -> (r: i32)
        ensures
            r == self.speed_limit,
    {
        self.speed_limit
    }

    pub fn set_accel_rate(&mut self, accel_rate: i32)
        ensures
            final(self).accel_rate == accel_rate,
            final(self).speed_limit == old(self).speed_limit,
            final(self).current_floor == old(self).current_floor,
            final(self).blue_gold_count == old(self).blue_gold_count,
    {
        self.accel_rate = accel_rate;
    }

    pub fn get_accel_rate(&self) -> (r: i32)
        ensures
            r == self.accel_rate,
    {
        self.accel_rate
    }

    /// Whether two rectangles overlap with a positive area.
    pub fn check_collision(a: &Rect, b: &Rect) -> (r: bool)
        requires
            a.wf(),
            b.wf(),
        ensures
            r == overlaps(*a, *b),
    {
        check_collision(a, b)
    }
}

/// The screen rectangle of something at world position (`x`, `y`) while the
/// player stands at (`px`, `py`): the player is drawn at
/// (`CENTER_W`, `CENTER_H`).
pub open spec fn screen_rect(x: int, y: int, px: int, py: int, w: int, h: int) -> Rect {
    Rect::spec_new(x + (CENTER_W - px), y + (CENTER_H - py), w, h)
}

/// World positions that the screen arithmetic can shift without leaving
/// `i32`.
pub open spec fn on_world(v: int) -> bool {
    -1_000_000_000 <= v <= 1_000_000_000
}

pub fn to_screen(x: i32, y: i32, px: i32, py: i32, w: u32, h: u32) -> (r: Rect)
    requires
        -1_070_000_000 <= x <= 1_070_000_000,
        -1_070_000_000 <= y <= 1_070_000_000,
        on_world(px as int),
        on_world(py as int),
    ensures
        r == screen_rect(x as int, y as int, px as int, py as int, w as int, h as int),
        r.wf(),
{
    Rect::new(x + (CENTER_W - px), y + (CENTER_H - py), w, h)
}

} // verus!
