//! Melee weapons and their reach, damage and timing.
use crate::gamedata::{TILE_SIZE, TILE_SIZE_CAM};
use crate::rect::Rect;
use vstd::prelude::*;

verus! {

#[derive(PartialEq, Eq, Debug, Copy, Clone, Structural)]
pub enum WeaponType {
    Sword,
    Spear,
    Dagger,
    NoWeapon,
}

/// A weapon; the timings are in milliseconds and the reach in pixels.
#[derive(PartialEq, Eq, Debug, Copy, Clone, Structural)]
pub struct Weapon {
    pub pos: Rect,
    pub src: Rect,
    pub attack_cooldown: u128,
    pub attack_time: u128,
    pub attack_length: u32,
    pub damage: i32,
    pub weapon_type: WeaponType,
}

/// A new weapon's (damage, cooldown, attack time, reach).
pub open spec fn weapon_stats(t: WeaponType) -> (int, int, int, int) {
    match t {
        WeaponType::Spear => (6, 800, 800, TILE_SIZE_CAM * 2),
        WeaponType::Sword => (3, 300, 400, TILE_SIZE_CAM * 3 / 2),
        WeaponType::Dagger => (2, 150, 200, TILE_SIZE_CAM * 3 / 4),
        WeaponType::NoWeapon => (2, 300, 400, TILE_SIZE_CAM * 3 / 2),
    }
}

/// What switching to a weapon type sets: (damage, cooldown, reach), and the
/// attack time when the switch sets one (only the dagger does).
pub open spec fn switched_stats(t: WeaponType) -> (int, int, int, Option<int>) {
    match t {
        WeaponType::Spear => (4, 800, TILE_SIZE_CAM * 2, None),
        WeaponType::Sword => (2, 300, TILE_SIZE_CAM * 3 / 2, None),
        WeaponType::Dagger => (2, 150, TILE_SIZE_CAM * 1 / 2, Some(200)),
        WeaponType::NoWeapon => (2, 300, TILE_SIZE_CAM * 3 / 2, None),
    }
}

impl Weapon {
    pub fn new(pos: Rect, weapon_type: WeaponType) -> (w: Weapon)
        ensures
            w.pos == pos,
            w.src == Rect::spec_new(0, 0, TILE_SIZE as int, TILE_SIZE as int),
            w.weapon_type == weapon_type,
            (w.damage as int, w.attack_cooldown as int, w.attack_time as int, w.attack_length as int)
                == weapon_stats(weapon_type),
    {
        let src = Rect::new(0, 0, TILE_SIZE, TILE_SIZE);
        let damage: i32;
        let attack_cooldown: u128;
        let attack_time: u128;
        let attack_length: u32;
        match weapon_type {
            WeaponType::Spear => {
                damage = 6;
                attack_cooldown = 800;
                attack_time = 800;
                attack_length = TILE_SIZE_CAM * 2;
            },
            WeaponType::Sword => {
                damage = 3;
                attack_cooldown = 300;
                attack_time = 400;
                attack_length = TILE_SIZE_CAM * 3 / 2;
            },
            WeaponType::Dagger => {
                damage = 2;
                attack_cooldown = 150;
                attack_time = 200;
                attack_length = TILE_SIZE_CAM * 3 / 4;
            },
            WeaponType::NoWeapon => {
                damage = 2;
                attack_cooldown = 300;
                attack_time = 400;
                attack_length = TILE_SIZE_CAM * 3 / 2;
            },
        }
        Weapon { pos, src, attack_cooldown, attack_time, attack_length, damage, weapon_type }
    }

    pub fn x(&self) -> (r: i32)
        ensures
            r == self.pos.x,
    {
        self.pos.x
    }

    pub fn y(&self) -> (r: i32)
        ensures
            r == self.pos.y,
    {
        self.pos.y
    }

    pub fn pos(&self) -> (r: Rect)
        ensures
            r == self.pos,
    {
        self.pos
    }

    pub fn src(&self) -> (r: Rect)
        ensures
            r == self.src,
    {
        self.src
    }

    pub fn weapon_type(&self) -> (r: &WeaponType)
        ensures
            *r == self.weapon_type,
    {
        &self.weapon_type
    }

    /// Re-tunes the weapon for a weapon type. The type field itself is left
    /// as it was, and only the dagger sets an attack time.
    pub fn set_weapon_type(&mut self, weapon_type: WeaponType)
        ensures
            ({
                let s = switched_stats(weapon_type);
                &&& final(self).damage == s.0
                &&& final(self).attack_cooldown == s.1
                &&& final(self).attack_length == s.2
                &&& final(self).attack_time == (match s.3 {
                    Some(t) => t,
                    None => old(self).attack_time as int,
                })
            }),
            final(self).pos == old(self).pos,
            final(self).src == old(self).src,
            final(self).weapon_type == old(self).weapon_type,
    {
        match weapon_type {
            WeaponType::Spear => {
                self.damage = 4;
                self.attack_cooldown = 800;
                self.attack_length = TILE_SIZE_CAM * 2;
            },
            WeaponType::Sword => {
                self.damage = 2;
                self.attack_cooldown = 300;
                self.attack_length = TILE_SIZE_CAM * 3 / 2;
            },
            WeaponType::Dagger => {
                self.damage = 2;
                self.attack_cooldown = 150;
                self.attack_time = 200;
                self.attack_length = TILE_SIZE_CAM * 1 / 2;
            },
            WeaponType::NoWeapon => {
                self.damage = 2;
                self.attack_cooldown = 300;
                self.attack_length = TILE_SIZE_CAM * 3 / 2;
            },
        }
    }
}

} // verus!
