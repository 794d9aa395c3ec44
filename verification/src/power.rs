//! Powers: the ranged abilities that enemies drop and the player absorbs.
use crate::gamedata::{PowerType, TILE_SIZE};
use crate::rect::Rect;
use vstd::prelude::*;

verus! {

#[derive(PartialEq, Eq, Debug, Copy, Clone, Structural)]
pub struct Power {
    pub pos: Rect,
    pub src: Rect,
    pub power_type: PowerType,
    pub collected: bool,
    pub damage: i32,
    pub mana_cost: i32,
}

/// A power's (damage, mana cost).
pub open spec fn power_stats(t: PowerType) -> (int, int) {
    match t {
        PowerType::Rock => (8, 4),
        PowerType::Fireball => (5, 3),
        PowerType::Slimeball => (3, 2),
        PowerType::Shield => (0, 4),
        _ => (2, 3),
    }
}

impl Power {
    /// A power of the given type lying at `pos`, not yet collected.
    pub fn new(pos: Rect, power_type: PowerType) -> (p: Power)
        ensures
            p.pos == pos,
            p.src == Rect::spec_new(0, 0, TILE_SIZE as int, TILE_SIZE as int),
            p.power_type == power_type,
            !p.collected,
            (p.damage as int, p.mana_cost as int) == power_stats(power_type),
    {
        let src = Rect::new(0, 0, TILE_SIZE, TILE_SIZE);
        let damage: i32;
        let mana_cost: i32;
        match power_type {
            PowerType::Rock => {
                damage = 8;
                mana_cost = 4;
            },
            PowerType::Fireball => {
                damage = 5;
                mana_cost = 3;
            },
            PowerType::Slimeball => {
                damage = 3;
                mana_cost = 2;
            },
            PowerType::Shield => {
                damage = 0;
                mana_cost = 4;
            },
            _ => {
                damage = 2;
                mana_cost = 3;
            },
        }
        Power { pos, src, power_type, collected: false, damage, mana_cost }
    }

    pub fn x(&self) -> (r: i32)
        ensures
            r == self.pos.x,
    {
        self.pos.x
    }

    pub fn y(&self) -> (r: i32)
        ensures
            r == self.pos.y,
    {
        self.pos.y
    }

    pub fn pos(&self) -> (r: Rect)
        ensures
            r == self.pos,
    {
        self.pos
    }

    pub fn src(&self) -> (r: Rect)
        ensures
            r == self.src,
    {
        self.src
    }

    pub fn collected(&self) -> (r: bool)
        ensures
            r == self.collected,
    {
        self.collected
    }

    pub fn set_collected(&mut self)
        ensures
            *final(self) == (Power { collected: true, ..*old(self) }),
    {
        self.collected = true;
    }

    pub fn power_type(&self) -> (r: &PowerType)
        ensures
            *r == self.power_type,
    {
        &self.power_type
    }
}

} // verus!
