//! Game logic of Slime Rampage: map generation, rooms, entities and their
//! rules, with contracts proved by Verus.
use vstd::prelude::*;

pub mod background;
pub mod collision;
pub mod combat;
pub mod credits;
pub mod crateobj;
pub mod enemy;
pub mod game;
pub mod gamedata;
pub mod gold;
pub mod input;
pub mod laws;
pub mod map;
pub mod menu;
pub mod player;
pub mod power;
pub mod projectile;
pub mod ranged_attack;
mod random;
pub mod rect;
pub mod save;
pub mod room;
pub mod ui;
pub mod view;
pub mod weapon;

verus! {
} // verus!
