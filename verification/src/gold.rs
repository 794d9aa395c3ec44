//! Coins dropped by enemies.
use crate::gamedata::{on_world, screen_rect, to_screen, TILE_SIZE};
use crate::player::Player;
use crate::rect::Rect;
use vstd::prelude::*;

verus! {

#[derive(PartialEq, Eq, Debug, Copy, Clone, Structural)]
pub struct Gold {
    pub pos: Rect,
    pub src: Rect,
    pub amount: u32,
    pub been_collected: bool,
}

impl Gold {
    /// One uncollected coin at `pos`.
    pub fn new(pos: Rect) -> (g: Gold)
        ensures
            g == (Gold {
                pos,
                src: Rect::spec_new(0, 0, TILE_SIZE as int, TILE_SIZE as int),
                amount: 1,
                been_collected: false,
            }),
    {
        Gold { pos, src: Rect::new(0, 0, TILE_SIZE, TILE_SIZE), amount: 1, been_collected: false }
    }

    pub fn x(&self) -> (r: i32)
        ensures
            r == self.pos.x,
    {
        self.pos.x
    }

    pub fn y(&self) -> (r: i32)
        ensures
            r == self.pos.y,
    {
        self.pos.y
    }

    pub fn src(&self) -> (r: Rect)
        ensures
            r == self.src,
    {
        self.src
    }

    pub fn pos(&self) -> (r: Rect)
        ensures
            r == self.pos,
    {
        self.pos
    }

    pub fn get_gold(&self) -> (r: u32)
        ensures
            r == self.amount,
    {
        self.amount
    }

    pub fn collected(&self) -> (r: bool)
        ensures
            r == self.been_collected,
    {
        self.been_collected
    }

    pub fn set_collected(&mut self)
        ensures
            *final(self) == (Gold { been_collected: true, ..*old(self) }),
    {
        self.been_collected = true;
    }

    /// Where the coin is drawn on screen.
    pub fn offset_pos(&self, player: &Player) -> (r: Rect)
        requires
            on_world(self.pos.x as int),
            on_world(self.pos.y as int),
            on_world(player.pos.0 as int),
            on_world(player.pos.1 as int),
        ensures
            r == screen_rect(self.pos.x as int, self.pos.y as int, player.pos.0 as int, player.pos.1 as int, 64, 64),
    {
        to_screen(self.x(), self.y(), player.x(), player.y(), TILE_SIZE, TILE_SIZE)
    }
}

} // verus!
