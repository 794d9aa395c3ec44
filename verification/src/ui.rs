//! The heads-up display: health, mana, weapon and power, coins, the level
//! and the helper line. The layout is computed here as a list of sprites
//! with their places; the program that draws turns it into pictures and
//! text.
use crate::gamedata::{check_collision, PowerType, CAM_H, CAM_W, TILE_SIZE, TILE_SIZE_64, TILE_SIZE_CAM, TILE_SIZE_HALF};
use crate::map::GameMap;
use crate::player::Player;
use crate::rect::{overlaps, Rect};
use crate::weapon::WeaponType;
use vstd::prelude::*;

verus! {

/// A HUD element's place on screen and its cell in its image.
#[derive(PartialEq, Eq, Debug, Copy, Clone, Structural)]
pub struct UI {
    pub pos: Rect,
    pub src: Rect,
}

/// The pictures of the HUD.
#[derive(PartialEq, Eq, Debug, Copy, Clone, Structural)]
pub enum UiSprite {
    BarBack,
    Bar,
    Heart,
    HalfHeart,
    Mana,
    Sword,
    Spear,
    Dagger,
    Fireball,
    Rock,
    Slimeball,
    Shield,
    Dash,
    BlueCoin,
    Coin,
    GodMode,
}

/// One picture to draw: which, from which cell, to where.
#[derive(PartialEq, Eq, Debug, Copy, Clone, Structural)]
pub struct UiDraw {
    pub sprite: UiSprite,
    pub src: Rect,
    pub pos: Rect,
}

/// The helper line at the bottom of the screen.
#[derive(PartialEq, Eq, Debug, Copy, Clone, Structural)]
pub enum HelpText {
    DescendStairs,
    AbsorbPower,
    BuyItem(u32),
    SwapWeapon,
}

/// The level label at the top left.
#[derive(PartialEq, Eq, Debug, Copy, Clone, Structural)]
pub enum LevelLabel {
    Level(i32),
    BossFight,
}

/// What the HUD shows of the player beyond health, mana and position.
#[derive(PartialEq, Eq, Debug, Copy, Clone, Structural)]
pub struct HudStatus {
    pub can_pickup: bool,
    pub can_pickup_shop: bool,
    pub can_pickup_weapon: bool,
    pub shop_price: u32,
    pub god_mode: bool,
    pub weapon_type: WeaponType,
    pub power_type: PowerType,
}

/// A frame of the HUD: the pictures in drawing order, the helper line,
/// the level label, and the two coin counts with where they are written.
pub struct UiFrame {
    pub draws: Vec<UiDraw>,
    pub help: Option<HelpText>,
    pub level: LevelLabel,
    pub blue_gold_count: u32,
    pub blue_gold_text: Rect,
    pub coins: u32,
    pub coins_text: Rect,
    pub help_text: Rect,
    pub level_text: Rect,
}

/// The side of a heart (a tile and a fifth, rounded down).
pub const HEART: u32 = 76;

pub open spec fn draw(sprite: UiSprite, src: Rect, pos: Rect) -> UiDraw {
    UiDraw { sprite, src, pos }
}

/// The whole-image cell of a HUD element made by `UI::new`.
pub open spec fn ui_src() -> Rect {
    Rect::spec_new(0, 0, 128, 64)
}

/// The full hearts drawn before the last one: one per ten health points
/// beyond the first ten, rounded up.
pub open spec fn full_hearts(hp: int) -> int {
    if hp <= 10 { 0 } else { (hp - 1) / 10 }
}

pub open spec fn heart_at(k: int) -> Rect {
    Rect::spec_new(k * HEART, CAM_H - HEART, HEART as int, HEART as int)
}

/// The hearts: the full ones, then one more, half when the health is not a
/// multiple of ten.
pub open spec fn hearts(hp: int) -> Seq<UiDraw> {
    Seq::new(full_hearts(hp) as nat, |k: int| draw(UiSprite::Heart, ui_src(), heart_at(k)))
        .push(draw(if hp % 10 != 0 { UiSprite::HalfHeart } else { UiSprite::Heart }, ui_src(), heart_at(full_hearts(hp))))
}

/// The cell of the mana gauge: 32 pixels per point, full at four points
/// and beyond, empty when there is no mana (or less, somehow).
pub open spec fn mana_cell(mana: int) -> int {
    if mana <= 0 { 0 } else if mana <= 4 { 32 * mana } else { 128 }
}

pub open spec fn weapon_icon(w: WeaponType) -> Seq<UiDraw> {
    let pos = Rect::spec_new(CAM_W - HEART * 8, CAM_H - HEART, HEART as int, HEART as int);
    match w {
        WeaponType::Sword => seq![draw(UiSprite::Sword, ui_src(), pos)],
        WeaponType::Spear => seq![draw(UiSprite::Spear, ui_src(), pos)],
        WeaponType::Dagger => seq![draw(UiSprite::Dagger, ui_src(), pos)],
        WeaponType::NoWeapon => Seq::empty(),
    }
}

pub open spec fn power_icon(p: PowerType) -> Seq<UiDraw> {
    let pos = Rect::spec_new(CAM_W - HEART * 6, CAM_H - 64, 64, 64);
    match p {
        PowerType::Fireball => seq![draw(UiSprite::Fireball, ui_src(), pos)],
        PowerType::Rock => seq![draw(UiSprite::Rock, ui_src(), pos)],
        PowerType::Slimeball => seq![draw(UiSprite::Slimeball, ui_src(), pos)],
        PowerType::Shield => seq![draw(UiSprite::Shield, ui_src(), pos)],
        PowerType::Dash => seq![draw(UiSprite::Dash, ui_src(), pos)],
        _ => Seq::empty(),
    }
}

pub open spec fn blue_coin_pos() -> Rect {
    Rect::spec_new(CAM_W - 192 - 21, CAM_H - HEART + 12, 51, 51)
}

pub open spec fn coin_pos() -> Rect {
    Rect::spec_new(CAM_W - HEART, CAM_H - HEART, HEART as int, HEART as int)
}

/// The two layers of the bar along the bottom.
pub open spec fn bars() -> Seq<UiDraw> {
    let bar_src = Rect::spec_new(0, 0, CAM_W as int, 128);
    seq![
        draw(UiSprite::BarBack, bar_src, Rect::spec_new(0, CAM_H - 64 - 16, CAM_W as int, 96)),
        draw(UiSprite::Bar, bar_src, Rect::spec_new(0, CAM_H - 64 - 8, CAM_W as int, 96)),
    ]
}

/// The pictures after the hearts: mana, weapon, power, coins, god mode.
pub open spec fn hud_tail(mana: int, s: HudStatus) -> Seq<UiDraw> {
    seq![draw(UiSprite::Mana, Rect::spec_new(mana_cell(mana), 0, 32, 32), Rect::spec_new(CAM_W - 320, CAM_H - 64, 53, 53))]
        + weapon_icon(s.weapon_type) + power_icon(s.power_type)
        + seq![draw(UiSprite::BlueCoin, ui_src(), blue_coin_pos()), draw(UiSprite::Coin, ui_src(), coin_pos())]
        + if s.god_mode { seq![draw(UiSprite::GodMode, ui_src(), Rect::spec_new(CAM_W - 64 - 10, 10, 64, 64))] } else { Seq::empty() }
}

/// All the pictures of a HUD frame, in drawing order.
pub open spec fn hud_draws(hp: int, mana: int, s: HudStatus) -> Seq<UiDraw> {
    bars() + hearts(hp) + hud_tail(mana, s)
}

/// The tile of the exit stairs, in the player's coordinates.
pub open spec fn stairs_rect(end: (i32, i32)) -> Rect {
    Rect::spec_new(end.0 * 64 - (CAM_W - 64) / 2, end.1 * 64 - (CAM_H - 64) / 2, 64, 64)
}

/// Whether the player at (`x`, `y`) stands on the exit stairs.
pub open spec fn on_stairs(x: int, y: int, end: (i32, i32)) -> bool {
    overlaps(Rect::spec_new(x, y, TILE_SIZE_CAM as int, TILE_SIZE_CAM as int), stairs_rect(end))
}

/// The helper line: the stairs first, then absorbing, buying and swapping.
pub open spec fn help_for(at_stairs: bool, s: HudStatus) -> Option<HelpText> {
    if at_stairs {
        Some(HelpText::DescendStairs)
    } else if s.can_pickup {
        Some(HelpText::AbsorbPower)
    } else if s.can_pickup_shop {
        Some(HelpText::BuyItem(s.shop_price))
    } else if s.can_pickup_weapon {
        Some(HelpText::SwapWeapon)
    } else {
        None
    }
}

/// The level label: the floor number up to the third floor, the boss
/// fight after.
pub open spec fn level_label(floor: int) -> LevelLabel {
    if floor > 3 { LevelLabel::BossFight } else { LevelLabel::Level(floor as i32) }
}

fn push_draw(v: &mut Vec<UiDraw>, sprite: UiSprite, src: Rect, pos: Rect)
    ensures
        final(v)@ == old(v)@.push(draw(sprite, src, pos)),
{
    v.push(UiDraw { sprite, src, pos });
}

fn push_bars(draws: &mut Vec<UiDraw>)
    ensures
        final(draws)@ == old(draws)@ + bars(),
{
    let bar_src = Rect::new(0, 0, CAM_W, TILE_SIZE_64 * 2);
    push_draw(draws, UiSprite::BarBack, bar_src, Rect::new(0, (CAM_H - TILE_SIZE_64) as i32 - 16, CAM_W, TILE_SIZE_64 * 3 / 2));
    push_draw(draws, UiSprite::Bar, bar_src, Rect::new(0, (CAM_H - TILE_SIZE_64) as i32 - 8, CAM_W, TILE_SIZE_64 * 3 / 2));
    assert(final(draws)@ =~= old(draws)@ + bars());
}

fn push_hearts(draws: &mut Vec<UiDraw>, hp: u32)
    requires
        hp <= 280_000_000,
    ensures
        final(draws)@ == old(draws)@ + hearts(hp as int),
{
    let ghost base = draws@;
    let src = Rect::new(0, 0, TILE_SIZE_64 * 2, TILE_SIZE_64);
    let mut i: u32 = 0;
    while i + 10 < hp
        invariant
            hp <= 280_000_000,
            i % 10 == 0,
            i < hp || i == 0,
            i / 10 <= full_hearts(hp as int),
            src == ui_src(),
            draws@ == base + Seq::new((i / 10) as nat, |k: int| draw(UiSprite::Heart, ui_src(), heart_at(k))),
        decreases hp - i,
    {
        push_draw(draws, UiSprite::Heart, src, Rect::new((i / 10) as i32 * HEART as i32, (CAM_H - HEART) as i32, HEART, HEART));
        assert(draws@ =~= base + Seq::new(((i + 10) / 10) as nat, |k: int| draw(UiSprite::Heart, ui_src(), heart_at(k))));
        i += 10;
    }
    assert(i / 10 == full_hearts(hp as int));
    let last = if hp % 10 != 0 { UiSprite::HalfHeart } else { UiSprite::Heart };
    push_draw(draws, last, src, Rect::new((i / 10) as i32 * HEART as i32, (CAM_H - HEART) as i32, HEART, HEART));
    assert(draws@ =~= base + hearts(hp as int));
}

#[verifier::spinoff_prover]
#[verifier::rlimit(40)]
fn push_tail(draws: &mut Vec<UiDraw>, mana: i32, status: &HudStatus)
    ensures
        final(draws)@ == old(draws)@ + hud_tail(mana as int, *status),
{
    let ghost base = draws@;
    let src = Rect::new(0, 0, TILE_SIZE_64 * 2, TILE_SIZE_64);
    let cur_mana: i32 = if mana <= 0 { 0 } else if mana <= 4 { 32 * mana } else { 32 * 4 };
    push_draw(draws, UiSprite::Mana, Rect::new(cur_mana, 0, TILE_SIZE_HALF, TILE_SIZE_HALF),
        Rect::new((CAM_W - TILE_SIZE_64 * 5) as i32, (CAM_H - TILE_SIZE_64) as i32, 53, 53));
    let ghost after_mana = draws@;
    let wpos = Rect::new((CAM_W - HEART * 8) as i32, (CAM_H - HEART) as i32, HEART, HEART);
    match status.weapon_type {
        WeaponType::Sword => push_draw(draws, UiSprite::Sword, src, wpos),
        WeaponType::Spear => push_draw(draws, UiSprite::Spear, src, wpos),
        WeaponType::Dagger => push_draw(draws, UiSprite::Dagger, src, wpos),
        WeaponType::NoWeapon => {},
    }
    assert(draws@ =~= after_mana + weapon_icon(status.weapon_type));
    let ghost after_weapon = draws@;
    let ppos = Rect::new((CAM_W - HEART * 6) as i32, (CAM_H - TILE_SIZE_64) as i32, TILE_SIZE_64, TILE_SIZE_64);
    match status.power_type {
        PowerType::Fireball => push_draw(draws, UiSprite::Fireball, src, ppos),
        PowerType::Rock => push_draw(draws, UiSprite::Rock, src, ppos),
        PowerType::Slimeball => push_draw(draws, UiSprite::Slimeball, src, ppos),
        PowerType::Shield => push_draw(draws, UiSprite::Shield, src, ppos),
        PowerType::Dash => push_draw(draws, UiSprite::Dash, src, ppos),
        _ => {},
    }
    assert(draws@ =~= after_weapon + power_icon(status.power_type));
    let blue_pos = Rect::new((CAM_W - 192 - TILE_SIZE_64 / 3) as i32, (CAM_H - HEART + TILE_SIZE_64 / 5) as i32, 51, 51);
    push_draw(draws, UiSprite::BlueCoin, src, blue_pos);
    let coin_rect = Rect::new((CAM_W - HEART) as i32, (CAM_H - HEART) as i32, HEART, HEART);
    push_draw(draws, UiSprite::Coin, src, coin_rect);
    if status.god_mode {
        push_draw(draws, UiSprite::GodMode, src, Rect::new((CAM_W - TILE_SIZE) as i32 - 10, 10, TILE_SIZE, TILE_SIZE));
    }
    assert(draws@ =~= base + hud_tail(mana as int, *status));
}

/// The helper line for a player at `pos` on a map whose exit stairs are at
/// `end` (see `help_for`).
fn help_line(pos: (i32, i32), end: (i32, i32), status: &HudStatus) -> (r: Option<HelpText>)
    requires
        -1_000_000 <= end.0 <= 1_000_000,
        -1_000_000 <= end.1 <= 1_000_000,
    ensures
        r == help_for(on_stairs(pos.0 as int, pos.1 as int, end), *status),
{
    let mpos = Rect::new(end.0 * TILE_SIZE as i32 - (CAM_W - TILE_SIZE) as i32 / 2, end.1 * TILE_SIZE as i32 - (CAM_H - TILE_SIZE) as i32 / 2, TILE_SIZE, TILE_SIZE);
    let ppos = Rect::new(pos.0, pos.1, TILE_SIZE_CAM, TILE_SIZE_CAM);
    if check_collision(&ppos, &mpos) {
        Some(HelpText::DescendStairs)
    } else if status.can_pickup {
        Some(HelpText::AbsorbPower)
    } else if status.can_pickup_shop {
        Some(HelpText::BuyItem(status.shop_price))
    } else if status.can_pickup_weapon {
        Some(HelpText::SwapWeapon)
    } else {
        None
    }
}

impl UI {
    pub fn new(pos: Rect) -> (u: UI)
        ensures
            u == (UI { pos, src: ui_src() }),
    {
        UI { pos, src: Rect::new(0, 0, TILE_SIZE_64 * 2, TILE_SIZE_64) }
    }

    pub fn src(&self) -> (r: Rect)
        ensures
            r == self.src,
    {
        self.src
    }

    pub fn set_src(&mut self, new_src: Rect)
        ensures
            *final(self) == (UI { src: new_src, ..*old(self) }),
    {
        self.src = new_src;
    }

    pub fn pos(&self) -> (r: Rect)
        ensures
            r == self.pos,
    {
        self.pos
    }

    /// Lays out a HUD frame for the player on a map (see `hud_draws`,
    /// `help_for` and `level_label`).
    pub fn update_ui(&self, player: &Player, map_data: &GameMap, status: &HudStatus, blue_gold_count: u32, current_floor: i32) -> (f: UiFrame)
        requires
            player.hp <= 280_000_000,
            -1_000_000 <= map_data.ending_position.0 <= 1_000_000,
            -1_000_000 <= map_data.ending_position.1 <= 1_000_000,
        ensures
            f.draws@ == hud_draws(player.hp as int, player.mana as int, *status),
            f.help == help_for(on_stairs(player.pos.0 as int, player.pos.1 as int, map_data.ending_position), *status),
            f.level == level_label(current_floor as int),
            f.blue_gold_count == blue_gold_count,
            f.coins == player.coins,
            f.blue_gold_text == Rect::spec_new(blue_coin_pos().x - 16, blue_coin_pos().y + 12, 32, 48),
            f.coins_text == Rect::spec_new(coin_pos().x - 16, coin_pos().y + 12, 32, 48),
            f.help_text == Rect::spec_new(300, 660, 300, 48),
            f.level_text == Rect::spec_new(10, 10, 150, 48),
    {
        let mut draws: Vec<UiDraw> = Vec::new();
        push_bars(&mut draws);
        push_hearts(&mut draws, player.hp);
        push_tail(&mut draws, player.mana, status);
        assert(draws@ =~= hud_draws(player.hp as int, player.mana as int, *status));
        let help = help_line(player.pos, map_data.ending_position, status);
        let level = if current_floor > 3 { LevelLabel::BossFight } else { LevelLabel::Level(current_floor) };
        let blue_pos = Rect::new((CAM_W - 192 - TILE_SIZE_64 / 3) as i32, (CAM_H - HEART + TILE_SIZE_64 / 5) as i32, 51, 51);
        let coin_rect = Rect::new((CAM_W - HEART) as i32, (CAM_H - HEART) as i32, HEART, HEART);
        UiFrame {
            draws,
            help,
            level,
            blue_gold_count,
            blue_gold_text: Rect::new(blue_pos.x - 16, blue_pos.y + 12, 32, 48),
            coins: player.coins,
            coins_text: Rect::new(coin_rect.x - 16, coin_rect.y + 12, 32, 48),
            help_text: Rect::new(300, 660, 300, 48),
            level_text: Rect::new(10, 10, 150, 48),
        }
    }
}

} // verus!
