//! The menus before a run: the title screen, choosing a class, the hat
//! store and the credits. A click is judged from where it lands; what the
//! program must do about it (quit, restart the credits clock, save the
//! hats) comes back as an action.
use crate::gamedata::ModifierType;
use crate::player::elapsed;
use vstd::prelude::*;

verus! {

#[derive(PartialEq, Eq, Debug, Copy, Clone, Structural)]
pub enum MenuState {
    Title,
    ClassSelection,
    Credits,
    Store,
    Play,
}

/// The slime the player plays.
#[derive(PartialEq, Eq, Debug, Copy, Clone, Structural)]
pub enum PlayerType {
    Jelly,
    Warrior,
    Assassin,
}

/// What the program does after a click.
#[derive(PartialEq, Eq, Debug, Copy, Clone, Structural)]
pub enum MenuAction {
    Nothing,
    Quit,
    StartCredits,
    SaveHats,
}

/// What a hat costs in blue gold.
pub const HAT_PRICE: u32 = 10;

/// The menu's state. `hats` is the hat file's text: one byte per hat
/// (cowboy hat, gnome hat, propeller hat), `t` when it is owned.
pub struct Menu {
    pub state: MenuState,
    pub class: PlayerType,
    pub modifier_type: ModifierType,
    pub blue_gold_count: u32,
    pub hats: Vec<u8>,
}

/// Whether (`x`, `y`) lies in the box `[x0, x1] x [y0, y1]`.
pub open spec fn inside(x: int, y: int, x0: int, x1: int, y0: int, y1: int) -> bool {
    x0 <= x <= x1 && y0 <= y <= y1
}

/// The hat each store button sells, left to right: the cowboy hat (heavy),
/// the gnome hat (healthy) and the propeller hat (fast), with its place
/// in the hat file.
pub open spec fn hat_modifier(i: int) -> ModifierType {
    if i == 0 { ModifierType::Heavy } else if i == 1 { ModifierType::Healthy } else { ModifierType::Fast }
}

/// The store button under (`x`, `y`), if any.
pub open spec fn store_button(x: int, y: int) -> Option<int> {
    if inside(x, y, 900, 1200, 500, 628) {
        Some(2)
    } else if inside(x, y, 100, 400, 500, 628) {
        Some(0)
    } else if inside(x, y, 500, 800, 500, 628) {
        Some(1)
    } else {
        None
    }
}

/// The menu after a click at (`x`, `y`), with the action for the program.
/// On the title screen the four buttons lead to the class selection, the
/// store, the credits and out. Choosing a class starts a run. In the
/// store, a hat's button toggles an owned hat on and off, or buys it for
/// `HAT_PRICE` blue gold when there is enough; the back button returns to
/// the title. Any click ends the credits.
pub open spec fn clicked(m: Menu, x: int, y: int) -> (Menu, MenuAction) {
    match m.state {
        MenuState::Title => {
            if inside(x, y, 107, 557, 340, 424) {
                (Menu { state: MenuState::ClassSelection, ..m }, MenuAction::Nothing)
            } else if inside(x, y, 724, 1174, 340, 424) {
                (Menu { state: MenuState::Store, ..m }, MenuAction::Nothing)
            } else if inside(x, y, 107, 557, 458, 542) {
                (Menu { state: MenuState::Credits, ..m }, MenuAction::StartCredits)
            } else if inside(x, y, 724, 1174, 458, 542) {
                (m, MenuAction::Quit)
            } else {
                (m, MenuAction::Nothing)
            }
        },
        MenuState::ClassSelection => {
            if inside(x, y, 42, 415, 93, 628) {
                (Menu { class: PlayerType::Jelly, state: MenuState::Play, ..m }, MenuAction::Nothing)
            } else if inside(x, y, 454, 827, 93, 628) {
                (Menu { class: PlayerType::Warrior, state: MenuState::Play, ..m }, MenuAction::Nothing)
            } else if inside(x, y, 866, 1239, 93, 628) {
                (Menu { class: PlayerType::Assassin, state: MenuState::Play, ..m }, MenuAction::Nothing)
            } else {
                (m, MenuAction::Nothing)
            }
        },
        MenuState::Store => {
            match store_button(x, y) {
                Some(i) => {
                    if m.hats@[i] == 116u8 {
                        if m.modifier_type != hat_modifier(i) {
                            (Menu { modifier_type: hat_modifier(i), ..m }, MenuAction::Nothing)
                        } else {
                            (Menu { modifier_type: ModifierType::NoModifier, ..m }, MenuAction::Nothing)
                        }
                    } else if m.blue_gold_count >= HAT_PRICE {
                        (Menu { blue_gold_count: (m.blue_gold_count - HAT_PRICE) as u32, ..m }, MenuAction::SaveHats)
                    } else {
                        (m, MenuAction::Nothing)
                    }
                },
                None => {
                    if inside(x, y, 20, 120, 660, 708) {
                        (Menu { state: MenuState::Title, ..m }, MenuAction::Nothing)
                    } else {
                        (m, MenuAction::Nothing)
                    }
                },
            }
        },
        MenuState::Credits => (Menu { state: MenuState::Title, ..m }, MenuAction::Nothing),
        MenuState::Play => (m, MenuAction::Nothing),
    }
}

/// The hat file after a purchase: the first three bytes, with the bought
/// hat's byte set to `t`.
pub open spec fn hats_after(m: Menu, x: int, y: int) -> Seq<u8> {
    match (m.state, store_button(x, y)) {
        (MenuState::Store, Some(i)) => if m.hats@[i] != 116u8 && m.blue_gold_count >= HAT_PRICE {
            m.hats@.take(3).update(i, 116u8)
        } else {
            m.hats@
        },
        _ => m.hats@,
    }
}

/// A hat file names every hat.
pub open spec fn hats_ok(h: Seq<u8>) -> bool {
    h.len() >= 3
}

/// Whether a new click counts: clicks closer than 200 milliseconds after
/// the last counted one are ignored.
pub open spec fn click_counts(last_click: u128, now: u128) -> bool {
    elapsed(now, last_click) > 200
}

pub fn click_allowed(last_click: u128, now: u128) -> (r: bool)
    ensures
        r == click_counts(last_click, now),
{
    crate::player::elapsed_ms(now, last_click) > 200
}

fn hat_mod(i: usize) -> (r: ModifierType)
    requires
        i < 3,
    ensures
        r == hat_modifier(i as int),
{
    if i == 0 { ModifierType::Heavy } else if i == 1 { ModifierType::Healthy } else { ModifierType::Fast }
}

fn button_at(x: i32, y: i32) -> (r: Option<usize>)
    ensures
        r matches Some(i) ==> store_button(x as int, y as int) == Some(i as int),
        r is None ==> store_button(x as int, y as int) is None,
{
    if 900 <= x && x <= 1200 && 500 <= y && y <= 628 {
        Some(2)
    } else if 100 <= x && x <= 400 && 500 <= y && y <= 628 {
        Some(0)
    } else if 500 <= x && x <= 800 && 500 <= y && y <= 628 {
        Some(1)
    } else {
        None
    }
}

impl Menu {
    /// The title screen with the player's blue gold and hat file, no class
    /// chosen yet (the blue slime by default) and no hat on.
    pub fn new(blue_gold_count: u32, hats: Vec<u8>) -> (m: Menu)
        ensures
            m.state == MenuState::Title,
            m.class == PlayerType::Jelly,
            m.modifier_type == ModifierType::NoModifier,
            m.blue_gold_count == blue_gold_count,
            m.hats@ == hats@,
    {
        Menu { state: MenuState::Title, class: PlayerType::Jelly, modifier_type: ModifierType::NoModifier, blue_gold_count, hats }
    }

    /// Whether the hat in place `i` of the hat file is owned.
    pub fn owns_hat(&self, i: usize) -> (r: bool)
        requires
            i < self.hats@.len(),
        ensures
            r == (self.hats@[i as int] == 116u8),
    {
        self.hats[i] == 116u8
    }

    /// Handles a click at (`x`, `y`) (see `clicked` and `hats_after`).
    pub fn click(&mut self, x: i32, y: i32) -> (action: MenuAction)
        requires
            hats_ok(old(self).hats@),
        ensures
            final(self).state == clicked(*old(self), x as int, y as int).0.state,
            final(self).class == clicked(*old(self), x as int, y as int).0.class,
            final(self).modifier_type == clicked(*old(self), x as int, y as int).0.modifier_type,
            final(self).blue_gold_count == clicked(*old(self), x as int, y as int).0.blue_gold_count,
            final(self).hats@ == hats_after(*old(self), x as int, y as int),
            action == clicked(*old(self), x as int, y as int).1,
            hats_ok(final(self).hats@),
    {
        match self.state {
            MenuState::Title => {
                if 107 <= x && x <= 557 && 340 <= y && y <= 424 {
                    self.state = MenuState::ClassSelection;
                    MenuAction::Nothing
                } else if 724 <= x && x <= 1174 && 340 <= y && y <= 424 {
                    self.state = MenuState::Store;
                    MenuAction::Nothing
                } else if 107 <= x && x <= 557 && 458 <= y && y <= 542 {
                    self.state = MenuState::Credits;
                    MenuAction::StartCredits
                } else if 724 <= x && x <= 1174 && 458 <= y && y <= 542 {
                    MenuAction::Quit
                } else {
                    MenuAction::Nothing
                }
            },
            MenuState::ClassSelection => {
                if 42 <= x && x <= 415 && 93 <= y && y <= 628 {
                    self.class = PlayerType::Jelly;
                    self.state = MenuState::Play;
                } else if 454 <= x && x <= 827 && 93 <= y && y <= 628 {
                    self.class = PlayerType::Warrior;
                    self.state = MenuState::Play;
                } else if 866 <= x && x <= 1239 && 93 <= y && y <= 628 {
                    self.class = PlayerType::Assassin;
                    self.state = MenuState::Play;
                }
                MenuAction::Nothing
            },
            MenuState::Store => {
                match button_at(x, y) {
                    Some(i) => {
                        if self.hats[i] == 116u8 {
                            let hat = hat_mod(i);
                            if self.modifier_type != hat {
                                self.modifier_type = hat;
                            } else {
                                self.modifier_type = ModifierType::NoModifier;
                            }
                            MenuAction::Nothing
                        } else if self.blue_gold_count >= HAT_PRICE {
                            self.blue_gold_count -= HAT_PRICE;
                            let mut unlocked: Vec<u8> = Vec::new();
                            let mut k: usize = 0;
                            while k < 3
                                invariant
                                    k <= 3,
                                    i < 3,
                                    hats_ok(self.hats@),
                                    unlocked@.len() == k,
                                    forall|j: int| 0 <= j < k ==> unlocked@[j] == (if j == i { 116u8 } else { self.hats@[j] }),
                                decreases 3 - k,
                            {
                                if k == i {
                                    unlocked.push(116u8);
                                } else {
                                    unlocked.push(self.hats[k]);
                                }
                                k += 1;
                            }
                            assert(unlocked@ =~= self.hats@.take(3).update(i as int, 116u8));
                            self.hats = unlocked;
                            MenuAction::SaveHats
                        } else {
                            MenuAction::Nothing
                        }
                    },
                    None => {
                        if 20 <= x && x <= 120 && 660 <= y && y <= 708 {
                            self.state = MenuState::Title;
                        }
                        MenuAction::Nothing
                    },
                }
            },
            MenuState::Credits => {
                self.state = MenuState::Title;
                MenuAction::Nothing
            },
            MenuState::Play => MenuAction::Nothing,
        }
    }
}

} // verus!
