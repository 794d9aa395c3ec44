//! What one frame of input does: moving with W, A, S and D, the melee
//! attack on Space, shooting the power held on a left click, and absorbing
//! a dropped power with E.
use crate::gamedata::{check_collision_touching, GameData, PowerType, TILE_SIZE};
use crate::game::offers_power;
use crate::player::{attack_box_at, elapsed, player_rect, shot_velocity, small, Player, ATTK_COOLDOWN};
use crate::power::{power_stats, Power};
use crate::projectile::{projectile_damage, Projectile, ProjectileType};
use crate::rect::{clamped_position, Rect};
use vstd::prelude::*;

verus! {

/// The keys and mouse button held this frame, and where the mouse is.
#[derive(Clone, Copy, Debug)]
pub struct Keys {
    pub w: bool,
    pub a: bool,
    pub s: bool,
    pub d: bool,
    pub space: bool,
    pub e: bool,
    pub mouse_left: bool,
    pub mouse_x: i32,
    pub mouse_y: i32,
}

/// The player after reading the movement keys: W up, S down, A left,
/// D right, opposite keys cancelling; D turns it right, otherwise A left.
pub open spec fn steered_by(p: Player, k: Keys) -> Player {
    Player {
        delta: (((if k.d { 1int } else { 0int }) - (if k.a { 1int } else { 0int })) as i32,
            ((if k.s { 1int } else { 0int }) - (if k.w { 1int } else { 0int })) as i32),
        facing_right: if k.d { true } else if k.a { false } else { p.facing_right },
        ..p
    }
}

/// The player after a melee attack at `now` (see `Player::attack`): none
/// while the last one is cooling down.
pub open spec fn attacked(p: Player, now: u128) -> Player {
    if elapsed(now, p.attack_time) < ATTK_COOLDOWN {
        p
    } else {
        Player {
            is_attacking: true,
            attack_box: attack_box_at(p.facing_right, p.pos.0 as int, p.pos.1 as int),
            attack_time: now,
            ..p
        }
    }
}

/// The kind of shot a power fires.
pub open spec fn shot_kind(t: PowerType) -> ProjectileType {
    if t == PowerType::Fireball { ProjectileType::Fireball } else { ProjectileType::Bullet }
}

/// The shot the player `p` fires at the mouse (see `Player::fire`).
pub open spec fn shot(p: Player, k: Keys, speed: int, kind: ProjectileType) -> Projectile {
    Projectile {
        pos: (clamped_position(p.pos.0 as int) as i32, clamped_position(p.pos.1 as int) as i32),
        vel: shot_velocity(k.mouse_x as int, k.mouse_y as int, speed),
        src: Rect::spec_new(0, 0, 64, 64),
        facing_right: false,
        is_active: true,
        p_type: kind,
        bounce_counter: 0,
        elapsed: 0,
        damage: projectile_damage(kind) as i32,
        angle: 0,
    }
}

/// The powers that shoot: fireballs, slimeballs and rocks (a shield or a
/// dash shoots nothing).
pub open spec fn shoots(t: PowerType) -> bool {
    t == PowerType::Fireball || t == PowerType::Slimeball || t == PowerType::Rock
}

/// Whether this frame fires: the left button, no shot cooling down,
/// enough mana and a power that shoots.
pub open spec fn fires(p: Player, power: Power, k: Keys) -> bool {
    k.mouse_left && !p.is_firing && p.mana >= power.mana_cost && shoots(power.power_type)
}

/// A fresh power of kind `t`, held by the player.
pub open spec fn held_power(t: PowerType) -> Power {
    Power {
        pos: Rect::spec_new(0, 0, TILE_SIZE as int, TILE_SIZE as int),
        src: Rect::spec_new(0, 0, TILE_SIZE as int, TILE_SIZE as int),
        power_type: t,
        collected: false,
        damage: power_stats(t).0 as i32,
        mana_cost: power_stats(t).1 as i32,
    }
}

/// One frame of input. The movement keys set the player's push and
/// facing; Space starts a melee attack when none is under way; a left
/// click fires the power held at the mouse when it shoots and the player
/// can (see `fires`), spending mana; E absorbs the first dropped power the player
/// touches, which becomes the power held.
pub fn apply_inputs(game_data: &mut GameData, player: &mut Player, power: &mut Power, keys: Keys, speed: i32, now: u128)
    requires
        small(old(player).pos.0 as int),
        small(old(player).pos.1 as int),
        old(player).mana > i32::MIN,
        -1_000_000 <= keys.mouse_x <= 1_000_000,
        -1_000_000 <= keys.mouse_y <= 1_000_000,
        0 <= speed <= 10_000_000,
        old(game_data).player_projectiles@.len() < usize::MAX,
        forall|i: int| 0 <= i < old(game_data).dropped_powers@.len() ==> (#[trigger] old(game_data).dropped_powers@[i]).pos.wf(),
    ensures
        ({
            let p1 = steered_by(*old(player), keys);
            let p2 = if keys.space && !p1.is_attacking { attacked(p1, now) } else { p1 };
            let f = fires(p2, *old(power), keys);
            let p3 = if f { Player { is_firing: true, mana: (p2.mana - 1) as i32, fire_time: now, ..p2 } } else { p2 };
            &&& *final(player) == p3
            &&& final(game_data).player_projectiles@ == if f {
                old(game_data).player_projectiles@.push(shot(p2, keys, speed as int, shot_kind(old(power).power_type)))
            } else {
                old(game_data).player_projectiles@
            }
        }),
        ({
            let r = player_rect(old(player).pos.0 as int, old(player).pos.1 as int);
            let ds = old(game_data).dropped_powers@;
            let picks = keys.e && exists|i: int| 0 <= i < ds.len() && offers_power(r, #[trigger] ds[i]);
            &&& picks ==> exists|i: int| 0 <= i < ds.len() && offers_power(r, #[trigger] ds[i])
                && (forall|j: int| 0 <= j < i ==> !offers_power(r, #[trigger] ds[j]))
                && final(game_data).dropped_powers@ == ds.update(i, Power { collected: true, ..ds[i] })
                && *final(power) == held_power(ds[i].power_type)
            &&& !picks ==> final(game_data).dropped_powers@ == ds && *final(power) == *old(power)
        }),
        final(game_data).enemy_projectiles@ == old(game_data).enemy_projectiles@,
        final(game_data).gold@ == old(game_data).gold@,
        final(game_data).blue_gold@ == old(game_data).blue_gold@,
        final(game_data).crates@ == old(game_data).crates@,
        final(game_data).blue_gold_count == old(game_data).blue_gold_count,
        final(game_data).current_floor == old(game_data).current_floor,
{
    let w: i32 = if keys.w { 1 } else { 0 };
    let a: i32 = if keys.a { 1 } else { 0 };
    let s: i32 = if keys.s { 1 } else { 0 };
    let d: i32 = if keys.d { 1 } else { 0 };
    player.delta = (d - a, s - w);
    if keys.d {
        player.facing_right = true;
    } else if keys.a {
        player.facing_right = false;
    }
    if keys.space && !player.is_attacking {
        player.attack(now);
    }
    let shooter = power.power_type == PowerType::Fireball || power.power_type == PowerType::Slimeball
        || power.power_type == PowerType::Rock;
    if keys.mouse_left && !player.is_firing && player.get_mana() >= power.mana_cost && shooter {
        let kind = if power.power_type == PowerType::Fireball { ProjectileType::Fireball } else { ProjectileType::Bullet };
        let bullet = player.fire(keys.mouse_x, keys.mouse_y, speed, kind, now);
        game_data.player_projectiles.push(bullet);
    }
    let ppos = player.pos();
    if keys.e && game_data.can_pickup(player) {
        absorb_first(game_data, power, ppos);
    }
}

/// Absorbs the first dropped power that the player at `ppos` touches (see
/// `offers_power`): it is marked collected and becomes the power held.
fn absorb_first(game_data: &mut GameData, power: &mut Power, ppos: Rect)
    requires
        ppos.wf(),
        forall|k: int| 0 <= k < old(game_data).dropped_powers@.len() ==> (#[trigger] old(game_data).dropped_powers@[k]).pos.wf(),
        exists|k: int| 0 <= k < old(game_data).dropped_powers@.len() && offers_power(ppos, #[trigger] old(game_data).dropped_powers@[k]),
    ensures
        ({
            let ds = old(game_data).dropped_powers@;
            exists|i: int| 0 <= i < ds.len() && offers_power(ppos, #[trigger] ds[i])
                && (forall|j: int| 0 <= j < i ==> !offers_power(ppos, #[trigger] ds[j]))
                && final(game_data).dropped_powers@ == ds.update(i, Power { collected: true, ..ds[i] })
                && *final(power) == held_power(ds[i].power_type)
        }),
        *final(game_data) == (GameData { dropped_powers: final(game_data).dropped_powers, ..*old(game_data) }),
{
    let mut i: usize = 0;
    while i < game_data.dropped_powers.len()
        invariant
            i <= game_data.dropped_powers@.len(),
            *game_data == *old(game_data),
            ppos.wf(),
            forall|k: int| 0 <= k < game_data.dropped_powers@.len() ==> (#[trigger] game_data.dropped_powers@[k]).pos.wf(),
            forall|k: int| 0 <= k < i ==> !offers_power(ppos, #[trigger] game_data.dropped_powers@[k]),
            exists|k: int| 0 <= k < game_data.dropped_powers@.len() && offers_power(ppos, #[trigger] game_data.dropped_powers@[k]),
        decreases game_data.dropped_powers@.len() - i,
    {
        let found = {
            let dp = &game_data.dropped_powers[i];
            check_collision_touching(&ppos, &dp.pos) && !dp.collected() && dp.power_type != PowerType::NoPower
        };
        if found {
            let t = game_data.dropped_powers[i].power_type;
            let mut dp = game_data.dropped_powers[i];
            dp.set_collected();
            game_data.dropped_powers.set(i, dp);
            *power = Power::new(Rect::new(0, 0, TILE_SIZE, TILE_SIZE), t);
            proof {
                let ds = old(game_data).dropped_powers@;
                assert(game_data.dropped_powers@ =~= ds.update(i as int, Power { collected: true, ..ds[i as int] }));
                assert(offers_power(ppos, ds[i as int]));
                assert(forall|j: int| 0 <= j < i ==> !offers_power(ppos, #[trigger] ds[j]));
            }
            return;
        }
        i += 1;
    }
    proof {
        let k = choose|k: int| 0 <= k < game_data.dropped_powers@.len() && offers_power(ppos, #[trigger] game_data.dropped_powers@[k]);
        assert(!offers_power(ppos, game_data.dropped_powers@[k]));
    }
}

} // verus!
