//! The hits of a frame: the sword on the enemies it reaches, the player's
//! shots on the enemies they reach, and the enemies' shots on the player.
use crate::enemy::{hurt, knocked_back, speed_ok, Enemy, EnemyType};
use crate::game::{damage_to, damage_against};
use crate::gamedata::{check_collision_touching, GameData};
use crate::player::{elapsed, player_rect, small, Player};
use crate::projectile::{projectile_rect, Projectile};
use crate::rect::{touches, Rect, MAX_INT_VALUE, MIN_INT_VALUE};
use crate::weapon::Weapon;
use crate::crateobj::{shrapnel_ok, Crate};
use crate::gamedata::CrateType;
use crate::projectile::ProjectileType;
use crate::gamedata::DMG_COOLDOWN;
use vstd::prelude::*;

verus! {

/// `e` after a hit of `dmg` when the result fits its health counter;
/// a hit that would not fit is dropped.
pub open spec fn hit_for(e: Enemy, dmg: int, now: u128) -> Enemy {
    if i32::MIN <= e.hp - dmg <= i32::MAX { hurt(e, dmg, now) } else { e }
}

/// `e` after the sword held by the player at (`px`, `py`), reaching
/// `reach`, struck at `now` for `dmg`: a living enemy it touches is
/// knocked back from the player, then hurt.
pub open spec fn struck(e: Enemy, reach: Rect, px: int, py: int, dmg: int, now: u128) -> Enemy {
    if e.alive && e.wf() && touches(reach, e.pos) {
        hit_for(knocked_back(e, px, py, now), dmg, now)
    } else {
        e
    }
}

/// The shot's velocity held within a million hundredths on each axis.
pub open spec fn capped(v: i32) -> int {
    if v < -1_000_000 { -1_000_000 } else if v > 1_000_000 { 1_000_000 } else { v as int }
}

/// `e` after the shot `p` hit it at `now`: pushed along the shot (not a
/// skeleton, and only while its speed stays in range), then hurt by the
/// shot's damage as its kind takes it.
pub open spec fn shot_hit(e: Enemy, p: Projectile, now: u128) -> Enemy {
    let cx = capped(p.vel.0);
    let cy = capped(p.vel.1);
    let pushed = if e.enemy_type != EnemyType::Skeleton && e.wf() && speed_ok(e.vel.0 + cx) && speed_ok(e.vel.1 + cy) {
        Enemy { is_stunned: true, vel: ((e.vel.0 + cx) as i32, (e.vel.1 + cy) as i32), stun_timer: now, ..e }
    } else {
        e
    };
    hit_for(pushed, damage_to(e.enemy_type, if p.damage < 0 { 0 } else { p.damage as int }), now)
}

/// The shot `p` hits the living enemy `e` it touches.
pub open spec fn hits(p: Projectile, e: Enemy) -> bool {
    e.alive && touches(projectile_rect(p), e.pos)
}

/// The first enemy of `es` that the shot `p` hits, if it is active.
pub open spec fn first_target(p: Projectile, es: Seq<Enemy>, t: int) -> bool {
    &&& p.is_active
    &&& 0 <= t < es.len()
    &&& hits(p, es[t])
    &&& forall|j: int| 0 <= j < t ==> !hits(p, #[trigger] es[j])
}

/// What one shot does: an active shot hits the first living enemy it
/// touches and dies; otherwise nothing happens.
pub open spec fn shot_outcome(p: Projectile, es: Seq<Enemy>, now: u128) -> (Projectile, Seq<Enemy>) {
    if exists|t: int| first_target(p, es, t) {
        let t = choose|t: int| first_target(p, es, t);
        (Projectile { is_active: false, ..p }, es.update(t, shot_hit(es[t], p, now)))
    } else {
        (p, es)
    }
}

/// The enemies after the first `k` shots of `ps`, in order.
pub open spec fn enemies_after_shots(ps: Seq<Projectile>, es: Seq<Enemy>, k: int, now: u128) -> Seq<Enemy>
    decreases k,
{
    if k <= 0 {
        es
    } else {
        shot_outcome(ps[k - 1], enemies_after_shots(ps, es, k - 1, now), now).1
    }
}

/// The player after an enemy shot of `dmg` hit it at `now`, taking no more
/// than the health it has left (nothing while it is invincible).
pub open spec fn player_hit(p: Player, dmg: int, now: u128) -> Player {
    let d = if dmg < 0 { 0 } else if dmg > p.hp { p.hp as int } else { dmg };
    if p.invincible { p } else { Player { hp: (p.hp - d) as u32, damage_time: now, ..p } }
}

/// The player after the first `k` enemy shots of `ps`: each active one
/// that touches it hits it.
pub open spec fn player_after_shots(ps: Seq<Projectile>, p: Player, k: int, now: u128) -> Player
    decreases k,
{
    if k <= 0 {
        p
    } else {
        let q = player_after_shots(ps, p, k - 1, now);
        let s = ps[k - 1];
        if s.is_active && touches(projectile_rect(s), player_rect(p.pos.0 as int, p.pos.1 as int)) {
            player_hit(q, s.damage as int, now)
        } else {
            q
        }
    }
}

/// The enemy fits the rules' ranges (see `Enemy::wf`).
pub fn enemy_fits(e: &Enemy) -> (r: bool)
    ensures
        r == e.wf(),
{
    MIN_INT_VALUE <= e.pos.x && e.pos.x <= MAX_INT_VALUE && MIN_INT_VALUE <= e.pos.y && e.pos.y <= MAX_INT_VALUE
        && 1 <= e.pos.w && e.pos.w <= MAX_INT_VALUE as u32 && 1 <= e.pos.h && e.pos.h <= MAX_INT_VALUE as u32
        && -1_000_000_000 <= e.pos.x && e.pos.x <= 1_000_000_000 && -1_000_000_000 <= e.pos.y && e.pos.y <= 1_000_000_000
        && -1_000_000_000 <= e.vel.0 && e.vel.0 <= 1_000_000_000 && -1_000_000_000 <= e.vel.1 && e.vel.1 <= 1_000_000_000
        && 0 <= e.knockback_vel && e.knockback_vel <= 1_000_000 && 0 <= e.speed_delta && e.speed_delta <= 1000
}

fn hurt_enemy(e: &mut Enemy, dmg: i32, now: u128)
    ensures
        *final(e) == hit_for(*old(e), dmg as int, now),
{
    let left: i64 = e.hp as i64 - dmg as i64;
    if i32::MIN as i64 <= left && left <= i32::MAX as i64 {
        e.minus_hp(dmg, now);
    }
}

fn cap(v: i32) -> (r: i32)
    ensures
        r == capped(v),
{
    if v < -1_000_000 { -1_000_000 } else if v > 1_000_000 { 1_000_000 } else { v }
}

/// The sword of the player, if it is attacking, strikes every living enemy
/// its attack box touches (see `struck`), for the weapon's damage.
pub fn sword_strike(enemies: &mut Vec<Enemy>, player: &Player, damage: i32, now: u128)
    requires
        small(player.pos.0 as int),
        small(player.pos.1 as int),
        player.attack_box.wf(),
    ensures
        final(enemies)@.len() == old(enemies)@.len(),
        forall|i: int| 0 <= i < old(enemies)@.len() ==> #[trigger] final(enemies)@[i] == if player.is_attacking {
            struck(old(enemies)@[i], player.attack_box, player.pos.0 as int, player.pos.1 as int, damage as int, now)
        } else {
            old(enemies)@[i]
        },
{
    if !player.is_attacking {
        return;
    }
    let reach = player.get_attack_box();
    let mut i: usize = 0;
    while i < enemies.len()
        invariant
            i <= enemies@.len(),
            enemies@.len() == old(enemies)@.len(),
            reach == player.attack_box,
            reach.wf(),
            small(player.pos.0 as int),
            small(player.pos.1 as int),
            forall|k: int| 0 <= k < i ==> #[trigger] enemies@[k]
                == struck(old(enemies)@[k], reach, player.pos.0 as int, player.pos.1 as int, damage as int, now),
            forall|k: int| i <= k < enemies@.len() ==> #[trigger] enemies@[k] == old(enemies)@[k],
        decreases enemies@.len() - i,
    {
        let mut e = enemies[i];
        if e.is_alive() && enemy_fits(&e) && check_collision_touching(&reach, &e.pos) {
            e.knockback(player.pos.0, player.pos.1, now);
            hurt_enemy(&mut e, damage, now);
        }
        enemies.set(i, e);
        i += 1;
    }
}

/// The first living enemy that the shot `p` touches, if any.
fn target_of(p: &Projectile, enemies: &Vec<Enemy>) -> (t: Option<usize>)
    requires
        forall|k: int| 0 <= k < enemies@.len() ==> (#[trigger] enemies@[k]).pos.wf(),
        projectile_rect(*p).wf(),
    ensures
        match t {
            Some(i) => i < enemies@.len() && hits(*p, enemies@[i as int])
                && forall|j: int| 0 <= j < i ==> !hits(*p, #[trigger] enemies@[j]),
            None => forall|j: int| 0 <= j < enemies@.len() ==> !hits(*p, #[trigger] enemies@[j]),
        },
{
    let r = p.pos();
    let mut i: usize = 0;
    while i < enemies.len()
        invariant
            i <= enemies@.len(),
            r == projectile_rect(*p),
            r.wf(),
            forall|k: int| 0 <= k < enemies@.len() ==> (#[trigger] enemies@[k]).pos.wf(),
            forall|j: int| 0 <= j < i ==> !hits(*p, #[trigger] enemies@[j]),
        decreases enemies@.len() - i,
    {
        if enemies[i].is_alive() && check_collision_touching(&r, &enemies[i].pos) {
            return Some(i);
        }
        i += 1;
    }
    None
}

/// The player's shots, in order, each hit the first living enemy they
/// touch (see `shot_outcome`): the enemy is pushed and hurt and the shot
/// dies.
pub fn shots_on_enemies(shots: &mut Vec<Projectile>, enemies: &mut Vec<Enemy>, now: u128)
    requires
        forall|k: int| 0 <= k < old(enemies)@.len() ==> (#[trigger] old(enemies)@[k]).pos.wf(),
        forall|k: int| 0 <= k < old(shots)@.len() ==> projectile_rect(#[trigger] old(shots)@[k]).wf(),
    ensures
        final(shots)@.len() == old(shots)@.len(),
        final(enemies)@ == enemies_after_shots(old(shots)@, old(enemies)@, old(shots)@.len() as int, now),
        forall|k: int| 0 <= k < old(shots)@.len() ==> #[trigger] final(shots)@[k]
            == shot_outcome(old(shots)@[k], enemies_after_shots(old(shots)@, old(enemies)@, k, now), now).0,
{
    let ghost ps = shots@;
    let ghost es0 = enemies@;
    let mut i: usize = 0;
    while i < shots.len()
        invariant
            i <= shots@.len(),
            shots@.len() == ps.len(),
            enemies@ == enemies_after_shots(ps, es0, i as int, now),
            enemies@.len() == es0.len(),
            forall|k: int| 0 <= k < enemies@.len() ==> (#[trigger] enemies@[k]).pos.wf(),
            forall|k: int| 0 <= k < ps.len() ==> projectile_rect(#[trigger] ps[k]).wf(),
            forall|k: int| 0 <= k < i ==> #[trigger] shots@[k] == shot_outcome(ps[k], enemies_after_shots(ps, es0, k, now), now).0,
            forall|k: int| i <= k < shots@.len() ==> #[trigger] shots@[k] == ps[k],
        decreases shots@.len() - i,
    {
        let ghost es = enemies@;
        let mut p = shots[i];
        assert(p == ps[i as int]);
        if p.is_active() {
            match target_of(&p, enemies) {
                Some(t) => {
                    proof {
                        assert(first_target(p, es, t as int));
                        let c = choose|c: int| first_target(p, es, c);
                        if c < t {
                            assert(!hits(p, es[c]));
                        } else if c > t {
                            assert(!hits(p, es[t as int]));
                        }
                    }
                    let mut e = enemies[t];
                    let dmg = damage_against(e.enemy_type, if p.damage < 0 { 0 } else { p.damage });
                    if e.enemy_type != EnemyType::Skeleton && enemy_fits(&e) {
                        let cx = cap(p.vel.0);
                        let cy = cap(p.vel.1);
                        let vx: i64 = e.vel.0 as i64 + cx as i64;
                        let vy: i64 = e.vel.1 as i64 + cy as i64;
                        if -1_000_000_000 <= vx && vx <= 1_000_000_000 && -1_000_000_000 <= vy && vy <= 1_000_000_000 {
                            e.projectile_knockback(cx, cy, now);
                        }
                    }
                    hurt_enemy(&mut e, dmg, now);
                    enemies.set(t, e);
                    p.die();
                    proof {
                        assert(enemies@ =~= es.update(t as int, shot_hit(es[t as int], ps[i as int], now)));
                    }
                },
                None => {
                    proof {
                        assert(!exists|c: int| first_target(p, es, c));
                    }
                },
            }
        } else {
            proof {
                assert(!exists|c: int| first_target(p, es, c));
            }
        }
        shots.set(i, p);
        proof {
            assert(enemies@ == enemies_after_shots(ps, es0, i + 1, now));
            assert forall|k: int| 0 <= k < enemies@.len() implies (#[trigger] enemies@[k]).pos.wf() by {
                assert(enemies@[k].pos == es[k].pos);
            }
        }
        i += 1;
    }
}

/// The enemies' shots, in order: each active one that touches the player
/// hits it (see `player_after_shots`) and dies.
pub fn shots_on_player(shots: &mut Vec<Projectile>, player: &mut Player, now: u128)
    requires
        player_rect(old(player).pos.0 as int, old(player).pos.1 as int).wf(),
        forall|k: int| 0 <= k < old(shots)@.len() ==> projectile_rect(#[trigger] old(shots)@[k]).wf(),
    ensures
        *final(player) == player_after_shots(old(shots)@, *old(player), old(shots)@.len() as int, now),
        final(player).pos == old(player).pos,
        final(shots)@.len() == old(shots)@.len(),
        forall|k: int| 0 <= k < old(shots)@.len() ==> #[trigger] final(shots)@[k] == if old(shots)@[k].is_active
            && touches(projectile_rect(old(shots)@[k]), player_rect(old(player).pos.0 as int, old(player).pos.1 as int)) {
            Projectile { is_active: false, ..old(shots)@[k] }
        } else {
            old(shots)@[k]
        },
{
    let ghost ps = shots@;
    let ghost p0 = *player;
    let ppos = player.pos();
    let mut i: usize = 0;
    while i < shots.len()
        invariant
            i <= shots@.len(),
            shots@.len() == ps.len(),
            ppos == player_rect(p0.pos.0 as int, p0.pos.1 as int),
            ppos.wf(),
            *player == player_after_shots(ps, p0, i as int, now),
            player.pos == p0.pos,
            forall|k: int| 0 <= k < ps.len() ==> projectile_rect(#[trigger] ps[k]).wf(),
            forall|k: int| 0 <= k < i ==> #[trigger] shots@[k] == if ps[k].is_active && touches(projectile_rect(ps[k]), ppos) {
                Projectile { is_active: false, ..ps[k] }
            } else {
                ps[k]
            },
            forall|k: int| i <= k < shots@.len() ==> #[trigger] shots@[k] == ps[k],
        decreases shots@.len() - i,
    {
        let mut s = shots[i];
        assert(s == ps[i as int]);
        if s.is_active() && check_collision_touching(&s.pos(), &ppos) {
            let hp = player.get_hp();
            let dmg: u32 = if s.damage < 0 { 0 } else if s.damage as u32 > hp { hp } else { s.damage as u32 };
            player.minus_hp(dmg, now);
            s.die();
        }
        shots.set(i, s);
        i += 1;
    }
}

/// The shot `p` meets the crate `c`: both still there and touching.
pub open spec fn meets(p: Projectile, c: Crate) -> bool {
    p.is_active && c.active && touches(c.pos, projectile_rect(p))
}

/// The shot `p` blows the crate `c` up: a fireball meeting a barrel.
pub open spec fn blows_up(p: Projectile, c: Crate) -> bool {
    meets(p, c) && p.p_type == ProjectileType::Fireball && c.crate_type == CrateType::Explosive
}

/// The crate after the shot `p` went by.
pub open spec fn crate_after_shot(p: Projectile, c: Crate) -> Crate {
    if blows_up(p, c) { Crate { active: false, ..c } } else { c }
}

/// How many crates of `cs` the shot `p` meets.
pub open spec fn crates_met(p: Projectile, cs: Seq<Crate>) -> int
    decreases cs.len(),
{
    if cs.len() == 0 {
        0
    } else {
        crates_met(p, cs.drop_last()) + if meets(p, cs.last()) { 1int } else { 0int }
    }
}

proof fn lemma_crates_met_nonneg(p: Projectile, cs: Seq<Crate>)
    ensures
        crates_met(p, cs) >= 0,
    decreases cs.len(),
{
    if cs.len() > 0 {
        lemma_crates_met_nonneg(p, cs.drop_last());
    }
}

/// Where the crates of `cs` that the shot `p` blows up stand, in order.
pub open spec fn blasts_of(p: Projectile, cs: Seq<Crate>) -> Seq<(i32, i32)>
    decreases cs.len(),
{
    if cs.len() == 0 {
        Seq::empty()
    } else {
        blasts_of(p, cs.drop_last()) + if blows_up(p, cs.last()) { seq![(cs.last().pos.x, cs.last().pos.y)] } else { Seq::empty() }
    }
}

/// The crates after the first `k` shots of `ps` went by.
pub open spec fn crates_after_shots(ps: Seq<Projectile>, cs: Seq<Crate>, k: int) -> Seq<Crate>
    decreases k,
{
    if k <= 0 {
        cs
    } else {
        let prev = crates_after_shots(ps, cs, k - 1);
        Seq::new(prev.len(), |j: int| crate_after_shot(ps[k - 1], prev[j]))
    }
}

/// Where the crates blown up by the first `k` shots of `ps` stood, in order.
pub open spec fn blasts_after_shots(ps: Seq<Projectile>, cs: Seq<Crate>, k: int) -> Seq<(i32, i32)>
    decreases k,
{
    if k <= 0 {
        Seq::empty()
    } else {
        blasts_after_shots(ps, cs, k - 1) + blasts_of(ps[k - 1], crates_after_shots(ps, cs, k - 1))
    }
}

/// A bounce counter `b` after `t` more bounces, held at `i32::MAX`.
pub open spec fn bounced(b: i32, t: int) -> i32 {
    if b + t > i32::MAX { i32::MAX } else { (b + t) as i32 }
}

/// The player's shots meet the crates, shot by shot and crate by crate:
/// each crate a shot meets counts a bounce, and a fireball blows up the
/// barrels it meets; returns the shrapnel, eight pieces per barrel in the
/// order they blew up (see `shrapnel_ok`).
pub fn shots_on_crates(shots: &mut Vec<Projectile>, crates: &mut Vec<Crate>) -> (shrapnel: Vec<Projectile>)
    requires
        forall|k: int| 0 <= k < old(crates)@.len() ==> (#[trigger] old(crates)@[k]).pos.wf(),
        forall|k: int| 0 <= k < old(shots)@.len() ==> projectile_rect(#[trigger] old(shots)@[k]).wf(),
    ensures
        final(crates)@ == crates_after_shots(old(shots)@, old(crates)@, old(shots)@.len() as int),
        final(shots)@.len() == old(shots)@.len(),
        forall|k: int| 0 <= k < old(shots)@.len() ==> #[trigger] final(shots)@[k] == (Projectile {
            bounce_counter: bounced(old(shots)@[k].bounce_counter,
                crates_met(old(shots)@[k], crates_after_shots(old(shots)@, old(crates)@, k))),
            ..old(shots)@[k]
        }),
        ({
            let b = blasts_after_shots(old(shots)@, old(crates)@, old(shots)@.len() as int);
            &&& shrapnel@.len() == 8 * b.len()
            &&& forall|m: int, i: int| 0 <= m < b.len() && 0 <= i < 8
                ==> shrapnel_ok(#[trigger] shrapnel@[8 * m + i], b[m].0 as int, b[m].1 as int, 0, i)
        }),
{
    let ghost ps = shots@;
    let ghost cs0 = crates@;
    let mut shrapnel: Vec<Projectile> = Vec::new();
    let mut k: usize = 0;
    while k < shots.len()
        invariant
            k <= shots@.len(),
            shots@.len() == ps.len(),
            crates@ == crates_after_shots(ps, cs0, k as int),
            crates@.len() == cs0.len(),
            forall|j: int| 0 <= j < crates@.len() ==> (#[trigger] crates@[j]).pos.wf(),
            forall|j: int| 0 <= j < ps.len() ==> projectile_rect(#[trigger] ps[j]).wf(),
            forall|j: int| 0 <= j < k ==> #[trigger] shots@[j] == (Projectile {
                bounce_counter: bounced(ps[j].bounce_counter, crates_met(ps[j], crates_after_shots(ps, cs0, j))),
                ..ps[j]
            }),
            forall|j: int| k <= j < shots@.len() ==> #[trigger] shots@[j] == ps[j],
            shrapnel@.len() == 8 * blasts_after_shots(ps, cs0, k as int).len(),
            forall|m: int, i: int| 0 <= m < blasts_after_shots(ps, cs0, k as int).len() && 0 <= i < 8
                ==> shrapnel_ok(#[trigger] shrapnel@[8 * m + i], blasts_after_shots(ps, cs0, k as int)[m].0 as int,
                    blasts_after_shots(ps, cs0, k as int)[m].1 as int, 0, i),
        decreases shots@.len() - k,
    {
        let ghost cs = crates@;
        let ghost b0 = blasts_after_shots(ps, cs0, k as int);
        let ghost sh0 = shrapnel@;
        let mut p = shots[k];
        assert(p == ps[k as int]);
        let r = p.pos();
        let mut j: usize = 0;
        while j < crates.len()
            invariant
                j <= crates@.len(),
                crates@.len() == cs.len(),
                r == projectile_rect(p),
                r.wf(),
                p == (Projectile { bounce_counter: bounced(ps[k as int].bounce_counter, crates_met(ps[k as int], cs.take(j as int))), ..ps[k as int] }),
                forall|i: int| 0 <= i < cs.len() ==> (#[trigger] cs[i]).pos.wf(),
                forall|i: int| 0 <= i < j ==> #[trigger] crates@[i] == crate_after_shot(ps[k as int], cs[i]),
                forall|i: int| j <= i < crates@.len() ==> #[trigger] crates@[i] == cs[i],
                shrapnel@.len() == sh0.len() + 8 * blasts_of(ps[k as int], cs.take(j as int)).len(),
                sh0.len() == 8 * b0.len(),
                forall|i: int| 0 <= i < sh0.len() ==> #[trigger] shrapnel@[i] == sh0[i],
                forall|m: int, i: int| 0 <= m < blasts_of(ps[k as int], cs.take(j as int)).len() && 0 <= i < 8
                    ==> shrapnel_ok(#[trigger] shrapnel@[sh0.len() + 8 * m + i], blasts_of(ps[k as int], cs.take(j as int))[m].0 as int,
                        blasts_of(ps[k as int], cs.take(j as int))[m].1 as int, 0, i),
            decreases crates@.len() - j,
        {
            let ghost taken = cs.take(j as int);
            let ghost before_sh = shrapnel@;
            let mut c = crates[j];
            assert(c == cs[j as int]);
            proof {
                assert(cs.take(j + 1).drop_last() =~= taken);
                assert(cs.take(j + 1).last() == cs[j as int]);
                lemma_crates_met_nonneg(ps[k as int], taken);
                assert(crates_met(ps[k as int], cs.take(j + 1)) == crates_met(ps[k as int], taken)
                    + if meets(ps[k as int], cs[j as int]) { 1int } else { 0int });
                assert(projectile_rect(p) == projectile_rect(ps[k as int]));
            }
            if p.is_active() && c.is_active() && check_collision_touching(&c.pos, &r) {
                if p.p_type == ProjectileType::Fireball && c.crate_type == CrateType::Explosive {
                    let pieces = c.explode(0);
                    let mut q: usize = 0;
                    while q < 8
                        invariant
                            q <= 8,
                            pieces@.len() == 8,
                            shrapnel@.len() == before_sh.len() + q,
                            forall|i: int| 0 <= i < before_sh.len() ==> #[trigger] shrapnel@[i] == before_sh[i],
                            forall|i: int| 0 <= i < q ==> #[trigger] shrapnel@[before_sh.len() + i] == pieces@[i],
                        decreases 8 - q,
                    {
                        shrapnel.push(pieces[q]);
                        q += 1;
                    }
                    proof {
                        let bl = blasts_of(ps[k as int], cs.take(j + 1));
                        let bt = blasts_of(ps[k as int], taken);
                        assert(bl =~= bt + seq![(cs[j as int].pos.x, cs[j as int].pos.y)]);
                        assert forall|m: int, i: int| 0 <= m < bl.len() && 0 <= i < 8
                            implies shrapnel_ok(#[trigger] shrapnel@[sh0.len() + 8 * m + i], bl[m].0 as int, bl[m].1 as int, 0, i) by {
                            if m < bt.len() {
                                assert(sh0.len() + 8 * m + i < before_sh.len()) by (nonlinear_arith)
                                    requires before_sh.len() == sh0.len() + 8 * bt.len(), m < bt.len(), i < 8, 0 <= i, 0 <= m;
                                assert(bl[m] == bt[m]);
                            } else {
                                assert(m == bt.len());
                                assert(sh0.len() + 8 * m + i == before_sh.len() + i);
                                assert(shrapnel_ok(pieces@[i], cs[j as int].pos.x as int, cs[j as int].pos.y as int, 0, i));
                            }
                        }
                    }
                }
                if p.bounce_counter < i32::MAX {
                    p.inc_bounce();
                }
            }
            crates.set(j, c);
            j += 1;
        }
        shots.set(k, p);
        proof {
            assert(cs.take(cs.len() as int) =~= cs);
            assert(crates@ =~= Seq::new(cs.len(), |i: int| crate_after_shot(ps[k as int], cs[i])));
            let bk = blasts_of(ps[k as int], cs);
            let b1 = blasts_after_shots(ps, cs0, k + 1);
            assert(b1 =~= b0 + bk);
            assert forall|m: int, i: int| 0 <= m < b1.len() && 0 <= i < 8
                implies shrapnel_ok(#[trigger] shrapnel@[8 * m + i], b1[m].0 as int, b1[m].1 as int, 0, i) by {
                if m < b0.len() {
                    assert(8 * m + i < sh0.len()) by (nonlinear_arith)
                        requires sh0.len() == 8 * b0.len(), m < b0.len(), 0 <= i < 8, 0 <= m;
                    assert(shrapnel@[8 * m + i] == sh0[8 * m + i]);
                    assert(b1[m] == b0[m]);
                } else {
                    let m2 = m - b0.len();
                    assert(8 * m + i == sh0.len() + 8 * m2 + i);
                    assert(b1[m] == bk[m2]);
                }
            }
        }
        k += 1;
    }
    shrapnel
}

/// The hits of a frame, in order: the sword on the enemies it reaches, the
/// player's shots on the enemies, the enemies' shots on the player, and
/// the player's protection after a hit.
pub fn resolve_hits(game_data: &mut GameData, player: &mut Player, enemies: &mut Vec<Enemy>, weapon: &Weapon, now: u128)
    requires
        small(old(player).pos.0 as int),
        small(old(player).pos.1 as int),
        old(player).attack_box.wf(),
        player_rect(old(player).pos.0 as int, old(player).pos.1 as int).wf(),
        forall|k: int| 0 <= k < old(enemies)@.len() ==> (#[trigger] old(enemies)@[k]).pos.wf(),
        forall|k: int| 0 <= k < old(game_data).player_projectiles@.len() ==> projectile_rect(#[trigger] old(game_data).player_projectiles@[k]).wf(),
        forall|k: int| 0 <= k < old(game_data).enemy_projectiles@.len() ==> projectile_rect(#[trigger] old(game_data).enemy_projectiles@[k]).wf(),
    ensures
        ({
            let es1 = Seq::new(old(enemies)@.len(), |i: int| if old(player).is_attacking {
                struck(old(enemies)@[i], old(player).attack_box, old(player).pos.0 as int, old(player).pos.1 as int, weapon.damage as int, now)
            } else {
                old(enemies)@[i]
            });
            let ps = old(game_data).player_projectiles@;
            let p1 = player_after_shots(old(game_data).enemy_projectiles@, *old(player), old(game_data).enemy_projectiles@.len() as int, now);
            &&& final(enemies)@ == enemies_after_shots(ps, es1, ps.len() as int, now)
            &&& final(game_data).player_projectiles@.len() == ps.len()
            &&& forall|k: int| 0 <= k < ps.len() ==> #[trigger] final(game_data).player_projectiles@[k]
                == shot_outcome(ps[k], enemies_after_shots(ps, es1, k, now), now).0
            &&& final(game_data).enemy_projectiles@.len() == old(game_data).enemy_projectiles@.len()
            &&& forall|k: int| 0 <= k < old(game_data).enemy_projectiles@.len() ==> #[trigger] final(game_data).enemy_projectiles@[k]
                == if old(game_data).enemy_projectiles@[k].is_active && touches(projectile_rect(old(game_data).enemy_projectiles@[k]),
                    player_rect(old(player).pos.0 as int, old(player).pos.1 as int)) {
                    Projectile { is_active: false, ..old(game_data).enemy_projectiles@[k] }
                } else {
                    old(game_data).enemy_projectiles@[k]
                }
            &&& final(player).hp == p1.hp
            &&& final(player).damage_time == p1.damage_time
            &&& final(player).invincible == (elapsed(now, p1.damage_time) < DMG_COOLDOWN)
            &&& final(player).pos == old(player).pos
        }),
{
    sword_strike(enemies, player, weapon.damage, now);
    proof {
        assert forall|k: int| 0 <= k < enemies@.len() implies (#[trigger] enemies@[k]).pos.wf() by {
            assert(enemies@[k].pos == old(enemies)@[k].pos || enemies@[k] == old(enemies)@[k]);
        }
    }
    let ghost es1 = enemies@;
    shots_on_enemies(&mut game_data.player_projectiles, enemies, now);
    shots_on_player(&mut game_data.enemy_projectiles, player, now);
    player.set_invincible(now);
    proof {
        assert(es1 =~= Seq::new(old(enemies)@.len(), |i: int| if old(player).is_attacking {
            struck(old(enemies)@[i], old(player).attack_box, old(player).pos.0 as int, old(player).pos.1 as int, weapon.damage as int, now)
        } else {
            old(enemies)@[i]
        }));
    }
}

} // verus!
