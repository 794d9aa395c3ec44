//! Properties of the game's rules that span several calls or hold of
//! every state, proved over the specifications the operations promise.
use crate::collision::{sorted_by_dist, sorted_insert, CollisionDecider};
use crate::collision::{wall_clamps, Clamp};
use crate::combat::{first_target, hits, shot_outcome};
use crate::enemy::{beyond_aggro, collided, enemy_clamps, enemy_speed, steered_enemy, EnemyType};
use crate::player::{apply_clamps, Direction};
use crate::crateobj::{crate_clamps, shrapnel_ok, Crate, EXPLODE_SPEED};
use crate::collision::{floor_sqrt, is_isqrt};
use crate::enemy::{aimed_bullet, axis_share, hurt, iabs, knocked_back, Enemy};
use crate::game::{after_pickup, coin_drops, picked_value, picks, power_drops, stripped};
use crate::gamedata::{ModifierType, CENTER_H, CENTER_W, DMG_COOLDOWN};
use crate::gold::Gold;
use crate::menu::{clicked, hat_modifier, store_button, Menu, MenuState, HAT_PRICE};
use crate::player::{shot_velocity, clampi, elapsed, lemma_apply_clamps_bounded, mana_restored, player_clamps, steered, updated, wall_hits, Player};
use crate::projectile::{after_hits, reflected, vel_ok, Projectile};
use crate::rect::{overlaps, touches, Rect};
use crate::ui::full_hearts;
use vstd::prelude::*;

verus! {

/// Hits in order of distance, nearest first.
pub open spec fn dist_sorted(s: Seq<CollisionDecider>) -> bool {
    forall|i: int, j: int| 0 <= i <= j < s.len() ==> s[i].dist <= s[j].dist
}

proof fn lemma_sorted_insert(s: Seq<CollisionDecider>, x: CollisionDecider)
    requires
        dist_sorted(s),
    ensures
        dist_sorted(sorted_insert(s, x)),
        sorted_insert(s, x).to_multiset() == s.to_multiset().insert(x),
    decreases s.len(),
{
    broadcast use vstd::seq_lib::group_to_multiset_ensures;
    if s.len() == 0 {
        assert(seq![x] =~= Seq::<CollisionDecider>::empty().push(x));
    } else if s.last().dist <= x.dist {
    } else {
        let t = s.drop_last();
        let last = s.last();
        assert(dist_sorted(t));
        lemma_sorted_insert(t, x);
        let r = sorted_insert(t, x);
        assert(s =~= t.push(last));
        assert forall|i: int| 0 <= i < r.len() implies (#[trigger] r[i]).dist <= last.dist by {
            assert(r.contains(r[i]));
            assert(r.to_multiset().count(r[i]) > 0);
            if r[i] != x {
                assert(t.to_multiset().count(r[i]) > 0);
                assert(t.contains(r[i]));
                let k = choose|k: int| 0 <= k < t.len() && t[k] == r[i];
                assert(s[k] == t[k]);
                assert(s[s.len() - 1] == last);
            }
        }
        let out = r.push(last);
        assert forall|i: int, j: int| 0 <= i <= j < out.len() implies out[i].dist <= out[j].dist by {
            if j == r.len() {
                if i < r.len() {
                    assert(out[i] == r[i]);
                }
            } else {
                assert(out[i] == r[i] && out[j] == r[j]);
            }
        }
    }
}

/// Ordering hits by distance gives them nearest first and loses or adds
/// none.
pub proof fn sorting_hits_orders_and_keeps_them(s: Seq<CollisionDecider>)
    ensures
        dist_sorted(sorted_by_dist(s)),
        sorted_by_dist(s).to_multiset() == s.to_multiset(),
    decreases s.len(),
{
    broadcast use vstd::seq_lib::group_to_multiset_ensures;
    if s.len() > 0 {
        sorting_hits_orders_and_keeps_them(s.drop_last());
        lemma_sorted_insert(sorted_by_dist(s.drop_last()), s.last());
        assert(s =~= s.drop_last().push(s.last()));
    }
}

/// Hits at the same distance are the same hit (as when no two hits are at
/// the same distance).
pub open spec fn dist_determines(s: Seq<CollisionDecider>) -> bool {
    forall|i: int, j: int| 0 <= i < s.len() && 0 <= j < s.len() && s[i].dist == s[j].dist ==> s[i] == s[j]
}

proof fn lemma_sorted_unique(a: Seq<CollisionDecider>, b: Seq<CollisionDecider>)
    requires
        dist_sorted(a),
        dist_sorted(b),
        dist_determines(a),
        a.to_multiset() == b.to_multiset(),
    ensures
        a == b,
    decreases a.len(),
{
    broadcast use vstd::seq_lib::group_to_multiset_ensures;
    vstd::seq_lib::to_multiset_len(a);
    vstd::seq_lib::to_multiset_len(b);
    if a.len() > 0 {
        assert(a.to_multiset().count(a[0]) > 0);
        assert(b.to_multiset().count(a[0]) > 0);
        assert(b.contains(a[0]));
        assert(b.to_multiset().count(b[0]) > 0);
        assert(a.to_multiset().count(b[0]) > 0);
        assert(a.contains(b[0]));
        let i = choose|i: int| 0 <= i < b.len() && b[i] == a[0];
        let j = choose|j: int| 0 <= j < a.len() && a[j] == b[0];
        assert(b[0].dist <= b[i].dist);
        assert(a[0].dist <= a[j].dist);
        assert(a[j].dist == a[0].dist);
        assert(a[0] == b[0]);
        let a1 = a.remove(0);
        let b1 = b.remove(0);
        assert(a1.to_multiset() == a.to_multiset().remove(a[0]));
        assert(b1.to_multiset() == b.to_multiset().remove(b[0]));
        assert forall|x: int, y: int| 0 <= x <= y < a1.len() implies a1[x].dist <= a1[y].dist by {
            assert(a1[x] == a[x + 1] && a1[y] == a[y + 1]);
        }
        assert forall|x: int, y: int| 0 <= x <= y < b1.len() implies b1[x].dist <= b1[y].dist by {
            assert(b1[x] == b[x + 1] && b1[y] == b[y + 1]);
        }
        assert forall|x: int, y: int| 0 <= x < a1.len() && 0 <= y < a1.len() && a1[x].dist == a1[y].dist implies a1[x] == a1[y] by {
            assert(a1[x] == a[x + 1] && a1[y] == a[y + 1]);
        }
        lemma_sorted_unique(a1, b1);
        assert(a =~= seq![a[0]] + a1);
        assert(b =~= seq![b[0]] + b1);
    }
}

/// The first hit after ordering by distance is one of the hits, and the
/// nearest: no hit is closer.
pub proof fn the_nearest_hit_comes_first(s: Seq<CollisionDecider>)
    requires
        s.len() > 0,
    ensures
        s.contains(sorted_by_dist(s)[0]),
        forall|i: int| 0 <= i < s.len() ==> sorted_by_dist(s)[0].dist <= #[trigger] s[i].dist,
{
    broadcast use vstd::seq_lib::group_to_multiset_ensures;
    sorting_hits_orders_and_keeps_them(s);
    let t = sorted_by_dist(s);
    vstd::seq_lib::to_multiset_len(t);
    vstd::seq_lib::to_multiset_len(s);
    assert(t.to_multiset().count(t[0]) > 0);
    assert(s.to_multiset().count(t[0]) > 0);
    assert forall|i: int| 0 <= i < s.len() implies t[0].dist <= #[trigger] s[i].dist by {
        assert(s.to_multiset().count(s[i]) > 0);
        assert(t.to_multiset().count(s[i]) > 0);
        assert(t.contains(s[i]));
        let k = choose|k: int| 0 <= k < t.len() && t[k] == s[i];
        assert(t[0].dist <= t[k].dist);
    }
}

/// The order in which hits are found does not matter when hits at the
/// same distance are the same hit (in particular when no two are at the
/// same distance): any rearrangement of them is ordered the same way.
pub proof fn hit_order_does_not_depend_on_discovery(s1: Seq<CollisionDecider>, s2: Seq<CollisionDecider>)
    requires
        s1.to_multiset() == s2.to_multiset(),
        dist_determines(s1),
    ensures
        sorted_by_dist(s1) == sorted_by_dist(s2),
{
    broadcast use vstd::seq_lib::group_to_multiset_ensures;
    sorting_hits_orders_and_keeps_them(s1);
    sorting_hits_orders_and_keeps_them(s2);
    let t1 = sorted_by_dist(s1);
    assert forall|i: int, j: int| 0 <= i < t1.len() && 0 <= j < t1.len() && t1[i].dist == t1[j].dist implies t1[i] == t1[j] by {
        assert(t1.to_multiset().count(t1[i]) > 0 && t1.to_multiset().count(t1[j]) > 0);
        assert(s1.to_multiset().count(t1[i]) > 0 && s1.to_multiset().count(t1[j]) > 0);
        assert(s1.contains(t1[i]) && s1.contains(t1[j]));
        let a = choose|a: int| 0 <= a < s1.len() && s1[a] == t1[i];
        let b = choose|b: int| 0 <= b < s1.len() && s1[b] == t1[j];
        assert(s1[a].dist == s1[b].dist);
    }
    lemma_sorted_unique(t1, sorted_by_dist(s2));
}

/// A crate's velocity after its hits are resolved (`Crate::resolve_col`)
/// depends only on the hits, not on the order in which they were found,
/// as long as no two different hits lie at the same distance.
pub proof fn crate_hit_order_does_not_matter(c: Crate, s1: Seq<CollisionDecider>, s2: Seq<CollisionDecider>)
    requires
        s1.to_multiset() == s2.to_multiset(),
        dist_determines(s1),
    ensures
        crate_clamps(c.vel, wall_clamps(sorted_by_dist(s1)), c.max_crate_vel as int)
            == crate_clamps(c.vel, wall_clamps(sorted_by_dist(s2)), c.max_crate_vel as int),
{
    hit_order_does_not_depend_on_discovery(s1, s2);
}

/// With no input, steering brings a moving player one step closer to rest
/// on each axis, and a resting player stays at rest (for a speed limit
/// that its speed does not exceed).
pub proof fn steering_without_input_slows_down(p: Player, s: int)
    requires
        p.delta == (0i32, 0i32),
        iabs(p.vel.0 as int) <= s,
        iabs(p.vel.1 as int) <= s,
        s <= i32::MAX,
    ensures
        p.vel.0 != 0 ==> iabs(steered(p, s).vel.0 as int) == iabs(p.vel.0 as int) - 1,
        p.vel.1 != 0 ==> iabs(steered(p, s).vel.1 as int) == iabs(p.vel.1 as int) - 1,
        p.vel.0 == 0 ==> steered(p, s).vel.0 == 0,
        p.vel.1 == 0 ==> steered(p, s).vel.1 == 0,
{
}

/// A frame never leaves the player faster than the speed limit on either
/// axis: steering caps the speed and walls only stop motion.
pub proof fn the_player_keeps_to_the_speed_limit(p: Player, g: Seq<i32>, s: int, now: u128)
    requires
        0 <= s <= i32::MAX,
        -1_000_000 <= p.vel.0 <= 1_000_000,
        -1_000_000 <= p.vel.1 <= 1_000_000,
        -1_000_000 <= p.delta.0 <= 1_000_000,
        -1_000_000 <= p.delta.1 <= 1_000_000,
    ensures
        iabs(updated(p, g, s, now).vel.0 as int) <= s,
        iabs(updated(p, g, s, now).vel.1 as int) <= s,
{
    let p1 = steered(p, s);
    lemma_apply_clamps_bounded(p1.vel, player_clamps(wall_hits(g, p1.pos.0 as int, p1.pos.1 as int)), s);
}

/// A hit that lands protects the player for `DMG_COOLDOWN` milliseconds:
/// checked at any time in that window, the player is invincible, so a
/// further hit does nothing.
pub proof fn a_hit_protects_the_player(p: Player, dmg: u32, t: u128, now: u128)
    requires
        !p.invincible,
        dmg <= p.hp,
        t <= now < t + DMG_COOLDOWN,
    ensures
        ({
            let hit = Player { hp: (p.hp - dmg) as u32, damage_time: t, ..p };
            elapsed(now, hit.damage_time) < DMG_COOLDOWN
        }),
{
}

/// Taking coins back that were just added restores the purse.
pub proof fn adding_then_spending_coins_restores_them(p: Player, c: u32)
    requires
        p.coins + c <= u32::MAX,
    ensures
        ({
            let added = Player { coins: (p.coins + c) as u32, ..p };
            (Player { coins: (added.coins - c) as u32, ..added }) == p
        }),
{
}

/// Mana never comes back beyond the maximum.
pub proof fn mana_stays_within_its_maximum(p: Player, now: u128)
    requires
        p.mana <= p.max_mana,
    ensures
        mana_restored(p, now).mana <= mana_restored(p, now).max_mana,
{
}

/// A hit on an enemy that counts protects it for its stun time: a second
/// hit in that window leaves its health and life as they were.
pub proof fn a_hit_protects_the_enemy(e: Enemy, d1: int, d2: int, t: u128, now: u128)
    requires
        elapsed(t, e.damage_timer) >= e.stun_time,
        t <= now < t + e.stun_time,
        i32::MIN <= e.hp - d1 <= i32::MAX,
    ensures
        hurt(hurt(e, d1, t), d2, now).hp == hurt(e, d1, t).hp,
        hurt(hurt(e, d1, t), d2, now).alive == hurt(e, d1, t).alive,
        hurt(e, d1, t).hp == e.hp - d1,
{
}

/// After a knockback an enemy moves no faster than its knockback speed on
/// either axis.
pub proof fn knockback_is_bounded(e: Enemy, px: int, py: int, now: u128)
    requires
        e.wf(),
    ensures
        iabs(knocked_back(e, px, py, now).vel.0 as int) <= e.knockback_vel,
        iabs(knocked_back(e, px, py, now).vel.1 as int) <= e.knockback_vel,
{
    let dx = px - e.pos.x;
    let dy = py - e.pos.y;
    let mx = crate::enemy::axis_share(dx, dx, dy, 200, 1);
    let my = crate::enemy::axis_share(dy, dx, dy, 200, 1);
    let kx = if dx < 0 { mx } else { -mx };
    let ky = if dy < 0 { my } else { -my };
    assert(-e.knockback_vel <= clampi(e.vel.0 + kx, -e.knockback_vel, e.knockback_vel as int) <= e.knockback_vel);
    assert(-e.knockback_vel <= clampi(e.vel.1 + ky, -e.knockback_vel, e.knockback_vel as int) <= e.knockback_vel);
}

pub open spec fn sum_vx(s: Seq<Projectile>) -> int
    decreases s.len(),
{
    if s.len() == 0 { 0 } else { sum_vx(s.drop_last()) + s.last().vel.0 }
}

pub open spec fn sum_vy(s: Seq<Projectile>) -> int
    decreases s.len(),
{
    if s.len() == 0 { 0 } else { sum_vy(s.drop_last()) + s.last().vel.1 }
}

/// An explosion sends its shrapnel out evenly: the velocities of the eight
/// pieces add up to nothing.
pub proof fn explosions_are_balanced(s: Seq<Projectile>, x: int, y: int, elapsed: u128)
    requires
        s.len() == 8,
        forall|i: int| 0 <= i < 8 ==> #[trigger] shrapnel_ok(s[i], x, y, elapsed, i),
    ensures
        sum_vx(s) == 0,
        sum_vy(s) == 0,
{
    assert(shrapnel_ok(s[0], x, y, elapsed, 0));
    assert(shrapnel_ok(s[1], x, y, elapsed, 1));
    assert(shrapnel_ok(s[2], x, y, elapsed, 2));
    assert(shrapnel_ok(s[3], x, y, elapsed, 3));
    assert(shrapnel_ok(s[4], x, y, elapsed, 4));
    assert(shrapnel_ok(s[5], x, y, elapsed, 5));
    assert(shrapnel_ok(s[6], x, y, elapsed, 6));
    assert(shrapnel_ok(s[7], x, y, elapsed, 7));
    reveal_with_fuel(sum_vx, 9);
    reveal_with_fuel(sum_vy, 9);
    assert(s.drop_last().drop_last().drop_last().drop_last().drop_last().drop_last().drop_last().drop_last().len() == 0);
}

/// A bounce turns a projectile around without changing its speed on
/// either axis.
pub proof fn bounces_keep_speed(v: (i32, i32), s: Seq<CollisionDecider>)
    requires
        v.0 > i32::MIN,
        v.1 > i32::MIN,
    ensures
        reflected(v, s) matches Some(w) ==> iabs(w.0 as int) == iabs(v.0 as int) && iabs(w.1 as int) == iabs(v.1 as int),
{
}

/// Hits count at most one bounce, and leave the projectile's speed on
/// each axis as it was.
pub proof fn hits_count_one_bounce_at_most(p: Projectile, collisions: Seq<CollisionDecider>)
    requires
        p.vel.0 > i32::MIN,
        p.vel.1 > i32::MIN,
        p.bounce_counter < i32::MAX,
    ensures
        after_hits(p, collisions).bounce_counter == p.bounce_counter || after_hits(p, collisions).bounce_counter == p.bounce_counter + 1,
        iabs(after_hits(p, collisions).vel.0 as int) == iabs(p.vel.0 as int),
        iabs(after_hits(p, collisions).vel.1 as int) == iabs(p.vel.1 as int),
{
    bounces_keep_speed(p.vel, sorted_by_dist(collisions));
}

/// In the store, clicking an owned hat's button twice puts back the
/// choice of hat when it was that hat or none.
pub proof fn toggling_a_hat_twice_restores_the_choice(m: Menu, x: int, y: int)
    requires
        m.state == MenuState::Store,
        m.hats@.len() >= 3,
        store_button(x, y) matches Some(i) && m.hats@[i] == 116u8,
        m.modifier_type == ModifierType::NoModifier || m.modifier_type == hat_modifier(store_button(x, y)->0),
    ensures
        clicked(clicked(m, x, y).0, x, y).0.modifier_type == m.modifier_type,
        clicked(clicked(m, x, y).0, x, y).0.blue_gold_count == m.blue_gold_count,
{
}

/// Buying a hat costs exactly `HAT_PRICE` blue gold; a purchase that the
/// player cannot pay for is refused and changes nothing.
pub proof fn hats_cost_their_price(m: Menu, x: int, y: int)
    requires
        m.state == MenuState::Store,
        m.hats@.len() >= 3,
        store_button(x, y) matches Some(i) && m.hats@[i] != 116u8,
    ensures
        m.blue_gold_count >= HAT_PRICE ==> clicked(m, x, y).0.blue_gold_count + HAT_PRICE == m.blue_gold_count,
        m.blue_gold_count < HAT_PRICE ==> clicked(m, x, y).0 == m,
{
}

/// The hearts show the health: each full heart stands for ten points and
/// the last one for what remains, so the hearts drawn before the last one
/// account for less than the health, and with the last one for all of it.
pub proof fn hearts_show_the_health(hp: int)
    requires
        hp > 0,
    ensures
        10 * full_hearts(hp) < hp <= 10 * (full_hearts(hp) + 1),
{
}

/// Enemies drop their items once: dead enemies that have dropped theirs
/// drop nothing more.
pub proof fn items_drop_once(es: Seq<Enemy>, rolls: Seq<usize>)
    ensures
        coin_drops(es.map_values(|e: Enemy| stripped(e)), false) == Seq::<Gold>::empty(),
        coin_drops(es.map_values(|e: Enemy| stripped(e)), true) == Seq::<Gold>::empty(),
        power_drops(es.map_values(|e: Enemy| stripped(e)), rolls).len() == 0,
    decreases es.len(),
{
    if es.len() > 0 {
        items_drop_once(es.drop_last(), rolls);
        assert(es.map_values(|e: Enemy| stripped(e)).drop_last() =~= es.drop_last().map_values(|e: Enemy| stripped(e)));
    }
}

/// Coins are collected once: after the player collected the coins it
/// touches, standing there again collects nothing.
pub proof fn coins_are_collected_once(ppos: Rect, cs: Seq<Gold>)
    ensures
        picked_value(ppos, cs.map_values(|c: Gold| after_pickup(ppos, c))) == 0,
    decreases cs.len(),
{
    if cs.len() > 0 {
        coins_are_collected_once(ppos, cs.drop_last());
        assert(cs.map_values(|c: Gold| after_pickup(ppos, c)).drop_last() =~= cs.drop_last().map_values(|c: Gold| after_pickup(ppos, c)));
    }
}

/// Collisions are mutual: `a` hits `b` exactly when `b` hits `a`, for
/// overlapping and for touching rectangles alike.
pub proof fn collisions_are_mutual(a: Rect, b: Rect)
    ensures
        overlaps(a, b) == overlaps(b, a),
        touches(a, b) == touches(b, a),
{
}

proof fn lemma_isqrt_exists(n: int)
    requires
        n >= 0,
    ensures
        is_isqrt(n, floor_sqrt(n)),
    decreases n,
{
    if n == 0 {
        assert(is_isqrt(0, 0));
    } else {
        lemma_isqrt_exists(n - 1);
        let r = floor_sqrt(n - 1);
        if (r + 1) * (r + 1) <= n {
            assert(n < (r + 2) * (r + 2)) by (nonlinear_arith)
                requires n - 1 < (r + 1) * (r + 1), r >= 0;
            assert(is_isqrt(n, r + 1));
        } else {
            assert(is_isqrt(n, r));
        }
    }
}

/// The share of a speed `num / den` along an axis with offset `a` (one of
/// `dx`, `dy`): nothing when the offset is nothing, otherwise at least one
/// hundredth and at most the whole speed; before that least hundredth is
/// given, it is the largest `m` with `m * m * den * den * n <= num * num * a * a`
/// for `n = dx * dx + dy * dy`.
proof fn lemma_share_facts(a: int, dx: int, dy: int, num: int, den: int)
    requires
        a == dx || a == dy,
        num >= 0,
        den >= 1,
    ensures
        a == 0 ==> axis_share(a, dx, dy, num, den) == 0,
        a != 0 && num >= 1 ==> 1 <= axis_share(a, dx, dy, num, den) <= num,
        ({
            let n = dx * dx + dy * dy;
            let m = floor_sqrt((num * num * (a * a)) / (den * den * n));
            n > 0 ==> {
                &&& m >= 0
                &&& m * m * (den * den * n) <= num * num * (a * a)
                &&& (m + 1) * (m + 1) * (den * den * n) > num * num * (a * a)
                &&& axis_share(a, dx, dy, num, den) == (if m == 0 && a != 0 && num > 0 { 1 } else { m })
            }
        }),
{
    let n = dx * dx + dy * dy;
    assert(n >= 0 && a * a <= n) by (nonlinear_arith)
        requires n == dx * dx + dy * dy, a == dx || a == dy;
    if n == 0 {
        assert(a == 0) by (nonlinear_arith)
            requires a * a <= n, n == 0;
    } else {
        let top = num * num * (a * a);
        let bottom = den * den * n;
        assert(bottom >= 1) by (nonlinear_arith)
            requires bottom == den * den * n, den >= 1, n >= 1;
        assert(top >= 0) by (nonlinear_arith)
            requires top == num * num * (a * a);
        let q = top / bottom;
        assert(q * bottom <= top < (q + 1) * bottom) by (nonlinear_arith)
            requires q == top / bottom, bottom >= 1, top >= 0;
        assert(q >= 0) by (nonlinear_arith)
            requires q == top / bottom, bottom >= 1, top >= 0;
        assert(top <= num * num * bottom) by (nonlinear_arith)
            requires top == num * num * (a * a), bottom == den * den * n, a * a <= n, den >= 1, num >= 0;
        assert(q <= num * num) by (nonlinear_arith)
            requires q * bottom <= top, top <= num * num * bottom, bottom >= 1;
        lemma_isqrt_exists(q);
        let m = floor_sqrt(q);
        assert(m * m * bottom <= top) by (nonlinear_arith)
            requires m * m <= q, q * bottom <= top, bottom >= 1;
        assert((m + 1) * (m + 1) * bottom > top) by (nonlinear_arith)
            requires q < (m + 1) * (m + 1), top < (q + 1) * bottom, bottom >= 1;
        assert(m <= num) by (nonlinear_arith)
            requires m * m <= q, q <= num * num, m >= 0, num >= 0;
        assert(m >= 0);
        if a == 0 {
            assert(top == 0) by (nonlinear_arith)
                requires top == num * num * (a * a), a == 0;
            assert(q == 0);
            assert(m == 0) by (nonlinear_arith)
                requires m * m <= q, q == 0, m >= 0;
        }
        assert(axis_share(a, dx, dy, num, den) == (if m == 0 && a != 0 && num > 0 { 1 } else { m }));
    }
}

/// The two shares of a speed `s` towards a point `dx`, `dy` away make up
/// that speed: their squares add up to no more than `s * s` plus the one
/// hundredth an axis may be given, and one more hundredth on each axis
/// would overshoot it.
proof fn lemma_shares_make_the_speed(dx: int, dy: int, s: int)
    requires
        s >= 1,
        dx != 0 || dy != 0,
    ensures
        ({
            let mx = axis_share(dx, dx, dy, s, 1);
            let my = axis_share(dy, dx, dy, s, 1);
            &&& mx * mx + my * my <= s * s + 2
            &&& (mx + 1) * (mx + 1) + (my + 1) * (my + 1) > s * s
        }),
{
    lemma_share_facts(dx, dx, dy, s, 1);
    lemma_share_facts(dy, dx, dy, s, 1);
    let n = dx * dx + dy * dy;
    assert(n > 0) by (nonlinear_arith)
        requires n == dx * dx + dy * dy, dx != 0 || dy != 0;
    let qx = floor_sqrt((s * s * (dx * dx)) / (1 * 1 * n));
    let qy = floor_sqrt((s * s * (dy * dy)) / (1 * 1 * n));
    let mx = axis_share(dx, dx, dy, s, 1);
    let my = axis_share(dy, dx, dy, s, 1);
    assert(qx * qx * n <= s * s * (dx * dx));
    assert(qy * qy * n <= s * s * (dy * dy));
    assert((qx + 1) * (qx + 1) * n > s * s * (dx * dx));
    assert((qy + 1) * (qy + 1) * n > s * s * (dy * dy));
    assert(qx * qx + qy * qy <= s * s) by (nonlinear_arith)
        requires qx * qx * n <= s * s * (dx * dx), qy * qy * n <= s * s * (dy * dy), n == dx * dx + dy * dy, n > 0;
    assert((qx + 1) * (qx + 1) + (qy + 1) * (qy + 1) > s * s) by (nonlinear_arith)
        requires (qx + 1) * (qx + 1) * n > s * s * (dx * dx), (qy + 1) * (qy + 1) * n > s * s * (dy * dy),
            n == dx * dx + dy * dy, n > 0;
    assert(mx * mx <= qx * qx + 1 && mx >= qx) by (nonlinear_arith)
        requires mx == (if qx == 0 && dx != 0 && s > 0 { 1 } else { qx }), qx >= 0;
    assert(my * my <= qy * qy + 1 && my >= qy) by (nonlinear_arith)
        requires my == (if qy == 0 && dy != 0 && s > 0 { 1 } else { qy }), qy >= 0;
    assert((mx + 1) * (mx + 1) >= (qx + 1) * (qx + 1)) by (nonlinear_arith)
        requires mx >= qx, qx >= 0;
    assert((my + 1) * (my + 1) >= (qy + 1) * (qy + 1)) by (nonlinear_arith)
        requires my >= qy, qy >= 0;
}

/// A shot flies at three times the speed limit: the squares of its
/// velocity's parts add up to no more than that speed squared (plus the
/// hundredth an axis may be given so as not to lose its sign), and one
/// more hundredth on each axis would overshoot it.
pub proof fn player_shots_fly_at_the_stated_speed(mouse_x: int, mouse_y: int, s: int)
    requires
        1 <= s <= 10_000_000,
        mouse_x - CENTER_W - 32 != 0 || mouse_y - CENTER_H - 32 != 0,
    ensures
        ({
            let v = shot_velocity(mouse_x, mouse_y, s);
            let vx = iabs(v.0 as int);
            let vy = iabs(v.1 as int);
            &&& vx * vx + vy * vy <= (3 * s) * (3 * s) + 2
            &&& (vx + 1) * (vx + 1) + (vy + 1) * (vy + 1) > (3 * s) * (3 * s)
        }),
{
    let dx = mouse_x - CENTER_W - 32;
    let dy = mouse_y - CENTER_H - 32;
    lemma_share_facts(dx, dx, dy, 3 * s, 1);
    lemma_share_facts(dy, dx, dy, 3 * s, 1);
    lemma_shares_make_the_speed(dx, dy, 3 * s);
}

/// An enemy's bullet flies at the speed it is shot at, in the same sense
/// as the player's shots.
pub proof fn enemy_shots_fly_at_the_stated_speed(e: Enemy, px: int, py: int, s: int)
    requires
        1 <= s <= 100_000_000,
        px != e.pos.x || py != e.pos.y,
    ensures
        ({
            let v = aimed_bullet(e, px, py, s).vel;
            let vx = iabs(v.0 as int);
            let vy = iabs(v.1 as int);
            &&& vx * vx + vy * vy <= s * s + 2
            &&& (vx + 1) * (vx + 1) + (vy + 1) * (vy + 1) > s * s
        }),
{
    let dx = px - e.pos.x;
    let dy = py - e.pos.y;
    lemma_share_facts(dx, dx, dy, s, 1);
    lemma_share_facts(dy, dx, dy, s, 1);
    lemma_shares_make_the_speed(dx, dy, s);
}

/// A shot keeps the sign of its aim on each axis: it moves right exactly
/// when the mouse is right of the player's tile centre, left exactly when
/// it is left of it, and not at all across when it is level with it; the
/// same holds up and down.
pub proof fn player_shots_keep_the_sign_of_the_aim(mouse_x: int, mouse_y: int, s: int)
    requires
        1 <= s <= 100_000_000,
    ensures
        ({
            let dx = mouse_x - CENTER_W - 32;
            let dy = mouse_y - CENTER_H - 32;
            let v = shot_velocity(mouse_x, mouse_y, s);
            &&& (dx > 0 <==> v.0 > 0) && (dx < 0 <==> v.0 < 0)
            &&& (dy > 0 <==> v.1 > 0) && (dy < 0 <==> v.1 < 0)
        }),
{
    let dx = mouse_x - CENTER_W - 32;
    let dy = mouse_y - CENTER_H - 32;
    lemma_share_facts(dx, dx, dy, 3 * s, 1);
    lemma_share_facts(dy, dx, dy, 3 * s, 1);
}

/// An enemy's bullet keeps the sign of its aim on each axis: it moves
/// towards the target along every axis on which the target lies off the
/// enemy, and not at all along the others.
pub proof fn enemy_shots_keep_the_sign_of_the_aim(e: Enemy, px: int, py: int, s: int)
    requires
        1 <= s <= 100_000_000,
    ensures
        ({
            let dx = px - e.pos.x;
            let dy = py - e.pos.y;
            let v = aimed_bullet(e, px, py, s).vel;
            &&& (dx > 0 <==> v.0 > 0) && (dx < 0 <==> v.0 < 0)
            &&& (dy > 0 <==> v.1 > 0) && (dy < 0 <==> v.1 < 0)
        }),
{
    let dx = px - e.pos.x;
    let dy = py - e.pos.y;
    lemma_share_facts(dx, dx, dy, s, 1);
    lemma_share_facts(dy, dx, dy, s, 1);
}


/// The velocity after a limit keeps the side the limit names.
spec fn keeps_side(c: Clamp, v: (i32, i32)) -> bool {
    match c {
        Clamp::YNonNeg => v.1 >= 0,
        Clamp::YNonPos => v.1 <= 0,
        Clamp::XNonNeg => v.0 >= 0,
        Clamp::XNonPos => v.0 <= 0,
    }
}

proof fn lemma_player_clamps_keep_first(v: (i32, i32), cs: Seq<Clamp>)
    requires
        cs.len() > 0,
    ensures
        keeps_side(cs[0], apply_clamps(v, cs)),
    decreases cs.len(),
{
    if cs.len() > 1 {
        lemma_player_clamps_keep_first(v, cs.drop_last());
    }
}

proof fn lemma_crate_clamps_keep_first(v: (i32, i32), cs: Seq<Clamp>, max: int)
    requires
        cs.len() > 0,
        max >= 0,
    ensures
        keeps_side(cs[0], crate_clamps(v, cs, max)),
    decreases cs.len(),
{
    if cs.len() > 1 {
        lemma_crate_clamps_keep_first(v, cs.drop_last(), max);
    }
}

proof fn lemma_enemy_clamps_keep_first(v: (i32, i32), cs: Seq<Clamp>)
    requires
        cs.len() > 0,
    ensures
        keeps_side(cs[0], enemy_clamps(v, cs)),
    decreases cs.len(),
{
    if cs.len() > 1 {
        lemma_enemy_clamps_keep_first(v, cs.drop_last());
    }
}

/// The hit `s[i]` is strictly nearer than every other hit of `s`.
pub open spec fn strictly_nearest(s: Seq<CollisionDecider>, i: int) -> bool {
    &&& 0 <= i < s.len()
    &&& forall|j: int| 0 <= j < s.len() && j != i ==> s[i].dist < #[trigger] s[j].dist
}

proof fn lemma_nearest_first(s: Seq<CollisionDecider>, i: int)
    requires
        strictly_nearest(s, i),
    ensures
        sorted_by_dist(s).len() == s.len(),
        sorted_by_dist(s)[0] == s[i],
{
    broadcast use vstd::seq_lib::group_to_multiset_ensures;
    sorting_hits_orders_and_keeps_them(s);
    vstd::seq_lib::to_multiset_len(sorted_by_dist(s));
    vstd::seq_lib::to_multiset_len(s);
    the_nearest_hit_comes_first(s);
    let t0 = sorted_by_dist(s)[0];
    let j = choose|j: int| 0 <= j < s.len() && s[j] == t0;
    assert(t0.dist <= s[i].dist);
    if j != i {
        assert(s[i].dist < s[j].dist);
    }
}

/// The clamps of hits whose strictly nearest hit lies on side `d` start
/// with the limit of that side.
proof fn lemma_wall_clamps_first(s: Seq<CollisionDecider>, i: int)
    requires
        strictly_nearest(s, i),
        s[i].dir != Direction::NoDirection,
    ensures
        wall_clamps(sorted_by_dist(s)).len() > 0,
        wall_clamps(sorted_by_dist(s))[0] == match s[i].dir {
            Direction::Up => Clamp::YNonNeg,
            Direction::Down => Clamp::YNonPos,
            Direction::Left => Clamp::XNonNeg,
            _ => Clamp::XNonPos,
        },
{
    lemma_nearest_first(s, i);
}

/// Walls stop the player: after its wall hits `c` (first hit first), no
/// component of its velocity points into the side of the first hit: a hit
/// below leaves it not moving down, above not moving up, on the right not
/// moving right, on the left not moving left.
pub proof fn walls_stop_the_player(v: (i32, i32), c: Seq<Direction>)
    requires
        c.len() > 0,
    ensures
        ({
            let w = apply_clamps(v, player_clamps(c));
            &&& c[0] == Direction::Down ==> w.1 <= 0
            &&& c[0] == Direction::Up ==> w.1 >= 0
            &&& c[0] == Direction::Right ==> w.0 <= 0
            &&& c[0] == Direction::Left ==> w.0 >= 0
        }),
{
    let cs = player_clamps(c);
    if c[0] != Direction::NoDirection {
        assert(cs.len() > 0);
        lemma_player_clamps_keep_first(v, cs);
    }
}

/// Walls and crates stop a crate: whatever the order the hits were found
/// in, once they are resolved (`Crate::resolve_col`) no component of the
/// crate's velocity points into the side of the strictly nearest hit.
pub proof fn walls_stop_a_crate(c: Crate, s: Seq<CollisionDecider>, i: int)
    requires
        c.max_crate_vel >= 0,
        strictly_nearest(s, i),
    ensures
        ({
            let w = crate_clamps(c.vel, wall_clamps(sorted_by_dist(s)), c.max_crate_vel as int);
            &&& s[i].dir == Direction::Down ==> w.1 <= 0
            &&& s[i].dir == Direction::Up ==> w.1 >= 0
            &&& s[i].dir == Direction::Right ==> w.0 <= 0
            &&& s[i].dir == Direction::Left ==> w.0 >= 0
        }),
{
    if s[i].dir != Direction::NoDirection {
        lemma_wall_clamps_first(s, i);
        lemma_crate_clamps_keep_first(c.vel, wall_clamps(sorted_by_dist(s)), c.max_crate_vel as int);
    }
}

/// Walls, moss and crates stop an enemy the same way, both when its hits
/// are resolved (`Enemy::resolve_col`) and in its frame update: no
/// component of its velocity points into the side of the strictly nearest
/// hit.
pub proof fn walls_stop_an_enemy(e: Enemy, s: Seq<CollisionDecider>, i: int, cs: Seq<Crate>)
    requires
        strictly_nearest(s, i),
    ensures
        ({
            let w = enemy_clamps(e.vel, wall_clamps(sorted_by_dist(s)));
            &&& collided(e, s, cs).vel == w
            &&& s[i].dir == Direction::Down ==> w.1 <= 0
            &&& s[i].dir == Direction::Up ==> w.1 >= 0
            &&& s[i].dir == Direction::Right ==> w.0 <= 0
            &&& s[i].dir == Direction::Left ==> w.0 >= 0
        }),
{
    reveal(collided);
    if s[i].dir != Direction::NoDirection {
        lemma_wall_clamps_first(s, i);
        lemma_enemy_clamps_keep_first(e.vel, wall_clamps(sorted_by_dist(s)));
    }
}

/// A shot bounces off the strictly nearest of its hits: the component of
/// its velocity moving into that side changes sign, the other is kept,
/// and one bounce is counted; a shot already moving away from that side
/// is left as it was.
pub proof fn shots_bounce_off_the_nearest_hit(p: Projectile, s: Seq<CollisionDecider>, i: int)
    requires
        vel_ok(p.vel),
        p.bounce_counter < i32::MAX,
        strictly_nearest(s, i),
    ensures
        ({
            let q = after_hits(p, s);
            let v = p.vel;
            let turned = match s[i].dir {
                Direction::Down => v.1 > 0,
                Direction::Up => v.1 < 0,
                Direction::Right => v.0 > 0,
                Direction::Left => v.0 < 0,
                Direction::NoDirection => false,
            };
            &&& (s[i].dir == Direction::Down || s[i].dir == Direction::Up) && turned
                ==> q.vel.0 == v.0 && q.vel.1 == -v.1
            &&& (s[i].dir == Direction::Left || s[i].dir == Direction::Right) && turned
                ==> q.vel.0 == -v.0 && q.vel.1 == v.1
            &&& turned ==> q.bounce_counter == p.bounce_counter + 1
            &&& !turned ==> q == p
        }),
{
    lemma_nearest_first(s, i);
}

/// A shot of the player that hits an enemy (the first living one it
/// touches) costs it exactly its damage `d` in health, half of it for a
/// skeleton and a third of it for the boss, rounded down, unless the enemy
/// is still shielded by its last hit.
pub proof fn shots_hurt_by_kind(p: Projectile, es: Seq<Enemy>, t: int, now: u128)
    requires
        first_target(p, es, t),
        p.damage >= 0,
        es[t].hp >= 0,
        elapsed(now, es[t].damage_timer) >= es[t].stun_time,
    ensures
        ({
            let d = p.damage as int;
            let after = shot_outcome(p, es, now).1[t];
            &&& es[t].enemy_type == EnemyType::Skeleton ==> after.hp == es[t].hp - d / 2
            &&& es[t].enemy_type == EnemyType::Boss ==> after.hp == es[t].hp - d / 3
            &&& es[t].enemy_type != EnemyType::Skeleton && es[t].enemy_type != EnemyType::Boss
                ==> after.hp == es[t].hp - d
        }),
{
    let u = choose|u: int| first_target(p, es, u);
    assert(first_target(p, es, u));
    if u < t {
        assert(!hits(p, es[u]));
    } else if u > t {
        assert(!hits(p, es[t]));
    }
    assert(u == t);
}

proof fn lemma_fleeing_shares_bound(dx: int, dy: int, s: int)
    requires
        s >= 1,
        dx != 0 || dy != 0,
    ensures
        ({
            let mx = axis_share(dx, dx, dy, 2 * s, 3);
            let my = axis_share(dy, dx, dy, 2 * s, 3);
            9 * (mx * mx + my * my) <= 4 * s * s + 18
        }),
{
    lemma_share_facts(dx, dx, dy, 2 * s, 3);
    lemma_share_facts(dy, dx, dy, 2 * s, 3);
    let n = dx * dx + dy * dy;
    assert(n > 0) by (nonlinear_arith)
        requires n == dx * dx + dy * dy, dx != 0 || dy != 0;
    let qx = floor_sqrt(((2 * s) * (2 * s) * (dx * dx)) / (3 * 3 * n));
    let qy = floor_sqrt(((2 * s) * (2 * s) * (dy * dy)) / (3 * 3 * n));
    let mx = axis_share(dx, dx, dy, 2 * s, 3);
    let my = axis_share(dy, dx, dy, 2 * s, 3);
    assert(qx * qx * (3 * 3 * n) <= (2 * s) * (2 * s) * (dx * dx));
    assert(qy * qy * (3 * 3 * n) <= (2 * s) * (2 * s) * (dy * dy));
    assert(9 * (qx * qx + qy * qy) <= 4 * s * s) by (nonlinear_arith)
        requires qx * qx * (3 * 3 * n) <= (2 * s) * (2 * s) * (dx * dx),
            qy * qy * (3 * 3 * n) <= (2 * s) * (2 * s) * (dy * dy), n == dx * dx + dy * dy, n > 0;
    assert(mx * mx <= qx * qx + 1) by (nonlinear_arith)
        requires mx == (if qx == 0 && dx != 0 && 2 * s > 0 { 1 } else { qx }), qx >= 0;
    assert(my * my <= qy * qy + 1) by (nonlinear_arith)
        requires my == (if qy == 0 && dy != 0 && 2 * s > 0 { 1 } else { qy }), qy >= 0;
}

/// Within its aggro range, an enemy that is not stunned runs from the
/// player if it is a ranged or rock enemy, and goes for the player
/// otherwise. A runner's velocity points away from the player on each axis
/// on which the player lies off it (and is still on the other), at no more
/// than two thirds of its speed `s` (squares summed, up to rounding); a
/// chaser's points towards the player on each such axis, at no more than
/// its speed.
pub proof fn enemies_flee_or_chase_by_kind(e: Enemy, px: int, py: int, speed_limit: int, roll: int)
    requires
        !e.is_stunned,
        !beyond_aggro(e, px, py),
        1 <= enemy_speed(e, speed_limit) <= 100_000_000,
        px != e.pos.x || py != e.pos.y,
    ensures
        ({
            let dx = px - e.pos.x;
            let dy = py - e.pos.y;
            let s = enemy_speed(e, speed_limit);
            let w = steered_enemy(e, px, py, speed_limit, roll).vel;
            let vx = w.0 as int;
            let vy = w.1 as int;
            &&& (e.enemy_type == EnemyType::Ranged || e.enemy_type == EnemyType::Rock) ==> {
                &&& (dx > 0 ==> vx < 0) && (dx < 0 ==> vx > 0) && (dx == 0 ==> vx == 0)
                &&& (dy > 0 ==> vy < 0) && (dy < 0 ==> vy > 0) && (dy == 0 ==> vy == 0)
                &&& 9 * (vx * vx + vy * vy) <= 4 * s * s + 18
            }
            &&& !(e.enemy_type == EnemyType::Ranged || e.enemy_type == EnemyType::Rock) ==> {
                &&& (dx > 0 ==> vx > 0) && (dx < 0 ==> vx < 0) && (dx == 0 ==> vx == 0)
                &&& (dy > 0 ==> vy > 0) && (dy < 0 ==> vy < 0) && (dy == 0 ==> vy == 0)
                &&& vx * vx + vy * vy <= s * s + 2
            }
        }),
{
    reveal(steered_enemy);
    let dx = px - e.pos.x;
    let dy = py - e.pos.y;
    let s = enemy_speed(e, speed_limit);
    if e.enemy_type == EnemyType::Ranged || e.enemy_type == EnemyType::Rock {
        lemma_share_facts(dx, dx, dy, 2 * s, 3);
        lemma_share_facts(dy, dx, dy, 2 * s, 3);
        lemma_fleeing_shares_bound(dx, dy, s);
        let mx = axis_share(dx, dx, dy, 2 * s, 3);
        let my = axis_share(dy, dx, dy, 2 * s, 3);
        let w = steered_enemy(e, px, py, speed_limit, roll).vel;
        let vx = w.0 as int;
        let vy = w.1 as int;
        assert(vx == mx || vx == -mx);
        assert(vy == my || vy == -my);
        assert(vx * vx + vy * vy == mx * mx + my * my) by (nonlinear_arith)
            requires vx == mx || vx == -mx, vy == my || vy == -my;
    } else {
        lemma_share_facts(dx, dx, dy, s, 1);
        lemma_share_facts(dy, dx, dy, s, 1);
        lemma_shares_make_the_speed(dx, dy, s);
        let mx = axis_share(dx, dx, dy, s, 1);
        let my = axis_share(dy, dx, dy, s, 1);
        let w = steered_enemy(e, px, py, speed_limit, roll).vel;
        let vx = w.0 as int;
        let vy = w.1 as int;
        assert(vx == mx || vx == -mx);
        assert(vy == my || vy == -my);
        assert(vx * vx + vy * vy == mx * mx + my * my) by (nonlinear_arith)
            requires vx == mx || vx == -mx, vy == my || vy == -my;
    }
}

} // verus!
