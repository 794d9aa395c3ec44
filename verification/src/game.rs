//! The rules of a run that tie the entities together: which floor comes
//! next and what clearing one earns, what the spawn codes of a map bring
//! to life, what dead enemies leave behind, collecting coins, noticing
//! pickups and the exit, moving projectiles, and animation cells.
use crate::crateobj::Crate;
use crate::enemy::{dropped_power, enemy_power, Enemy, EnemyType};
use crate::gamedata::{check_collision_touching, CrateType, GameData, PowerType, CAM_H, CAM_W, TILE_SIZE, TILE_SIZE_CAM, TILE_SIZE_PLAYER};
use crate::gold::Gold;
use crate::map::{cell, grid_wf, GameMap};
use crate::player::{player_rect, Player};
use crate::power::{power_stats, Power};
use crate::projectile::{vel_ok, whole_pixels, Projectile};
use crate::random::random_in;
use crate::rect::{touches, Rect};
use vstd::prelude::*;

verus! {

/// What a floor number means when a floor begins.
#[derive(PartialEq, Eq, Debug, Copy, Clone, Structural)]
pub enum FloorKind {
    Regular,
    Boss,
    Finished,
}

/// The fourth floor is the boss's; after it the run is over.
pub fn floor_kind(current_floor: i32) -> (k: FloorKind)
    ensures
        k == (if current_floor == 4 { FloorKind::Boss } else if current_floor == 5 { FloorKind::Finished } else { FloorKind::Regular }),
{
    if current_floor == 4 {
        FloorKind::Boss
    } else if current_floor == 5 {
        FloorKind::Finished
    } else {
        FloorKind::Regular
    }
}

/// The side of the map, in tiles, on floor `floor`: 61, and 30 more for
/// each floor after the first.
pub open spec fn map_side(floor: int) -> int {
    61 + (floor - 1) * 30
}

impl GameData {
    /// Clears the current floor: the player keeps, for good, one blue gold
    /// per floor number; returns the count to save and moves to the next
    /// floor with its larger map.
    pub fn finish_floor(&mut self) -> (saved: u32)
        requires
            1 <= old(self).current_floor < 70_000_000,
            old(self).blue_gold_count + old(self).current_floor <= u32::MAX,
        ensures
            saved == old(self).blue_gold_count + old(self).current_floor,
            final(self).current_floor == old(self).current_floor + 1,
            final(self).map_size_w == map_side(final(self).current_floor as int),
            final(self).map_size_h == map_side(final(self).current_floor as int),
            final(self).blue_gold_count == saved,
            final(self).gold@ == old(self).gold@,
            final(self).blue_gold@ == old(self).blue_gold@,
    {
        let saved = self.blue_gold_count + self.current_floor as u32;
        self.blue_gold_count = saved;
        self.current_floor += 1;
        self.map_size_w = 61 + ((self.current_floor - 1) * 30) as usize;
        self.map_size_h = 61 + ((self.current_floor - 1) * 30) as usize;
        saved
    }
}

/// Where the player starts on a map whose start tile is `start`.
pub open spec fn start_point(start: (i32, i32)) -> (int, int) {
    (start.0 * 64 - (CAM_W - 2 * TILE_SIZE_PLAYER) / 2, start.1 * 64 - (CAM_H - 2 * TILE_SIZE_PLAYER) / 2)
}

pub fn starting_point(map_data: &GameMap) -> (p: (i32, i32))
    requires
        -1_000_000 <= map_data.starting_position.0 <= 1_000_000,
        -1_000_000 <= map_data.starting_position.1 <= 1_000_000,
    ensures
        p.0 == start_point(map_data.starting_position).0,
        p.1 == start_point(map_data.starting_position).1,
{
    let s = map_data.starting_position;
    assert((CAM_W - 2 * TILE_SIZE_PLAYER) / 2 == 600 && (CAM_H - 2 * TILE_SIZE_PLAYER) / 2 == 320);
    (s.0 * 64 - 600, s.1 * 64 - 320)
}

/// The exit stairs' tile in the player's coordinates.
pub open spec fn exit_rect(end: (i32, i32)) -> Rect {
    Rect::spec_new(end.0 * 64 - (CAM_W - 64) / 2, end.1 * 64 - (CAM_H - 64) / 2, 64, 64)
}

/// Whether the player at (`x`, `y`) can take the stairs down: a camera
/// tile at its corner touches the exit.
pub open spec fn at_exit(x: int, y: int, end: (i32, i32)) -> bool {
    touches(Rect::spec_new(x, y, TILE_SIZE_CAM as int, TILE_SIZE_CAM as int), exit_rect(end))
}

pub fn reached_exit(player: &Player, map_data: &GameMap) -> (r: bool)
    requires
        -1_000_000 <= map_data.ending_position.0 <= 1_000_000,
        -1_000_000 <= map_data.ending_position.1 <= 1_000_000,
    ensures
        r == at_exit(player.pos.0 as int, player.pos.1 as int, map_data.ending_position),
{
    let e = map_data.ending_position;
    assert((CAM_W - 64) / 2 == 608 && (CAM_H - 64) / 2 == 328);
    let mpos = Rect::new(e.0 * 64 - 608, e.1 * 64 - 328, TILE_SIZE, TILE_SIZE);
    let ppos = Rect::new(player.pos.0, player.pos.1, TILE_SIZE_CAM, TILE_SIZE_CAM);
    check_collision_touching(&ppos, &mpos)
}

/// The enemy a spawn code brings: 1 melee, 2 ranged, 4 skeleton, 5 eyeball,
/// 6 rock, 7 the boss.
pub open spec fn enemy_kind(code: i32) -> Option<EnemyType> {
    if code == 1 { Some(EnemyType::Melee) }
    else if code == 2 { Some(EnemyType::Ranged) }
    else if code == 4 { Some(EnemyType::Skeleton) }
    else if code == 5 { Some(EnemyType::Eyeball) }
    else if code == 6 { Some(EnemyType::Rock) }
    else if code == 7 { Some(EnemyType::Boss) }
    else { None }
}

/// The crate a crate spawn becomes for a roll in `0..10`: heavy for 0 to
/// 2, explosive for 3 to 5, regular otherwise; with its side in pixels.
pub open spec fn crate_for(roll: int) -> (CrateType, int) {
    if roll <= 2 { (CrateType::Heavy, 62) } else if roll <= 5 { (CrateType::Explosive, 60) } else { (CrateType::Regular, 40) }
}

/// The corner of the spawn tile in column `w`, row `h`, in the player's
/// coordinates.
pub open spec fn spawn_corner(w: int, h: int) -> (int, int) {
    (w * 64 - (CAM_W - 64) / 2, h * 64 - (CAM_H - 64) / 2)
}

/// The rectangle of a spawned enemy: four camera tiles... the boss takes
/// 128 pixels, the others a camera tile.
pub open spec fn enemy_spawn_rect(t: EnemyType, w: int, h: int) -> Rect {
    let c = spawn_corner(w, h);
    let side = if t == EnemyType::Boss { 128 } else { TILE_SIZE_CAM as int };
    Rect::spec_new(c.0, c.1, side, side)
}

/// A cell of a spawn grid with a code: (code, column, row).
pub open spec fn spawn_cells_row(g: Seq<i32>, h: int, w: int) -> Seq<(i32, i32, i32)>
    decreases w,
{
    if w <= 0 {
        Seq::empty()
    } else {
        spawn_cells_row(g, h, w - 1) + if g[cell(h, w - 1)] != 0 { seq![(g[cell(h, w - 1)], (w - 1) as i32, h as i32)] } else { Seq::empty() }
    }
}

pub open spec fn spawn_cells_rows(g: Seq<i32>, h: int) -> Seq<(i32, i32, i32)>
    decreases h,
{
    if h <= 0 { Seq::empty() } else { spawn_cells_rows(g, h - 1) + spawn_cells_row(g, h - 1, 61) }
}

/// The spawns of a grid, row by row: every cell with a nonzero code.
pub open spec fn spawn_cells(g: Seq<i32>) -> Seq<(i32, i32, i32)> {
    spawn_cells_rows(g, 61)
}

/// Lists the spawns of a grid (see `spawn_cells`).
pub fn spawn_list(spawns: &Vec<i32>) -> (r: Vec<(i32, i32, i32)>)
    requires
        grid_wf(spawns@),
    ensures
        r@ == spawn_cells(spawns@),
        forall|k: int| 0 <= k < r@.len() ==> 0 <= (#[trigger] r@[k]).1 < 61 && 0 <= r@[k].2 < 61,
{
    let mut out: Vec<(i32, i32, i32)> = Vec::new();
    let mut h: i32 = 0;
    while h < 61
        invariant
            0 <= h <= 61,
            grid_wf(spawns@),
            out@ == spawn_cells_rows(spawns@, h as int),
            forall|k: int| 0 <= k < out@.len() ==> 0 <= (#[trigger] out@[k]).1 < 61 && 0 <= out@[k].2 < 61,
        decreases 61 - h,
    {
        let ghost base = out@;
        let mut w: i32 = 0;
        while w < 61
            invariant
                0 <= h < 61,
                0 <= w <= 61,
                grid_wf(spawns@),
                base == spawn_cells_rows(spawns@, h as int),
                out@ == base + spawn_cells_row(spawns@, h as int, w as int),
                forall|k: int| 0 <= k < out@.len() ==> 0 <= (#[trigger] out@[k]).1 < 61 && 0 <= out@[k].2 < 61,
            decreases 61 - w,
        {
            proof {
                crate::map::lemma_cell_bounds(h as int, w as int);
            }
            let code = spawns[(h as usize) * 61 + (w as usize)];
            let ghost before = out@;
            if code != 0 {
                out.push((code, w, h));
            }
            assert(spawn_cells_row(spawns@, h as int, w as int + 1) =~= spawn_cells_row(spawns@, h as int, w as int)
                + if spawns@[cell(h as int, w as int)] != 0 { seq![(spawns@[cell(h as int, w as int)], w, h)] } else { Seq::empty() });
            assert(out@ =~= base + spawn_cells_row(spawns@, h as int, w as int + 1));
            w += 1;
        }
        assert(spawn_cells_rows(spawns@, h as int + 1) =~= spawn_cells_rows(spawns@, h as int) + spawn_cells_row(spawns@, h as int, 61));
        h += 1;
    }
    out
}

/// What a spawn brings to life.
pub enum Spawn {
    Foe(Enemy),
    Box(Crate),
    Empty,
}

/// The enemy of a spawn of kind `t` at its tile: what `Enemy::new` makes.
pub open spec fn fresh_enemy(e: Enemy, t: EnemyType, pos: Rect, number: usize, now: u128) -> bool {
    &&& e.pos == pos
    &&& e.enemy_type == t
    &&& e.enemy_number == number
    &&& e.vel == (0i32, 0i32)
    &&& e.alive
    &&& e.has_money
    &&& e.has_power
    &&& e.invincible
    &&& !e.is_stunned
    &&& e.stun_timer == now
    &&& e.fire_timer == now
    &&& e.damage_timer == now
    &&& (e.stun_time as int, e.hp as int, e.knockback_vel as int, e.speed_delta as int, e.aggro_range as int)
        == crate::enemy::enemy_stats(t)
}

/// The crate of a crate spawn at column `w`, row `h` for a roll: at rest,
/// of the rolled type and size.
pub open spec fn fresh_crate(c: Crate, w: int, h: int, roll: int) -> bool {
    let k = crate_for(roll);
    let corner = spawn_corner(w, h);
    &&& c.crate_type == k.0
    &&& c.pos == Rect::spec_new(corner.0, corner.1, k.1, k.1)
    &&& c.vel == (0i32, 0i32)
    &&& c.active
    &&& c.wf()
}

/// A crate of a crate spawn at column `w`, row `h`, for some roll in
/// `0..10`.
pub open spec fn spawned_crate(c: Crate, w: int, h: int) -> bool {
    exists|roll: int| 0 <= roll < 10 && fresh_crate(c, w, h, roll)
}

/// Brings the spawn with code `code` at column `w`, row `h` to life; an
/// enemy is numbered `enemy_number`, a crate takes its kind from
/// `crate_roll` (see `enemy_kind` and `crate_for`).
pub fn spawn_at(code: i32, w: i32, h: i32, enemy_number: usize, now: u128, crate_roll: usize) -> (s: Spawn)
    requires
        0 <= w < 61,
        0 <= h < 61,
    ensures
        enemy_kind(code) matches Some(t) ==> (s matches Spawn::Foe(e) && fresh_enemy(e, t, enemy_spawn_rect(t, w as int, h as int), enemy_number, now)),
        code == 3 ==> (s matches Spawn::Box(c) && fresh_crate(c, w as int, h as int, crate_roll as int)),
        enemy_kind(code) is None && code != 3 ==> s is Empty,
{
    let x = w * TILE_SIZE as i32 - (CAM_W as i32 - TILE_SIZE as i32) / 2;
    let y = h * TILE_SIZE as i32 - (CAM_H as i32 - TILE_SIZE as i32) / 2;
    let kind: Option<EnemyType> = if code == 1 {
        Some(EnemyType::Melee)
    } else if code == 2 {
        Some(EnemyType::Ranged)
    } else if code == 4 {
        Some(EnemyType::Skeleton)
    } else if code == 5 {
        Some(EnemyType::Eyeball)
    } else if code == 6 {
        Some(EnemyType::Rock)
    } else if code == 7 {
        Some(EnemyType::Boss)
    } else {
        None
    };
    match kind {
        Some(t) => {
            let side: u32 = match t {
                EnemyType::Boss => 128,
                _ => TILE_SIZE_CAM,
            };
            Spawn::Foe(Enemy::new(Rect::new(x, y, side, side), t, enemy_number, now))
        },
        None => {
            if code == 3 {
                let c = if crate_roll <= 2 {
                    Crate::new(Rect::new(x, y, 62, 62), CrateType::Heavy)
                } else if crate_roll <= 5 {
                    Crate::new(Rect::new(x, y, TILE_SIZE_PLAYER * 3 / 2, TILE_SIZE_PLAYER * 3 / 2), CrateType::Explosive)
                } else {
                    Crate::new(Rect::new(x, y, TILE_SIZE_PLAYER, TILE_SIZE_PLAYER), CrateType::Regular)
                };
                Spawn::Box(c)
            } else {
                Spawn::Empty
            }
        },
    }
}

pub open spec fn is_enemy_spawn() -> spec_fn((i32, i32, i32)) -> bool {
    |c: (i32, i32, i32)| enemy_kind(c.0) is Some
}

pub open spec fn is_crate_spawn() -> spec_fn((i32, i32, i32)) -> bool {
    |c: (i32, i32, i32)| c.0 == 3
}

/// The enemy spawns of a list, in order.
pub open spec fn enemy_spawns(s: Seq<(i32, i32, i32)>) -> Seq<(i32, i32, i32)> {
    s.filter(is_enemy_spawn())
}

/// The crate spawns of a list, in order.
pub open spec fn crate_spawns(s: Seq<(i32, i32, i32)>) -> Seq<(i32, i32, i32)> {
    s.filter(is_crate_spawn())
}

/// Filtering a sequence with one more element at its end.
pub proof fn lemma_filter_push<A>(s: Seq<A>, x: A, p: spec_fn(A) -> bool)
    ensures
        s.push(x).filter(p) == (if p(x) { s.filter(p).push(x) } else { s.filter(p) }),
{
    reveal(Seq::filter);
    assert(s.push(x).drop_last() =~= s);
}

/// Brings every spawn of a map to life, row by row: its enemies, numbered
/// in order, each with a wandering roll drawn from `1..5`, and its crates,
/// each of a kind drawn from `0..10` (see `spawn_at`).
pub fn spawn_entities(map_data: &GameMap, now: u128) -> (r: (Vec<Enemy>, Vec<i32>, Vec<Crate>))
    requires
        grid_wf(map_data.enemy_and_object_spawns@),
    ensures
        r.0@.len() == enemy_spawns(spawn_cells(map_data.enemy_and_object_spawns@)).len(),
        r.1@.len() == r.0@.len(),
        r.2@.len() == crate_spawns(spawn_cells(map_data.enemy_and_object_spawns@)).len(),
        forall|k: int| 0 <= k < r.0@.len() ==> {
            let c = #[trigger] enemy_spawns(spawn_cells(map_data.enemy_and_object_spawns@))[k];
            &&& enemy_kind(c.0) is Some
            &&& fresh_enemy(r.0@[k], enemy_kind(c.0)->0, enemy_spawn_rect(enemy_kind(c.0)->0, c.1 as int, c.2 as int), k as usize, now)
        },
        forall|k: int| 0 <= k < r.1@.len() ==> 1 <= #[trigger] r.1@[k] < 5,
        forall|k: int| 0 <= k < r.2@.len() ==> {
            let c = #[trigger] crate_spawns(spawn_cells(map_data.enemy_and_object_spawns@))[k];
            spawned_crate(r.2@[k], c.1 as int, c.2 as int)
        },
{
    let cells = spawn_list(&map_data.enemy_and_object_spawns);
    let ghost all = cells@;
    let mut enemies: Vec<Enemy> = Vec::new();
    let mut rolls: Vec<i32> = Vec::new();
    let mut crates: Vec<Crate> = Vec::new();
    let mut i: usize = 0;
    while i < cells.len()
        invariant
            i <= cells.len(),
            cells@ == all,
            forall|k: int| 0 <= k < cells@.len() ==> 0 <= (#[trigger] cells@[k]).1 < 61 && 0 <= cells@[k].2 < 61,
            enemies@.len() == enemy_spawns(all.take(i as int)).len(),
            rolls@.len() == enemies@.len(),
            crates@.len() == crate_spawns(all.take(i as int)).len(),
            forall|k: int| 0 <= k < enemies@.len() ==> {
                let c = #[trigger] enemy_spawns(all.take(i as int))[k];
                &&& enemy_kind(c.0) is Some
                &&& fresh_enemy(enemies@[k], enemy_kind(c.0)->0, enemy_spawn_rect(enemy_kind(c.0)->0, c.1 as int, c.2 as int), k as usize, now)
            },
            forall|k: int| 0 <= k < rolls@.len() ==> 1 <= #[trigger] rolls@[k] < 5,
            forall|k: int| 0 <= k < crates@.len() ==> {
                let c = #[trigger] crate_spawns(all.take(i as int))[k];
                spawned_crate(crates@[k], c.1 as int, c.2 as int)
            },
        decreases cells.len() - i,
    {
        let (code, w, h) = cells[i];
        let ghost prefix = all.take(i as int);
        let ghost next = all.take(i as int + 1);
        assert(next =~= prefix.push(all[i as int]));
        proof {
            lemma_filter_push(prefix, all[i as int], is_enemy_spawn());
            lemma_filter_push(prefix, all[i as int], is_crate_spawn());
        }
        let crate_roll = if code == 3 { random_in(0, 10) } else { 0 };
        let ghost ecount = enemies@.len();
        match spawn_at(code, w, h, enemies.len(), now, crate_roll) {
            Spawn::Foe(e) => {
                enemies.push(e);
                let roll = random_in(1, 5) as i32;
                rolls.push(roll);
            },
            Spawn::Box(c) => {
                assert(fresh_crate(c, w as int, h as int, crate_roll as int));
                assert(spawned_crate(c, w as int, h as int));
                crates.push(c);
            },
            Spawn::Empty => {},
        }
        i += 1;
    }
    assert(all.take(cells.len() as int) =~= all);
    (enemies, rolls, crates)
}


/// What a dead enemy keeps of its items: nothing.
pub open spec fn stripped(e: Enemy) -> Enemy {
    if !e.alive { Enemy { has_money: false, has_power: false, ..e } } else { e }
}

/// The coin a dead enemy with a coin leaves at its corner.
pub open spec fn coin_of(e: Enemy) -> Gold {
    Gold {
        pos: Rect::spec_new(e.pos.x as int, e.pos.y as int, 64, 64),
        src: Rect::spec_new(0, 0, 64, 64),
        amount: 1,
        been_collected: false,
    }
}

/// The coins the dead enemies of `es` leave: blue ones from the boss
/// (`blue`), ordinary ones from the others.
pub open spec fn coin_drops(es: Seq<Enemy>, blue: bool) -> Seq<Gold>
    decreases es.len(),
{
    if es.len() == 0 {
        Seq::empty()
    } else {
        let e = es.last();
        coin_drops(es.drop_last(), blue) + if !e.alive && e.has_money && (e.enemy_type == EnemyType::Boss) == blue {
            seq![coin_of(e)]
        } else {
            Seq::empty()
        }
    }
}

/// The power a dead enemy leaves for a drop roll.
pub open spec fn power_of(e: Enemy, roll: int) -> Power {
    let t = dropped_power(e, roll);
    Power {
        pos: Rect::spec_new(e.pos.x as int, e.pos.y as int, 64, 64),
        src: Rect::spec_new(0, 0, 64, 64),
        power_type: t,
        collected: false,
        damage: power_stats(t).0 as i32,
        mana_cost: power_stats(t).1 as i32,
    }
}

/// The powers the dead enemies of `es` that still carry one leave, each
/// with its own drop roll.
pub open spec fn power_drops(es: Seq<Enemy>, rolls: Seq<usize>) -> Seq<Power>
    decreases es.len(),
{
    if es.len() == 0 || rolls.len() < es.len() {
        Seq::empty()
    } else {
        let e = es.last();
        power_drops(es.drop_last(), rolls) + if !e.alive && e.has_power {
            seq![power_of(e, rolls[es.len() - 1] as int)]
        } else {
            Seq::empty()
        }
    }
}

/// Drop rolls, one per enemy, each in `1..4`.
pub open spec fn rolls_ok(r: Seq<usize>, n: int) -> bool {
    r.len() == n && forall|i: int| 0 <= i < n ==> 1 <= #[trigger] r[i] < 4
}

impl GameData {
    /// Lets every dead enemy that still carries items drop them: its coin
    /// (blue gold for the boss) and its power, with the drop roll
    /// `rolls[i]` for enemy `i` (see `coin_drops` and `power_drops`).
    pub fn drop_items_with(&mut self, enemies: &mut Vec<Enemy>, rolls: &Vec<usize>)
        requires
            rolls@.len() == old(enemies)@.len(),
        ensures
            final(enemies)@.len() == old(enemies)@.len(),
            forall|i: int| 0 <= i < old(enemies)@.len() ==> #[trigger] final(enemies)@[i] == stripped(old(enemies)@[i]),
            final(self).gold@ == old(self).gold@ + coin_drops(old(enemies)@, false),
            final(self).blue_gold@ == old(self).blue_gold@ + coin_drops(old(enemies)@, true),
            final(self).dropped_powers@ == old(self).dropped_powers@ + power_drops(old(enemies)@, rolls@),
            final(self).blue_gold_count == old(self).blue_gold_count,
            final(self).current_floor == old(self).current_floor,
    {
        let ghost es = enemies@;
        let ghost g0 = self.gold@;
        let ghost b0 = self.blue_gold@;
        let ghost p0 = self.dropped_powers@;
        let mut i: usize = 0;
        while i < enemies.len()
            invariant
                i <= enemies.len(),
                enemies@.len() == es.len(),
                rolls@.len() == es.len(),
                forall|k: int| 0 <= k < i ==> #[trigger] enemies@[k] == stripped(es[k]),
                forall|k: int| i <= k < es.len() ==> #[trigger] enemies@[k] == es[k],
                self.gold@ == g0 + coin_drops(es.take(i as int), false),
                self.blue_gold@ == b0 + coin_drops(es.take(i as int), true),
                self.dropped_powers@ == p0 + power_drops(es.take(i as int), rolls@),
                self.blue_gold_count == old(self).blue_gold_count,
                self.current_floor == old(self).current_floor,
            decreases es.len() - i,
        {
            let ghost e = es[i as int];
            assert(es.take(i as int + 1).drop_last() =~= es.take(i as int));
            assert(es.take(i as int + 1).last() == e);
            let mut enemy = enemies[i];
            if !enemy.is_alive() && enemy.has_item() {
                if enemy.has_coin() {
                    let coin = enemy.drop_coin();
                    match enemy.enemy_type {
                        EnemyType::Boss => self.blue_gold.push(coin),
                        _ => self.gold.push(coin),
                    }
                }
                if enemy.has_power() {
                    let p = enemy.drop_power_with_roll(rolls[i]);
                    self.dropped_powers.push(p);
                }
            }
            enemies.set(i, enemy);
            assert(self.gold@ =~= g0 + coin_drops(es.take(i as int + 1), false));
            assert(self.blue_gold@ =~= b0 + coin_drops(es.take(i as int + 1), true));
            assert(self.dropped_powers@ =~= p0 + power_drops(es.take(i as int + 1), rolls@));
            i += 1;
        }
        assert(es.take(es.len() as int) =~= es);
    }

    /// Lets every dead enemy that still carries items drop them (see
    /// `drop_items_with`), each with a drop roll drawn from `1..4`.
    pub fn update_drops(&mut self, enemies: &mut Vec<Enemy>)
        ensures
            final(enemies)@.len() == old(enemies)@.len(),
            forall|i: int| 0 <= i < old(enemies)@.len() ==> #[trigger] final(enemies)@[i] == stripped(old(enemies)@[i]),
            final(self).gold@ == old(self).gold@ + coin_drops(old(enemies)@, false),
            final(self).blue_gold@ == old(self).blue_gold@ + coin_drops(old(enemies)@, true),
            exists|r: Seq<usize>| rolls_ok(r, old(enemies)@.len() as int)
                && final(self).dropped_powers@ == old(self).dropped_powers@ + power_drops(old(enemies)@, r),
            final(self).blue_gold_count == old(self).blue_gold_count,
    {
        let mut rolls: Vec<usize> = Vec::new();
        let mut i: usize = 0;
        while i < enemies.len()
            invariant
                i <= enemies.len(),
                rolls@.len() == i,
                forall|k: int| 0 <= k < i ==> 1 <= #[trigger] rolls@[k] < 4,
            decreases enemies.len() - i,
        {
            rolls.push(random_in(1, 4));
            i += 1;
        }
        self.drop_items_with(enemies, &rolls);
        assert(rolls_ok(rolls@, old(enemies)@.len() as int));
    }
}


/// A coin the player's hit box `ppos` touches that nobody has collected.
pub open spec fn picks(ppos: Rect, c: Gold) -> bool {
    !c.been_collected && touches(ppos, c.pos)
}

/// The coins after the player's hit box `ppos` passed: the touched ones
/// are collected.
pub open spec fn after_pickup(ppos: Rect, c: Gold) -> Gold {
    if picks(ppos, c) { Gold { been_collected: true, ..c } } else { c }
}

/// The value of the coins the player picks up.
pub open spec fn picked_value(ppos: Rect, cs: Seq<Gold>) -> int
    decreases cs.len(),
{
    if cs.len() == 0 {
        0
    } else {
        picked_value(ppos, cs.drop_last()) + if picks(ppos, cs.last()) { cs.last().amount as int } else { 0 }
    }
}

/// How many coins the player picks up.
pub open spec fn picked_count(ppos: Rect, cs: Seq<Gold>) -> int
    decreases cs.len(),
{
    if cs.len() == 0 {
        0
    } else {
        picked_count(ppos, cs.drop_last()) + if picks(ppos, cs.last()) { 1int } else { 0 }
    }
}

pub proof fn lemma_picked_bounds(ppos: Rect, cs: Seq<Gold>)
    ensures
        0 <= picked_count(ppos, cs) <= cs.len(),
        0 <= picked_value(ppos, cs) <= cs.len() * u32::MAX,
    decreases cs.len(),
{
    if cs.len() > 0 {
        lemma_picked_bounds(ppos, cs.drop_last());
    }
}

/// Whether a power the player's hit box touches lies there to be absorbed.
pub open spec fn offers_power(ppos: Rect, p: Power) -> bool {
    touches(ppos, p.pos) && !p.collected && p.power_type != PowerType::NoPower
}

impl GameData {
    /// The player collects the coins it touches: ordinary coins add their
    /// value to its purse, blue coins one each to the blue gold.
    pub fn collect_coins(&mut self, player: &mut Player)
        requires
            old(player).coins + picked_value(player_rect(old(player).pos.0 as int, old(player).pos.1 as int), old(self).gold@) <= u32::MAX,
            old(self).blue_gold_count + picked_count(player_rect(old(player).pos.0 as int, old(player).pos.1 as int), old(self).blue_gold@) <= u32::MAX,
            player_rect(old(player).pos.0 as int, old(player).pos.1 as int).wf(),
            forall|i: int| 0 <= i < old(self).gold@.len() ==> (#[trigger] old(self).gold@[i]).pos.wf(),
            forall|i: int| 0 <= i < old(self).blue_gold@.len() ==> (#[trigger] old(self).blue_gold@[i]).pos.wf(),
        ensures
            ({
                let ppos = player_rect(old(player).pos.0 as int, old(player).pos.1 as int);
                &&& *final(player) == (Player { coins: (old(player).coins + picked_value(ppos, old(self).gold@)) as u32, ..*old(player) })
                &&& final(self).blue_gold_count == old(self).blue_gold_count + picked_count(ppos, old(self).blue_gold@)
                &&& final(self).gold@.len() == old(self).gold@.len()
                &&& final(self).blue_gold@.len() == old(self).blue_gold@.len()
                &&& forall|i: int| 0 <= i < old(self).gold@.len() ==> #[trigger] final(self).gold@[i] == after_pickup(ppos, old(self).gold@[i])
                &&& forall|i: int| 0 <= i < old(self).blue_gold@.len() ==> #[trigger] final(self).blue_gold@[i] == after_pickup(ppos, old(self).blue_gold@[i])
            }),
            final(self).current_floor == old(self).current_floor,
    {
        let ppos = player.pos();
        let ghost g = self.gold@;
        let ghost b = self.blue_gold@;
        let ghost p0 = *player;
        let mut i: usize = 0;
        while i < self.gold.len()
            invariant
                i <= self.gold@.len(),
                self.gold@.len() == g.len(),
                ppos == player_rect(p0.pos.0 as int, p0.pos.1 as int),
                ppos.wf(),
                forall|k: int| 0 <= k < g.len() ==> (#[trigger] g[k]).pos.wf(),
                forall|k: int| 0 <= k < i ==> #[trigger] self.gold@[k] == after_pickup(ppos, g[k]),
                forall|k: int| i <= k < g.len() ==> #[trigger] self.gold@[k] == g[k],
                p0.coins + picked_value(ppos, g) <= u32::MAX,
                *player == (Player { coins: (p0.coins + picked_value(ppos, g.take(i as int))) as u32, ..p0 }),
                self.blue_gold@ == b,
                self.blue_gold_count == old(self).blue_gold_count,
                self.current_floor == old(self).current_floor,
            decreases g.len() - i,
        {
            assert(g.take(i as int + 1).drop_last() =~= g.take(i as int));
            proof {
                lemma_picked_prefix(ppos, g, i as int + 1);
                lemma_picked_bounds(ppos, g.take(i as int));
            }
            let mut coin = self.gold[i];
            assert(coin == g[i as int]);
            if check_collision_touching(&ppos, &coin.pos) {
                if !coin.collected() {
                    coin.set_collected();
                    player.add_coins(coin.get_gold());
                }
            }
            self.gold.set(i, coin);
            i += 1;
        }
        assert(g.take(g.len() as int) =~= g);
        let mut j: usize = 0;
        while j < self.blue_gold.len()
            invariant
                j <= self.blue_gold@.len(),
                self.blue_gold@.len() == b.len(),
                ppos == player_rect(p0.pos.0 as int, p0.pos.1 as int),
                ppos.wf(),
                forall|k: int| 0 <= k < b.len() ==> (#[trigger] b[k]).pos.wf(),
                forall|k: int| 0 <= k < j ==> #[trigger] self.blue_gold@[k] == after_pickup(ppos, b[k]),
                forall|k: int| j <= k < b.len() ==> #[trigger] self.blue_gold@[k] == b[k],
                old(self).blue_gold_count + picked_count(ppos, b) <= u32::MAX,
                self.blue_gold_count == old(self).blue_gold_count + picked_count(ppos, b.take(j as int)),
                self.gold@.len() == g.len(),
                forall|k: int| 0 <= k < g.len() ==> #[trigger] self.gold@[k] == after_pickup(ppos, g[k]),
                self.current_floor == old(self).current_floor,
            decreases b.len() - j,
        {
            assert(b.take(j as int + 1).drop_last() =~= b.take(j as int));
            proof {
                lemma_picked_prefix(ppos, b, j as int + 1);
                lemma_picked_bounds(ppos, b.take(j as int));
            }
            let mut coin = self.blue_gold[j];
            if check_collision_touching(&ppos, &coin.pos) {
                if !coin.collected() {
                    coin.set_collected();
                    self.blue_gold_count += 1;
                }
            }
            self.blue_gold.set(j, coin);
            j += 1;
        }
        assert(b.take(b.len() as int) =~= b);
    }

    /// Whether the player stands on a power it can absorb (see
    /// `offers_power`).
    pub fn can_pickup(&self, player: &Player) -> (r: bool)
        requires
            player_rect(player.pos.0 as int, player.pos.1 as int).wf(),
            forall|i: int| 0 <= i < self.dropped_powers@.len() ==> (#[trigger] self.dropped_powers@[i]).pos.wf(),
        ensures
            r == exists|i: int| 0 <= i < self.dropped_powers@.len()
                && offers_power(player_rect(player.pos.0 as int, player.pos.1 as int), #[trigger] self.dropped_powers@[i]),
    {
        let ppos = player.pos();
        let mut i: usize = 0;
        while i < self.dropped_powers.len()
            invariant
                i <= self.dropped_powers@.len(),
                ppos == player_rect(player.pos.0 as int, player.pos.1 as int),
                ppos.wf(),
                forall|k: int| 0 <= k < self.dropped_powers@.len() ==> (#[trigger] self.dropped_powers@[k]).pos.wf(),
                forall|k: int| 0 <= k < i ==> !offers_power(ppos, #[trigger] self.dropped_powers@[k]),
            decreases self.dropped_powers@.len() - i,
        {
            let d = &self.dropped_powers[i];
            if check_collision_touching(&ppos, &d.pos) && !d.collected() && d.power_type != PowerType::NoPower {
                return true;
            }
            i += 1;
        }
        false
    }
}

/// The sums over a prefix one longer.
pub proof fn lemma_picked_prefix(ppos: Rect, cs: Seq<Gold>, n: int)
    requires
        0 < n <= cs.len(),
    ensures
        picked_value(ppos, cs.take(n)) == picked_value(ppos, cs.take(n - 1)) + if picks(ppos, cs[n - 1]) { cs[n - 1].amount as int } else { 0 },
        picked_count(ppos, cs.take(n)) == picked_count(ppos, cs.take(n - 1)) + if picks(ppos, cs[n - 1]) { 1int } else { 0 },
        picked_value(ppos, cs.take(n)) <= picked_value(ppos, cs),
        picked_count(ppos, cs.take(n)) <= picked_count(ppos, cs),
    decreases cs.len() - n,
{
    assert(cs.take(n).drop_last() =~= cs.take(n - 1));
    if n < cs.len() {
        lemma_picked_prefix(ppos, cs, n + 1);
    } else {
        assert(cs.take(n) =~= cs);
    }
}

/// A projectile after the frame's move: active ones step by the whole
/// pixels of their velocity.
pub open spec fn flown(p: Projectile) -> Projectile {
    if p.is_active {
        Projectile { pos: ((p.pos.0 + whole_pixels(p.vel.0 as int)) as i32, (p.pos.1 + whole_pixels(p.vel.1 as int)) as i32), ..p }
    } else {
        p
    }
}

/// Room for a projectile's step.
pub open spec fn can_fly(p: Projectile) -> bool {
    crate::player::small(p.pos.0 as int) && crate::player::small(p.pos.1 as int) && vel_ok(p.vel)
}

fn fly_all(ps: &mut Vec<Projectile>)
    requires
        forall|i: int| 0 <= i < old(ps)@.len() ==> can_fly(#[trigger] old(ps)@[i]),
    ensures
        final(ps)@.len() == old(ps)@.len(),
        forall|i: int| 0 <= i < old(ps)@.len() ==> #[trigger] final(ps)@[i] == flown(old(ps)@[i]),
{
    let ghost o = ps@;
    let mut i: usize = 0;
    while i < ps.len()
        invariant
            i <= ps@.len(),
            ps@.len() == o.len(),
            forall|k: int| 0 <= k < o.len() ==> can_fly(#[trigger] o[k]),
            forall|k: int| 0 <= k < i ==> #[trigger] ps@[k] == flown(o[k]),
            forall|k: int| i <= k < o.len() ==> #[trigger] ps@[k] == o[k],
        decreases o.len() - i,
    {
        let mut p = ps[i];
        if p.is_active() {
            p.update_pos();
        }
        ps.set(i, p);
        i += 1;
    }
}

/// Moves every active projectile, the player's and the enemies' (see
/// `flown`).
pub fn update_projectiles(player_projectiles: &mut Vec<Projectile>, enemy_projectiles: &mut Vec<Projectile>)
    requires
        forall|i: int| 0 <= i < old(player_projectiles)@.len() ==> can_fly(#[trigger] old(player_projectiles)@[i]),
        forall|i: int| 0 <= i < old(enemy_projectiles)@.len() ==> can_fly(#[trigger] old(enemy_projectiles)@[i]),
    ensures
        final(player_projectiles)@.len() == old(player_projectiles)@.len(),
        forall|i: int| 0 <= i < old(player_projectiles)@.len() ==> #[trigger] final(player_projectiles)@[i] == flown(old(player_projectiles)@[i]),
        final(enemy_projectiles)@.len() == old(enemy_projectiles)@.len(),
        forall|i: int| 0 <= i < old(enemy_projectiles)@.len() ==> #[trigger] final(enemy_projectiles)@[i] == flown(old(enemy_projectiles)@[i]),
{
    fly_all(player_projectiles);
    fly_all(enemy_projectiles);
}

/// The cell of an animation sheet showing frame `x` of a sheet with `col`
/// cells per row: row `x / col`, column `x % col`, when that row exists;
/// otherwise the top-left cell.
pub open spec fn anim_cell(x: int, row: int, col: int, size: int) -> (int, int) {
    if x / col < row { ((x % col) * size, (x / col) * size) } else { (0, 0) }
}

/// The animation cell `start_time` ticks into an animation that shows
/// each frame for `frames` ticks (see `anim_cell`).
pub fn display_animation(start_time: u128, frames: i32, row: i32, col: i32, size: u32) -> (r: Rect)
    requires
        frames > 0,
        start_time / (frames as u128) <= i32::MAX,
        row >= 0,
        col > 0,
        col * size <= i32::MAX,
        row * size <= i32::MAX,
    ensures
        ({
            let c = anim_cell((start_time / (frames as u128)) as int, row as int, col as int, size as int);
            r == Rect::spec_new(c.0, c.1, size as int, size as int)
        }),
{
    let x: i32 = (start_time / frames as u128) as i32;
    let mut src_x: i32 = 0;
    let mut src_y: i32 = 0;
    let ghost xi = x as int;
    let ghost ci = col as int;
    assert(xi == (start_time / (frames as u128)) as int);
    proof {
        vstd::arithmetic::div_mod::lemma_fundamental_div_mod(xi, ci);
        vstd::arithmetic::div_mod::lemma_mod_bound(xi, ci);
    }
    let mut i: i32 = 0;
    while i < row
        invariant
            0 <= i <= row,
            x >= 0,
            col > 0,
            col * size <= i32::MAX,
            row * size <= i32::MAX,
            xi == x,
            xi == (start_time / (frames as u128)) as int,
            ci == col,
            xi == ci * (xi / ci) + xi % ci,
            0 <= xi % ci < ci,
            xi >= ci * i,
            src_x == 0 && src_y == 0,
        decreases row - i,
    {
        let c64: i64 = col as i64;
        let i64v: i64 = i as i64;
        assert(0 <= c64 * (i64v + 1) <= 0x4000_0000_0000_0000) by (nonlinear_arith)
            requires 0 < c64 <= 0x8000_0000, 0 <= i64v < 0x8000_0000;
        let reach: i64 = c64 * (i64v + 1);
        if (x as i64) < reach {
            assert(xi / ci == i as int) by (nonlinear_arith)
                requires xi == ci * (xi / ci) + xi % ci, 0 <= xi % ci < ci, xi >= ci * i, xi < ci * (i + 1), ci > 0;
            assert(xi - i * ci == xi % ci) by (nonlinear_arith)
                requires xi == ci * (xi / ci) + xi % ci, xi / ci == i as int;
            let z: i64 = size as i64;
            assert(0 <= (xi % ci) * z <= ci * z) by (nonlinear_arith)
                requires 0 <= xi % ci < ci, z >= 0;
            assert(0 <= i * z <= row * z) by (nonlinear_arith)
                requires 0 <= i <= row, z >= 0;
            assert(0 <= c64 * i64v <= x) by (nonlinear_arith)
                requires xi >= ci * i, ci == c64, i64v == i, xi == x, c64 > 0, i64v >= 0;
            let rem: i64 = x as i64 - c64 * i64v;
            assert(rem == xi % ci);
            src_x = (rem * z) as i32;
            src_y = (i64v * z) as i32;
            assert(src_x == (xi % ci) * size && src_y == (xi / ci) * size);
            assert(xi / ci < row);
            assert(anim_cell(xi, row as int, col as int, size as int) == ((xi % ci) * size, (xi / ci) * size));
            let r = Rect::new(src_x, src_y, size, size);
            assert(r == Rect::spec_new(anim_cell(xi, row as int, col as int, size as int).0, anim_cell(xi, row as int, col as int, size as int).1, size as int, size as int));
            return r;
        }
        assert(xi >= ci * (i + 1)) by (nonlinear_arith)
            requires xi >= reach, reach == ci * (i + 1);
        i += 1;
    }
    assert(xi / ci >= row) by (nonlinear_arith)
        requires xi >= ci * row, xi == ci * (xi / ci) + xi % ci, 0 <= xi % ci < ci, ci > 0;
    Rect::new(src_x, src_y, size, size)
}


/// The damage a projectile dealing `dmg` does to an enemy of kind `t`: a
/// third to the boss, half to a skeleton, all of it to the others.
pub open spec fn damage_to(t: EnemyType, dmg: int) -> int {
    match t {
        EnemyType::Boss => dmg / 3,
        EnemyType::Skeleton => dmg / 2,
        _ => dmg,
    }
}

pub fn damage_against(t: EnemyType, dmg: i32) -> (r: i32)
    requires
        dmg >= 0,
    ensures
        r == damage_to(t, dmg as int),
{
    match t {
        EnemyType::Boss => dmg / 3,
        EnemyType::Skeleton => dmg / 2,
        _ => dmg,
    }
}

} // verus!
