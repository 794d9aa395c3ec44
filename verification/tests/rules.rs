use slime_rampage::collision::{sort_by_dist, CollisionDecider};
use slime_rampage::combat::{resolve_hits, shots_on_crates};
use slime_rampage::crateobj::Crate;
use slime_rampage::enemy::{Enemy, EnemyType};
use slime_rampage::gamedata::{CrateType, GameData, PowerType, CENTER_H, CENTER_W};
use slime_rampage::input::{apply_inputs, Keys};
use slime_rampage::map::{zero_grid, GameMap};
use slime_rampage::player::{Direction, Player};
use slime_rampage::power::Power;
use slime_rampage::projectile::{Projectile, ProjectileType};
use slime_rampage::rect::Rect;
use slime_rampage::room::create_new_map;
use slime_rampage::save::parse_blue_gold;
use slime_rampage::ui::{HudStatus, UI};
use slime_rampage::weapon::{Weapon, WeaponType};

fn no_keys() -> Keys {
    Keys { w: false, a: false, s: false, d: false, space: false, e: false, mouse_left: false, mouse_x: 0, mouse_y: 0 }
}

fn hud() -> HudStatus {
    HudStatus {
        can_pickup: false,
        can_pickup_shop: false,
        can_pickup_weapon: false,
        shop_price: 0,
        god_mode: false,
        weapon_type: WeaponType::Sword,
        power_type: PowerType::NoPower,
    }
}

#[test]
fn mana_pips_fill_up_to_four() {
    let ui = UI::new(Rect::new(0, 0, 76, 76));
    let map = GameMap::new(1);
    let mut p = Player::new((0, 0), 0);
    for (mana, pip) in [(0, 0), (2, 64), (4, 128), (7, 128), (11, 128), (-3, 0)] {
        p.mana = mana;
        let f = ui.update_ui(&p, &map, &hud(), 0, 1);
        let m = f.draws.iter().find(|d| d.sprite == slime_rampage::ui::UiSprite::Mana).unwrap();
        assert_eq!(m.src.x, pip);
    }
}

#[test]
fn shots_keep_the_sign_of_their_aim() {
    let mut p = Player::new((0, 0), 0);
    let shot = p.fire(CENTER_W + 32 + 1, CENTER_H + 32 + 1000, 100, ProjectileType::Bullet, 10);
    assert!(shot.vel.0 > 0);
    assert!(shot.vel.1 > 0);
    let shot = p.fire(CENTER_W + 32 - 1, CENTER_H + 32 - 1000, 100, ProjectileType::Bullet, 10);
    assert!(shot.vel.0 < 0);
    assert!(shot.vel.1 < 0);
    let shot = p.fire(CENTER_W + 32, CENTER_H + 32 + 50, 100, ProjectileType::Bullet, 10);
    assert_eq!(shot.vel, (0, 300));

    let mut e = Enemy::new(Rect::new(0, 0, 51, 51), EnemyType::Ranged, 0, 0);
    let mut shots: Vec<Projectile> = Vec::new();
    e.attack_with_roll(&mut shots, 1, 500, 100, 10_000, 1);
    assert_eq!(shots.len(), 1);
    assert_eq!(shots[0].vel, (1, 99));
}

#[test]
fn clearing_a_floor_keeps_its_bonus() {
    let mut g = GameData::new_with_rooms(10, 0, 0);
    g.current_floor = 3;
    assert_eq!(g.finish_floor(), 13);
    assert_eq!(g.blue_gold_count, 13);
    assert_eq!(g.current_floor, 4);
}

#[test]
fn keys_move_attack_and_shoot() {
    let mut g = GameData::new_with_rooms(0, 0, 0);
    let mut p = Player::new((0, 0), 0);
    let mut power = Power::new(Rect::new(0, 0, 64, 64), PowerType::Fireball);
    let mut k = no_keys();
    k.w = true;
    k.d = true;
    apply_inputs(&mut g, &mut p, &mut power, k, 300, 1000);
    assert_eq!(p.delta, (1, -1));
    assert!(p.facing_right);
    k = no_keys();
    k.a = true;
    k.d = true;
    apply_inputs(&mut g, &mut p, &mut power, k, 300, 1000);
    assert_eq!(p.delta, (0, 0));
    assert!(p.facing_right);
    k = no_keys();
    k.a = true;
    k.space = true;
    apply_inputs(&mut g, &mut p, &mut power, k, 300, 1000);
    assert!(!p.facing_right);
    assert!(p.is_attacking);
    assert_eq!(p.attack_time, 1000);
    let mana = p.mana;
    k = no_keys();
    k.mouse_left = true;
    k.mouse_x = CENTER_W + 32 + 100;
    k.mouse_y = CENTER_H + 32;
    apply_inputs(&mut g, &mut p, &mut power, k, 100, 2000);
    assert_eq!(g.player_projectiles.len(), 1);
    assert_eq!(g.player_projectiles[0].p_type, ProjectileType::Fireball);
    assert_eq!(g.player_projectiles[0].vel, (300, 0));
    assert_eq!(p.mana, mana - 1);
    assert!(p.is_firing);
    // a shot cooling down fires nothing
    apply_inputs(&mut g, &mut p, &mut power, k, 100, 2001);
    assert_eq!(g.player_projectiles.len(), 1);
}

#[test]
fn e_absorbs_the_first_power_touched() {
    let mut g = GameData::new_with_rooms(0, 0, 0);
    let mut p = Player::new((100, 100), 0);
    let mut power = Power::new(Rect::new(0, 0, 64, 64), PowerType::NoPower);
    g.dropped_powers.push(Power::new(Rect::new(500, 500, 64, 64), PowerType::Rock));
    g.dropped_powers.push(Power::new(Rect::new(110, 110, 64, 64), PowerType::Shield));
    g.dropped_powers.push(Power::new(Rect::new(100, 100, 64, 64), PowerType::Fireball));
    let mut k = no_keys();
    apply_inputs(&mut g, &mut p, &mut power, k, 300, 0);
    assert_eq!(power.power_type, PowerType::NoPower);
    k.e = true;
    apply_inputs(&mut g, &mut p, &mut power, k, 300, 0);
    assert_eq!(power.power_type, PowerType::Shield);
    assert!(g.dropped_powers[1].collected);
    assert!(!g.dropped_powers[2].collected);
    apply_inputs(&mut g, &mut p, &mut power, k, 300, 0);
    assert_eq!(power.power_type, PowerType::Fireball);
    assert!(g.dropped_powers[2].collected);
    assert!(!g.dropped_powers[0].collected);
}

#[test]
fn hits_of_a_frame() {
    let mut g = GameData::new_with_rooms(0, 0, 0);
    let mut p = Player::new((0, 0), 0);
    p.attack(10_000);
    let weapon = Weapon::new(Rect::new(0, 0, 64, 64), WeaponType::Sword);
    // one enemy in the sword's reach, one far away that a shot reaches
    let near = Enemy::new(Rect::new(-70, 0, 51, 51), EnemyType::Melee, 0, 0);
    let far = Enemy::new(Rect::new(2000, 2000, 51, 51), EnemyType::Melee, 1, 0);
    let hp_near = near.hp;
    let hp_far = far.hp;
    let mut enemies = vec![near, far];
    g.player_projectiles.push(Projectile::new(Rect::new(2000, 2000, 32, 32), false, (500, 0), ProjectileType::Bullet, 0));
    g.player_projectiles.push(Projectile::new(Rect::new(9000, 9000, 32, 32), false, (500, 0), ProjectileType::Bullet, 0));
    g.enemy_projectiles.push(Projectile::new(Rect::new(10, 10, 32, 32), false, (0, 0), ProjectileType::Bullet, 0));
    g.enemy_projectiles.push(Projectile::new(Rect::new(5000, 10, 32, 32), false, (0, 0), ProjectileType::Bullet, 0));
    p.invincible = false;
    let hp = p.hp;
    resolve_hits(&mut g, &mut p, &mut enemies, &weapon, 10_000);
    assert_eq!(enemies[0].hp, hp_near - weapon.damage);
    assert!(enemies[0].is_stunned);
    assert_eq!(enemies[1].hp, hp_far - 5);
    assert_eq!(enemies[1].vel, (500, 0));
    assert!(!g.player_projectiles[0].is_active);
    assert!(g.player_projectiles[1].is_active);
    assert_eq!(p.hp, hp - 5);
    assert_eq!(p.damage_time, 10_000);
    assert!(p.invincible);
    assert!(!g.enemy_projectiles[0].is_active);
    assert!(g.enemy_projectiles[1].is_active);
}

#[test]
fn obstacles_come_out_row_by_row() {
    for _ in 0..20 {
        let mut tiles = vec![(true, 0); 22 * 13];
        let obs = create_new_map((1, 20), (1, 12), &mut tiles);
        for w in obs.windows(2) {
            assert!(w[0] < w[1]);
        }
    }
}

#[test]
fn dead_ends_are_cut_back_and_stay_cut() {
    let mut m = GameMap::new(1);
    // a room of floor with a corridor stub going right from it
    for h in 10..15usize {
        for w in 10..15usize {
            m.map[h * 61 + w] = 1;
        }
    }
    for w in 15..20usize {
        m.map[12 * 61 + w] = 1;
    }
    m.remove_dead_ends();
    for w in 15..20usize {
        assert_eq!(m.map[12 * 61 + w], 0);
    }
    assert_eq!(m.map[12 * 61 + 12], 1);
    let once = m.map.clone();
    m.remove_dead_ends();
    assert_eq!(m.map, once);
}

#[test]
fn mazes_fill_every_odd_cell_and_spare_the_rooms() {
    let mut m = GameMap::new(1);
    m.create_rooms();
    m.numbered_map = m.map.clone();
    let rooms = m.map.clone();
    let _corridors = m.create_maze();
    for h in 0..61usize {
        for w in 0..61usize {
            if h % 2 == 1 && w % 2 == 1 {
                assert_ne!(m.map[h * 61 + w], 0);
            }
            if rooms[h * 61 + w] != 0 {
                assert_eq!(m.map[h * 61 + w], rooms[h * 61 + w]);
            }
        }
    }
    assert!(m.num_rooms >= 1);
}

#[test]
fn enemies_per_room_are_as_drawn() {
    let mut m = GameMap::new(1);
    m.create_rooms();
    m.numbered_map = m.map.clone();
    m.map = zero_grid();
    for i in 0..m.map.len() {
        if m.numbered_map[i] != 0 {
            m.map[i] = 1;
        }
    }
    m.starting_room = 1;
    m.ending_room = 2;
    if m.create_enemies() {
        for r in 1..=m.num_rooms {
            let count = |v: i32| (0..m.map.len()).filter(|&i| m.numbered_map[i] == r && m.enemy_and_object_spawns[i] == v).count();
            if r == 1 || r == 2 {
                assert_eq!(count(1) + count(2) + count(4), 0);
            } else {
                assert!((2..=4).contains(&count(1)));
                assert!(count(2) <= 2);
                assert!((1..=2).contains(&count(4)));
            }
        }
    }
}

#[test]
fn the_nearest_hit_is_first_whatever_the_order_found() {
    let a = vec![
        CollisionDecider::new(Direction::Up, 9),
        CollisionDecider::new(Direction::Left, 2),
        CollisionDecider::new(Direction::Down, 5),
    ];
    let b = vec![a[2], a[0], a[1]];
    let sa = sort_by_dist(&a);
    let sb = sort_by_dist(&b);
    assert_eq!(sa[0].dir, Direction::Left);
    let da: Vec<Direction> = sa.iter().map(|c| c.dir).collect();
    let db: Vec<Direction> = sb.iter().map(|c| c.dir).collect();
    assert_eq!(da, db);
}

#[test]
fn fireballs_blow_up_barrels_and_shots_count_crates() {
    let mut crates = vec![
        Crate::new(Rect::new(100, 100, 64, 64), CrateType::Explosive),
        Crate::new(Rect::new(120, 100, 64, 64), CrateType::Regular),
        Crate::new(Rect::new(900, 900, 64, 64), CrateType::Explosive),
    ];
    let mut shots = vec![
        Projectile::new(Rect::new(110, 110, 32, 32), false, (0, 0), ProjectileType::Fireball, 0),
        Projectile::new(Rect::new(110, 110, 32, 32), false, (0, 0), ProjectileType::Bullet, 0),
    ];
    let shrapnel = shots_on_crates(&mut shots, &mut crates);
    assert!(!crates[0].active);
    assert!(crates[1].active);
    assert!(crates[2].active);
    assert_eq!(shrapnel.len(), 8);
    assert!(shrapnel.iter().all(|s| s.p_type == ProjectileType::Shrapnel && s.is_active));
    assert_eq!(shots[0].bounce_counter, 2);
    // the barrel is gone when the second shot arrives
    assert_eq!(shots[1].bounce_counter, 1);
}

#[test]
fn shields_and_dashes_shoot_nothing() {
    for t in [PowerType::Shield, PowerType::Dash, PowerType::NoPower] {
        let mut g = GameData::new_with_rooms(0, 0, 0);
        let mut p = Player::new((0, 0), 0);
        let mut power = Power::new(Rect::new(0, 0, 64, 64), t);
        let mut k = no_keys();
        k.mouse_left = true;
        k.mouse_x = 900;
        apply_inputs(&mut g, &mut p, &mut power, k, 300, 5000);
        assert!(g.player_projectiles.is_empty());
        assert!(!p.is_firing);
    }
    let mut g = GameData::new_with_rooms(0, 0, 0);
    let mut p = Player::new((0, 0), 0);
    let mut power = Power::new(Rect::new(0, 0, 64, 64), PowerType::Rock);
    let mut k = no_keys();
    k.mouse_left = true;
    k.mouse_x = 900;
    apply_inputs(&mut g, &mut p, &mut power, k, 300, 5000);
    assert_eq!(g.player_projectiles.len(), 1);
    assert_eq!(g.player_projectiles[0].p_type, ProjectileType::Bullet);
}

#[test]
fn wandering_rolls_cover_the_four_directions() {
    let mut seen: Vec<i32> = Vec::new();
    for _ in 0..200 {
        let r = Enemy::wander_roll();
        assert!((1..5).contains(&r));
        if !seen.contains(&r) {
            seen.push(r);
        }
    }
    assert!(seen.len() > 1);
}

#[test]
fn shots_next_to_the_aim_keep_their_speed() {
    let mut p = Player::new((0, 0), 0);
    // one pixel right of and below the centre, at limit 10: about 21 each way
    let shot = p.fire(CENTER_W + 32 + 1, CENTER_H + 32 + 1, 10, ProjectileType::Bullet, 10);
    assert_eq!(shot.vel, (21, 21));
    let mut e = Enemy::new(Rect::new(0, 0, 51, 51), EnemyType::Ranged, 0, 0);
    let mut shots: Vec<Projectile> = Vec::new();
    e.attack_with_roll(&mut shots, 1, 1, 10, 10_000, 1);
    assert_eq!(shots[0].vel, (7, 7));
}

#[test]
fn saved_blue_gold_is_read_as_a_u32() {
    assert_eq!(parse_blue_gold(&b"1234".to_vec()), Some(1234));
    assert_eq!(parse_blue_gold(&b"+7".to_vec()), Some(7));
    assert_eq!(parse_blue_gold(&b"0".to_vec()), Some(0));
    assert_eq!(parse_blue_gold(&b"4294967295".to_vec()), Some(4294967295));
    assert_eq!(parse_blue_gold(&b"4294967296".to_vec()), None);
    assert_eq!(parse_blue_gold(&b"".to_vec()), None);
    assert_eq!(parse_blue_gold(&b"+".to_vec()), None);
    assert_eq!(parse_blue_gold(&b"12\n".to_vec()), None);
    assert_eq!(parse_blue_gold(&b"-3".to_vec()), None);
}
