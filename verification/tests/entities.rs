use slime_rampage::collision::{distance, isqrt, resolve_col_clamps, sort_by_dist, Clamp, CollisionDecider};
use slime_rampage::crateobj::{Crate, EXPLODE_SPEED};
use slime_rampage::enemy::{Enemy, EnemyType};
use slime_rampage::gamedata::{check_collision, check_collision_touching, CrateType, GameData, Modifier, ModifierType, PowerType};
use slime_rampage::gold::Gold;
use slime_rampage::map::zero_grid;
use slime_rampage::player::{Direction, Player};
use slime_rampage::power::Power;
use slime_rampage::projectile::{pixels_of, Projectile, ProjectileType};
use slime_rampage::rect::{Point, Rect};
use slime_rampage::weapon::{Weapon, WeaponType};

fn grid_with_wall(h: usize, w: usize) -> Vec<i32> {
    let mut g = zero_grid();
    g[h * 61 + w] = 2;
    g
}

#[test]
fn weapon_stats_per_type() {
    let pos = Rect::new(0, 0, 64, 64);
    let s = Weapon::new(pos, WeaponType::Sword);
    assert_eq!((s.damage, s.attack_cooldown, s.attack_time, s.attack_length), (3, 300, 400, 76));
    let sp = Weapon::new(pos, WeaponType::Spear);
    assert_eq!((sp.damage, sp.attack_cooldown, sp.attack_time, sp.attack_length), (6, 800, 800, 102));
    let d = Weapon::new(pos, WeaponType::Dagger);
    assert_eq!((d.damage, d.attack_cooldown, d.attack_time, d.attack_length), (2, 150, 200, 38));
    let n = Weapon::new(pos, WeaponType::NoWeapon);
    assert_eq!((n.damage, n.attack_cooldown, n.attack_time, n.attack_length), (2, 300, 400, 76));
}

#[test]
fn switching_weapon_type_retunes() {
    let mut w = Weapon::new(Rect::new(0, 0, 64, 64), WeaponType::Spear);
    w.set_weapon_type(WeaponType::Dagger);
    assert_eq!((w.damage, w.attack_cooldown, w.attack_time, w.attack_length), (2, 150, 200, 25));
    assert_eq!(w.weapon_type, WeaponType::Spear);
    w.set_weapon_type(WeaponType::Spear);
    assert_eq!((w.damage, w.attack_cooldown, w.attack_time, w.attack_length), (4, 800, 200, 102));
}

#[test]
fn power_stats_per_type() {
    let pos = Rect::new(5, 6, 64, 64);
    let table = [
        (PowerType::Rock, 8, 4),
        (PowerType::Fireball, 5, 3),
        (PowerType::Slimeball, 3, 2),
        (PowerType::Shield, 0, 4),
        (PowerType::Dash, 2, 3),
        (PowerType::NoPower, 2, 3),
    ];
    for (t, dmg, mana) in table {
        let mut p = Power::new(pos, t);
        assert_eq!((p.damage, p.mana_cost), (dmg, mana));
        assert!(!p.collected());
        p.set_collected();
        assert!(p.collected());
        assert_eq!(*p.power_type(), t);
        assert_eq!((p.x(), p.y()), (5, 6));
    }
}

#[test]
fn modifier_values_per_hat() {
    let h = Modifier::new(ModifierType::Heavy);
    assert_eq!((h.health, h.mana_restore_rate, h.max_mana, h.speed_delta_hundredths), (10, -600, 3, -20));
    let f = Modifier::new(ModifierType::Fast);
    assert_eq!((f.health, f.mana_restore_rate, f.max_mana, f.speed_delta_hundredths), (-10, 500, 2, 20));
    let g = Modifier::new(ModifierType::Healthy);
    assert_eq!((g.health, g.mana_restore_rate, g.max_mana, g.speed_delta_hundredths), (20, -400, 1, -10));
    let n = Modifier::new(ModifierType::NoModifier);
    assert_eq!((n.health, n.max_mana, n.weapon, n.power), (0, 0, WeaponType::NoWeapon, PowerType::NoPower));
}

#[test]
fn gold_is_drawn_relative_to_the_player() {
    let mut coin = Gold::new(Rect::new(200, 300, 64, 64));
    assert_eq!(coin.get_gold(), 1);
    assert!(!coin.collected());
    let player = Player::new((100, 50), 0);
    let r = coin.offset_pos(&player);
    assert_eq!((r.x, r.y, r.w, r.h), (708, 578, 64, 64));
    coin.set_collected();
    assert!(coin.collected());
}

#[test]
fn rect_sizes_and_positions_are_clamped() {
    let r = Rect::new(2_000_000_000, -2_000_000_000, 0, 4_000_000_000);
    assert_eq!((r.x, r.y, r.w, r.h), (1073741823, -1073741824, 1, 1073741823));
    let c = Rect::new(10, 20, 31, 40).center();
    assert_eq!((c.x, c.y), (25, 40));
}

#[test]
fn collisions_strict_and_touching() {
    let a = Rect::new(0, 0, 10, 10);
    let b = Rect::new(10, 0, 10, 10);
    assert!(!check_collision(&a, &b));
    assert!(check_collision_touching(&a, &b));
    assert!(check_collision_touching(&b, &a));
    let c = Rect::new(5, 5, 10, 10);
    assert!(check_collision(&a, &c) && check_collision(&c, &a));
    assert!(GameData::check_collision(&a, &c));
}

#[test]
fn square_roots_and_distances() {
    assert_eq!(isqrt(24), 4);
    assert_eq!(isqrt(25), 5);
    assert_eq!(isqrt(0), 0);
    assert_eq!(distance(Point::new(0, 0), Point::new(3, 4)), 5);
    assert_eq!(distance(Point::new(0, 0), Point::new(-1_073_741_824, -1_073_741_824)), 1_518_500_249);
}

#[test]
fn hits_are_sorted_nearest_first_and_stably() {
    let hits = vec![
        CollisionDecider::new(Direction::Up, 9),
        CollisionDecider::new(Direction::Left, 3),
        CollisionDecider::new(Direction::Right, 9),
        CollisionDecider::new(Direction::Down, 1),
    ];
    let sorted = sort_by_dist(&hits);
    let dirs: Vec<Direction> = sorted.iter().map(|c| c.dir).collect();
    assert_eq!(dirs, vec![Direction::Down, Direction::Left, Direction::Up, Direction::Right]);
    for i in 1..sorted.len() {
        assert!(sorted[i - 1].dist <= sorted[i].dist);
    }
}

#[test]
fn wall_limits_from_hits() {
    let hits = vec![
        CollisionDecider::new(Direction::Left, 1),
        CollisionDecider::new(Direction::Up, 2),
        CollisionDecider::new(Direction::Down, 3),
    ];
    assert_eq!(resolve_col_clamps(&hits), vec![Clamp::XNonNeg, Clamp::YNonNeg]);
    let one = vec![CollisionDecider::new(Direction::Right, 4)];
    assert_eq!(resolve_col_clamps(&one), vec![Clamp::XNonPos]);
    assert_eq!(resolve_col_clamps(&vec![]), vec![]);
}

#[test]
fn projectiles_move_by_whole_pixels() {
    assert_eq!(pixels_of(250), 2);
    assert_eq!(pixels_of(-250), -2);
    assert_eq!(pixels_of(99), 0);
    let mut p = Projectile::new(Rect::new(10, 10, 42, 42), true, (250, -250), ProjectileType::Bullet, 0);
    assert_eq!(p.damage, 5);
    p.update_pos();
    assert_eq!((p.x(), p.y()), (12, 8));
    let f = Projectile::new(Rect::new(0, 0, 42, 42), true, (0, 0), ProjectileType::Fireball, 3);
    assert_eq!((f.damage, f.elapsed), (10, 3));
    assert_eq!(Projectile::new(Rect::new(0, 0, 1, 1), false, (0, 0), ProjectileType::Shield, 0).damage, 0);
}

#[test]
fn projectiles_bounce_back_and_count() {
    let mut p = Projectile::new(Rect::new(0, 0, 42, 42), true, (300, -400), ProjectileType::Bullet, 0);
    p.resolve_col(&vec![CollisionDecider::new(Direction::Right, 7), CollisionDecider::new(Direction::Up, 2)]);
    assert_eq!((p.x_vel(), p.y_vel(), p.get_bounce()), (300, 400, 1));
    // moving away from the nearest hit: nothing changes
    p.resolve_col(&vec![CollisionDecider::new(Direction::Up, 2)]);
    assert_eq!((p.x_vel(), p.y_vel(), p.get_bounce()), (300, 400, 1));
}

#[test]
fn projectiles_stop_after_their_bounces() {
    let map = zero_grid();
    let mut fire = Projectile::new(Rect::new(0, 0, 42, 42), true, (100, 0), ProjectileType::Fireball, 0);
    fire.check_bounce(&map);
    assert!(fire.is_active());
    fire.inc_bounce();
    fire.check_bounce(&map);
    assert!(!fire.is_active());
    let mut b = Projectile::new(Rect::new(0, 0, 42, 42), true, (100, 0), ProjectileType::Bullet, 0);
    for _ in 0..3 {
        b.inc_bounce();
    }
    b.check_bounce(&map);
    assert!(b.is_active());
    b.inc_bounce();
    b.check_bounce(&map);
    assert!(!b.is_active());
}

#[test]
fn walls_turn_projectiles_without_counting() {
    // the tile in view at row 5, column 9 lies at (-32, -8) for a body at (0, 0)
    let map = grid_with_wall(5, 9);
    let mut p = Projectile::new(Rect::new(0, 0, 42, 42), true, (-300, 0), ProjectileType::Bullet, 0);
    p.check_bounce(&map);
    assert_eq!((p.x_vel(), p.get_bounce()), (300, 0));
    assert!(p.is_active());
}

#[test]
fn projectile_screen_positions() {
    let player = Player::new((100, 100), 0);
    let p = Projectile::new(Rect::new(200, 150, 42, 42), true, (0, 0), ProjectileType::Bullet, 0);
    let r = p.set_cam_pos(&player);
    assert_eq!((r.x, r.y, r.w, r.h), (708, 378, 42, 42));
    let l = p.set_cam_pos_large(&player);
    assert_eq!((l.x, l.y, l.w, l.h), (683, 353, 84, 84));
}

#[test]
fn crate_types_and_top_speed() {
    let mut c = Crate::new(Rect::new(0, 0, 60, 60), CrateType::Explosive);
    assert_eq!((c.mass, c.friction, c.max_crate_vel, c.killing_weight), (300, 40, 700, 120));
    let h = Crate::new(Rect::new(0, 0, 62, 62), CrateType::Heavy);
    assert_eq!((h.mass, h.friction, h.max_crate_vel, h.killing_weight), (700, 80, 400, 560));
    let r = Crate::new(Rect::new(0, 0, 40, 40), CrateType::Regular);
    assert_eq!((r.mass, r.friction, r.max_crate_vel, r.killing_weight), (100, 25, 1000, 25));
    c.update_velocity(1000, -50);
    assert_eq!((c.x_vel(), c.y_vel()), (700, -50));
    c.friction();
    assert_eq!((c.x_vel(), c.y_vel()), (660, -10));
    c.friction();
    assert_eq!((c.x_vel(), c.y_vel()), (620, 30));
    c.set_x_vel(-5000);
    assert_eq!(c.x_vel(), -700);
}

#[test]
fn crate_speed_checks() {
    let mut c = Crate::new(Rect::new(0, 0, 40, 40), CrateType::Regular);
    c.set_x_vel(300);
    c.set_y_vel(400);
    assert_eq!(c.get_magnitude(), 500);
    assert!(c.moves_faster_than(499));
    assert!(!c.moves_faster_than(500));
}

#[test]
fn crates_explode_into_eight_balanced_pieces() {
    let mut c = Crate::new(Rect::new(100, 100, 60, 60), CrateType::Explosive);
    let s = c.explode(7);
    assert!(!c.is_active());
    assert_eq!(s.len(), 8);
    assert_eq!((s[0].x(), s[0].y(), s[0].x_vel(), s[0].y_vel(), s[0].angle), (100, 60, 0, -EXPLODE_SPEED, 0));
    assert_eq!((s[3].x(), s[3].y(), s[3].x_vel(), s[3].y_vel(), s[3].angle), (140, 140, 600, 600, 135));
    assert_eq!((s[7].x(), s[7].y(), s[7].angle), (60, 60, 315));
    let (sx, sy) = s.iter().fold((0, 0), |acc, p| (acc.0 + p.x_vel(), acc.1 + p.y_vel()));
    assert_eq!((sx, sy), (0, 0));
    assert!(s.iter().all(|p| p.p_type == ProjectileType::Shrapnel && p.elapsed == 7 && p.damage == 2));
}

#[test]
fn crates_stop_at_walls_and_move() {
    let map = grid_with_wall(5, 9);
    let mut c = Crate::new(Rect::new(0, 0, 40, 40), CrateType::Regular);
    c.set_x_vel(-500);
    c.set_y_vel(250);
    c.update_crates(&map);
    assert_eq!((c.x_vel(), c.y_vel()), (0, 250));
    assert_eq!((c.x(), c.y()), (0, 2));
    let mut free = Crate::new(Rect::new(0, 0, 40, 40), CrateType::Regular);
    free.set_x_vel(-500);
    free.update_crates(&zero_grid());
    assert_eq!(free.x(), -5);
}

#[test]
fn enemy_stats_per_type() {
    let table = [
        (EnemyType::Melee, 500, 15, 2000, 100, 5),
        (EnemyType::Ranged, 250, 10, 1000, 100, 5),
        (EnemyType::Skeleton, 100, 30, 300, 70, 8),
        (EnemyType::Eyeball, 200, 10, 1000, 130, 6),
        (EnemyType::Rock, 250, 20, 500, 70, 5),
        (EnemyType::Boss, 50, 100, 0, 50, 100),
    ];
    for (t, stun, hp, kb, speed, aggro) in table {
        let e = Enemy::new(Rect::new(0, 0, 51, 51), t, 3, 1000);
        assert_eq!((e.stun_time, e.hp, e.knockback_vel, e.speed_delta, e.aggro_range), (stun, hp, kb, speed, aggro));
        assert!(e.alive && e.has_money && e.has_power && e.invincible);
        assert_eq!(e.enemy_number, 3);
    }
}

#[test]
fn enemy_hits_respect_invincibility() {
    let mut e = Enemy::new(Rect::new(0, 0, 51, 51), EnemyType::Melee, 0, 1000);
    e.minus_hp(5, 1200);
    assert_eq!(e.hp, 15);
    e.minus_hp(5, 1600);
    assert_eq!(e.hp, 10);
    assert!(!e.invincible);
    // a second hit within the stun time is ignored
    e.minus_hp(5, 1800);
    assert_eq!(e.hp, 10);
    assert!(e.invincible);
    e.minus_hp(10, 2200);
    assert_eq!(e.hp, 0);
    assert!(!e.is_alive());
}

#[test]
fn enemies_wander_by_roll() {
    let mut e = Enemy::new(Rect::new(0, 0, 51, 51), EnemyType::Melee, 0, 0);
    e.wander(1);
    assert_eq!((e.x_vel(), e.y_vel(), e.facing_right), (100, 0, false));
    e.wander(2);
    assert_eq!((e.x_vel(), e.y_vel()), (0, -100));
    e.wander(3);
    assert_eq!((e.x_vel(), e.y_vel()), (0, 100));
    e.wander(4);
    assert_eq!((e.x_vel(), e.y_vel(), e.facing_right), (-100, 0, true));
    e.wander(9);
    assert_eq!((e.x_vel(), e.y_vel()), (-100, 0));
    e.set_stunned(true);
    e.wander(1);
    assert_eq!((e.x_vel(), e.y_vel()), (-100, 0));
}

#[test]
fn enemies_chase_and_flee() {
    let mut e = Enemy::new(Rect::new(0, 0, 51, 51), EnemyType::Melee, 0, 0);
    e.aggro(300, 400, 500);
    assert_eq!((e.x_vel(), e.y_vel(), e.facing_right), (300, 400, false));
    e.aggro(-300, -400, 500);
    assert_eq!((e.x_vel(), e.y_vel(), e.facing_right), (-300, -400, true));
    let mut r = Enemy::new(Rect::new(0, 0, 51, 51), EnemyType::Ranged, 0, 0);
    r.flee(300, 400, 500);
    assert_eq!((r.x_vel(), r.y_vel(), r.facing_right), (-200, -266, false));
    // on the point itself a chaser keeps going
    e.aggro(0, 0, 500);
    assert_eq!((e.x_vel(), e.y_vel()), (-300, -400));
}

#[test]
fn enemies_are_knocked_back_within_their_speed() {
    let mut e = Enemy::new(Rect::new(0, 0, 51, 51), EnemyType::Melee, 0, 0);
    e.knockback(300, 400, 77);
    assert_eq!((e.x_vel(), e.y_vel()), (-120, -160));
    assert!(e.is_stunned && !e.x_flipped && !e.y_flipped);
    assert_eq!(e.stun_timer, 77);
    let mut s = Enemy::new(Rect::new(0, 0, 51, 51), EnemyType::Skeleton, 0, 0);
    s.set_x_vel(250);
    s.knockback(-300, 0, 5);
    assert_eq!(s.x_vel(), 300);
    assert!(s.x_flipped);
    e.projectile_knockback(20, 30, 99);
    assert_eq!((e.x_vel(), e.y_vel(), e.stun_timer), (-100, -130, 99));
    e.slow_vel(100);
    assert_eq!((e.x_vel(), e.y_vel()), (0, -30));
}

#[test]
fn enemies_drop_their_items_once() {
    let mut e = Enemy::new(Rect::new(12, 34, 51, 51), EnemyType::Melee, 0, 0);
    assert!(e.has_item());
    let none = e.clone().drop_power_with_roll(1);
    assert_eq!(none.power_type, PowerType::NoPower);
    let p = e.drop_power_with_roll(3);
    assert_eq!(p.power_type, PowerType::Fireball);
    assert_eq!((p.x(), p.y()), (12, 34));
    assert!(!e.has_power());
    assert_eq!(e.drop_power_with_roll(3).power_type, PowerType::NoPower);
    let coin = e.drop_coin();
    assert_eq!((coin.x(), coin.y(), coin.get_gold()), (12, 34, 1));
    assert!(!e.has_coin() && !e.has_item());
    let mut eye = Enemy::new(Rect::new(0, 0, 51, 51), EnemyType::Eyeball, 0, 0);
    assert_eq!(eye.drop_power_with_roll(3).power_type, PowerType::Dash);
    let mut boss = Enemy::new(Rect::new(0, 0, 128, 128), EnemyType::Boss, 0, 0);
    assert_eq!(boss.drop_power_with_roll(3).power_type, PowerType::NoPower);
}

#[test]
fn random_power_drops_are_of_the_enemys_kind() {
    for _ in 0..20 {
        let mut e = Enemy::new(Rect::new(0, 0, 51, 51), EnemyType::Skeleton, 0, 0);
        let p = e.drop_power();
        assert!(p.power_type == PowerType::NoPower || p.power_type == PowerType::Shield);
        assert!(!e.has_power());
    }
}

#[test]
fn ranged_enemies_shoot_when_ready() {
    let mut bullets: Vec<Projectile> = Vec::new();
    let mut e = Enemy::new(Rect::new(0, 0, 51, 51), EnemyType::Ranged, 0, 1000);
    e.attack_with_roll(&mut bullets, 100, 0, 300, 2000, 1);
    assert!(bullets.is_empty());
    e.attack_with_roll(&mut bullets, 100, 0, 300, 4000, 10);
    assert!(bullets.is_empty());
    assert!(!e.is_firing);
    e.attack_with_roll(&mut bullets, 100, 0, 300, 4000, 2);
    assert_eq!(bullets.len(), 1);
    assert_eq!((bullets[0].x_vel(), bullets[0].y_vel(), bullets[0].damage), (300, 0, 5));
    assert!(e.is_firing);
    assert_eq!(e.fire_timer, 4000);
    // too far away
    let mut far = Enemy::new(Rect::new(0, 0, 51, 51), EnemyType::Rock, 0, 0);
    far.attack_with_roll(&mut bullets, 600, 0, 300, 9000, 1);
    assert_eq!(bullets.len(), 1);
    // melee enemies never shoot
    let mut m = Enemy::new(Rect::new(0, 0, 51, 51), EnemyType::Melee, 0, 0);
    m.attack_with_roll(&mut bullets, 10, 0, 300, 9000, 1);
    assert_eq!(bullets.len(), 1);
}

#[test]
fn random_attacks_follow_the_rules() {
    let mut bullets: Vec<Projectile> = Vec::new();
    let mut e = Enemy::new(Rect::new(0, 0, 51, 51), EnemyType::Ranged, 0, 0);
    e.check_attack(&mut bullets, 100, 0, 300, 3000);
    assert!(bullets.len() <= 1);
    if bullets.len() == 1 {
        assert!(e.is_firing);
        assert_eq!(e.fire_timer, 3000);
    } else {
        assert!(!e.is_firing);
    }
}

#[test]
fn walls_stop_enemies_and_force_a_turn() {
    let map = grid_with_wall(5, 9);
    let mut e = Enemy::new(Rect::new(0, 0, 51, 51), EnemyType::Melee, 0, 0);
    assert!(e.force_move(&map));
    assert!(!e.force_move(&zero_grid()));
    let rolls = vec![4];
    // the player is far away: the enemy wanders left, into the wall
    let r = e.update_enemy(300, &rolls, 0, (10_000, 0), &map, &vec![], 0);
    assert_eq!((e.x_vel(), e.x()), (0, 0));
    assert_eq!((r.w, r.h), (51, 51));
    let mut free = Enemy::new(Rect::new(0, 0, 51, 51), EnemyType::Melee, 0, 0);
    free.update_enemy(300, &rolls, 0, (10_000, 0), &zero_grid(), &vec![], 0);
    assert_eq!((free.x_vel(), free.x()), (-100, -1));
}

#[test]
fn enemies_chase_the_nearby_player_each_frame() {
    let mut e = Enemy::new(Rect::new(0, 0, 51, 51), EnemyType::Melee, 0, 0);
    let r = e.update_enemy(500, &vec![1], 0, (90, 120), &zero_grid(), &vec![], 0);
    assert_eq!((e.x_vel(), e.y_vel()), (300, 400));
    assert_eq!((e.x(), e.y()), (3, 4));
    assert_eq!((r.x, r.y), (3 + 608 - 90, 4 + 328 - 120));
}

#[test]
fn fast_crates_crush_enemies() {
    let mut e = Enemy::new(Rect::new(0, 0, 51, 51), EnemyType::Melee, 0, 0);
    let mut c = Crate::new(Rect::new(20, 0, 40, 40), CrateType::Regular);
    c.set_x_vel(-200);
    e.update_enemy(300, &vec![9], 0, (10_000, 0), &zero_grid(), &vec![c], 0);
    assert!(!e.is_alive());
    let mut e2 = Enemy::new(Rect::new(0, 0, 51, 51), EnemyType::Melee, 0, 0);
    let slow = Crate::new(Rect::new(20, 0, 40, 40), CrateType::Regular);
    e2.update_enemy(300, &vec![9], 0, (10_000, 0), &zero_grid(), &vec![slow], 0);
    assert!(e2.is_alive());
}

#[test]
fn enemies_squeezed_against_walls() {
    let mut e = Enemy::new(Rect::new(0, 0, 10, 10), EnemyType::Melee, 0, 0);
    let wall = Rect::new(0, -10, 10, 10);
    let c = Rect::new(0, 5, 10, 10);
    assert!(e.got_squished(wall, c, 0, -1));
    assert!(!e.got_squished(Rect::new(100, 100, 10, 10), Rect::new(200, 200, 10, 10), 0, 0));
}

#[test]
fn enemy_screen_size() {
    let e = Enemy::new(Rect::new(0, 0, 128, 128), EnemyType::Boss, 0, 0);
    let r = e.offset_pos((0, 0));
    assert_eq!((r.x, r.y, r.w, r.h), (608, 328, 204, 204));
    assert_eq!(e.radius_from_point((3, 4)), 5);
}

#[test]
fn crate_hits_found_in_any_order_stop_it_alike() {
    let hits = vec![CollisionDecider::new(Direction::Left, 5), CollisionDecider::new(Direction::Up, 9)];
    let swapped = vec![CollisionDecider::new(Direction::Up, 9), CollisionDecider::new(Direction::Left, 5)];
    let mut a = Crate::new(Rect::new(0, 0, 40, 40), CrateType::Regular);
    a.set_x_vel(-300);
    a.set_y_vel(-400);
    let mut b = Crate::new(Rect::new(0, 0, 40, 40), CrateType::Regular);
    b.set_x_vel(-300);
    b.set_y_vel(-400);
    a.resolve_col(&hits);
    b.resolve_col(&swapped);
    assert_eq!((a.x_vel(), a.y_vel()), (b.x_vel(), b.y_vel()));
    assert_eq!((a.x_vel(), a.y_vel()), (0, -400));
}
