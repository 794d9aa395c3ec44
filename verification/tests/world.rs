use slime_rampage::background::Background;
use slime_rampage::collision::CollisionDecider;
use slime_rampage::credits::{credit_scene, menu_credit_scene, next_credit_frame};
use slime_rampage::enemy::{Enemy, EnemyType};
use slime_rampage::game::{display_animation, floor_kind, reached_exit, spawn_at, spawn_entities, spawn_list, starting_point, update_projectiles, FloorKind, Spawn};
use slime_rampage::gamedata::{CrateType, GameData, ModifierType, PowerType};
use slime_rampage::gold::Gold;
use slime_rampage::map::{zero_grid, GameMap};
use slime_rampage::menu::{click_allowed, Menu, MenuAction, MenuState, PlayerType};
use slime_rampage::player::{resist, Direction, Player};
use slime_rampage::power::Power;
use slime_rampage::projectile::{Projectile, ProjectileType};
use slime_rampage::ranged_attack::RangedAttack;
use slime_rampage::rect::Rect;
use slime_rampage::room::{create_new_map, Room};
use slime_rampage::ui::{HelpText, HudStatus, LevelLabel, UiSprite, UI};
use slime_rampage::view::blocking_collisions;
use slime_rampage::weapon::WeaponType;

fn status() -> HudStatus {
    HudStatus {
        can_pickup: false,
        can_pickup_shop: false,
        can_pickup_weapon: false,
        shop_price: 0,
        god_mode: false,
        weapon_type: WeaponType::Sword,
        power_type: PowerType::NoPower,
    }
}

#[test]
fn resistance_pushes_towards_rest() {
    assert_eq!(resist(5, 0), -1);
    assert_eq!(resist(-5, 0), 1);
    assert_eq!(resist(0, 0), 0);
    assert_eq!(resist(5, 2), 2);
}

#[test]
fn steering_without_input_slows_the_player() {
    let mut p = Player::new((0, 0), 0);
    p.vel = (5, -3);
    p.steer(10);
    assert_eq!(p.vel, (4, -2));
    assert_eq!(p.delta, (-1, 1));
    let mut q = Player::new((0, 0), 0);
    q.delta = (4, 0);
    q.steer(3);
    assert_eq!(q.vel, (3, 0));
}

#[test]
fn player_frame_moves_two_pixels_per_unit() {
    let mut p = Player::new((0, 0), 0);
    p.delta = (2, 0);
    p.update_player(&zero_grid(), 10, 0);
    assert_eq!(p.vel, (2, 0));
    assert_eq!(p.pos, (4, 0));
}

#[test]
fn the_player_keeps_to_the_speed_limit() {
    let mut p = Player::new((0, 0), 0);
    p.vel = (9, -9);
    p.delta = (9, -9);
    p.update_player(&zero_grid(), 6, 0);
    assert!(p.vel.0.abs() <= 6 && p.vel.1.abs() <= 6);
}

#[test]
fn walls_stop_the_player() {
    let mut map = zero_grid();
    // a wall in view just left of the player
    map[5 * 61 + 9] = 2;
    let p = Player::new((20, 0), 0);
    let hits = p.wall_collisions(&map);
    assert_eq!(hits, vec![Direction::Left]);
    let mut q = p.clone();
    q.vel = (-3, 2);
    q.resolve_col_further(hits);
    assert_eq!(q.vel, (0, 2));
}

#[test]
fn player_damage_and_protection() {
    let mut p = Player::new((0, 0), 0);
    assert_eq!(p.get_hp(), 30);
    p.minus_hp(5, 10);
    assert_eq!(p.get_hp(), 30);
    p.set_invincible(1000);
    assert!(!p.invincible);
    p.minus_hp(5, 1000);
    assert_eq!(p.get_hp(), 25);
    // within the damage cooldown the player is protected
    p.set_invincible(1500);
    assert!(p.invincible);
    p.minus_hp(5, 1500);
    assert_eq!(p.get_hp(), 25);
    assert!(!p.is_dead());
}

#[test]
fn coins_come_and_go() {
    let mut p = Player::new((0, 0), 0);
    p.add_coins(7);
    assert_eq!(p.get_coins(), 7);
    p.sub_coins(7);
    assert_eq!(p.get_coins(), 0);
}

#[test]
fn mana_is_spent_and_restored() {
    let mut p = Player::new((0, 0), 0);
    // the mouse to the right of the player, level with it
    let shot = p.fire(640 + 300, 360, 200, ProjectileType::Bullet, 100);
    assert_eq!((shot.x(), shot.y(), shot.x_vel(), shot.y_vel()), (0, 0, 600, 0));
    assert_eq!(shot.damage, 5);
    assert_eq!(p.get_mana(), 3);
    assert!(p.is_firing);
    p.restore_mana(500);
    assert_eq!(p.get_mana(), 3);
    p.restore_mana(1000);
    assert_eq!(p.get_mana(), 4);
    p.restore_mana(5000);
    assert_eq!(p.get_mana(), 4);
}

#[test]
fn attacks_wait_for_the_cooldown() {
    let mut p = Player::new((100, 100), 0);
    p.attack(100);
    assert!(!p.is_attacking);
    p.attack(400);
    assert!(p.is_attacking);
    let b = p.get_attack_box();
    assert_eq!((b.x, b.y, b.w, b.h), (24, 100, 76, 64));
    p.facing_right = true;
    p.set_attack_box(100, 100);
    let b = p.get_attack_box();
    assert_eq!((b.x, b.w), (164, 76));
}

#[test]
fn animation_frames_of_the_player() {
    let mut p = Player::new((0, 0), 0);
    p.get_frame_display(0, 10);
    assert_eq!((p.src.x, p.src.y), (0, 0));
    p.get_frame_display(45, 10);
    assert_eq!((p.src.x, p.src.y), (64, 64));
    p.get_frame_display(119, 10);
    assert_eq!((p.src.x, p.src.y), (128, 192));
    p.get_frame_display(500, 10);
    assert_eq!((p.src.x, p.src.y), (0, 0));
}

#[test]
fn side_of_a_hit() {
    let p = Player::new((0, 0), 0);
    let body = Rect::new(0, 0, 32, 32);
    assert_eq!(p.resolve_col(body, body.center(), Rect::new(0, 20, 64, 64)), Direction::Down);
    assert_eq!(p.resolve_col(body, body.center(), Rect::new(20, -10, 64, 64)), Direction::Right);
    assert_eq!(p.resolve_col(body, body.center(), Rect::new(-10, -60, 64, 64)), Direction::Up);
    assert_eq!(p.resolve_col(body, body.center(), Rect::new(-60, -10, 64, 64)), Direction::Left);
}

#[test]
fn blocking_tiles_in_view() {
    let mut map = zero_grid();
    map[5 * 61 + 9] = 5;
    let body = Rect::new(0, 0, 51, 51);
    assert_eq!(blocking_collisions(&map, body, 0, 0, false, 64).len(), 0);
    let hits: Vec<CollisionDecider> = blocking_collisions(&map, body, 0, 0, true, 64);
    assert_eq!(hits.len(), 1);
    assert_eq!(hits[0].dir, Direction::Left);
}

#[test]
fn generated_maps_are_closed_and_connected() {
    for floor in 1..4 {
        let mut m = GameMap::new(floor);
        let complete = m.create_map();
        for i in 0..61usize {
            for j in 0..61usize {
                if i == 0 || j == 0 || i == 60 || j == 60 {
                    assert_ne!(m.map[i * 61 + j], 1);
                }
            }
        }
        if complete {
            let (sw, sh) = m.starting_position;
            let (ew, eh) = m.ending_position;
            assert!((0..61).contains(&sw) && (0..61).contains(&sh));
            assert!((0..61).contains(&ew) && (0..61).contains(&eh));
        }
        for v in m.enemy_and_object_spawns.iter() {
            assert!([0, 1, 2, 3, 4].contains(v));
        }
    }
}

#[test]
fn rooms_have_random_but_bounded_sizes() {
    for _ in 0..10 {
        let r = Room::new();
        assert_eq!(r.num_rooms, 1);
        assert_eq!(r.xwalls.0, 1);
        assert!((19..27).contains(&r.xwalls.1));
        assert!((10..19).contains(&r.ywalls.1));
        assert_eq!(r.xbounds, (64, r.xwalls.1 * 64 - 64));
        assert_eq!(r.tiles.len() as i32, (r.xwalls.1 + 2) * (r.ywalls.1 + 1));
        for &(i, j) in r.obstacles.iter() {
            assert!(i > 1 && j > 1 && i < r.xwalls.1 - 1 && j < r.ywalls.1 - 1);
        }
    }
    let mut tiles = vec![(true, 0); 7 * 6];
    let _obs = create_new_map((1, 5), (1, 5), &mut tiles);
    assert_eq!(tiles[0], (true, 6));
}

#[test]
fn a_run_starts_fresh() {
    let g = GameData::new(12, 99);
    assert!((8..11).contains(&g.rooms.len()));
    assert_eq!((g.blue_gold_count, g.current_floor, g.map_size_w, g.speed_limit), (12, 4, 61, 300));
    let mut h = GameData::new_with_rooms(5, 0, 2);
    assert_eq!(h.rooms.len(), 2);
    h.set_speed_limit(450);
    h.set_accel_rate(7);
    assert_eq!((h.get_speed_limit(), h.get_accel_rate()), (450, 7));
}

#[test]
fn floors_grow_and_reward() {
    assert_eq!(floor_kind(4), FloorKind::Boss);
    assert_eq!(floor_kind(5), FloorKind::Finished);
    assert_eq!(floor_kind(2), FloorKind::Regular);
    let mut g = GameData::new_with_rooms(5, 0, 0);
    g.current_floor = 1;
    assert_eq!(g.finish_floor(), 6);
    assert_eq!((g.current_floor, g.map_size_w, g.map_size_h), (2, 91, 91));
    assert_eq!(g.blue_gold_count, 6);
    assert_eq!(g.finish_floor(), 8);
    assert_eq!(g.blue_gold_count, 8);
    assert_eq!(g.map_size_w, 121);
}

#[test]
fn start_and_exit_positions() {
    let mut m = GameMap::new(1);
    m.starting_position = (10, 20);
    assert_eq!(starting_point(&m), (40, 960));
    m.ending_position = (10, 5);
    let on = Player::new((32, -8), 0);
    assert!(reached_exit(&on, &m));
    let near = Player::new((-19, -8), 0);
    assert!(reached_exit(&near, &m));
    let off = Player::new((-20, -8), 0);
    assert!(!reached_exit(&off, &m));
}

#[test]
fn spawn_codes_bring_entities() {
    match spawn_at(1, 10, 5, 3, 0, 0) {
        Spawn::Foe(e) => {
            assert_eq!(e.enemy_type, EnemyType::Melee);
            assert_eq!((e.pos.x, e.pos.y, e.pos.w), (32, -8, 51));
            assert_eq!(e.enemy_number, 3);
        },
        _ => panic!("an enemy was expected"),
    }
    match spawn_at(7, 0, 0, 0, 0, 0) {
        Spawn::Foe(e) => assert_eq!((e.enemy_type, e.pos.w), (EnemyType::Boss, 128)),
        _ => panic!("the boss was expected"),
    }
    for (roll, kind, side) in [(0usize, CrateType::Heavy, 62u32), (4, CrateType::Explosive, 60), (9, CrateType::Regular, 40)] {
        match spawn_at(3, 1, 1, 0, 0, roll) {
            Spawn::Box(c) => assert_eq!((c.crate_type, c.pos.w), (kind, side)),
            _ => panic!("a crate was expected"),
        }
    }
    assert!(matches!(spawn_at(0, 1, 1, 0, 0, 0), Spawn::Empty));
    assert!(matches!(spawn_at(9, 1, 1, 0, 0, 0), Spawn::Empty));
}

#[test]
fn spawns_are_listed_row_by_row() {
    let mut g = zero_grid();
    g[2 * 61 + 5] = 3;
    g[1 * 61 + 7] = 1;
    g[2 * 61 + 1] = 4;
    assert_eq!(spawn_list(&g), vec![(1, 7, 1), (4, 1, 2), (3, 5, 2)]);
    let mut m = GameMap::new(1);
    m.enemy_and_object_spawns = g;
    let (enemies, rolls, crates) = spawn_entities(&m, 5);
    assert_eq!(enemies.len(), 2);
    assert_eq!((enemies[0].enemy_type, enemies[0].enemy_number), (EnemyType::Melee, 0));
    assert_eq!((enemies[1].enemy_type, enemies[1].enemy_number), (EnemyType::Skeleton, 1));
    assert_eq!(rolls.len(), 2);
    assert!(rolls.iter().all(|r| (1..5).contains(r)));
    assert_eq!(crates.len(), 1);
    assert_eq!((crates[0].pos.x, crates[0].pos.y), (5 * 64 - 608, 2 * 64 - 328));
}

#[test]
fn dead_enemies_drop_their_items_once() {
    let mut g = GameData::new_with_rooms(0, 0, 0);
    let mut dead = Enemy::new(Rect::new(10, 20, 51, 51), EnemyType::Melee, 0, 0);
    dead.die();
    let alive = Enemy::new(Rect::new(0, 0, 51, 51), EnemyType::Ranged, 1, 0);
    let mut boss = Enemy::new(Rect::new(30, 40, 128, 128), EnemyType::Boss, 2, 0);
    boss.die();
    let mut enemies = vec![dead, alive, boss];
    g.drop_items_with(&mut enemies, &vec![3, 3, 3]);
    assert_eq!(g.gold.len(), 1);
    assert_eq!((g.gold[0].x(), g.gold[0].y()), (10, 20));
    assert_eq!(g.blue_gold.len(), 1);
    assert_eq!(g.dropped_powers.len(), 2);
    assert_eq!(g.dropped_powers[0].power_type, PowerType::Fireball);
    assert_eq!(g.dropped_powers[1].power_type, PowerType::NoPower);
    assert!(enemies[1].has_item());
    g.update_drops(&mut enemies);
    assert_eq!((g.gold.len(), g.blue_gold.len(), g.dropped_powers.len()), (1, 1, 2));
}

#[test]
fn coins_are_collected_once() {
    let mut g = GameData::new_with_rooms(3, 0, 0);
    g.gold.push(Gold::new(Rect::new(10, 10, 64, 64)));
    g.gold.push(Gold::new(Rect::new(500, 500, 64, 64)));
    g.blue_gold.push(Gold::new(Rect::new(32, 0, 64, 64)));
    let mut p = Player::new((0, 0), 0);
    g.collect_coins(&mut p);
    assert_eq!(p.get_coins(), 1);
    assert_eq!(g.blue_gold_count, 4);
    assert!(g.gold[0].collected() && !g.gold[1].collected());
    g.collect_coins(&mut p);
    assert_eq!((p.get_coins(), g.blue_gold_count), (1, 4));
}

#[test]
fn powers_on_the_floor_can_be_absorbed() {
    let mut g = GameData::new_with_rooms(0, 0, 0);
    let p = Player::new((0, 0), 0);
    g.dropped_powers.push(Power::new(Rect::new(0, 0, 64, 64), PowerType::NoPower));
    assert!(!g.can_pickup(&p));
    let mut taken = Power::new(Rect::new(0, 0, 64, 64), PowerType::Fireball);
    taken.set_collected();
    g.dropped_powers.push(taken);
    assert!(!g.can_pickup(&p));
    g.dropped_powers.push(Power::new(Rect::new(32, 32, 64, 64), PowerType::Shield));
    assert!(g.can_pickup(&p));
}

#[test]
fn active_projectiles_fly() {
    let mut mine = vec![Projectile::new(Rect::new(0, 0, 42, 42), true, (300, 0), ProjectileType::Bullet, 0)];
    let mut dead = Projectile::new(Rect::new(0, 0, 42, 42), true, (300, 0), ProjectileType::Bullet, 0);
    dead.die();
    let mut theirs = vec![dead];
    update_projectiles(&mut mine, &mut theirs);
    assert_eq!(mine[0].x(), 3);
    assert_eq!(theirs[0].x(), 0);
}

#[test]
fn animation_cells() {
    let r = display_animation(20, 4, 6, 6, 64);
    assert_eq!((r.x, r.y, r.w), (320, 0, 64));
    let r = display_animation(28, 4, 6, 6, 64);
    assert_eq!((r.x, r.y), (64, 64));
    let r = display_animation(160, 4, 6, 6, 64);
    assert_eq!((r.x, r.y), (0, 0));
}

#[test]
fn menu_title_and_classes() {
    let mut m = Menu::new(0, b"fff".to_vec());
    assert_eq!(m.click(10, 10), MenuAction::Nothing);
    assert_eq!(m.state, MenuState::Title);
    m.click(200, 380);
    assert_eq!(m.state, MenuState::ClassSelection);
    m.click(500, 300);
    assert_eq!((m.state, m.class), (MenuState::Play, PlayerType::Warrior));
    let mut c = Menu::new(0, b"fff".to_vec());
    assert_eq!(c.click(300, 500), MenuAction::StartCredits);
    assert_eq!(c.state, MenuState::Credits);
    c.click(1, 1);
    assert_eq!(c.state, MenuState::Title);
    assert_eq!(c.click(800, 500), MenuAction::Quit);
}

#[test]
fn the_hat_store() {
    let mut m = Menu::new(25, b"fff".to_vec());
    m.click(800, 380);
    assert_eq!(m.state, MenuState::Store);
    assert_eq!(m.click(250, 550), MenuAction::SaveHats);
    assert_eq!(m.blue_gold_count, 15);
    assert_eq!(m.hats, b"tff".to_vec());
    assert!(m.owns_hat(0));
    m.click(250, 550);
    assert_eq!(m.modifier_type, ModifierType::Heavy);
    m.click(250, 550);
    assert_eq!(m.modifier_type, ModifierType::NoModifier);
    m.click(1000, 550);
    assert_eq!((m.blue_gold_count, m.hats.clone()), (5, b"tft".to_vec()));
    // not enough blue gold: refused
    assert_eq!(m.click(600, 550), MenuAction::Nothing);
    assert_eq!((m.blue_gold_count, m.hats.clone()), (5, b"tft".to_vec()));
    m.click(50, 680);
    assert_eq!(m.state, MenuState::Title);
}

#[test]
fn clicks_are_debounced() {
    assert!(!click_allowed(1000, 1100));
    assert!(!click_allowed(1000, 1200));
    assert!(click_allowed(1000, 1201));
}

#[test]
fn credit_scenes() {
    assert_eq!(credit_scene(0), Some(0));
    assert_eq!(credit_scene(199), Some(0));
    assert_eq!(credit_scene(200), Some(1));
    assert_eq!(credit_scene(2199), Some(10));
    assert_eq!(credit_scene(2200), None);
    assert_eq!(next_credit_frame(5), 6);
    assert_eq!(next_credit_frame(2400), 0);
    assert_eq!(menu_credit_scene(0), Some(0));
    assert_eq!(menu_credit_scene(2200), Some(1));
    assert_eq!(menu_credit_scene(24199), Some(10));
    assert_eq!(menu_credit_scene(24200), None);
}

#[test]
fn the_camera_follows_the_player() {
    let mut b = Background::new(Rect::new(0, 0, 1280, 720));
    b.set_curr_background(100, 200, 64, 64);
    let r = b.get_curr_background();
    assert_eq!((r.x, r.y, r.w, r.h), (-508, -128, 1280, 720));
}

#[test]
fn ranged_attacks_slide_out() {
    let start = Rect::new(100, 50, 64, 64);
    let mut a = RangedAttack::new(start, start, true, 3);
    a.update_RangedAttack_pos((0, 1000));
    assert_eq!(a.x(), 100);
    a.set_frame(10);
    a.update_RangedAttack_pos((0, 1000));
    assert_eq!(a.x(), 164);
    a.update_RangedAttack_pos((0, 150));
    assert_eq!(a.x(), 150);
    a.set_frame(7);
    let s = a.src(6, 4);
    assert_eq!((s.x, s.y), (96, 192));
    a.start_pos(5, 6);
    assert_eq!((a.x(), a.y(), a.start_p.x), (5, 6, 5));
    assert!(a.in_use());
}

#[test]
fn the_hud_shows_health_and_items() {
    let ui = UI::new(Rect::new(0, 0, 76, 76));
    assert_eq!((ui.src().w, ui.src().h), (128, 64));
    let mut map = GameMap::new(1);
    map.ending_position = (40, 40);
    let p = Player::new((0, 0), 0);
    let f = ui.update_ui(&p, &map, &status(), 3, 2);
    let sprites: Vec<UiSprite> = f.draws.iter().map(|d| d.sprite).collect();
    assert_eq!(sprites, vec![UiSprite::BarBack, UiSprite::Bar, UiSprite::Heart, UiSprite::Heart, UiSprite::Heart,
        UiSprite::Mana, UiSprite::Sword, UiSprite::BlueCoin, UiSprite::Coin]);
    assert_eq!(f.draws[4].pos.x, 152);
    assert_eq!(f.draws[5].src.x, 128);
    assert_eq!(f.level, LevelLabel::Level(2));
    assert_eq!(f.help, None);
    assert_eq!((f.blue_gold_count, f.coins), (3, 0));
    let mut hurt = Player::new((0, 0), 0);
    hurt.hp = 25;
    hurt.mana = 2;
    let mut s = status();
    s.power_type = PowerType::Fireball;
    s.can_pickup_shop = true;
    s.shop_price = 15;
    s.god_mode = true;
    let g = ui.update_ui(&hurt, &map, &s, 0, 4);
    assert_eq!(g.draws[4].sprite, UiSprite::HalfHeart);
    assert_eq!(g.draws[5].src.x, 64);
    assert_eq!(g.draws[7].sprite, UiSprite::Fireball);
    assert_eq!(g.draws.last().unwrap().sprite, UiSprite::GodMode);
    assert_eq!(g.level, LevelLabel::BossFight);
    assert_eq!(g.help, Some(HelpText::BuyItem(15)));
    map.ending_position = (10, 5);
    let on = Player::new((32, -8), 0);
    assert_eq!(ui.update_ui(&on, &map, &s, 0, 1).help, Some(HelpText::DescendStairs));
}

#[test]
fn random_rolls_are_not_all_the_lowest() {
    let mut widths: Vec<i32> = Vec::new();
    let mut counts: Vec<usize> = Vec::new();
    for _ in 0..40 {
        let r = Room::new();
        if !widths.contains(&r.xwalls.1) {
            widths.push(r.xwalls.1);
        }
        let g = GameData::new(0, 0);
        if !counts.contains(&g.rooms.len()) {
            counts.push(g.rooms.len());
        }
    }
    assert!(widths.len() > 1);
    assert!(counts.len() > 1);
}
