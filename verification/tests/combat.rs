use dunfog::dungeon::Dungeon;
use dunfog::entities::{Enemy, EnemyAction, EnemyKind, Player};
use dunfog::geom::{cell_distance, isqrt};
use dunfog::grid::Tile;
use dunfog::items::{ArmorKind, Item};
use dunfog::state::{GameState, Session};
use dunfog::entities::MAX_PLAYER_HP;
use dunfog::GRID_AREA;

fn floor_grid() -> Vec<Tile> {
    vec![Tile::Floor; GRID_AREA]
}

#[test]
fn isqrt_is_exact() {
    assert_eq!(isqrt(0), 0);
    assert_eq!(isqrt(1), 1);
    assert_eq!(isqrt(2), 1);
    assert_eq!(isqrt(24), 4);
    assert_eq!(isqrt(25), 5);
    assert_eq!(isqrt(26), 5);
}

#[test]
fn cell_distance_rounds_down() {
    assert_eq!(cell_distance((0, 0), (3, 4)), 5);
    assert_eq!(cell_distance((0, 0), (1, 1)), 1);
    assert_eq!(cell_distance((2, 2), (2, 2)), 0);
    assert_eq!(cell_distance((0, 0), (2, 0)), 2);
}

#[test]
fn unarmored_hit_deals_exact_damage() {
    let mut p = Player::default();
    p.inventory[1] = None;
    p.damage_with_roll(25, 0);
    assert_eq!(p.health, MAX_PLAYER_HP - 25);
    assert!(p.was_damaged);
}

#[test]
fn armor_blocks_low_rolls_only() {
    // iron armor blocks rolls below its 40 percent chance
    let mut p = Player::default();
    assert!(matches!(p.inventory[1], Some(Item::Armor(ArmorKind::IronArmor))));
    p.damage_with_roll(25, 10);
    assert_eq!(p.health, MAX_PLAYER_HP);
    p.damage_with_roll(25, 40);
    assert_eq!(p.health, MAX_PLAYER_HP - 25);
}

#[test]
fn enemy_attacks_only_in_weapon_range() {
    macroquad::rand::srand(7);
    let tiles = floor_grid();
    // a zombie has a melee weapon with range [1, 2)
    let mut p = Player::default();
    p.x = 2;
    p.y = 0;
    let mut e = Enemy::new(1, 0, EnemyKind::Zombie);
    let action = e.act(&tiles, &mut p);
    assert!(matches!(action, EnemyAction::Attack(_)));
    assert!(p.health == MAX_PLAYER_HP || p.health == MAX_PLAYER_HP - 10);
}

#[test]
fn enemy_out_of_range_does_not_attack() {
    macroquad::rand::srand(7);
    let tiles = floor_grid();
    let mut p = Player::default();
    p.x = 9;
    p.y = 0;
    let mut e = Enemy::new(0, 0, EnemyKind::Spider);
    let action = e.act(&tiles, &mut p);
    assert!(!matches!(action, EnemyAction::Attack(_)));
    assert_eq!(p.health, MAX_PLAYER_HP);
}

#[test]
fn enemy_too_close_for_bow_does_not_attack() {
    macroquad::rand::srand(7);
    let tiles = floor_grid();
    // a skeleton's shortbow covers [2, 4): an adjacent player is too close
    let mut p = Player::default();
    p.x = 1;
    p.y = 0;
    let mut e = Enemy::new(0, 0, EnemyKind::Skeleton);
    let action = e.act(&tiles, &mut p);
    assert!(!matches!(action, EnemyAction::Attack(_)));
    assert_eq!(p.health, MAX_PLAYER_HP);
}

#[test]
fn enemy_round_keeps_cells_exclusive() {
    macroquad::rand::srand(31337);
    let tiles = floor_grid();
    let mut player = Player::default();
    player.x = 10;
    player.y = 10;
    let mut enemies = Vec::new();
    for (x, y) in [(1usize, 1usize), (3, 1), (1, 3), (9, 10), (11, 10)] {
        let mut e = Enemy::new(x, y, EnemyKind::Spider);
        e.awake = true;
        enemies.push(e);
    }
    let dungeon = Dungeon {
        tiles,
        player_spawn: (0, 0),
        enemies,
        items: Vec::new(),
        floor_kind: dunfog::dungeon::FloorKind::First,
    };
    let mut s = Session { player, floor: 0, dungeon, state: GameState::Idle, dead: false };
    for _ in 0..8 {
        s.perform_enemy_actions();
        let es = &s.dungeon.enemies;
        for i in 0..es.len() {
            assert!((es[i].x, es[i].y) != (s.player.x, s.player.y));
            for j in (i + 1)..es.len() {
                assert!((es[i].x, es[i].y) != (es[j].x, es[j].y));
            }
        }
    }
}

#[test]
fn dead_enemies_are_swept_and_counted() {
    macroquad::rand::srand(5);
    let tiles = floor_grid();
    let mut player = Player::default();
    player.x = 10;
    player.y = 10;
    let mut e1 = Enemy::new(1, 1, EnemyKind::Zombie);
    e1.health = 0;
    let e2 = Enemy::new(2, 1, EnemyKind::Zombie);
    let dungeon = Dungeon {
        tiles,
        player_spawn: (0, 0),
        enemies: vec![e1, e2],
        items: Vec::new(),
        floor_kind: dunfog::dungeon::FloorKind::First,
    };
    let mut s = Session { player, floor: 0, dungeon, state: GameState::Idle, dead: false };
    s.resolve_dead_enemies();
    assert_eq!(s.dungeon.enemies.len(), 1);
    assert_eq!((s.dungeon.enemies[0].x, s.dungeon.enemies[0].y), (2, 1));
    assert_eq!(s.player.enemies_slayed, 1);
}
