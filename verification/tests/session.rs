use dunfog::dungeon::Dungeon;
use dunfog::entities::{Player, TileStatus};
use dunfog::grid::{is_all_rooms_connected, tile_index};
use dunfog::items::StatusEffect;
use dunfog::state::{GameState, Session, ACTION_TIME_MS};
use dunfog::entities::{MAX_PLAYER_HP, POISON_TICK};
use dunfog::GRID_AREA;

fn open_layout_with_spawn_at(i: usize) -> Vec<(u8, u8, u8, u8)> {
    let mut px = vec![(255u8, 255u8, 255u8, 255u8); GRID_AREA];
    px[i] = (0, 0, 255, 255);
    px
}

#[test]
fn session_starts_at_spawn_with_sight() {
    let d = Dungeon::load_from_file(&open_layout_with_spawn_at(33)).expect("layout has a spawn");
    let s = Session::new(d);
    assert_eq!((s.player.x, s.player.y), s.dungeon.player_spawn);
    let si = tile_index(s.player.x, s.player.y);
    assert!(matches!(s.player.tile_status[si], TileStatus::Known));
    assert!(matches!(s.state, GameState::Idle));
    assert!(!s.dead);
}

#[test]
fn known_cells_never_return_to_unknown() {
    let d = Dungeon::load_from_file(&open_layout_with_spawn_at(33)).expect("layout has a spawn");
    let mut s = Session::new(d);
    let before: Vec<bool> = s
        .player
        .tile_status
        .iter()
        .map(|t| matches!(t, TileStatus::Unknown))
        .collect();
    // move around a few times and recompute sight each time
    for pos in [(5usize, 5usize), (20, 10), (1, 1), (30, 16)] {
        s.player.move_to(pos, &s.dungeon);
        for i in 0..GRID_AREA {
            if !before[i] {
                assert!(!matches!(s.player.tile_status[i], TileStatus::Unknown));
            }
        }
    }
}

#[test]
fn door_transition_replaces_the_floor() {
    macroquad::rand::srand(2718281828);
    let d = Dungeon::load_from_file(&open_layout_with_spawn_at(33)).expect("layout has a spawn");
    let old_tiles = d.tiles.clone();
    let mut s = Session::new(d);
    s.goto_next_dungeon();
    assert_eq!(s.floor, 1);
    assert_eq!((s.player.x, s.player.y), s.dungeon.player_spawn);
    assert!(is_all_rooms_connected(&s.dungeon.tiles));
    // memory of the old floor is gone: nothing is merely remembered
    for st in s.player.tile_status.iter() {
        assert!(!matches!(st, TileStatus::Remembered));
    }
    // the old fully open floor is replaced by a generated one
    assert!(s.dungeon.tiles != old_tiles);
}

#[test]
fn timers_count_down_and_expire() {
    let d = Dungeon::load_from_file(&open_layout_with_spawn_at(33)).expect("layout has a spawn");
    let mut s = Session::new(d);

    s.state = GameState::PlayerAction(ACTION_TIME_MS);
    s.update_gamestate(50);
    assert!(matches!(s.state, GameState::PlayerAction(t) if t == ACTION_TIME_MS - 50));
    // no enemy exists, so the expiring window falls back to idle
    s.update_gamestate(ACTION_TIME_MS);
    assert!(matches!(s.state, GameState::Idle));

    s.state = GameState::Waiting(100);
    s.update_gamestate(100);
    assert!(matches!(s.state, GameState::EnemyAction(t) if t == ACTION_TIME_MS));
    s.update_gamestate(ACTION_TIME_MS);
    assert!(matches!(s.state, GameState::Idle));

    s.update_gamestate(1000);
    assert!(matches!(s.state, GameState::Idle));
}

#[test]
fn poison_ticks_and_expires() {
    let mut p = Player::default();
    p.status_effects = vec![(StatusEffect::Poison, 2)];
    p.apply_status_effects();
    assert_eq!(p.health, MAX_PLAYER_HP - POISON_TICK as i32);
    assert!(p.was_damaged);
    assert_eq!(p.status_effects.len(), 1);
    assert_eq!(p.status_effects[0].1, 1);
    p.apply_status_effects();
    assert_eq!(p.health, MAX_PLAYER_HP - 2 * POISON_TICK as i32);
    assert!(p.status_effects.is_empty());
    let h = p.health;
    p.apply_status_effects();
    assert_eq!(p.health, h);
}

#[test]
fn dying_player_ends_the_run() {
    let d = Dungeon::load_from_file(&open_layout_with_spawn_at(33)).expect("layout has a spawn");
    let mut s = Session::new(d);
    s.player.health = 0;
    s.step(16, None, (0, 0), false, false, false);
    assert!(s.dead);
    assert!(matches!(s.state, GameState::Idle));
}

#[test]
fn wait_keypress_spends_the_turn() {
    let d = Dungeon::load_from_file(&open_layout_with_spawn_at(33)).expect("layout has a spawn");
    let mut s = Session::new(d);
    s.step(16, None, (0, 0), false, true, false);
    assert!(matches!(s.state, GameState::PlayerAction(t) if t == ACTION_TIME_MS));
}

#[test]
fn moving_against_input_axis_steps_one_cell() {
    let d = Dungeon::load_from_file(&open_layout_with_spawn_at(33)).expect("layout has a spawn");
    let mut s = Session::new(d);
    let (x0, y0) = (s.player.x, s.player.y);
    s.step(16, None, (1, 0), true, false, false);
    assert_eq!((s.player.x, s.player.y), (x0 + 1, y0));
    assert!(matches!(s.state, GameState::PlayerAction(_)));
}

#[test]
fn free_slot_scan_starts_at_the_pack() {
    let p = Player::default();
    assert_eq!(p.get_free_slot(), Some(4));
}

#[test]
fn ore_needs_the_pickaxe() {
    macroquad::rand::srand(777);
    let mut px = vec![(255u8, 255u8, 255u8, 255u8); GRID_AREA];
    px[0] = (0, 0, 255, 255);
    px[1] = (225, 150, 100, 255);
    let d = Dungeon::load_from_file(&px).expect("layout has a spawn");
    let mut s = Session::new(d);
    s.player.move_to((1, 0), &s.dungeon);
    // without the pickaxe the vein stays; mining is a soft no-op
    s.player.update_idle(&mut s.dungeon, (0, 0), false, true);
    assert!(matches!(s.dungeon.tiles[1], dunfog::grid::Tile::Ore(_)));
    // with it, the vein is consumed into its decorative remainder
    s.player.inventory[4] = Some(dunfog::items::Item::Misc(dunfog::items::MiscKind::Pickaxe));
    s.player.update_idle(&mut s.dungeon, (0, 0), false, true);
    assert!(matches!(s.dungeon.tiles[1], dunfog::grid::Tile::Detail));
}

#[test]
fn chest_opens_into_the_first_free_slot() {
    macroquad::rand::srand(777);
    let mut px = vec![(255u8, 255u8, 255u8, 255u8); GRID_AREA];
    px[0] = (0, 0, 255, 255);
    px[1] = (255, 0, 100, 255);
    let d = Dungeon::load_from_file(&px).expect("layout has a spawn");
    let mut s = Session::new(d);
    s.player.move_to((1, 0), &s.dungeon);
    s.player.update_idle(&mut s.dungeon, (0, 0), false, true);
    assert!(matches!(s.dungeon.tiles[1], dunfog::grid::Tile::Detail));
    // the mushroom chest always yields its mushroom
    assert_eq!(
        s.player.inventory[4],
        Some(dunfog::items::Item::Misc(dunfog::items::MiscKind::PoisonMushroom))
    );
}

#[test]
fn bumping_into_an_adjacent_enemy_attacks_it() {
    macroquad::rand::srand(1009);
    let mut px = vec![(255u8, 255u8, 255u8, 255u8); GRID_AREA];
    px[0] = (0, 0, 255, 255);
    px[1] = (0, 255, 0, 255); // a zombie right of the spawn
    let d = Dungeon::load_from_file(&px).expect("layout has a spawn");
    let mut s = Session::new(d);
    s.step(16, None, (1, 0), true, false, false);
    // the player stays put and the zombie takes the dagger's damage or blocks
    assert_eq!((s.player.x, s.player.y), (0, 0));
    let hp = s.dungeon.enemies[0].health;
    assert!(hp == 100 || hp == 100 - 25);
    assert!(matches!(s.state, GameState::PlayerAction(_)));
}

#[test]
fn consuming_food_heals_and_mushrooms_poison() {
    let mut p = Player::default();
    // a stone is not consumable: nothing happens
    p.consume(3);
    assert_eq!(p.health, MAX_PLAYER_HP);
    assert!(p.inventory[3].is_some());
    p.inventory[4] = Some(dunfog::items::Item::Misc(dunfog::items::MiscKind::Flesh));
    p.consume(4);
    assert_eq!(p.health, MAX_PLAYER_HP + 20);
    assert!(p.inventory[4].is_none());
    p.inventory[5] = Some(dunfog::items::Item::Misc(dunfog::items::MiscKind::PoisonMushroom));
    p.consume(5);
    assert!(p.status_effects.iter().any(|e| matches!(e.0, StatusEffect::Poison)));
}
