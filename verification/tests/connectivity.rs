use dunfog::dungeon::{drunkards_walk, get_random_walkable, place_rooms, Dungeon, FloorKind};
use dunfog::dungeon::generate_dungeon;
use dunfog::grid::{is_all_rooms_connected, tile_index, Tile};
use dunfog::pathfind::find_path;
use dunfog::{GRID_AREA, TILES_HORIZONTAL};

fn wall_grid() -> Vec<Tile> {
    vec![Tile::Wall; GRID_AREA]
}

fn layout_with(colors: &[(usize, (u8, u8, u8))]) -> Vec<(u8, u8, u8, u8)> {
    let mut px = vec![(0u8, 0u8, 0u8, 255u8); GRID_AREA];
    for (i, (r, g, b)) in colors {
        px[*i] = (*r, *g, *b, 255);
    }
    px
}

#[test]
fn test_rooms_connected() {
    let mut tiles = wall_grid();
    tiles[0] = Tile::Floor;
    tiles[1] = Tile::Floor;
    assert!(is_all_rooms_connected(&tiles))
}

#[test]
fn single_isolated_floor_tile_is_connected() {
    let mut tiles = wall_grid();
    tiles[5] = Tile::Floor;
    assert!(is_all_rooms_connected(&tiles));
}

#[test]
fn no_walkable_cells_is_not_connected() {
    let tiles = wall_grid();
    assert!(!is_all_rooms_connected(&tiles));
}

#[test]
fn split_floor_is_not_connected() {
    let mut tiles = wall_grid();
    tiles[0] = Tile::Floor;
    // a floor tile two cells away, with a wall between
    tiles[2] = Tile::Floor;
    assert!(!is_all_rooms_connected(&tiles));
}

#[test]
fn path_exists_between_adjacent_floors() {
    let mut tiles = wall_grid();
    tiles[0] = Tile::Floor;
    tiles[1] = Tile::Floor;
    let r = find_path(&tiles, (0, 0), (1, 0));
    let (path, cost) = r.expect("adjacent floor cells must be reachable");
    assert_eq!(path[0], (0, 0));
    assert_eq!(path[path.len() - 1], (1, 0));
    assert_eq!(cost, 1);
}

#[test]
fn path_cost_is_at_least_manhattan() {
    let mut tiles = wall_grid();
    // an L-shaped corridor from (0,0) to (3,2)
    for x in 0..4 {
        tiles[tile_index(x, 0)] = Tile::Floor;
    }
    for y in 0..3 {
        tiles[tile_index(3, y)] = Tile::Floor;
    }
    let r = find_path(&tiles, (0, 0), (3, 2));
    let (_, cost) = r.expect("corridor must be pathable");
    assert!(cost >= 5);
}

#[test]
fn no_path_to_unreachable_cell() {
    let mut tiles = wall_grid();
    tiles[0] = Tile::Floor;
    tiles[tile_index(5, 5)] = Tile::Floor;
    assert!(find_path(&tiles, (0, 0), (5, 5)).is_none());
}

#[test]
fn no_path_into_wall() {
    let mut tiles = wall_grid();
    tiles[0] = Tile::Floor;
    assert!(find_path(&tiles, (0, 0), (3, 3)).is_none());
}

#[test]
fn first_room_origin_is_spawn() {
    macroquad::rand::srand(20240101);
    let (rooms, spawn) = place_rooms(125);
    assert!(!rooms.is_empty());
    assert_eq!(spawn, (rooms[0].0, rooms[0].1));
}

#[test]
fn generated_dungeon_is_connected_with_walkable_spawn() {
    macroquad::rand::srand(987654321);
    let d = generate_dungeon(FloorKind::First);
    assert!(is_all_rooms_connected(&d.tiles));
    let si = tile_index(d.player_spawn.0, d.player_spawn.1);
    assert!(d.tiles[si].is_walkable());
    for e in d.enemies.iter() {
        assert!((e.x, e.y) != d.player_spawn);
        assert!(d.tiles[tile_index(e.x, e.y)].is_walkable());
    }
}

#[test]
fn second_floor_generates_too() {
    macroquad::rand::srand(13579);
    let d = generate_dungeon(FloorKind::Second);
    assert!(is_all_rooms_connected(&d.tiles));
}

#[test]
fn test_drunkards_walk() {
    macroquad::rand::srand(42);
    let mut colors = vec![(0usize, (0u8, 0u8, 255u8))];
    for i in 1..64usize {
        colors.push((i, (255, 255, 255)));
    }
    let dungeon = Dungeon::load_from_file(&layout_with(&colors)).expect("layout has a spawn");
    let result = drunkards_walk(&dungeon, dungeon.player_spawn, 5);
    println!("{result:?}")
}

#[test]
fn test_random_tile() {
    macroquad::rand::srand(42);
    let mut colors = vec![(0usize, (0u8, 0u8, 255u8))];
    for i in 1..64usize {
        colors.push((i, (255, 255, 255)));
    }
    let dungeon = Dungeon::load_from_file(&layout_with(&colors)).expect("layout has a spawn");
    get_random_walkable(&dungeon.tiles);
}

#[test]
fn layout_without_spawn_is_refused() {
    let px = layout_with(&[(3, (255, 255, 255))]);
    assert!(Dungeon::load_from_file(&px).is_none());
}

#[test]
fn layout_decodes_by_color() {
    let px = layout_with(&[
        (0, (0, 0, 255)),      // spawn
        (1, (255, 255, 255)),  // floor
        (2, (0, 255, 0)),      // zombie
        (3, (255, 0, 100)),    // chest
        (4, (225, 150, 100)),  // ore
    ]);
    let d = Dungeon::load_from_file(&px).expect("layout has a spawn");
    assert_eq!(d.player_spawn, (0, 0));
    assert!(matches!(d.tiles[0], Tile::Floor));
    assert!(matches!(d.tiles[1], Tile::Floor));
    assert!(matches!(d.tiles[2], Tile::Floor));
    assert!(matches!(d.tiles[3], Tile::Chest(_)));
    assert!(matches!(d.tiles[4], Tile::Ore(_)));
    assert!(matches!(d.tiles[5], Tile::Wall));
    assert_eq!(d.enemies.len(), 1);
    assert_eq!((d.enemies[0].x, d.enemies[0].y), (2, 0));
}

#[test]
fn last_spawn_pixel_wins() {
    let px = layout_with(&[(0, (0, 0, 255)), (40, (0, 0, 255))]);
    let d = Dungeon::load_from_file(&px).expect("layout has a spawn");
    assert_eq!(d.player_spawn, (40 % TILES_HORIZONTAL, 40 / TILES_HORIZONTAL));
}

#[test]
fn door_placement_converts_exactly_one_floor_cell() {
    macroquad::rand::srand(4096);
    let mut colors = vec![(0usize, (0u8, 0u8, 255u8))];
    for i in 1..40usize {
        colors.push((i, (255, 255, 255)));
    }
    let mut d = Dungeon::load_from_file(&layout_with(&colors)).expect("layout has a spawn");
    let floors_before = d.tiles.iter().filter(|t| matches!(t, Tile::Floor)).count();
    dunfog::dungeon::place_random_door(&mut d);
    let floors_after = d.tiles.iter().filter(|t| matches!(t, Tile::Floor)).count();
    let doors = d.tiles.iter().filter(|t| matches!(t, Tile::Door)).count();
    assert_eq!(doors, 1);
    assert_eq!(floors_after, floors_before - 1);
}

#[test]
fn drunkards_walk_is_an_adjacent_duplicate_free_trail() {
    macroquad::rand::srand(271);
    let mut colors = vec![(33usize, (0u8, 0u8, 255u8))];
    for i in 0..96usize {
        if i != 33 {
            colors.push((i, (255, 255, 255)));
        }
    }
    let dungeon = Dungeon::load_from_file(&layout_with(&colors)).expect("layout has a spawn");
    let walk = drunkards_walk(&dungeon, (0, 0), 8);
    assert!(!walk.is_empty());
    assert!(walk.len() <= 9);
    assert_eq!(walk[0], (0, 0));
    for w in walk.windows(2) {
        let dx = w[0].0.abs_diff(w[1].0);
        let dy = w[0].1.abs_diff(w[1].1);
        assert_eq!(dx + dy, 1);
    }
    for a in 0..walk.len() {
        for b in (a + 1)..walk.len() {
            assert_ne!(walk[a], walk[b]);
        }
        if a > 0 {
            assert_ne!(walk[a], dungeon.player_spawn);
        }
    }
}

#[test]
fn generated_floor_keeps_its_budget_and_border() {
    macroquad::rand::srand(777777);
    let d = generate_dungeon(FloorKind::First);
    let floors = d.tiles.iter().filter(|t| matches!(t, Tile::Floor)).count();
    assert!(floors <= 125);
    for x in 0..32usize {
        assert!(matches!(d.tiles[tile_index(x, 17)], Tile::Wall));
    }
    for y in 0..18usize {
        assert!(matches!(d.tiles[tile_index(31, y)], Tile::Wall));
    }
}
