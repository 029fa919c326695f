use vstd::prelude::*;

use crate::entities::{spec_enemy_max_health, Enemy, EnemyKind};
use crate::grid::{
    adjacent, all_open, border_walled, floor_count, idx_spec, in_grid, is_all_rooms_connected,
    is_path, lemma_floor_count_none, lemma_floor_count_update, lemma_idx_injective, manhattan,
    reachable, spec_connected, tile_index, walkable_at, Tile,
};
use crate::items::Item;
use crate::loot::LootKind;
use crate::pathfind::find_path;
use crate::rng::random_below;
use crate::{GRID_AREA, TILES_HORIZONTAL, TILES_VERTICAL};

verus! {

/// The floor archetypes: which population and decoration rules a floor uses,
/// selected by floor index.
#[derive(Clone, Copy, PartialEq, Eq, Structural, Debug)]
pub enum FloorKind {
    First,
    Second,
}

/// Target total room area of the floor.
pub open spec fn spec_floor_rooms_area(k: FloorKind) -> usize {
    match k {
        FloorKind::First => 125,
        FloorKind::Second => 125,
    }
}

pub fn floor_rooms_area(k: FloorKind) -> (r: usize)
    ensures
        r == spec_floor_rooms_area(k),
        r == 125,
{
    match k {
        FloorKind::First => 125,
        FloorKind::Second => 125,
    }
}

/// The archetype of the floor at the given depth.
pub fn floor_for_index(i: usize) -> (r: FloorKind) {
    if i == 0 {
        FloorKind::First
    } else {
        FloorKind::Second
    }
}

/// One generated floor: the grid, where the player starts, and everything
/// living or lying in it.
pub struct Dungeon {
    pub tiles: Vec<Tile>,
    pub player_spawn: (usize, usize),
    pub enemies: Vec<Enemy>,
    pub items: Vec<(usize, usize, Item)>,
    pub floor_kind: FloorKind,
}

impl Dungeon {
    /// Structural soundness: a full-size grid, a walkable spawn, and
    /// well-formed enemies on distinct walkable cells.
    pub open spec fn wf(self) -> bool {
        &&& self.tiles@.len() == GRID_AREA
        &&& walkable_at(self.tiles@, self.player_spawn)
        &&& forall|k: int|
            0 <= k < self.enemies@.len() ==> (#[trigger] self.enemies@[k]).wf() && walkable_at(
                self.tiles@,
                self.enemies@[k].pos(),
            )
        &&& forall|k: int, l: int|
            0 <= k < l < self.enemies@.len() ==> (#[trigger] self.enemies@[k]).pos() != (
            #[trigger] self.enemies@[l]).pos()
    }

    /// Whether some enemy stands on the cell.
    pub open spec fn enemy_at(self, c: (usize, usize)) -> bool {
        exists|k: int| 0 <= k < self.enemies@.len() && (#[trigger] self.enemies@[k]).pos() == c
    }

    /// Index of the enemy on the cell, if any.
    pub fn find_enemy_at(&self, c: (usize, usize)) -> (r: Option<usize>)
        ensures
            match r {
                Some(k) => k < self.enemies@.len() && self.enemies@[k as int].pos() == c,
                None => !self.enemy_at(c),
            },
    {
        let mut k: usize = 0;
        while k < self.enemies.len()
            invariant
                k <= self.enemies@.len(),
                forall|j: int| 0 <= j < k ==> (#[trigger] self.enemies@[j]).pos() != c,
            decreases self.enemies@.len() - k,
        {
            let e = &self.enemies[k];
            if e.x == c.0 && e.y == c.1 {
                return Some(k);
            }
            k = k + 1;
        }
        None
    }

    /// Grid pathfinding over this floor's walkable cells; see `find_path`.
    pub fn pathfind(&self, from: (usize, usize), to: (usize, usize)) -> (r: Option<
        (Vec<(usize, usize)>, usize),
    >)
        requires
            self.wf(),
            walkable_at(self.tiles@, from),
        ensures
            r is Some <==> reachable(self.tiles@, from, to),
            r matches Some(pc) ==> is_path(self.tiles@, pc.0@, from, to) && pc.1 == pc.0@.len() - 1
                && pc.1 >= manhattan(from, to) && (forall|i: int, j: int|
                0 <= i < j < pc.0@.len() ==> pc.0@[i] != pc.0@[j]),
    {
        find_path(&self.tiles, from, to)
    }
}


/// Well-formedness of an enemy list under construction: each enemy sound,
/// standing on a walkable cell, off the spawn, no two sharing a cell.
pub open spec fn enemies_ok(enemies: Seq<Enemy>, tiles: Seq<Tile>, spawn: (usize, usize)) -> bool {
    &&& forall|k: int|
        0 <= k < enemies.len() ==> (#[trigger] enemies[k]).wf() && walkable_at(
            tiles,
            enemies[k].pos(),
        ) && enemies[k].pos() != spawn
    &&& forall|k: int, l: int|
        0 <= k < l < enemies.len() ==> (#[trigger] enemies[k]).pos() != (#[trigger] enemies[l]).pos()
}

/// Whether some enemy in the list stands on the cell.
fn enemy_on(enemies: &Vec<Enemy>, c: (usize, usize)) -> (r: bool)
    ensures
        r == exists|k: int| 0 <= k < enemies@.len() && (#[trigger] enemies@[k]).pos() == c,
{
    let mut k: usize = 0;
    while k < enemies.len()
        invariant
            k <= enemies@.len(),
            forall|j: int| 0 <= j < k ==> (#[trigger] enemies@[j]).pos() != c,
        decreases enemies@.len() - k,
    {
        let e = &enemies[k];
        if e.x == c.0 && e.y == c.1 {
            proof {
                assert(enemies@[k as int].pos() == c);
            }
            return true;
        }
        k = k + 1;
    }
    false
}

/// Whether the cell list contains the cell.
fn contains_cell(v: &Vec<(usize, usize)>, c: (usize, usize)) -> (r: bool)
    ensures
        r == v@.contains(c),
{
    let mut k: usize = 0;
    while k < v.len()
        invariant
            k <= v@.len(),
            forall|j: int| 0 <= j < k ==> v@[j] != c,
        decreases v@.len() - k,
    {
        let e = v[k];
        if e.0 == c.0 && e.1 == c.1 {
            proof {
                assert(v@[k as int] == c);
            }
            return true;
        }
        k = k + 1;
    }
    proof {
        if v@.contains(c) {
            let w = choose|w: int| 0 <= w < v@.len() && v@[w] == c;
            assert(false);
        }
    }
    false
}

/// Indices of the plain floor tiles, in scan order.
pub fn get_walkables(tiles: &Vec<Tile>) -> (r: Vec<usize>)
    requires
        tiles@.len() == GRID_AREA,
    ensures
        forall|j: int|
            0 <= j < r@.len() ==> (#[trigger] r@[j]) < GRID_AREA && tiles@[r@[j] as int] is Floor,
        forall|i: usize| i < GRID_AREA && tiles@[i as int] is Floor ==> r@.contains(i),
{
    let mut r: Vec<usize> = Vec::new();
    let mut i: usize = 0;
    while i < GRID_AREA
        invariant
            tiles@.len() == GRID_AREA,
            i <= GRID_AREA,
            forall|j: int|
                0 <= j < r@.len() ==> (#[trigger] r@[j]) < GRID_AREA && tiles@[r@[j] as int] is Floor,
            forall|k: usize| k < i && tiles@[k as int] is Floor ==> r@.contains(k),
        decreases GRID_AREA - i,
    {
        if matches!(tiles[i], Tile::Floor) {
            let ghost old_r = r@;
            r.push(i);
            proof {
                assert(r@[old_r.len() as int] == i);
                assert(r@.contains(i));
                assert forall|k: usize|
                    k < i + 1 && tiles@[k as int] is Floor implies r@.contains(k) by {
                    if k < i {
                        assert(old_r.contains(k));
                        let w = choose|w: int| 0 <= w < old_r.len() && old_r[w] == k;
                        assert(r@[w] == k);
                    }
                };
            }
        }
        i = i + 1;
    }
    r
}

/// A uniformly random plain floor tile's index.
pub fn get_random_walkable(tiles: &Vec<Tile>) -> (r: usize)
    requires
        tiles@.len() == GRID_AREA,
        exists|i: usize| i < GRID_AREA && tiles@[i as int] is Floor,
    ensures
        r < GRID_AREA,
        tiles@[r as int] is Floor,
{
    let walkables = get_walkables(tiles);
    proof {
        let w = choose|i: usize| i < GRID_AREA && tiles@[i as int] is Floor;
        assert(walkables@.contains(w));
        let wi = choose|wi: int| 0 <= wi < walkables@.len() && walkables@[wi] == w;
        assert(walkables@.len() > 0);
    }
    walkables[random_below(walkables.len())]
}

/// A bounded random walk from `start` over walkable cells, avoiding cells
/// already walked, enemies, and the player spawn; used to scatter
/// decorative clusters.  The walk starts at `start`, steps only between
/// adjacent cells, never revisits a cell, and every cell after the first
/// avoids the spawn and all enemies; it ends early when no legal neighbour
/// is left.
pub fn drunkards_walk(dungeon: &Dungeon, start: (usize, usize), tiles_budget: usize) -> (r: Vec<
    (usize, usize),
>)
    requires
        dungeon.wf(),
        walkable_at(dungeon.tiles@, start),
    ensures
        forall|j: int| 0 <= j < r@.len() ==> walkable_at(dungeon.tiles@, #[trigger] r@[j]),
        tiles_budget > 0 ==> r@.len() >= 1 && r@[0] == start,
        tiles_budget == 0 ==> r@.len() == 0,
        forall|j: int| 0 <= j < r@.len() - 1 ==> adjacent(#[trigger] r@[j], r@[j + 1]),
        forall|a: int, b: int| 0 <= a < b < r@.len() ==> r@[a] != r@[b],
        forall|j: int|
            1 <= j < r@.len() ==> (#[trigger] r@[j]) != dungeon.player_spawn && !dungeon.enemy_at(
                r@[j],
            ),
        r@.len() <= tiles_budget + 1,
{
    let mut walked: Vec<(usize, usize)> = Vec::new();
    let mut x = start.0;
    let mut y = start.1;
    let mut budget = tiles_budget;
    while budget > 0
        invariant_except_break
            walked@.len() + budget <= tiles_budget,
            walked@.len() >= 1 ==> adjacent(walked@[walked@.len() - 1], (x, y)),
            forall|j: int| 0 <= j < walked@.len() ==> (#[trigger] walked@[j]) != (x, y),
            walked@.len() >= 1 ==> ((x, y) != dungeon.player_spawn && !dungeon.enemy_at((x, y))),
        invariant
            dungeon.wf(),
            walkable_at(dungeon.tiles@, (x, y)),
            forall|j: int| 0 <= j < walked@.len() ==> walkable_at(dungeon.tiles@, #[trigger] walked@[j]),
            walked@.len() == 0 ==> (x, y) == start && budget == tiles_budget,
            walked@.len() >= 1 ==> walked@[0] == start,
            forall|j: int| 0 <= j < walked@.len() - 1 ==> adjacent(#[trigger] walked@[j], walked@[j + 1]),
            forall|a: int, b: int| 0 <= a < b < walked@.len() ==> walked@[a] != walked@[b],
            forall|j: int|
                1 <= j < walked@.len() ==> (#[trigger] walked@[j]) != dungeon.player_spawn
                    && !dungeon.enemy_at(walked@[j]),
        ensures
            walked@.len() <= tiles_budget + 1,
            tiles_budget > 0 ==> walked@.len() >= 1 && walked@[0] == start,
            tiles_budget == 0 ==> walked@.len() == 0,
            forall|j: int| 0 <= j < walked@.len() ==> walkable_at(dungeon.tiles@, #[trigger] walked@[j]),
            forall|j: int| 0 <= j < walked@.len() - 1 ==> adjacent(#[trigger] walked@[j], walked@[j + 1]),
            forall|a: int, b: int| 0 <= a < b < walked@.len() ==> walked@[a] != walked@[b],
            forall|j: int|
                1 <= j < walked@.len() ==> (#[trigger] walked@[j]) != dungeon.player_spawn
                    && !dungeon.enemy_at(walked@[j]),
        decreases budget,
    {
        let ghost before = walked@;
        let cur = (x, y);
        walked.push(cur);
        proof {
            assert(walked@[before.len() as int] == cur);
            assert forall|a: int, b: int|
                0 <= a < b < walked@.len() implies walked@[a] != walked@[b] by {
                if b < before.len() {
                    assert(before[a] != before[b]);
                } else {
                    assert(before[a] != cur);
                }
            };
        }
        let mut candidates: Vec<(usize, usize)> = Vec::new();
        if x > 0 {
            candidates.push((x - 1, y));
        }
        if x + 1 < TILES_HORIZONTAL {
            candidates.push((x + 1, y));
        }
        if y > 0 {
            candidates.push((x, y - 1));
        }
        if y + 1 < TILES_VERTICAL {
            candidates.push((x, y + 1));
        }
        let mut legal: Vec<(usize, usize)> = Vec::new();
        let mut ci: usize = 0;
        while ci < candidates.len()
            invariant
                dungeon.wf(),
                ci <= candidates@.len(),
                forall|j: int|
                    0 <= j < candidates@.len() ==> in_grid(#[trigger] candidates@[j]) && adjacent(
                        (x, y),
                        candidates@[j],
                    ),
                forall|j: int|
                    0 <= j < legal@.len() ==> walkable_at(dungeon.tiles@, #[trigger] legal@[j])
                        && adjacent((x, y), legal@[j]) && legal@[j] != dungeon.player_spawn
                        && !dungeon.enemy_at(legal@[j]) && !walked@.contains(legal@[j]),
            decreases candidates@.len() - ci,
        {
            let c = candidates[ci];
            let ti = tile_index(c.0, c.1);
            if dungeon.tiles[ti].is_walkable() && !enemy_on(&dungeon.enemies, c) && !(c.0
                == dungeon.player_spawn.0 && c.1 == dungeon.player_spawn.1) && !contains_cell(
                &walked,
                c,
            ) {
                legal.push(c);
            }
            ci = ci + 1;
        }
        if legal.len() == 0 {
            break ;
        }
        budget = budget - 1;
        let pick = legal[random_below(legal.len())];
        proof {
            assert(!walked@.contains(pick));
            assert forall|j: int| 0 <= j < walked@.len() implies (#[trigger] walked@[j]) != pick by {
                if walked@[j] == pick {
                    assert(walked@.contains(pick));
                }
            };
        }
        x = pick.0;
        y = pick.1;
    }
    walked
}

/// Place the floor exit: up to ten random floor cells are tried, preferring
/// one far from the spawn and free of enemies, falling back to the last
/// candidate.  Walkability is unchanged, so connectivity survives.
pub fn place_random_door(d: &mut Dungeon)
    requires
        old(d).wf(),
    ensures
        final(d).wf(),
        forall|c: (usize, usize)| (walkable_at(final(d).tiles@, c) == walkable_at(old(d).tiles@, c)),
        final(d).enemies == old(d).enemies,
        final(d).player_spawn == old(d).player_spawn,
        final(d).items == old(d).items,
        final(d).floor_kind == old(d).floor_kind,
        floor_count(final(d).tiles@, GRID_AREA as int) <= floor_count(
            old(d).tiles@,
            GRID_AREA as int,
        ),
        (exists|i: usize| i < GRID_AREA && (#[trigger] old(d).tiles@[i as int]) is Floor)
            ==> exists|i: int|
            0 <= i < GRID_AREA && (old(d).tiles@[i] is Floor) && final(d).tiles@ == old(
                d,
            ).tiles@.update(i, Tile::Door),
{
    let ghost entry_tiles = d.tiles@;
    let walkables = get_walkables(&d.tiles);
    if walkables.len() == 0 {
        proof {
            if exists|i: usize| i < GRID_AREA && (#[trigger] entry_tiles[i as int]) is Floor {
                let w = choose|i: usize| i < GRID_AREA && (#[trigger] entry_tiles[i as int]) is Floor;
                assert(walkables@.contains(w));
                let wi = choose|wi: int| 0 <= wi < walkables@.len() && walkables@[wi] == w;
                assert(false);
            }
        }
        return ;
    }
    let mut attempt: usize = 0;
    while attempt < 10
        invariant
            old(d).wf(),
            *d == *old(d),
            entry_tiles == old(d).tiles@,
            attempt <= 9,
            walkables@.len() > 0,
            forall|j: int|
                0 <= j < walkables@.len() ==> (#[trigger] walkables@[j]) < GRID_AREA && (old(
                    d,
                ).tiles@[walkables@[j] as int] is Floor),
        decreases 10 - attempt,
    {
        let wi = walkables[random_below(walkables.len())];
        let x = wi % TILES_HORIZONTAL;
        let y = wi / TILES_HORIZONTAL;
        proof {
            crate::grid::lemma_cell_of(wi as int);
        }
        let dist = crate::geom::cell_distance((x, y), d.player_spawn);
        if attempt != 9 && (dist < 10 || enemy_on(&d.enemies, (x, y))) {
            attempt = attempt + 1;
            continue ;
        }
        let ghost before = d.tiles@;
        d.tiles[wi] = Tile::Door;
        proof {
            lemma_floor_count_update(before, d.tiles@, wi as int, GRID_AREA as int);
            assert(idx_spec((x, y)) == wi);
            assert(0 <= wi < GRID_AREA && (old(d).tiles@[wi as int] is Floor) && d.tiles@ == old(
                d,
            ).tiles@.update(wi as int, Tile::Door));
            assert forall|c: (usize, usize)|
                walkable_at(d.tiles@, c) == walkable_at(before, c) by {
                if in_grid(c) && idx_spec(c) == wi {
                    assert(before[wi as int] is Floor);
                }
            };
            assert forall|k: int|
                0 <= k < d.enemies@.len() implies (#[trigger] d.enemies@[k]).wf() && walkable_at(
                d.tiles@,
                d.enemies@[k].pos(),
            ) by {
                assert(walkable_at(before, d.enemies@[k].pos()));
            };
        }
        return ;
    }
}

/// A room rectangle `(x, y, w, h)` with the generator's side lengths,
/// lying fully on the grid.
pub open spec fn room_ok(r: (usize, usize, usize, usize)) -> bool {
    4 <= r.2 <= 5 && 4 <= r.3 <= 5 && r.0 + r.2 < TILES_HORIZONTAL && r.1 + r.3 < TILES_VERTICAL
}

/// Total area of a room list.
pub open spec fn rooms_area_sum(rooms: Seq<(usize, usize, usize, usize)>) -> int
    decreases rooms.len(),
{
    if rooms.len() == 0 {
        0
    } else {
        rooms_area_sum(rooms.drop_last()) + rooms.last().2 * rooms.last().3
    }
}

/// Room placement: rectangles with sides in `[4, 6)` are sampled at random
/// positions, clamped onto the grid, until one would overrun the remaining
/// area budget.  At least one room is always accepted, and the first
/// accepted room's origin is the player spawn.
pub fn place_rooms(rooms_area: usize) -> (r: (Vec<(usize, usize, usize, usize)>, (usize, usize)))
    requires
        25 <= rooms_area <= 10_000,
    ensures
        r.0@.len() >= 1,
        forall|j: int| 0 <= j < r.0@.len() ==> room_ok(#[trigger] r.0@[j]),
        r.1 == (r.0@[0].0, r.0@[0].1),
        rooms_area_sum(r.0@) <= rooms_area,
{
    let mut rooms: Vec<(usize, usize, usize, usize)> = Vec::new();
    let mut area_left = rooms_area;
    loop
        invariant
            25 <= rooms_area <= 10_000,
            area_left <= rooms_area,
            rooms@.len() == 0 ==> area_left == rooms_area,
            forall|j: int| 0 <= j < rooms@.len() ==> room_ok(#[trigger] rooms@[j]),
            rooms_area_sum(rooms@) + area_left == rooms_area,
        ensures
            rooms@.len() >= 1,
            forall|j: int| 0 <= j < rooms@.len() ==> room_ok(#[trigger] rooms@[j]),
            rooms_area_sum(rooms@) <= rooms_area,
        decreases area_left,
    {
        let w = 4 + random_below(2);
        let h = 4 + random_below(2);
        let mut x = random_below(TILES_HORIZONTAL);
        let mut y = random_below(TILES_VERTICAL);
        if x + w >= TILES_HORIZONTAL {
            x = TILES_HORIZONTAL - w - 1;
        }
        if y + h >= TILES_VERTICAL {
            y = TILES_VERTICAL - h - 1;
        }
        proof {
            assert(16 <= w * h <= 25) by (nonlinear_arith)
                requires
                    4 <= w <= 5,
                    4 <= h <= 5,
            ;
        }
        let area = w * h;
        if area > area_left {
            break ;
        }
        let ghost before = rooms@;
        rooms.push((x, y, w, h));
        proof {
            assert(rooms@.drop_last() =~= before);
            assert(rooms@.last() == (x, y, w, h));
        }
        area_left = area_left - area;
    }
    let first = rooms[0];
    (rooms, (first.0, first.1))
}

/// Populate one room by its floor's rule: the first floor spawns a zombie
/// in three rooms of five, the second a zombie or a spider in every room.
/// A spawn lands on a random cell of the room, skipped when the cell is the
/// player spawn, already taken, or not walkable.
fn populate_room(
    floor_kind: FloorKind,
    room: (usize, usize, usize, usize),
    tiles: &Vec<Tile>,
    enemies: &mut Vec<Enemy>,
    spawn: (usize, usize),
)
    requires
        room_ok(room),
        tiles@.len() == GRID_AREA,
        enemies_ok(old(enemies)@, tiles@, spawn),
    ensures
        enemies_ok(final(enemies)@, tiles@, spawn),
{
    let should = match floor_kind {
        FloorKind::First => random_below(5) < 3,
        FloorKind::Second => true,
    };
    if !should {
        return ;
    }
    let kind = match floor_kind {
        FloorKind::First => EnemyKind::Zombie,
        FloorKind::Second => {
            if random_below(2) == 0 {
                EnemyKind::Zombie
            } else {
                EnemyKind::Spider
            }
        },
    };
    let ex = room.0 + random_below(room.2);
    let ey = room.1 + random_below(room.3);
    let ei = tile_index(ex, ey);
    if !(ex == spawn.0 && ey == spawn.1) && !enemy_on(enemies, (ex, ey)) && tiles[ei].is_walkable() {
        let ghost before = enemies@;
        enemies.push(Enemy::new(ex, ey, kind));
        proof {
            assert(enemies@[before.len() as int].pos() == (ex, ey));
            assert forall|k: int, l: int|
                0 <= k < l < enemies@.len() implies (#[trigger] enemies@[k]).pos() != (
            #[trigger] enemies@[l]).pos() by {
                if l < before.len() {
                    assert(before[k].pos() != before[l].pos());
                }
            };
        }
    }
}

/// The termination measure of one L-shaped corridor walk: twice the
/// remaining Manhattan distance, plus one for each pending axis flip.
pub open spec fn walk_measure(cx: usize, cy: usize, tx: usize, ty: usize, mh: bool) -> int {
    2 * manhattan((cx, cy), (tx, ty)) + (if mh && cx == tx {
        1int
    } else {
        0int
    }) + (if !mh && cy == ty {
        1int
    } else {
        0int
    })
}

/// How many corridor-repair rounds are attempted before the generator gives
/// up on randomness and falls back to a fully open floor.
pub const CORRIDOR_SAFETY_CEILING: usize = 10_000;

/// Procedural generation of one floor: rooms are placed and carved, each
/// room beyond the first is populated by the floor's rule, and random
/// L-shaped corridors are carved between room cells until the connectivity
/// check passes.  The repair loop is randomized; a safety ceiling bounds it,
/// past which the floor is opened up entirely — degenerate, but sound.  The
/// result is always connected, its spawn walkable, its enemies well-formed,
/// distinct, and off the spawn.
pub fn generate_dungeon(floor_kind: FloorKind) -> (d: Dungeon)
    ensures
        d.wf(),
        spec_connected(d.tiles@),
        d.floor_kind == floor_kind,
        enemies_ok(d.enemies@, d.tiles@, d.player_spawn),
        border_walled(d.tiles@) || all_open(d.tiles@),
        floor_count(d.tiles@, GRID_AREA as int) <= spec_floor_rooms_area(floor_kind) || all_open(
            d.tiles@,
        ),
{
    let rooms_area = floor_rooms_area(floor_kind);
    let (rooms, spawn) = place_rooms(rooms_area);
    let mut tiles: Vec<Tile> = Vec::new();
    let mut i: usize = 0;
    while i < GRID_AREA
        invariant
            i <= GRID_AREA,
            tiles@.len() == i,
            forall|j: int| 0 <= j < i ==> (#[trigger] tiles@[j]) is Wall,
        decreases GRID_AREA - i,
    {
        tiles.push(Tile::Wall);
        i = i + 1;
    }
    proof {
        lemma_floor_count_none(tiles@, GRID_AREA as int);
        assert forall|c: (usize, usize)|
            in_grid(c) && (c.0 == TILES_HORIZONTAL - 1 || c.1 == TILES_VERTICAL - 1) implies (
        #[trigger] tiles@[idx_spec(c)] is Wall) by {
            crate::grid::lemma_idx_bounds(c);
        };
        assert(border_walled(tiles@));
    }
    let mut positions: Vec<(usize, usize)> = Vec::new();
    let mut ri: usize = 0;
    while ri < rooms.len()
        invariant
            tiles@.len() == GRID_AREA,
            rooms@.len() >= 1,
            forall|j: int| 0 <= j < rooms@.len() ==> room_ok(#[trigger] rooms@[j]),
            spawn == (rooms@[0].0, rooms@[0].1),
            ri <= rooms@.len(),
            border_walled(tiles@),
            floor_count(tiles@, GRID_AREA as int) <= rooms_area_sum(rooms@.take(ri as int)),
            forall|j: int|
                0 <= j < positions@.len() ==> in_grid(#[trigger] positions@[j]) && (
                tiles@[idx_spec(positions@[j])] is Floor),
            ri == 0 ==> positions@.len() == 0,
            ri >= 1 ==> positions@.len() >= 1 && positions@[0] == spawn,
        decreases rooms@.len() - ri,
    {
        let room = rooms[ri];
        let (rx, ry, rw, rh) = room;
        let ghost base_j = floor_count(tiles@, GRID_AREA as int);
        let mut j = rx;
        while j < rx + rw
            invariant
                tiles@.len() == GRID_AREA,
                room_ok((rx, ry, rw, rh)),
                rx <= j <= rx + rw,
                border_walled(tiles@),
                base_j <= rooms_area_sum(rooms@.take(ri as int)),
                floor_count(tiles@, GRID_AREA as int) <= base_j + (j - rx) * rh,
                forall|q: int|
                    0 <= q < positions@.len() ==> in_grid(#[trigger] positions@[q]) && (
                    tiles@[idx_spec(positions@[q])] is Floor),
                ri == 0 && j == rx ==> positions@.len() == 0,
                ri >= 1 ==> positions@.len() >= 1 && positions@[0] == spawn,
                ri == 0 && j > rx ==> positions@.len() >= 1 && positions@[0] == spawn,
                spawn == (rooms@[0].0, rooms@[0].1),
                ri == 0 ==> rx == rooms@[0].0 && ry == rooms@[0].1,
            decreases rx + rw - j,
        {
            let ghost base_k = floor_count(tiles@, GRID_AREA as int);
            let mut k = ry;
            while k < ry + rh
                invariant
                    tiles@.len() == GRID_AREA,
                    room_ok((rx, ry, rw, rh)),
                    rx <= j < rx + rw,
                    ry <= k <= ry + rh,
                    border_walled(tiles@),
                    base_k <= base_j + (j - rx) * rh,
                    base_j <= rooms_area_sum(rooms@.take(ri as int)),
                    floor_count(tiles@, GRID_AREA as int) <= base_k + (k - ry),
                    forall|q: int|
                        0 <= q < positions@.len() ==> in_grid(#[trigger] positions@[q]) && (
                        tiles@[idx_spec(positions@[q])] is Floor),
                    ri == 0 && j == rx && k == ry ==> positions@.len() == 0,
                    ri >= 1 ==> positions@.len() >= 1 && positions@[0] == spawn,
                    ri == 0 && (j > rx || k > ry) ==> positions@.len() >= 1 && positions@[0]
                        == spawn,
                    spawn == (rooms@[0].0, rooms@[0].1),
                    ri == 0 ==> rx == rooms@[0].0 && ry == rooms@[0].1,
                decreases ry + rh - k,
            {
                let ci = tile_index(j, k);
                let ghost before = tiles@;
                let ghost old_positions = positions@;
                positions.push((j, k));
                tiles[ci] = Tile::Floor;
                proof {
                    lemma_floor_count_update(before, tiles@, ci as int, GRID_AREA as int);
                    assert forall|c: (usize, usize)|
                        in_grid(c) && (c.0 == TILES_HORIZONTAL - 1 || c.1 == TILES_VERTICAL
                            - 1) implies (#[trigger] tiles@[idx_spec(c)] is Wall) by {
                        if idx_spec(c) == ci {
                            lemma_idx_injective(c, (j, k));
                            assert(false);
                        } else {
                            assert(before[idx_spec(c)] is Wall);
                        }
                    };
                    assert(positions@[old_positions.len() as int] == (j, k));
                    assert forall|q: int|
                        0 <= q < positions@.len() implies in_grid(#[trigger] positions@[q]) && (
                    tiles@[idx_spec(positions@[q])] is Floor) by {
                        if q < old_positions.len() {
                            assert(old_positions[q] == positions@[q]);
                            assert(before[idx_spec(positions@[q])] is Floor);
                            if idx_spec(positions@[q]) != ci {
                                assert(tiles@[idx_spec(positions@[q])] == before[idx_spec(
                                    positions@[q],
                                )]);
                            }
                        } else {
                            assert(positions@[q] == (j, k));
                        }
                    };
                }
                k = k + 1;
            }
            proof {
                assert((j - rx + 1) * rh == (j - rx) * rh + rh) by (nonlinear_arith);
            }
            j = j + 1;
        }
        proof {
            assert(rooms@.take(ri + 1).drop_last() =~= rooms@.take(ri as int));
            assert(rooms@.take(ri + 1).last() == (rx, ry, rw, rh));
            assert((rx + rw - rx) * rh == rw * rh) by (nonlinear_arith);
        }
        ri = ri + 1;
    }
    proof {
        assert(rooms@.take(rooms@.len() as int) =~= rooms@);
    }
    let mut enemies: Vec<Enemy> = Vec::new();
    let mut ei: usize = 1;
    while ei < rooms.len()
        invariant
            tiles@.len() == GRID_AREA,
            forall|j: int| 0 <= j < rooms@.len() ==> room_ok(#[trigger] rooms@[j]),
            ei <= rooms@.len() || rooms@.len() < 1,
            enemies_ok(enemies@, tiles@, spawn),
        decreases rooms@.len() - ei,
    {
        populate_room(floor_kind, rooms[ei], &tiles, &mut enemies, spawn);
        ei = ei + 1;
    }
    // corridor repair: carve random corridors until the floor is connected
    let mut attempt: usize = 0;
    let mut done = false;
    while !done && attempt < CORRIDOR_SAFETY_CEILING
        invariant
            tiles@.len() == GRID_AREA,
            positions@.len() >= 1,
            positions@[0] == spawn,
            border_walled(tiles@),
            floor_count(tiles@, GRID_AREA as int) <= rooms_area_sum(rooms@),
            rooms_area_sum(rooms@) <= rooms_area,
            rooms_area == 125,
            forall|q: int|
                0 <= q < positions@.len() ==> in_grid(#[trigger] positions@[q]) && (
                tiles@[idx_spec(positions@[q])] is Floor),
            enemies_ok(enemies@, tiles@, spawn),
            done ==> spec_connected(tiles@),
            attempt <= CORRIDOR_SAFETY_CEILING,
        decreases (if done {
            0int
        } else {
            1int
        }) + CORRIDOR_SAFETY_CEILING - attempt,
    {
        let oi = positions[random_below(positions.len())];
        let ti = positions[random_below(positions.len())];
        let (ox, oy) = oi;
        let (tx, ty) = ti;
        let dx = if ox >= tx {
            ox - tx
        } else {
            tx - ox
        };
        let dy = if oy >= ty {
            oy - ty
        } else {
            ty - oy
        };
        let mut moving_horizontal = dx > dy;
        let mut cx = ox;
        let mut cy = oy;
        proof {
            // corridor endpoints are floor cells, so they stay off the
            // walled border
            assert(tiles@[idx_spec((ox, oy))] is Floor);
            assert(tiles@[idx_spec((tx, ty))] is Floor);
            if ox == TILES_HORIZONTAL - 1 || oy == TILES_VERTICAL - 1 {
                assert(tiles@[idx_spec((ox, oy))] is Wall);
            }
            if tx == TILES_HORIZONTAL - 1 || ty == TILES_VERTICAL - 1 {
                assert(tiles@[idx_spec((tx, ty))] is Wall);
            }
        }
        loop
            invariant
                tiles@.len() == GRID_AREA,
                in_grid((cx, cy)),
                in_grid((tx, ty)),
                cx <= TILES_HORIZONTAL - 2 && cy <= TILES_VERTICAL - 2,
                tx <= TILES_HORIZONTAL - 2 && ty <= TILES_VERTICAL - 2,
                border_walled(tiles@),
                floor_count(tiles@, GRID_AREA as int) <= rooms_area_sum(rooms@),
                positions@.len() >= 1,
                positions@[0] == spawn,
                forall|q: int|
                    0 <= q < positions@.len() ==> in_grid(#[trigger] positions@[q]) && (
                    tiles@[idx_spec(positions@[q])] is Floor),
                enemies_ok(enemies@, tiles@, spawn),
            ensures
                tiles@.len() == GRID_AREA,
                positions@.len() >= 1,
                positions@[0] == spawn,
                forall|q: int|
                    0 <= q < positions@.len() ==> in_grid(#[trigger] positions@[q]) && (
                    tiles@[idx_spec(positions@[q])] is Floor),
                enemies_ok(enemies@, tiles@, spawn),
                border_walled(tiles@),
                floor_count(tiles@, GRID_AREA as int) <= rooms_area_sum(rooms@),
            decreases walk_measure(cx, cy, tx, ty, moving_horizontal),
        {
            if cx == tx && cy == ty {
                break ;
            }
            if moving_horizontal {
                if cx == tx {
                    moving_horizontal = false;
                } else if cx < tx {
                    cx = cx + 1;
                } else {
                    cx = cx - 1;
                }
            } else if cy == ty {
                moving_horizontal = true;
            } else if cy < ty {
                cy = cy + 1;
            } else {
                cy = cy - 1;
            }
            if contains_cell(&positions, (cx, cy)) {
                break ;
            }
            let ci = tile_index(cx, cy);
            let ghost before = tiles@;
            tiles[ci] = Tile::Path;
            proof {
                lemma_floor_count_update(before, tiles@, ci as int, GRID_AREA as int);
                assert forall|c: (usize, usize)|
                    in_grid(c) && (c.0 == TILES_HORIZONTAL - 1 || c.1 == TILES_VERTICAL
                        - 1) implies (#[trigger] tiles@[idx_spec(c)] is Wall) by {
                    if idx_spec(c) == ci {
                        lemma_idx_injective(c, (cx, cy));
                        assert(false);
                    } else {
                        assert(before[idx_spec(c)] is Wall);
                    }
                };
                assert forall|q: int|
                    0 <= q < positions@.len() implies in_grid(#[trigger] positions@[q]) && (
                tiles@[idx_spec(positions@[q])] is Floor) by {
                    assert(before[idx_spec(positions@[q])] is Floor);
                    if idx_spec(positions@[q]) == ci {
                        lemma_idx_injective(positions@[q], (cx, cy));
                        assert(positions@.contains(positions@[q]));
                        assert(false);
                    }
                };
                assert forall|k: int|
                    0 <= k < enemies@.len() implies (#[trigger] enemies@[k]).wf() && walkable_at(
                    tiles@,
                    enemies@[k].pos(),
                ) && enemies@[k].pos() != spawn by {
                    assert(walkable_at(before, enemies@[k].pos()));
                };
            }
        }
        if is_all_rooms_connected(&tiles) {
            done = true;
        }
        attempt = attempt + 1;
    }
    if !done {
        // the ceiling was hit: open the whole floor up rather than loop on
        let mut fi: usize = 0;
        while fi < GRID_AREA
            invariant
                fi <= GRID_AREA,
                tiles@.len() == GRID_AREA,
                forall|q: int| 0 <= q < fi ==> (#[trigger] tiles@[q]) is Floor,
            decreases GRID_AREA - fi,
        {
            tiles[fi] = Tile::Floor;
            fi = fi + 1;
        }
        proof {
            assert forall|a: (usize, usize), b: (usize, usize)|
                walkable_at(tiles@, a) && walkable_at(tiles@, b) implies #[trigger] reachable(
                tiles@,
                a,
                b,
            ) by {
                crate::grid::lemma_full_grid_reach(tiles@, a, b);
            };
            crate::grid::lemma_idx_bounds(spawn);
            assert(walkable_at(tiles@, spawn));
            assert(spec_connected(tiles@));
            assert forall|k: int|
                0 <= k < enemies@.len() implies (#[trigger] enemies@[k]).wf() && walkable_at(
                tiles@,
                enemies@[k].pos(),
            ) && enemies@[k].pos() != spawn by {
                crate::grid::lemma_idx_bounds(enemies@[k].pos());
            };
            assert(all_open(tiles@));
        }
    }
    proof {
        crate::grid::lemma_idx_bounds(spawn);
        assert(border_walled(tiles@) || all_open(tiles@));
        assert(floor_count(tiles@, GRID_AREA as int) <= spec_floor_rooms_area(floor_kind)
            || all_open(tiles@));
    }
    let mut d = Dungeon { tiles, player_spawn: spawn, enemies, items: Vec::new(), floor_kind };
    let ghost pre_post = d.tiles@;
    post_generate(&mut d);
    proof {
        // the decoration pass keeps walkability pointwise, so both shapes
        // and the floor budget survive it
        if all_open(pre_post) {
            assert forall|i: int|
                0 <= i < GRID_AREA implies (#[trigger] d.tiles@[i]).spec_walkable() by {
                crate::grid::lemma_cell_of(i);
                assert(walkable_at(pre_post, crate::grid::cell_of(i)));
                assert(walkable_at(d.tiles@, crate::grid::cell_of(i)));
            };
            assert(all_open(d.tiles@));
        } else {
            assert forall|c: (usize, usize)|
                in_grid(c) && (c.0 == TILES_HORIZONTAL - 1 || c.1 == TILES_VERTICAL - 1) implies (
            #[trigger] d.tiles@[idx_spec(c)] is Wall) by {
                crate::grid::lemma_idx_bounds(c);
                assert(pre_post[idx_spec(c)] is Wall);
                assert(!walkable_at(pre_post, c));
                assert(!walkable_at(d.tiles@, c));
            };
            assert(border_walled(d.tiles@));
        }
    }
    d
}

/// Scatter one vein of containers along a drunkard's walk from a random
/// floor cell.  Only walkable cells are overwritten, with walkable chest
/// tiles, so which cells are walkable does not change.
fn place_vein(d: &mut Dungeon, kind: LootKind, budget: usize)
    requires
        old(d).wf(),
    ensures
        final(d).wf(),
        forall|c: (usize, usize)| (walkable_at(final(d).tiles@, c) == walkable_at(old(d).tiles@, c)),
        floor_count(final(d).tiles@, GRID_AREA as int) <= floor_count(
            old(d).tiles@,
            GRID_AREA as int,
        ),
        final(d).enemies == old(d).enemies,
        final(d).player_spawn == old(d).player_spawn,
        final(d).items == old(d).items,
        final(d).floor_kind == old(d).floor_kind,
{
    let ws = get_walkables(&d.tiles);
    if ws.len() == 0 {
        return ;
    }
    let start_i = ws[random_below(ws.len())];
    let sx = start_i % TILES_HORIZONTAL;
    let sy = start_i / TILES_HORIZONTAL;
    proof {
        crate::grid::lemma_cell_of(start_i as int);
    }
    let cells = drunkards_walk(d, (sx, sy), budget);
    let ghost t0 = d.tiles@;
    let mut ci: usize = 0;
    while ci < cells.len()
        invariant
            old(d).wf(),
            d.tiles@.len() == GRID_AREA,
            ci <= cells@.len(),
            forall|j: int| 0 <= j < cells@.len() ==> walkable_at(t0, #[trigger] cells@[j]),
            t0 == old(d).tiles@,
            forall|c: (usize, usize)| (walkable_at(d.tiles@, c) == walkable_at(t0, c)),
            floor_count(d.tiles@, GRID_AREA as int) <= floor_count(t0, GRID_AREA as int),
            d.enemies == old(d).enemies,
            d.player_spawn == old(d).player_spawn,
            d.items == old(d).items,
            d.floor_kind == old(d).floor_kind,
            d.wf(),
        decreases cells@.len() - ci,
    {
        let c = cells[ci];
        let ti = tile_index(c.0, c.1);
        let ghost before = d.tiles@;
        d.tiles[ti] = Tile::Chest(kind);
        proof {
            lemma_floor_count_update(before, d.tiles@, ti as int, GRID_AREA as int);
            assert forall|c2: (usize, usize)|
                walkable_at(d.tiles@, c2) == walkable_at(t0, c2) by {
                if in_grid(c2) && idx_spec(c2) == ti {
                    assert(walkable_at(t0, c));
                } else {
                    assert(walkable_at(d.tiles@, c2) == walkable_at(before, c2));
                }
            };
            assert(walkable_at(d.tiles@, d.player_spawn));
            assert forall|k: int|
                0 <= k < d.enemies@.len() implies (#[trigger] d.enemies@[k]).wf() && walkable_at(
                d.tiles@,
                d.enemies@[k].pos(),
            ) by {
                assert(walkable_at(t0, d.enemies@[k].pos()));
            };
        }
        ci = ci + 1;
    }
}

/// Wake a few bats onto random free floor cells; the second floor's extra
/// population rule.
fn place_bats(d: &mut Dungeon)
    requires
        old(d).wf(),
        enemies_ok(old(d).enemies@, old(d).tiles@, old(d).player_spawn),
    ensures
        final(d).wf(),
        enemies_ok(final(d).enemies@, final(d).tiles@, final(d).player_spawn),
        final(d).tiles == old(d).tiles,
        final(d).player_spawn == old(d).player_spawn,
        final(d).items == old(d).items,
        final(d).floor_kind == old(d).floor_kind,
{
    let amt = random_below(4);
    let mut b: usize = 0;
    while b < amt
        invariant
            b <= amt,
            d.tiles == old(d).tiles,
            d.tiles@.len() == GRID_AREA,
            d.player_spawn == old(d).player_spawn,
            d.items == old(d).items,
            d.floor_kind == old(d).floor_kind,
            d.wf(),
            enemies_ok(d.enemies@, d.tiles@, d.player_spawn),
        decreases amt - b,
    {
        let ws = get_walkables(&d.tiles);
        if ws.len() > 0 {
            let wi = ws[random_below(ws.len())];
            let x = wi % TILES_HORIZONTAL;
            let y = wi / TILES_HORIZONTAL;
            proof {
                crate::grid::lemma_cell_of(wi as int);
            }
            if !enemy_on(&d.enemies, (x, y)) && !(x == d.player_spawn.0 && y
                == d.player_spawn.1) {
                let ghost before = d.enemies@;
                d.enemies.push(Enemy::new(x, y, EnemyKind::Bat));
                proof {
                    assert(d.enemies@[before.len() as int].pos() == (x, y));
                    assert forall|k: int, l: int|
                        0 <= k < l < d.enemies@.len() implies (#[trigger] d.enemies@[k]).pos() != (
                    #[trigger] d.enemies@[l]).pos() by {
                        if l < before.len() {
                            assert(before[k].pos() != before[l].pos());
                        }
                    };
                }
            }
        }
        b = b + 1;
    }
}

/// The floor's decoration pass: bush veins, sometimes a mushroom vein, a
/// few rocks on the ground, the second floor's bats, and finally the exit
/// door, placed last so it can avoid every enemy.  None of it changes which
/// cells are walkable, so the connectivity guarantee survives.
fn post_generate(d: &mut Dungeon)
    requires
        old(d).wf(),
        enemies_ok(old(d).enemies@, old(d).tiles@, old(d).player_spawn),
        spec_connected(old(d).tiles@),
    ensures
        final(d).wf(),
        spec_connected(final(d).tiles@),
        enemies_ok(final(d).enemies@, final(d).tiles@, final(d).player_spawn),
        final(d).player_spawn == old(d).player_spawn,
        final(d).floor_kind == old(d).floor_kind,
        forall|c: (usize, usize)| (walkable_at(final(d).tiles@, c) == walkable_at(old(d).tiles@, c)),
        floor_count(final(d).tiles@, GRID_AREA as int) <= floor_count(
            old(d).tiles@,
            GRID_AREA as int,
        ),
{
    let ghost t0 = d.tiles@;
    place_vein(d, LootKind::Bush, 5);
    place_vein(d, LootKind::Bush, 5);
    if random_below(10) < 4 {
        place_vein(d, LootKind::Mushroom, 3);
    }
    proof {
        assert(enemies_ok(d.enemies@, d.tiles@, d.player_spawn)) by {
            assert forall|k: int|
                0 <= k < d.enemies@.len() implies (#[trigger] d.enemies@[k]).wf() && walkable_at(
                d.tiles@,
                d.enemies@[k].pos(),
            ) && d.enemies@[k].pos() != d.player_spawn by {
                assert(walkable_at(t0, d.enemies@[k].pos()));
            };
        };
    }
    let rocks = 3 + random_below(3);
    let mut r: usize = 0;
    while r < rocks
        invariant
            r <= rocks,
            d.wf(),
            d.tiles@.len() == GRID_AREA,
            forall|c: (usize, usize)| (walkable_at(d.tiles@, c) == walkable_at(t0, c)),
            floor_count(d.tiles@, GRID_AREA as int) <= floor_count(t0, GRID_AREA as int),
            enemies_ok(d.enemies@, d.tiles@, d.player_spawn),
            d.player_spawn == old(d).player_spawn,
            d.floor_kind == old(d).floor_kind,
        decreases rocks - r,
    {
        let ws = get_walkables(&d.tiles);
        if ws.len() > 0 {
            let wi = ws[random_below(ws.len())];
            let x = wi % TILES_HORIZONTAL;
            let y = wi / TILES_HORIZONTAL;
            d.items.push((x, y, Item::Misc(crate::items::MiscKind::Stone)));
        }
        r = r + 1;
    }
    if matches!(d.floor_kind, FloorKind::Second) {
        place_bats(d);
    }
    let ghost t1 = d.tiles@;
    place_random_door(d);
    proof {
        assert forall|c: (usize, usize)| (walkable_at(d.tiles@, c) == walkable_at(t0, c)) by {
            assert(walkable_at(d.tiles@, c) == walkable_at(t1, c));
        };
        crate::grid::lemma_connected_pointwise(t0, d.tiles@);
        assert(enemies_ok(d.enemies@, d.tiles@, d.player_spawn)) by {
            assert forall|k: int|
                0 <= k < d.enemies@.len() implies (#[trigger] d.enemies@[k]).wf() && walkable_at(
                d.tiles@,
                d.enemies@[k].pos(),
            ) && d.enemies@[k].pos() != d.player_spawn by {
                assert(walkable_at(t1, d.enemies@[k].pos()));
            };
        };
    }
}

/// Tile a layout pixel decodes to, by exact color match on its RGB part:
/// white and the spawn/enemy colors are floor, two special colors are a
/// chest and an ore vein, everything else is wall.
pub open spec fn decode_tile(p: (u8, u8, u8, u8)) -> Tile {
    if p.0 == 255 && p.1 == 255 && p.2 == 255 {
        Tile::Floor
    } else if p.0 == 0 && p.1 == 0 && p.2 == 255 {
        Tile::Floor
    } else if decode_enemy(p) is Some {
        Tile::Floor
    } else if p.0 == 255 && p.1 == 0 && p.2 == 100 {
        Tile::Chest(LootKind::Mushroom)
    } else if p.0 == 225 && p.1 == 150 && p.2 == 100 {
        Tile::Ore(LootKind::Iron)
    } else {
        Tile::Wall
    }
}

/// The enemy kind a layout pixel spawns, if any.
pub open spec fn decode_enemy(p: (u8, u8, u8, u8)) -> Option<EnemyKind> {
    if p.0 == 0 && p.1 == 255 && p.2 == 0 {
        Some(EnemyKind::Zombie)
    } else if p.0 == 0 && p.1 == 0 && p.2 == 50 {
        Some(EnemyKind::Spider)
    } else if p.0 == 220 && p.1 == 220 && p.2 == 0 {
        Some(EnemyKind::Skeleton)
    } else if p.0 == 200 && p.1 == 0 && p.2 == 255 {
        Some(EnemyKind::Wizard)
    } else if p.0 == 255 && p.1 == 0 && p.2 == 255 {
        Some(EnemyKind::SuperWizard)
    } else {
        None
    }
}

/// Whether a layout pixel marks the player spawn.
pub open spec fn is_spawn_px(p: (u8, u8, u8, u8)) -> bool {
    p.0 == 0 && p.1 == 0 && p.2 == 255
}

impl Dungeon {
    /// Decode a fixed pixel layout into a floor: each pixel maps by exact
    /// color to a tile, the enemy colors also spawn their enemy, and the
    /// last spawn-colored pixel places the player.  Returns `None` exactly
    /// when no pixel marks a spawn; a decoded floor is well-formed, with
    /// every enemy pixel matched by an enemy and every enemy standing on an
    /// enemy pixel.
    pub fn load_from_file(pixels: &Vec<(u8, u8, u8, u8)>) -> (r: Option<Dungeon>)
        requires
            pixels@.len() == GRID_AREA,
        ensures
            r is Some <==> exists|i: int| 0 <= i < GRID_AREA && is_spawn_px(#[trigger] pixels@[i]),
            r matches Some(d) ==> {
                &&& d.wf()
                &&& d.tiles@.len() == GRID_AREA
                &&& (forall|i: int| 0 <= i < GRID_AREA ==> d.tiles@[i] == decode_tile(#[trigger] pixels@[i]))
                &&& is_spawn_px(pixels@[idx_spec(d.player_spawn)])
                &&& (forall|i: int|
                    idx_spec(d.player_spawn) < i < GRID_AREA ==> !is_spawn_px(#[trigger] pixels@[i]))
                &&& (forall|k: int|
                    0 <= k < d.enemies@.len() ==> decode_enemy(
                        pixels@[idx_spec((#[trigger] d.enemies@[k]).pos())],
                    ) == Some(d.enemies@[k].kind))
                &&& (forall|i: int|
                    0 <= i < GRID_AREA && decode_enemy(#[trigger] pixels@[i]) is Some ==> exists|k: int|
                        0 <= k < d.enemies@.len() && idx_spec((#[trigger] d.enemies@[k]).pos()) == i)
                &&& (forall|k: int|
                    0 <= k < d.enemies@.len() ==> (#[trigger] d.enemies@[k]).health
                        == spec_enemy_max_health(d.enemies@[k].kind) && !d.enemies@[k].awake
                        && !d.enemies@[k].just_awoke && !d.enemies@[k].was_damaged && (
                    d.enemies@[k].current_action is None))
                &&& (forall|k: int, l: int|
                    0 <= k < l < d.enemies@.len() ==> idx_spec((#[trigger] d.enemies@[k]).pos())
                        < idx_spec((#[trigger] d.enemies@[l]).pos()))
                &&& d.items@.len() == 0
                &&& d.floor_kind == FloorKind::First
            },
    {
        let mut tiles: Vec<Tile> = Vec::new();
        let mut enemies: Vec<Enemy> = Vec::new();
        let mut spawn_idx: Option<usize> = None;
        let mut i: usize = 0;
        while i < GRID_AREA
            invariant
                pixels@.len() == GRID_AREA,
                i <= GRID_AREA,
                tiles@.len() == i,
                forall|j: int| 0 <= j < i ==> tiles@[j] == decode_tile(#[trigger] pixels@[j]),
                match spawn_idx {
                    Some(si) => si < i && is_spawn_px(pixels@[si as int]) && (forall|j: int|
                        si < j < i ==> !is_spawn_px(#[trigger] pixels@[j])),
                    None => forall|j: int| 0 <= j < i ==> !is_spawn_px(#[trigger] pixels@[j]),
                },
                forall|k: int|
                    0 <= k < enemies@.len() ==> (#[trigger] enemies@[k]).wf() && idx_spec(
                        enemies@[k].pos(),
                    ) < i && decode_enemy(pixels@[idx_spec(enemies@[k].pos())]) == Some(
                        enemies@[k].kind,
                    ) && (tiles@[idx_spec(enemies@[k].pos())] is Floor),
                forall|k: int|
                    0 <= k < enemies@.len() ==> (#[trigger] enemies@[k]).health
                        == spec_enemy_max_health(enemies@[k].kind) && !enemies@[k].awake
                        && !enemies@[k].just_awoke && !enemies@[k].was_damaged && (
                    enemies@[k].current_action is None),
                forall|k: int, l: int|
                    0 <= k < l < enemies@.len() ==> idx_spec((#[trigger] enemies@[k]).pos())
                        < idx_spec((#[trigger] enemies@[l]).pos()),
                forall|j: int|
                    0 <= j < i && decode_enemy(#[trigger] pixels@[j]) is Some ==> exists|k: int|
                        0 <= k < enemies@.len() && idx_spec((#[trigger] enemies@[k]).pos()) == j,
            decreases GRID_AREA - i,
        {
            let p = pixels[i];
            let x = i % TILES_HORIZONTAL;
            let y = i / TILES_HORIZONTAL;
            proof {
                crate::grid::lemma_cell_of(i as int);
            }
            let ghost old_enemies = enemies@;
            let mut tile = Tile::Wall;
            if p.0 == 255 && p.1 == 255 && p.2 == 255 {
                tile = Tile::Floor;
            } else if p.0 == 0 && p.1 == 0 && p.2 == 255 {
                tile = Tile::Floor;
                spawn_idx = Some(i);
            } else if p.0 == 0 && p.1 == 255 && p.2 == 0 {
                tile = Tile::Floor;
                enemies.push(Enemy::new(x, y, EnemyKind::Zombie));
            } else if p.0 == 0 && p.1 == 0 && p.2 == 50 {
                tile = Tile::Floor;
                enemies.push(Enemy::new(x, y, EnemyKind::Spider));
            } else if p.0 == 220 && p.1 == 220 && p.2 == 0 {
                tile = Tile::Floor;
                enemies.push(Enemy::new(x, y, EnemyKind::Skeleton));
            } else if p.0 == 200 && p.1 == 0 && p.2 == 255 {
                tile = Tile::Floor;
                enemies.push(Enemy::new(x, y, EnemyKind::Wizard));
            } else if p.0 == 255 && p.1 == 0 && p.2 == 255 {
                tile = Tile::Floor;
                enemies.push(Enemy::new(x, y, EnemyKind::SuperWizard));
            } else if p.0 == 255 && p.1 == 0 && p.2 == 100 {
                tile = Tile::Chest(LootKind::Mushroom);
            } else if p.0 == 225 && p.1 == 150 && p.2 == 100 {
                tile = Tile::Ore(LootKind::Iron);
            }
            tiles.push(tile);
            proof {
                if enemies@.len() > old_enemies.len() {
                    assert(enemies@[old_enemies.len() as int].pos() == (x, y));
                    assert(idx_spec((x, y)) == i);
                }
                assert forall|k: int|
                    0 <= k < enemies@.len() implies (#[trigger] enemies@[k]).wf() && idx_spec(
                    enemies@[k].pos(),
                ) < i + 1 && decode_enemy(pixels@[idx_spec(enemies@[k].pos())]) == Some(
                    enemies@[k].kind,
                ) && (tiles@[idx_spec(enemies@[k].pos())] is Floor) && enemies@[k].health
                    == spec_enemy_max_health(enemies@[k].kind) && !enemies@[k].awake
                    && !enemies@[k].just_awoke && !enemies@[k].was_damaged && (
                enemies@[k].current_action is None) by {
                    if k < old_enemies.len() {
                        assert(old_enemies[k] == enemies@[k]);
                    }
                };
                assert forall|j: int|
                    0 <= j < i + 1 && decode_enemy(#[trigger] pixels@[j]) is Some implies exists|k: int|
                    0 <= k < enemies@.len() && idx_spec((#[trigger] enemies@[k]).pos()) == j by {
                    if j < i {
                        let k0 = choose|k: int|
                            0 <= k < old_enemies.len() && idx_spec(
                                (#[trigger] old_enemies[k]).pos(),
                            ) == j;
                        assert(enemies@[k0] == old_enemies[k0]);
                        assert(idx_spec(enemies@[k0].pos()) == j);
                    } else {
                        assert(enemies@.len() > old_enemies.len());
                        assert(idx_spec(enemies@[old_enemies.len() as int].pos()) == i);
                    }
                };
            }
            i = i + 1;
        }
        let si = match spawn_idx {
            Some(si) => si,
            None => {
                return None;
            },
        };
        let sx = si % TILES_HORIZONTAL;
        let sy = si / TILES_HORIZONTAL;
        proof {
            crate::grid::lemma_cell_of(si as int);
            assert(idx_spec((sx, sy)) == si);
            assert(tiles@[si as int] == decode_tile(pixels@[si as int]));
            assert forall|k: int, l: int|
                0 <= k < l < enemies@.len() implies (#[trigger] enemies@[k]).pos() != (
            #[trigger] enemies@[l]).pos() by {
                assert(idx_spec(enemies@[k].pos()) < idx_spec(enemies@[l].pos()));
            };
            assert forall|k: int|
                0 <= k < enemies@.len() implies walkable_at(tiles@, (#[trigger] enemies@[k]).pos()) by {
                assert(tiles@[idx_spec(enemies@[k].pos())] is Floor);
            };
        }
        Some(
            Dungeon {
                tiles,
                player_spawn: (sx, sy),
                enemies,
                items: Vec::new(),
                floor_kind: FloorKind::First,
            },
        )
    }
}

} // verus!
