use vstd::prelude::*;

use crate::loot::LootKind;
use crate::{GRID_AREA, TILES_HORIZONTAL, TILES_VERTICAL};

verus! {

/// Terrain of one grid cell.  Walkability is derived from the tag, never
/// stored, so it cannot drift out of step with it.
#[derive(Clone, Copy, PartialEq, Eq, Structural, Debug)]
pub enum Tile {
    Wall,
    Floor,
    Path,
    Door,
    Chest(LootKind),
    Ore(LootKind),
    Detail,
}

impl Tile {
    /// Every tile but a wall can be stood on and seen through.
    pub open spec fn spec_walkable(self) -> bool {
        !(self is Wall)
    }

    pub fn is_walkable(self) -> (r: bool)
        ensures
            r == self.spec_walkable(),
    {
        !matches!(self, Tile::Wall)
    }
}

/// Whether a cell lies on the grid.
pub open spec fn in_grid(c: (usize, usize)) -> bool {
    c.0 < TILES_HORIZONTAL && c.1 < TILES_VERTICAL
}

/// Index of a cell in the flat tile array.
pub open spec fn idx_spec(c: (usize, usize)) -> int {
    c.0 + c.1 * TILES_HORIZONTAL
}

/// The cell a flat index denotes.
pub open spec fn cell_of(i: int) -> (usize, usize) {
    (((i % (TILES_HORIZONTAL as int)) as usize), ((i / (TILES_HORIZONTAL as int)) as usize))
}

pub proof fn lemma_idx_bounds(c: (usize, usize))
    requires
        in_grid(c),
    ensures
        0 <= idx_spec(c) < GRID_AREA,
{
}

pub proof fn lemma_idx_injective(a: (usize, usize), b: (usize, usize))
    requires
        in_grid(a),
        in_grid(b),
        idx_spec(a) == idx_spec(b),
    ensures
        a == b,
{
}

pub proof fn lemma_cell_of(i: int)
    requires
        0 <= i < GRID_AREA,
    ensures
        in_grid(cell_of(i)),
        idx_spec(cell_of(i)) == i,
{
    assert(0 <= i % 32 < 32 && i == 32 * (i / 32) + i % 32) by (nonlinear_arith)
        requires
            0 <= i,
    ;
    assert(0 <= i / 32 < 18) by (nonlinear_arith)
        requires
            0 <= i < 576,
    ;
}

/// Whether the cell is on the grid and its tile can be stood on.
pub open spec fn walkable_at(t: Seq<Tile>, c: (usize, usize)) -> bool {
    in_grid(c) && t[idx_spec(c)].spec_walkable()
}

/// Four-directional adjacency of two cells.
pub open spec fn adjacent(a: (usize, usize), b: (usize, usize)) -> bool {
    (a.0 == b.0 && (a.1 + 1 == b.1 || b.1 + 1 == a.1)) || (a.1 == b.1 && (a.0 + 1 == b.0 || b.0
        + 1 == a.0))
}

/// A walk across walkable cells: non-empty, step-adjacent, from `a` to `b`.
pub open spec fn is_path(t: Seq<Tile>, p: Seq<(usize, usize)>, a: (usize, usize), b: (usize, usize)) -> bool {
    &&& p.len() >= 1
    &&& p[0] == a
    &&& p[p.len() - 1] == b
    &&& forall|i: int| 0 <= i < p.len() ==> walkable_at(t, #[trigger] p[i])
    &&& forall|i: int| 0 <= i < p.len() - 1 ==> adjacent(#[trigger] p[i], p[i + 1])
}

/// Whether `b` can be reached from `a` over walkable cells.
pub open spec fn reachable(t: Seq<Tile>, a: (usize, usize), b: (usize, usize)) -> bool {
    exists|p: Seq<(usize, usize)>| is_path(t, p, a, b)
}

/// The connectivity property the generator guarantees: the grid has at least
/// one walkable cell, and every walkable cell reaches every other.
pub open spec fn spec_connected(t: Seq<Tile>) -> bool {
    &&& exists|c: (usize, usize)| walkable_at(t, c)
    &&& forall|a: (usize, usize), b: (usize, usize)|
        walkable_at(t, a) && walkable_at(t, b) ==> #[trigger] reachable(t, a, b)
}

pub proof fn lemma_reach_refl(t: Seq<Tile>, c: (usize, usize))
    requires
        walkable_at(t, c),
    ensures
        reachable(t, c, c),
{
    let p: Seq<(usize, usize)> = seq![c];
    assert(is_path(t, p, c, c));
}

/// Reachability extends along one adjacent walkable step.
pub proof fn lemma_reach_step(t: Seq<Tile>, a: (usize, usize), b: (usize, usize), d: (usize, usize))
    requires
        reachable(t, a, b),
        adjacent(b, d),
        walkable_at(t, d),
    ensures
        reachable(t, a, d),
{
    let p = choose|p: Seq<(usize, usize)>| is_path(t, p, a, b);
    let q = p.push(d);
    assert(is_path(t, q, a, d)) by {
        assert(q.len() == p.len() + 1);
        assert(q[q.len() - 1] == d);
        assert(q[0] == p[0]);
        assert forall|i: int| 0 <= i < q.len() implies walkable_at(t, #[trigger] q[i]) by {
            if i < p.len() {
                assert(q[i] == p[i]);
            }
        };
        assert forall|i: int| 0 <= i < q.len() - 1 implies adjacent(#[trigger] q[i], q[i + 1]) by {
            if i < p.len() - 1 {
                assert(q[i] == p[i] && q[i + 1] == p[i + 1]);
            } else {
                assert(q[i] == p[p.len() - 1] && q[i + 1] == d);
            }
        };
    };
}

/// Reachability is symmetric: a walk reverses step by step.
pub proof fn lemma_reach_symm(t: Seq<Tile>, a: (usize, usize), b: (usize, usize))
    requires
        reachable(t, a, b),
    ensures
        reachable(t, b, a),
{
    let p = choose|p: Seq<(usize, usize)>| is_path(t, p, a, b);
    let n = p.len() as int;
    let q = Seq::new(p.len(), |i: int| p[n - 1 - i]);
    assert(is_path(t, q, b, a)) by {
        assert(q[0] == p[n - 1]);
        assert(q[n - 1] == p[0]);
        assert forall|i: int| 0 <= i < n - 1 implies adjacent(#[trigger] q[i], q[i + 1]) by {
            assert(q[i] == p[n - 1 - i] && q[i + 1] == p[n - 2 - i]);
            assert(adjacent(p[n - 2 - i], p[n - 1 - i]));
        };
    };
}

/// Reachability is transitive: two walks concatenate.
pub proof fn lemma_reach_trans(t: Seq<Tile>, a: (usize, usize), b: (usize, usize), c: (usize, usize))
    requires
        reachable(t, a, b),
        reachable(t, b, c),
    ensures
        reachable(t, a, c),
{
    let p1 = choose|p: Seq<(usize, usize)>| is_path(t, p, a, b);
    let p2 = choose|p: Seq<(usize, usize)>| is_path(t, p, b, c);
    if p2.len() == 1 {
        assert(is_path(t, p1, a, c));
    } else {
        let q = p1 + p2.subrange(1, p2.len() as int);
        let n1 = p1.len() as int;
        let n2 = p2.len() as int;
        assert(is_path(t, q, a, c)) by {
            assert(q.len() == n1 + n2 - 1);
            assert(q[0] == p1[0]);
            assert(q[q.len() - 1] == p2[n2 - 1]);
            assert forall|i: int| 0 <= i < q.len() implies walkable_at(t, #[trigger] q[i]) by {
                if i < n1 {
                    assert(q[i] == p1[i]);
                } else {
                    assert(q[i] == p2[i - n1 + 1]);
                }
            };
            assert forall|i: int| 0 <= i < q.len() - 1 implies adjacent(#[trigger] q[i], q[i + 1]) by {
                if i < n1 - 1 {
                    assert(q[i] == p1[i] && q[i + 1] == p1[i + 1]);
                } else if i == n1 - 1 {
                    assert(q[i] == p1[n1 - 1]);
                    assert(q[i + 1] == p2[1]);
                    assert(adjacent(p2[0], p2[1]));
                } else {
                    assert(q[i] == p2[i - n1 + 1] && q[i + 1] == p2[i - n1 + 2]);
                    assert(adjacent(p2[i - n1 + 1], p2[i - n1 + 2]));
                }
            };
        };
    }
}

/// Connectivity depends only on which cells are walkable, so decorating a
/// grid — doors, chests, details on already walkable cells — cannot break
/// it.
pub proof fn lemma_connected_pointwise(t1: Seq<Tile>, t2: Seq<Tile>)
    requires
        forall|c: (usize, usize)| walkable_at(t1, c) == walkable_at(t2, c),
    ensures
        spec_connected(t1) == spec_connected(t2),
{
    assert forall|a: (usize, usize), b: (usize, usize)| #[trigger]
        reachable(t1, a, b) implies reachable(t2, a, b) by {
        let p = choose|p: Seq<(usize, usize)>| is_path(t1, p, a, b);
        assert forall|i: int| 0 <= i < p.len() implies walkable_at(t2, #[trigger] p[i]) by {
            assert(walkable_at(t1, p[i]));
        };
        assert(is_path(t2, p, a, b));
    };
    assert forall|a: (usize, usize), b: (usize, usize)| #[trigger]
        reachable(t2, a, b) implies reachable(t1, a, b) by {
        let p = choose|p: Seq<(usize, usize)>| is_path(t2, p, a, b);
        assert forall|i: int| 0 <= i < p.len() implies walkable_at(t1, #[trigger] p[i]) by {
            assert(walkable_at(t2, p[i]));
        };
        assert(is_path(t1, p, a, b));
    };
    if spec_connected(t1) {
        let c = choose|c: (usize, usize)| walkable_at(t1, c);
        assert(walkable_at(t2, c));
        assert forall|a: (usize, usize), b: (usize, usize)|
            walkable_at(t2, a) && walkable_at(t2, b) implies #[trigger] reachable(t2, a, b) by {
            assert(walkable_at(t1, a) && walkable_at(t1, b));
            assert(reachable(t1, a, b));
        };
        assert(spec_connected(t2));
    }
    if spec_connected(t2) {
        let c = choose|c: (usize, usize)| walkable_at(t2, c);
        assert(walkable_at(t1, c));
        assert forall|a: (usize, usize), b: (usize, usize)|
            walkable_at(t1, a) && walkable_at(t1, b) implies #[trigger] reachable(t1, a, b) by {
            assert(walkable_at(t2, a) && walkable_at(t2, b));
            assert(reachable(t2, a, b));
        };
        assert(spec_connected(t1));
    }
}


/// The connectivity invariant, spelled out: on a connected grid a
/// flood-fill from any walkable cell reaches every walkable cell.
pub proof fn lemma_connected_all_pairs(t: Seq<Tile>, a: (usize, usize), b: (usize, usize))
    requires
        spec_connected(t),
        walkable_at(t, a),
        walkable_at(t, b),
    ensures
        reachable(t, a, b),
{
}

/// On a grid whose every cell is walkable, every pair of cells is
/// connected: a walk can step coordinate-wise toward its goal.
pub proof fn lemma_full_grid_reach(t: Seq<Tile>, a: (usize, usize), b: (usize, usize))
    requires
        t.len() == GRID_AREA,
        forall|i: int| 0 <= i < GRID_AREA ==> (#[trigger] t[i]).spec_walkable(),
        in_grid(a),
        in_grid(b),
    ensures
        reachable(t, a, b),
    decreases manhattan(a, b),
{
    lemma_idx_bounds(a);
    lemma_idx_bounds(b);
    if a == b {
        lemma_reach_refl(t, a);
    } else {
        let c: (usize, usize) = if a.0 < b.0 {
            ((b.0 - 1) as usize, b.1)
        } else if a.0 > b.0 {
            ((b.0 + 1) as usize, b.1)
        } else if a.1 < b.1 {
            (b.0, (b.1 - 1) as usize)
        } else {
            (b.0, (b.1 + 1) as usize)
        };
        assert(in_grid(c));
        assert(adjacent(c, b));
        assert(manhattan(a, c) < manhattan(a, b));
        lemma_full_grid_reach(t, a, c);
        lemma_idx_bounds(c);
        lemma_reach_step(t, a, c, b);
    }
}

/// Number of plain floor tiles among the first `n` entries.
pub open spec fn floor_count(t: Seq<Tile>, n: int) -> int
    decreases n,
{
    if n <= 0 {
        0
    } else {
        floor_count(t, n - 1) + if t[n - 1] is Floor {
            1int
        } else {
            0int
        }
    }
}

/// Changing one cell changes the floor count by that cell's contribution.
pub proof fn lemma_floor_count_update(t1: Seq<Tile>, t2: Seq<Tile>, w: int, n: int)
    requires
        0 <= w < t1.len(),
        0 <= n <= t1.len(),
        t2.len() == t1.len(),
        forall|j: int| 0 <= j < t1.len() && j != w ==> t2[j] == t1[j],
    ensures
        w < n ==> floor_count(t2, n) == floor_count(t1, n) - (if t1[w] is Floor {
            1int
        } else {
            0int
        }) + (if t2[w] is Floor {
            1int
        } else {
            0int
        }),
        w >= n ==> floor_count(t2, n) == floor_count(t1, n),
    decreases n,
{
    if n > 0 {
        lemma_floor_count_update(t1, t2, w, n - 1);
    }
}

/// A prefix with no floor tiles counts none.
pub proof fn lemma_floor_count_none(t: Seq<Tile>, n: int)
    requires
        0 <= n,
        forall|j: int| 0 <= j < n ==> !((#[trigger] t[j]) is Floor),
    ensures
        floor_count(t, n) == 0,
    decreases n,
{
    if n > 0 {
        lemma_floor_count_none(t, n - 1);
    }
}

/// Whether the grid's last column and last row are all wall.
pub open spec fn border_walled(t: Seq<Tile>) -> bool {
    forall|c: (usize, usize)|
        in_grid(c) && (c.0 == TILES_HORIZONTAL - 1 || c.1 == TILES_VERTICAL - 1) ==> (#[trigger] t[idx_spec(c)] is Wall)
}

/// Whether every cell of the grid is walkable: the degenerate but sound
/// layout the generator's safety fallback produces.
pub open spec fn all_open(t: Seq<Tile>) -> bool {
    forall|i: int| 0 <= i < GRID_AREA ==> (#[trigger] t[i]).spec_walkable()
}

/// Number of walkable tiles among the first `n` entries.
pub open spec fn walk_count(t: Seq<Tile>, n: int) -> int
    decreases n,
{
    if n <= 0 {
        0
    } else {
        walk_count(t, n - 1) + if t[n - 1].spec_walkable() {
            1int
        } else {
            0int
        }
    }
}

/// Number of `true` entries among the first `n`.
pub open spec fn true_count(m: Seq<bool>, n: int) -> int
    decreases n,
{
    if n <= 0 {
        0
    } else {
        true_count(m, n - 1) + if m[n - 1] {
            1int
        } else {
            0int
        }
    }
}

/// A marking that only marks walkable tiles marks at most as many.
proof fn lemma_count_le(t: Seq<Tile>, m: Seq<bool>, n: int)
    requires
        forall|i: int| 0 <= i < n && m[i] ==> t[i].spec_walkable(),
    ensures
        true_count(m, n) <= walk_count(t, n),
    decreases n,
{
    if n > 0 {
        lemma_count_le(t, m, n - 1);
    }
}

/// If such a marking reaches the full walkable count, it covers every
/// walkable tile.
proof fn lemma_count_eq_covers(t: Seq<Tile>, m: Seq<bool>, n: int)
    requires
        forall|i: int| 0 <= i < n && m[i] ==> t[i].spec_walkable(),
        true_count(m, n) == walk_count(t, n),
    ensures
        forall|i: int| 0 <= i < n && t[i].spec_walkable() ==> m[i],
    decreases n,
{
    if n > 0 {
        lemma_count_le(t, m, n - 1);
        lemma_count_eq_covers(t, m, n - 1);
    }
}

/// If the counts differ, some walkable tile was left unmarked.
proof fn lemma_count_lt_misses(t: Seq<Tile>, m: Seq<bool>, n: int) -> (j: int)
    requires
        forall|i: int| 0 <= i < n && m[i] ==> t[i].spec_walkable(),
        true_count(m, n) < walk_count(t, n),
    ensures
        0 <= j < n,
        t[j].spec_walkable(),
        !m[j],
    decreases n,
{
    if true_count(m, n - 1) < walk_count(t, n - 1) {
        lemma_count_lt_misses(t, m, n - 1)
    } else {
        n - 1
    }
}

/// Every cell a closed marking misses is unreachable from its marked seed:
/// walks cannot leave a marking that is closed under adjacency.
proof fn lemma_closed_reach(
    t: Seq<Tile>,
    m: Seq<bool>,
    start: (usize, usize),
    p: Seq<(usize, usize)>,
    c: (usize, usize),
)
    requires
        in_grid(start),
        m[idx_spec(start)],
        forall|e: (usize, usize), d: (usize, usize)|
            in_grid(e) && #[trigger] m[idx_spec(e)] && #[trigger] adjacent(e, d) && walkable_at(
                t,
                d,
            ) ==> m[idx_spec(d)],
        is_path(t, p, start, c),
    ensures
        m[idx_spec(c)],
    decreases p.len(),
{
    if p.len() == 1 {
        assert(c == start);
    } else {
        let n = p.len() as int;
        let q = p.drop_last();
        let e = p[n - 2];
        assert(is_path(t, q, start, e)) by {
            assert(q.len() == n - 1);
            assert forall|i: int| 0 <= i < q.len() implies walkable_at(t, #[trigger] q[i]) by {
                assert(q[i] == p[i]);
            };
            assert forall|i: int| 0 <= i < q.len() - 1 implies adjacent(#[trigger] q[i], q[i + 1]) by {
                assert(q[i] == p[i] && q[i + 1] == p[i + 1]);
            };
        };
        lemma_closed_reach(t, m, start, q, e);
        assert(adjacent(p[n - 2], p[n - 1]));
        assert(walkable_at(t, e));
        assert(walkable_at(t, c));
    }
}

/// Any walk advances at most one unit of Manhattan distance per step, so a
/// walk's step count is at least the Manhattan distance of its endpoints.
pub open spec fn manhattan(a: (usize, usize), b: (usize, usize)) -> int {
    (if a.0 >= b.0 {
        a.0 - b.0
    } else {
        b.0 - a.0
    }) + (if a.1 >= b.1 {
        a.1 - b.1
    } else {
        b.1 - a.1
    })
}

pub proof fn lemma_path_len_ge_manhattan(
    t: Seq<Tile>,
    p: Seq<(usize, usize)>,
    a: (usize, usize),
    b: (usize, usize),
)
    requires
        is_path(t, p, a, b),
    ensures
        p.len() - 1 >= manhattan(a, b),
    decreases p.len(),
{
    if p.len() == 1 {
        assert(a == b);
    } else {
        let q = p.subrange(1, p.len() as int);
        let a2 = p[1];
        assert(is_path(t, q, a2, b)) by {
            assert forall|i: int| 0 <= i < q.len() implies walkable_at(t, #[trigger] q[i]) by {
                assert(q[i] == p[i + 1]);
            };
            assert forall|i: int| 0 <= i < q.len() - 1 implies adjacent(#[trigger] q[i], q[i + 1]) by {
                assert(q[i] == p[i + 1] && q[i + 1] == p[i + 2]);
            };
        };
        lemma_path_len_ge_manhattan(t, q, a2, b);
        assert(adjacent(p[0], p[1]));
        assert(manhattan(a, b) <= manhattan(a2, b) + 1);
    }
}

/// Index of the cell at column `x`, row `y` in the flat tile array.
pub fn tile_index(x: usize, y: usize) -> (i: usize)
    requires
        x < TILES_HORIZONTAL,
        y < TILES_VERTICAL,
    ensures
        i == idx_spec((x, y)),
        i < GRID_AREA,
{
    x + y * TILES_HORIZONTAL
}

fn count_walkable(tiles: &Vec<Tile>) -> (total: usize)
    requires
        tiles@.len() == GRID_AREA,
    ensures
        total == walk_count(tiles@, GRID_AREA as int),
        total <= GRID_AREA,
{
    let mut total: usize = 0;
    let mut i: usize = 0;
    while i < GRID_AREA
        invariant
            tiles@.len() == GRID_AREA,
            i <= GRID_AREA,
            total == walk_count(tiles@, i as int),
            total <= i,
        decreases GRID_AREA - i,
    {
        if tiles[i].is_walkable() {
            total = total + 1;
        }
        i = i + 1;
    }
    total
}

fn find_walkable(tiles: &Vec<Tile>) -> (r: Option<(usize, usize)>)
    requires
        tiles@.len() == GRID_AREA,
    ensures
        match r {
            Some(c) => walkable_at(tiles@, c),
            None => forall|c: (usize, usize)| !walkable_at(tiles@, c),
        },
{
    let mut i: usize = 0;
    while i < GRID_AREA
        invariant
            tiles@.len() == GRID_AREA,
            i <= GRID_AREA,
            forall|j: int| 0 <= j < i ==> !tiles@[j].spec_walkable(),
        decreases GRID_AREA - i,
    {
        if tiles[i].is_walkable() {
            let x = i % TILES_HORIZONTAL;
            let y = i / TILES_HORIZONTAL;
            proof {
                lemma_cell_of(i as int);
            }
            return Some((x, y));
        }
        i = i + 1;
    }
    proof {
        assert forall|c: (usize, usize)| !walkable_at(tiles@, c) by {
            if in_grid(c) {
                lemma_idx_bounds(c);
            }
        };
    }
    None
}

/// Mark the cell `d`, adjacent to the already reached cell `c`, if it is
/// walkable and not yet marked, and queue it for its own neighbour scan.
fn try_mark(
    tiles: &Vec<Tile>,
    marked: &mut Vec<bool>,
    stack: &mut Vec<(usize, usize)>,
    d: (usize, usize),
    Ghost(start): Ghost<(usize, usize)>,
    Ghost(c): Ghost<(usize, usize)>,
)
    requires
        tiles@.len() == GRID_AREA,
        old(marked)@.len() == GRID_AREA,
        in_grid(d),
        adjacent(c, d),
        reachable(tiles@, start, c),
        forall|j: int|
            0 <= j < old(stack)@.len() ==> in_grid(#[trigger] old(stack)@[j]) && old(
                marked,
            )@[idx_spec(old(stack)@[j])],
        forall|c2: (usize, usize)|
            in_grid(c2) && #[trigger] old(marked)@[idx_spec(c2)] ==> walkable_at(tiles@, c2)
                && reachable(tiles@, start, c2),
    ensures
        final(marked)@.len() == GRID_AREA,
        forall|i: int| 0 <= i < GRID_AREA && old(marked)@[i] ==> #[trigger] final(marked)@[i],
        forall|i: int|
            0 <= i < GRID_AREA && #[trigger] final(marked)@[i] ==> old(marked)@[i] || i == idx_spec(
                d,
            ),
        walkable_at(tiles@, d) ==> final(marked)@[idx_spec(d)],
        (final(stack)@ == old(stack)@ && final(marked)@ == old(marked)@) || (final(stack)@ == old(
            stack,
        )@.push(d) && !old(marked)@[idx_spec(d)] && final(marked)@ == old(marked)@.update(
            idx_spec(d),
            true,
        )),
        forall|j: int|
            0 <= j < final(stack)@.len() ==> in_grid(#[trigger] final(stack)@[j]) && final(marked)@[idx_spec(final(stack)@[j])],
        forall|c2: (usize, usize)|
            in_grid(c2) && #[trigger] final(marked)@[idx_spec(c2)] ==> walkable_at(tiles@, c2)
                && reachable(tiles@, start, c2),
        forall|e: (usize, usize)| old(stack)@.contains(e) ==> final(stack)@.contains(e),
        forall|c2: (usize, usize)|
            in_grid(c2) && #[trigger] final(marked)@[idx_spec(c2)] && !old(marked)@[idx_spec(c2)]
                ==> final(stack)@.contains(c2),
{
    let ni = tile_index(d.0, d.1);
    proof {
        lemma_idx_bounds(d);
    }
    if tiles[ni].is_walkable() && !marked[ni] {
        marked[ni] = true;
        proof {
            lemma_reach_step(tiles@, start, c, d);
            assert forall|c2: (usize, usize)|
                in_grid(c2) && #[trigger] marked@[idx_spec(c2)] implies walkable_at(tiles@, c2)
                && reachable(tiles@, start, c2) by {
                if idx_spec(c2) == idx_spec(d) {
                    lemma_idx_injective(c2, d);
                } else {
                    assert(old(marked)@[idx_spec(c2)]);
                }
            };
        }
        let ghost mid_stack = stack@;
        stack.push(d);
        proof {
            assert(stack@[mid_stack.len() as int] == d);
            assert forall|e: (usize, usize)| mid_stack.contains(e) implies stack@.contains(e) by {
                let k = choose|k: int| 0 <= k < mid_stack.len() && mid_stack[k] == e;
                assert(stack@[k] == e);
            };
            assert forall|c2: (usize, usize)|
                in_grid(c2) && #[trigger] marked@[idx_spec(c2)] && !old(marked)@[idx_spec(c2)]
                    implies stack@.contains(c2) by {
                lemma_idx_injective(c2, d);
                assert(c2 == d);
            };
        }
    }
}

/// Flood-fill from `start`: returns the set of cells reachable from `start`
/// over walkable tiles, as a marking of the flat grid.
fn flood(tiles: &Vec<Tile>, start: (usize, usize)) -> (marked: Vec<bool>)
    requires
        tiles@.len() == GRID_AREA,
        walkable_at(tiles@, start),
    ensures
        marked@.len() == GRID_AREA,
        marked@[idx_spec(start)],
        forall|c: (usize, usize)|
            in_grid(c) && #[trigger] marked@[idx_spec(c)] ==> walkable_at(tiles@, c) && reachable(
                tiles@,
                start,
                c,
            ),
        forall|e: (usize, usize), d: (usize, usize)|
            in_grid(e) && #[trigger] marked@[idx_spec(e)] && #[trigger] adjacent(e, d)
                && walkable_at(tiles@, d) ==> marked@[idx_spec(d)],
{
    let mut marked: Vec<bool> = Vec::new();
    let mut i: usize = 0;
    while i < GRID_AREA
        invariant
            i <= GRID_AREA,
            marked@.len() == i,
            forall|j: int| 0 <= j < i ==> !(#[trigger] marked@[j]),
        decreases GRID_AREA - i,
    {
        marked.push(false);
        i = i + 1;
    }
    let si = tile_index(start.0, start.1);
    proof {
        lemma_idx_bounds(start);
    }
    marked[si] = true;
    let mut stack: Vec<(usize, usize)> = Vec::new();
    stack.push(start);
    proof {
        lemma_reach_refl(tiles@, start);
        lemma_true_count_le(marked@, GRID_AREA as int);
        assert(stack@[0] == start);
        assert forall|c2: (usize, usize)|
            in_grid(c2) && #[trigger] marked@[idx_spec(c2)] implies walkable_at(tiles@, c2)
            && reachable(tiles@, start, c2) by {
            lemma_idx_injective(c2, start);
        };
        assert forall|e: (usize, usize), d: (usize, usize)|
            in_grid(e) && #[trigger] marked@[idx_spec(e)] && !stack@.contains(e)
                && #[trigger] adjacent(e, d) && walkable_at(tiles@, d) implies marked@[idx_spec(
            d,
        )] by {
            lemma_idx_injective(e, start);
            assert(stack@.contains(e));
        };
    }
    #[verifier::rlimit(100)]
    while stack.len() > 0
        invariant
            tiles@.len() == GRID_AREA,
            marked@.len() == GRID_AREA,
            walkable_at(tiles@, start),
            marked@[idx_spec(start)],
            0 <= true_count(marked@, GRID_AREA as int) <= GRID_AREA,
            forall|j: int|
                0 <= j < stack@.len() ==> in_grid(#[trigger] stack@[j]) && marked@[idx_spec(
                    stack@[j],
                )],
            forall|c: (usize, usize)|
                in_grid(c) && #[trigger] marked@[idx_spec(c)] ==> walkable_at(tiles@, c)
                    && reachable(tiles@, start, c),
            forall|e: (usize, usize), d: (usize, usize)|
                in_grid(e) && #[trigger] marked@[idx_spec(e)] && !stack@.contains(e)
                    && #[trigger] adjacent(e, d) && walkable_at(tiles@, d) ==> marked@[idx_spec(d)],
        decreases stack@.len() + GRID_AREA - true_count(marked@, GRID_AREA as int),
    {
        let ghost old_stack = stack@;
        let ghost old_marked = marked@;
        let copt = stack.pop();
        let c = match copt {
            Some(c) => c,
            None => {
                proof {
                    assert(false);
                }
                (0, 0)
            },
        };
        let ghost stack0 = stack@;
        proof {
            assert(c == old_stack[old_stack.len() - 1]);
            assert(in_grid(c) && marked@[idx_spec(c)]);
        }
        let (cx, cy) = c;
        if cx + 1 < TILES_HORIZONTAL {
            let ghost pm = marked@;
            let ghost ps = stack@;
            try_mark(tiles, &mut marked, &mut stack, (cx + 1, cy), Ghost(start), Ghost(c));
            proof {
                if stack@ != ps {
                    lemma_true_count_update_one(
                        pm,
                        marked@,
                        idx_spec(((cx + 1) as usize, cy)),
                        GRID_AREA as int,
                    );
                }
                assert(stack@.len() - true_count(marked@, GRID_AREA as int) == ps.len()
                    - true_count(pm, GRID_AREA as int));
            }
        }
        let ghost m1 = marked@;
        let ghost s1 = stack@;
        if cy + 1 < TILES_VERTICAL {
            let ghost pm = marked@;
            let ghost ps = stack@;
            try_mark(tiles, &mut marked, &mut stack, (cx, cy + 1), Ghost(start), Ghost(c));
            proof {
                if stack@ != ps {
                    lemma_true_count_update_one(
                        pm,
                        marked@,
                        idx_spec((cx, (cy + 1) as usize)),
                        GRID_AREA as int,
                    );
                }
                assert(stack@.len() - true_count(marked@, GRID_AREA as int) == ps.len()
                    - true_count(pm, GRID_AREA as int));
            }
        }
        let ghost m2 = marked@;
        let ghost s2 = stack@;
        if cx > 0 {
            let ghost pm = marked@;
            let ghost ps = stack@;
            try_mark(tiles, &mut marked, &mut stack, (cx - 1, cy), Ghost(start), Ghost(c));
            proof {
                if stack@ != ps {
                    lemma_true_count_update_one(
                        pm,
                        marked@,
                        idx_spec(((cx - 1) as usize, cy)),
                        GRID_AREA as int,
                    );
                }
                assert(stack@.len() - true_count(marked@, GRID_AREA as int) == ps.len()
                    - true_count(pm, GRID_AREA as int));
            }
        }
        let ghost m3 = marked@;
        let ghost s3 = stack@;
        if cy > 0 {
            let ghost pm = marked@;
            let ghost ps = stack@;
            try_mark(tiles, &mut marked, &mut stack, (cx, cy - 1), Ghost(start), Ghost(c));
            proof {
                if stack@ != ps {
                    lemma_true_count_update_one(
                        pm,
                        marked@,
                        idx_spec((cx, (cy - 1) as usize)),
                        GRID_AREA as int,
                    );
                }
                assert(stack@.len() - true_count(marked@, GRID_AREA as int) == ps.len()
                    - true_count(pm, GRID_AREA as int));
            }
        }
        proof {
            lemma_true_count_le(marked@, GRID_AREA as int);
            // every walkable neighbour of the processed cell is now marked
            assert forall|d: (usize, usize)| #[trigger]
                adjacent(c, d) && walkable_at(tiles@, d) implies marked@[idx_spec(d)] by {
                lemma_idx_bounds(d);
                if d.1 == cy && d.0 == cx + 1 {
                    assert(m1[idx_spec(d)]);
                } else if d.0 == cx && d.1 == cy + 1 {
                    assert(m2[idx_spec(d)]);
                } else if d.1 == cy && d.0 + 1 == cx {
                    assert(m3[idx_spec(d)]);
                } else {
                    assert(d.0 == cx && d.1 + 1 == cy);
                }
            };
            // the closed-except-stack invariant survives the round
            assert forall|e: (usize, usize), d: (usize, usize)|
                in_grid(e) && #[trigger] marked@[idx_spec(e)] && !stack@.contains(e)
                    && #[trigger] adjacent(e, d) && walkable_at(tiles@, d) implies marked@[idx_spec(
                d,
            )] by {
                if e == c {
                } else if old_marked[idx_spec(e)] {
                    if old_stack.contains(e) {
                        let k = choose|k: int| 0 <= k < old_stack.len() && old_stack[k] == e;
                        if k < old_stack.len() - 1 {
                            assert(stack0[k] == e);
                            assert(stack0.contains(e));
                            assert(stack@.contains(e));
                            assert(false);
                        } else {
                            assert(e == c);
                            assert(false);
                        }
                    } else {
                        assert(old_marked[idx_spec(d)]);
                    }
                } else {
                    // newly marked cells are queued on the stack
                    assert(stack@.contains(e));
                    assert(false);
                }
            };
            assert(stack@.len() + GRID_AREA - true_count(marked@, GRID_AREA as int) < old_stack.len()
                + GRID_AREA - true_count(old_marked, GRID_AREA as int));
        }
    }
    marked
}

/// The count of marked cells is bounded by the prefix length.
proof fn lemma_true_count_le(m: Seq<bool>, n: int)
    requires
        0 <= n,
    ensures
        0 <= true_count(m, n) <= n,
    decreases n,
{
    if n > 0 {
        lemma_true_count_le(m, n - 1);
    }
}

/// Marking one fresh cell raises the count by exactly one.
proof fn lemma_true_count_update_one(m1: Seq<bool>, m2: Seq<bool>, w: int, n: int)
    requires
        0 <= w < m1.len(),
        0 <= n <= m1.len(),
        !m1[w],
        m2 == m1.update(w, true),
    ensures
        w < n ==> true_count(m2, n) == true_count(m1, n) + 1,
        w >= n ==> true_count(m2, n) == true_count(m1, n),
    decreases n,
{
    if n > 0 {
        lemma_true_count_update_one(m1, m2, w, n - 1);
    }
}

fn count_marked(marked: &Vec<bool>) -> (total: usize)
    requires
        marked@.len() == GRID_AREA,
    ensures
        total == true_count(marked@, GRID_AREA as int),
{
    let mut total: usize = 0;
    let mut i: usize = 0;
    while i < GRID_AREA
        invariant
            marked@.len() == GRID_AREA,
            i <= GRID_AREA,
            total == true_count(marked@, i as int),
            total <= i,
        decreases GRID_AREA - i,
    {
        if marked[i] {
            total = total + 1;
        }
        i = i + 1;
    }
    total
}

/// The connectivity check the generator repairs towards: every walkable cell
/// of the grid reaches every other, and at least one walkable cell exists.
/// Counts all walkable tiles, flood-fills from one of them, and compares.
pub fn is_all_rooms_connected(tiles: &Vec<Tile>) -> (r: bool)
    requires
        tiles@.len() == GRID_AREA,
    ensures
        r == spec_connected(tiles@),
{
    let total = count_walkable(tiles);
    let first = find_walkable(tiles);
    match first {
        None => {
            proof {
                assert(!spec_connected(tiles@));
            }
            false
        },
        Some(start) => {
            let marked = flood(tiles, start);
            let reached = count_marked(&marked);
            proof {
                assert forall|i: int| 0 <= i < GRID_AREA && marked@[i] implies tiles@[i].spec_walkable() by {
                    lemma_cell_of(i);
                };
                if reached == total {
                    lemma_count_eq_covers(tiles@, marked@, GRID_AREA as int);
                    assert forall|a: (usize, usize), b: (usize, usize)|
                        walkable_at(tiles@, a) && walkable_at(tiles@, b) implies #[trigger] reachable(
                        tiles@,
                        a,
                        b,
                    ) by {
                        lemma_idx_bounds(a);
                        lemma_idx_bounds(b);
                        assert(marked@[idx_spec(a)] && marked@[idx_spec(b)]);
                        lemma_reach_symm(tiles@, start, a);
                        lemma_reach_trans(tiles@, a, start, b);
                    };
                    assert(spec_connected(tiles@));
                } else {
                    lemma_count_le(tiles@, marked@, GRID_AREA as int);
                    let j = lemma_count_lt_misses(tiles@, marked@, GRID_AREA as int);
                    lemma_cell_of(j);
                    let cj = cell_of(j);
                    assert(walkable_at(tiles@, cj));
                    if spec_connected(tiles@) {
                        assert(reachable(tiles@, start, cj));
                        let p = choose|p: Seq<(usize, usize)>| is_path(tiles@, p, start, cj);
                        lemma_closed_reach(tiles@, marked@, start, p, cj);
                        assert(false);
                    }
                }
            }
            reached == total
        },
    }
}

} // verus!
