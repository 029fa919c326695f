use vstd::prelude::*;

use crate::grid::{
    adjacent, idx_spec, in_grid, is_path, manhattan, reachable, tile_index, walkable_at,
    lemma_path_len_ge_manhattan, Tile,
};
use crate::{GRID_AREA, TILES_HORIZONTAL, TILES_VERTICAL};

verus! {

/// The successor relation handed to the search: the walkable grid neighbours
/// of a cell, each at unit cost.  Total in all inputs, so the search can call
/// it on anything it explores.
pub fn successors_of(tiles: &Vec<Tile>, pos: (usize, usize)) -> (r: Vec<((usize, usize), usize)>)
    ensures
        forall|j: int|
            0 <= j < r@.len() ==> (#[trigger] r@[j]).1 == 1 && adjacent(pos, r@[j].0)
                && walkable_at(tiles@, r@[j].0),
        tiles@.len() == GRID_AREA && in_grid(pos) ==> forall|d: (usize, usize)|
            adjacent(pos, d) && walkable_at(tiles@, d) ==> exists|j: int|
                0 <= j < r@.len() && (#[trigger] r@[j]).0 == d,
{
    let mut r: Vec<((usize, usize), usize)> = Vec::new();
    if tiles.len() != GRID_AREA {
        return r;
    }
    let (x, y) = pos;
    if x >= TILES_HORIZONTAL || y >= TILES_VERTICAL {
        assert(!in_grid(pos));
        return r;
    }
    let ghost east: int = if x + 1 < TILES_HORIZONTAL && tiles@[idx_spec(
        ((x + 1) as usize, y),
    )].spec_walkable() {
        r@.len() as int
    } else {
        -1
    };
    if x + 1 < TILES_HORIZONTAL {
        let i = tile_index(x + 1, y);
        if tiles[i].is_walkable() {
            r.push(((x + 1, y), 1));
        }
    }
    let ghost south: int = if y + 1 < TILES_VERTICAL && tiles@[idx_spec(
        (x, (y + 1) as usize),
    )].spec_walkable() {
        r@.len() as int
    } else {
        -1
    };
    if y + 1 < TILES_VERTICAL {
        let i = tile_index(x, y + 1);
        if tiles[i].is_walkable() {
            r.push(((x, y + 1), 1));
        }
    }
    let ghost west: int = if x > 0 && tiles@[idx_spec(((x - 1) as usize, y))].spec_walkable() {
        r@.len() as int
    } else {
        -1
    };
    if x > 0 {
        let i = tile_index(x - 1, y);
        if tiles[i].is_walkable() {
            r.push(((x - 1, y), 1));
        }
    }
    let ghost north: int = if y > 0 && tiles@[idx_spec((x, (y - 1) as usize))].spec_walkable() {
        r@.len() as int
    } else {
        -1
    };
    if y > 0 {
        let i = tile_index(x, y - 1);
        if tiles[i].is_walkable() {
            r.push(((x, y - 1), 1));
        }
    }
    proof {
        assert forall|d: (usize, usize)|
            adjacent(pos, d) && walkable_at(tiles@, d) implies exists|j: int|
            0 <= j < r@.len() && (#[trigger] r@[j]).0 == d by {
            if d.1 == y && d.0 == x + 1 {
                assert(r@[east].0 == d);
            } else if d.0 == x && d.1 == y + 1 {
                assert(r@[south].0 == d);
            } else if d.1 == y && d.0 + 1 == x {
                assert(r@[west].0 == d);
            } else {
                assert(d.0 == x && d.1 + 1 == y);
                assert(r@[north].0 == d);
            }
        };
    }
    r
}

/// The search heuristic: a third of the Manhattan distance.
/// Deliberately an underestimate-of-an-underestimate, biasing the search
/// towards short real paths; nothing is claimed of it because path existence
/// and validity do not depend on the heuristic.
pub fn step_heuristic(p: (usize, usize), to: (usize, usize)) -> (h: usize) {
    let dx = if p.0 >= to.0 {
        p.0 - to.0
    } else {
        to.0 - p.0
    };
    let dy = if p.1 >= to.1 {
        p.1 - to.1
    } else {
        to.1 - p.1
    };
    if dx > usize::MAX - dy {
        usize::MAX / 3
    } else {
        (dx + dy) / 3
    }
}

/// The goal test handed to the search.
pub fn cells_equal(p: (usize, usize), to: (usize, usize)) -> (r: bool)
    ensures
        r == (p == to),
{
    p.0 == to.0 && p.1 == to.1
}

/// Relies on pathfinding::prelude::astar: starting from `from`, it explores
/// exactly the graph that the successor closure induces, and returns a start-
/// to-goal node sequence along successor edges together with the summed edge
/// cost as soon as the goal test holds of a reached node, or `None` once
/// every reachable node has been exhausted without meeting the goal.  With
/// walkable unit-cost successors this means: a returned sequence is a
/// walkable adjacent path from `from` to `to` whose cost is its step count,
/// and `None` is returned only when no walkable path exists.  The path
/// repeats no cell: it is rebuilt along best-parent links, and a node's
/// recorded cost strictly exceeds its parent's, so the chain cannot cycle.
/// That the returned cost equals the rebuilt path's step count also leans on
/// the heuristic being consistent — a third of the Manhattan distance drops
/// by at most one per unit step — so each node's cost is final when it is
/// expanded.  The heuristic is inadmissible in the large, which costs the
/// search its shortest-path promise but neither completeness nor validity.
#[verifier::external_body]
fn astar_search(tiles: &Vec<Tile>, from: (usize, usize), to: (usize, usize)) -> (r: Option<
    (Vec<(usize, usize)>, usize),
>)
    requires
        tiles@.len() == GRID_AREA,
        walkable_at(tiles@, from),
    ensures
        match r {
            Some(pc) => is_path(tiles@, pc.0@, from, to) && pc.1 == pc.0@.len() - 1 && (forall|
                i: int,
                j: int,
            | 0 <= i < j < pc.0@.len() ==> pc.0@[i] != pc.0@[j]),
            None => !reachable(tiles@, from, to),
        },
{
    pathfinding::prelude::astar(
        &from,
        |p: &(usize, usize)| successors_of(tiles, *p),
        |p: &(usize, usize)| step_heuristic(*p, to),
        |p: &(usize, usize)| cells_equal(*p, to),
    )
}

/// Grid pathfinding: a 4-directional unit-cost A* search over walkable
/// cells.  Returns a path exactly when `to` is reachable from `from`; the
/// path starts at `from`, ends at `to`, steps only between adjacent walkable
/// cells, and its reported cost is its step count, which is never below the
/// Manhattan distance of the endpoints.
pub fn find_path(tiles: &Vec<Tile>, from: (usize, usize), to: (usize, usize)) -> (r: Option<
    (Vec<(usize, usize)>, usize),
>)
    requires
        tiles@.len() == GRID_AREA,
        walkable_at(tiles@, from),
    ensures
        r is Some <==> reachable(tiles@, from, to),
        r matches Some(pc) ==> is_path(tiles@, pc.0@, from, to) && pc.1 == pc.0@.len() - 1 && pc.1
            >= manhattan(from, to) && (forall|i: int, j: int|
            0 <= i < j < pc.0@.len() ==> pc.0@[i] != pc.0@[j]),
{
    let r = astar_search(tiles, from, to);
    proof {
        match &r {
            Some(pc) => {
                assert(reachable(tiles@, from, to));
                lemma_path_len_ge_manhattan(tiles@, pc.0@, from, to);
            },
            None => {},
        }
    }
    r
}

} // verus!
