use vstd::prelude::*;

use crate::grid::in_grid;

verus! {

/// Floor of the square root, defined by counting up.
pub open spec fn sqrt_floor(n: nat) -> nat
    decreases n,
{
    if n == 0 {
        0
    } else {
        let r = sqrt_floor((n - 1) as nat);
        if (r + 1) * (r + 1) <= n {
            r + 1
        } else {
            r
        }
    }
}

pub proof fn lemma_sqrt_floor_char(n: nat)
    ensures
        sqrt_floor(n) * sqrt_floor(n) <= n < (sqrt_floor(n) + 1) * (sqrt_floor(n) + 1),
    decreases n,
{
    if n == 0 {
        assert(sqrt_floor(0) == 0);
        let s = sqrt_floor(n);
        assert(s * s <= n < (s + 1) * (s + 1)) by (nonlinear_arith)
            requires
                s == 0,
                n == 0,
        ;
    } else {
        lemma_sqrt_floor_char((n - 1) as nat);
        let r = sqrt_floor((n - 1) as nat);
        let s = sqrt_floor(n);
        if (r + 1) * (r + 1) <= n {
            assert(s == r + 1);
            assert(s * s <= n) by (nonlinear_arith)
                requires
                    s == r + 1,
                    (r + 1) * (r + 1) <= n,
            ;
            assert((s + 1) * (s + 1) > n) by (nonlinear_arith)
                requires
                    s == r + 1,
                    n - 1 < (r + 1) * (r + 1),
                    r >= 0,
            ;
        } else {
            assert(s == r);
            assert(n < (s + 1) * (s + 1)) by (nonlinear_arith)
                requires
                    s == r,
                    n < (r + 1) * (r + 1),
            ;
        }
        assert(sqrt_floor(n) * sqrt_floor(n) <= n < (sqrt_floor(n) + 1) * (sqrt_floor(n) + 1));
    }
}

/// The floor square root is the unique `r` with `r*r <= n < (r+1)*(r+1)`.
pub proof fn lemma_sqrt_unique(n: nat, r: nat)
    requires
        r * r <= n < (r + 1) * (r + 1),
    ensures
        r == sqrt_floor(n),
{
    lemma_sqrt_floor_char(n);
    let s = sqrt_floor(n);
    assert(r == s) by (nonlinear_arith)
        requires
            r * r <= n < (r + 1) * (r + 1),
            s * s <= n < (s + 1) * (s + 1),
            r >= 0,
            s >= 0,
    ;
}

/// Integer square root by counting up; exact for the small values the grid
/// produces.
pub fn isqrt(n: usize) -> (r: usize)
    requires
        n <= 2_000,
    ensures
        r == sqrt_floor(n as nat),
{
    let mut r: usize = 0;
    loop
        invariant
            n <= 2_000,
            r * r <= n,
            r <= n,
        ensures
            r * r <= n < (r + 1) * (r + 1),
        decreases n - r,
    {
        proof {
            assert((r + 1) * (r + 1) <= 2_001 * 2_001) by (nonlinear_arith)
                requires
                    0 <= r <= 2_000,
            ;
        }
        let next = (r + 1) * (r + 1);
        if next > n {
            break ;
        }
        proof {
            assert(r + 1 <= (r + 1) * (r + 1)) by (nonlinear_arith)
                requires
                    r >= 0,
            ;
        }
        r = r + 1;
    }
    proof {
        lemma_sqrt_unique(n as nat, r as nat);
    }
    r
}

/// Squared Euclidean distance of two cells.
pub open spec fn dist2(a: (usize, usize), b: (usize, usize)) -> int {
    (a.0 - b.0) * (a.0 - b.0) + (a.1 - b.1) * (a.1 - b.1)
}

/// Euclidean distance of two cells, rounded down to whole tiles; the measure
/// every combat-range test uses.
pub open spec fn spec_dist(a: (usize, usize), b: (usize, usize)) -> nat {
    sqrt_floor(dist2(a, b) as nat)
}

pub fn cell_distance(a: (usize, usize), b: (usize, usize)) -> (d: usize)
    requires
        in_grid(a),
        in_grid(b),
    ensures
        d == spec_dist(a, b),
{
    let dx = if a.0 >= b.0 {
        a.0 - b.0
    } else {
        b.0 - a.0
    };
    let dy = if a.1 >= b.1 {
        a.1 - b.1
    } else {
        b.1 - a.1
    };
    proof {
        assert(dx * dx == (a.0 - b.0) * (a.0 - b.0)) by (nonlinear_arith)
            requires
                dx == if a.0 >= b.0 {
                    a.0 - b.0
                } else {
                    b.0 - a.0
                },
        ;
        assert(dy * dy == (a.1 - b.1) * (a.1 - b.1)) by (nonlinear_arith)
            requires
                dy == if a.1 >= b.1 {
                    a.1 - b.1
                } else {
                    b.1 - a.1
                },
        ;
        assert(dx * dx <= 32 * 32 && dy * dy <= 18 * 18) by (nonlinear_arith)
            requires
                0 <= dx <= 32,
                0 <= dy <= 18,
        ;
    }
    let d2 = dx * dx + dy * dy;
    isqrt(d2)
}

/// Direction of one of the twenty evenly spaced sight rays, as a fixed-point
/// unit vector in thousandths.
pub fn ray_dir(i: usize) -> (r: (i32, i32))
    requires
        i < 20,
    ensures
        -1000 <= r.0 <= 1000,
        -1000 <= r.1 <= 1000,
{
    match i {
        0 => (1000, 0),
        1 => (951, 309),
        2 => (809, 588),
        3 => (588, 809),
        4 => (309, 951),
        5 => (0, 1000),
        6 => (-309, 951),
        7 => (-588, 809),
        8 => (-809, 588),
        9 => (-951, 309),
        10 => (-1000, 0),
        11 => (-951, -309),
        12 => (-809, -588),
        13 => (-588, -809),
        14 => (-309, -951),
        15 => (0, -1000),
        16 => (309, -951),
        17 => (588, -809),
        18 => (809, -588),
        _ => (951, -309),
    }
}

/// Quarter-wave sine table in thousandths, at sixty-fourths of a turn.
fn sin_quarter(k: u8) -> (r: i32)
    requires
        k <= 16,
    ensures
        0 <= r <= 1000,
{
    match k {
        0 => 0,
        1 => 98,
        2 => 195,
        3 => 290,
        4 => 383,
        5 => 471,
        6 => 556,
        7 => 634,
        8 => 707,
        9 => 773,
        10 => 831,
        11 => 882,
        12 => 924,
        13 => 957,
        14 => 981,
        15 => 995,
        _ => 1000,
    }
}

/// Sine at `a` sixty-fourths of a turn, in thousandths, by quarter-wave
/// symmetry.
pub fn sin64_milli(a: u8) -> (r: i32)
    requires
        a < 64,
    ensures
        -1000 <= r <= 1000,
{
    if a <= 16 {
        sin_quarter(a)
    } else if a <= 32 {
        sin_quarter(32 - a)
    } else if a <= 48 {
        -sin_quarter(a - 32)
    } else {
        -sin_quarter(64 - a)
    }
}

/// Cosine at `a` sixty-fourths of a turn, in thousandths.
pub fn cos64_milli(a: u8) -> (r: i32)
    requires
        a < 64,
    ensures
        -1000 <= r <= 1000,
{
    sin64_milli((a + 16) % 64)
}

/// The fixed-point unit vector at `a` sixty-fourths of a turn.
pub fn dir64(a: u8) -> (r: (i32, i32))
    requires
        a < 64,
    ensures
        -1000 <= r.0 <= 1000,
        -1000 <= r.1 <= 1000,
{
    (cos64_milli(a), sin64_milli(a))
}

/// The direction index, in sixty-fourths of a turn, whose unit vector points
/// most nearly along `(dx, dy)`: the one of the sixty-four with the largest
/// dot product.
pub fn nearest_dir64(dx: i32, dy: i32) -> (best: u8)
    requires
        -1000 <= dx <= 1000,
        -1000 <= dy <= 1000,
    ensures
        best < 64,
{
    let mut best: u8 = 0;
    let mut best_dot: i64 = dx as i64 * 1000 + dy as i64 * 0;
    let mut a: u8 = 1;
    while a < 64
        invariant
            1 <= a <= 64,
            best < 64,
            -1000 <= dx <= 1000,
            -1000 <= dy <= 1000,
        decreases 64 - a,
    {
        let (cx, cy) = dir64(a);
        proof {
            assert(-1000000 <= dx as i64 * cx as i64 <= 1000000) by (nonlinear_arith)
                requires
                    -1000 <= dx <= 1000,
                    -1000 <= cx <= 1000,
            ;
            assert(-1000000 <= dy as i64 * cy as i64 <= 1000000) by (nonlinear_arith)
                requires
                    -1000 <= dy <= 1000,
                    -1000 <= cy <= 1000,
            ;
        }
        let dot = dx as i64 * cx as i64 + dy as i64 * cy as i64;
        if dot > best_dot {
            best = a;
            best_dot = dot;
        }
        a = a + 1;
    }
    best
}

} // verus!
