use vstd::prelude::*;

verus! {

/// Relies on macroquad::rand::gen_range (quad-rand): for an integer type and
/// `low < high` it returns `low + floor((high - low) * u)` for a `u` drawn in
/// `[0, 1)`, hence a value in `[low, high)`.  Nothing more is assumed of the
/// draw: callers must hold for every value below the bound.
#[verifier::external_body]
pub(crate) fn random_below(n: usize) -> (r: usize)
    requires
        n > 0,
    ensures
        r < n,
{
    macroquad::rand::gen_range(0, n)
}

} // verus!
