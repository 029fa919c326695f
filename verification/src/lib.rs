pub mod dungeon;
pub mod entities;
pub mod geom;
pub mod grid;
pub mod pathfind;
pub mod items;
pub mod loot;
mod rng;
pub mod state;

use vstd::prelude::*;

verus! {

/// Number of grid columns; the play field is a fixed-size tile grid.
pub const TILES_HORIZONTAL: usize = 32;

/// Number of grid rows.
pub const TILES_VERTICAL: usize = 18;

/// Number of cells of the grid.
pub const GRID_AREA: usize = 576;

} // verus!
