use vstd::prelude::*;

verus! {

/// Number of particle types (colours); a type is an index into the
/// interaction matrix and the colour table.
pub const NUM_TYPES: usize = 6;

/// Number of particles spawned for each type.
pub const PARTICLES_PER_TYPE: usize = 100;

/// Width (and height) of the toroidal world in grid cells: the world spans
/// twice its half-size of 800 units, and a cell is one interaction radius
/// (80 units) wide. Cell columns and rows are taken modulo this number.
pub const WORLD_CELLS: i32 = 20;

} // verus!
