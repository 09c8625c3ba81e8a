//! Solver-wide constants.

use vstd::prelude::*;

verus! {

/// Number of relaxation sweeps per linear solve.
pub const ITER: usize = 20;

/// Side length of the default square universe.
pub const N: usize = 64;

} // verus!
