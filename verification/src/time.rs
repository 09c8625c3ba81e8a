//! A named scalar for the simulation timestep, so that call sites cannot
//! confuse it with other rates.

use crate::scalar::Scalar;
use vstd::prelude::*;

verus! {

/// The amount of simulated time one tick advances.
#[derive(Clone, Copy, PartialEq, Eq, Structural, Debug)]
pub struct TimeDelta(pub Scalar);

} // verus!
