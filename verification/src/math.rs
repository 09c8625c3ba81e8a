//! Clamping a value into a closed range.

use crate::scalar::Scalar;
use vstd::prelude::*;

verus! {

/// Clamp a value into `[min, max]`.
pub trait Clamp: Sized {
    /// What `clam` returns.
    spec fn clam_spec(self, min: Self, max: Self) -> Self;

    /// The value pulled into `[min, max]`: `min` when below it, `max` when
    /// above it, and unchanged in between.
    fn clam(self, min: Self, max: Self) -> (r: Self)
        ensures
            r == self.clam_spec(min, max),
    ;
}

impl Clamp for Scalar {
    open spec fn clam_spec(self, min: Scalar, max: Scalar) -> Scalar {
        if self.bits < min.bits {
            min
        } else if self.bits > max.bits {
            max
        } else {
            self
        }
    }

    fn clam(self, min: Scalar, max: Scalar) -> (r: Scalar) {
        if self.lt(min) {
            min
        } else if self.gt(max) {
            max
        } else {
            self
        }
    }
}

impl Clamp for usize {
    open spec fn clam_spec(self, min: usize, max: usize) -> usize {
        if self < min {
            min
        } else if self > max {
            max
        } else {
            self
        }
    }

    fn clam(self, min: usize, max: usize) -> (r: usize) {
        if self < min {
            min
        } else if self > max {
            max
        } else {
            self
        }
    }
}

} // verus!
