//! Small conveniences over std types.

use vstd::prelude::*;

verus! {

/// Turn a truth value into an `Option` carrying a payload.
pub trait AsSome {
    /// Whether this value counts as true.
    spec fn truthy(&self) -> bool;

    /// `Some(t)` when this value counts as true, else `None`.
    fn as_some<T>(&self, t: T) -> (r: Option<T>)
        ensures
            r == (if self.truthy() {
                Some(t)
            } else {
                None::<T>
            }),
    ;
}

impl AsSome for bool {
    open spec fn truthy(&self) -> bool {
        *self
    }

    fn as_some<T>(&self, t: T) -> (r: Option<T>) {
        match self {
            true => Some(t),
            false => None,
        }
    }
}

} // verus!
