//! Callbacks of game options: the potential values of cycling options, and
//! the bounds of integer slider options supplied when asked for.

use vstd::prelude::*;

verus! {

/// Callbacks of an option that cycles through potential values.
pub struct PotentialValuesBasedCallbacks<T> {
    values: Vec<T>,
}

/// Callbacks of an integer option whose bounds are supplied when asked
/// for.
pub struct SuppliableIntCallbacks<Min, Max> {
    min_boundary: Min,
    max_boundary: Max,
}

impl<Min, Max> SuppliableIntCallbacks<Min, Max> {
    /// The supplier of the lower bound.
    pub closed spec fn min_supplier(&self) -> Min {
        self.min_boundary
    }

    /// The supplier of the upper bound.
    pub closed spec fn max_supplier(&self) -> Max {
        self.max_boundary
    }

    /// Callbacks with the given suppliers of the bounds.
    pub fn new(min_boundary: Min, max_boundary: Max) -> (r: Self)
        ensures
            r.min_supplier() == min_boundary,
            r.max_supplier() == max_boundary,
    {
        SuppliableIntCallbacks { min_boundary, max_boundary }
    }
}

impl<Min: Fn() -> i32, Max: Fn() -> i32> SuppliableIntCallbacks<Min, Max> {
    /// The least value: whatever the supplier of the lower bound gives now.
    pub fn min_inclusive(&self) -> (r: i32)
        requires
            self.min_supplier().requires(()),
        ensures
            self.min_supplier().ensures((), r),
    {
        (self.min_boundary)()
    }

    /// The greatest value: whatever the supplier of the upper bound gives
    /// now.
    pub fn max_inclusive(&self) -> (r: i32)
        requires
            self.max_supplier().requires(()),
        ensures
            self.max_supplier().ensures((), r),
    {
        (self.max_boundary)()
    }

    /// These options cycle through their values.
    pub fn is_cycling(&self) -> (r: bool)
        ensures
            r,
    {
        true
    }
}

} // verus!
