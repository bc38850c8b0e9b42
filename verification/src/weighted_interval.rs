//! A batteries-included weighted interval representation.

use vstd::prelude::*;
use crate::traits::Interval;
use crate::traits::Weighted;

verus! {

/// A ready-made weighted interval over a `u64` domain.
///
/// Any other type may take its place in the solvers by implementing
/// [`Interval`] and [`Weighted`] itself.
#[derive(Clone, Copy, Debug, PartialEq, Eq, Structural)]
pub struct WeightedInterval {
    pub start: u64,
    pub end: u64,
    pub weight: u64,
}

impl WeightedInterval {
    pub fn new(start: u64, end: u64, weight: u64) -> (r: Self)
        ensures
            r == (WeightedInterval { start, end, weight }),
    {
        WeightedInterval { start, end, weight }
    }
}

impl Interval for WeightedInterval {
    open spec fn start_spec(&self) -> u64 {
        self.start
    }

    open spec fn end_spec(&self) -> u64 {
        self.end
    }

    fn start(&self) -> u64 {
        self.start
    }

    fn end(&self) -> u64 {
        self.end
    }
}

impl From<(u64, u64, u64)> for WeightedInterval {
    /// Reads a `(start, end, weight)` tuple into an interval.
    fn from(tuple: (u64, u64, u64)) -> (r: Self)
        ensures
            r == (WeightedInterval { start: tuple.0, end: tuple.1, weight: tuple.2 }),
    {
        let (start, end, weight) = tuple;
        Self { start, end, weight }
    }
}

impl vstd::std_specs::convert::FromSpecImpl<(u64, u64, u64)> for WeightedInterval {
    open spec fn obeys_from_spec() -> bool {
        true
    }

    open spec fn from_spec(tuple: (u64, u64, u64)) -> Self {
        WeightedInterval { start: tuple.0, end: tuple.1, weight: tuple.2 }
    }
}

impl Weighted for WeightedInterval {
    open spec fn weight_spec(&self) -> u64 {
        self.weight
    }

    fn weight(&self) -> u64 {
        self.weight
    }
}

} // verus!
