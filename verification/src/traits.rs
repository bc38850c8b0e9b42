//! The capabilities the solver core consumes.
//!
//! An interval representation is anything exposing a start bound, an end
//! bound and a weight over a `u64` domain.  Each capability pairs a spec
//! accessor, which the contracts speak about, with an executable accessor
//! that must return the same value.

use vstd::prelude::*;

verus! {

/// If a type is `Interval`, it has bounds over a one-dimensional domain.
pub trait Interval: Sized {
    /// The start bound, as the specifications see it.
    spec fn start_spec(&self) -> u64;

    /// The end bound, as the specifications see it.
    spec fn end_spec(&self) -> u64;

    fn start(&self) -> (r: u64)
        ensures
            r == self.start_spec(),
    ;

    fn end(&self) -> (r: u64)
        ensures
            r == self.end_spec(),
    ;
}

/// If a type is `Weighted`, it has a number-like value associated with it.
pub trait Weighted: Sized {
    /// The weight, as the specifications see it.
    spec fn weight_spec(&self) -> u64;

    fn weight(&self) -> (r: u64)
        ensures
            r == self.weight_spec(),
    ;
}

} // verus!
