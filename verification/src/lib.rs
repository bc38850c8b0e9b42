//! Verified solvers for the weighted interval scheduling problem.
//!
//! Given intervals, each with a start bound, an end bound and a weight, the
//! solvers select a subset of pairwise compatible intervals whose total
//! weight is as large as possible.  Two intervals are compatible when one
//! ends at or before the other starts: touching at a boundary is allowed.
//!
//! Two entry points are offered.  [`solvers::sorted`] expects its input
//! pre-sorted by end bound and writes into caller-owned buffers, so that
//! allocations can be amortized across many solves.  [`solvers::unsorted`]
//! accepts intervals in any order, sorts a working copy and allocates fresh
//! buffers, trading speed for ease of use.
//!
//! The mathematical model lives in [`model`]; the headline guarantees (the
//! result is pairwise compatible, its weight is maximal, the reconstruction
//! is deterministic) are stated and proved in [`laws`].

pub mod laws;
pub mod model;
pub mod solvers;
pub mod traits;
pub mod util;
pub mod weighted_interval;

pub use solvers::sorted;
pub use solvers::unsorted;
pub use traits::Interval;
pub use traits::Weighted;
pub use util::final_compatible;
pub use weighted_interval::WeightedInterval;
