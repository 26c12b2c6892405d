//! Failures that segment generation can surface.
//!
//! All of them indicate malformed configuration; none is raised on the
//! reachability-check path.

use vstd::prelude::*;

verus! {

/// Why a generation request failed.
#[derive(Clone, Copy, Debug, PartialEq, Eq, Structural)]
pub enum GenerationError {
    /// A palette entry of the requested name does not exist.
    PaletteLookup,
    /// A weighted choice was asked of a collection with zero total weight.
    EmptyCollection,
    /// The bounded trajectory simulation exceeded its iteration ceiling
    /// without meeting its landing condition.
    TrajectoryDivergence,
}

impl GenerationError {
    /// A short description of the failure.
    pub fn describe(&self) -> (r: &'static str)
        ensures
            self is PaletteLookup ==> r@ == "no such palette entry"@,
            self is EmptyCollection ==> r@ == "weighted choice from an empty collection"@,
            self is TrajectoryDivergence ==> r@ == "trajectory did not converge"@,
    {
        match self {
            GenerationError::PaletteLookup => "no such palette entry",
            GenerationError::EmptyCollection => "weighted choice from an empty collection",
            GenerationError::TrajectoryDivergence => "trajectory did not converge",
        }
    }
}

} // verus!
