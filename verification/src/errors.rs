use vstd::prelude::*;

verus! {

/// The ways a solve request can be refused. Both are detected during input
/// validation, before any search work starts; the search itself cannot fail
/// on a well-formed instance.
#[derive(Debug, Clone, Copy, PartialEq, Eq, Structural)]
pub enum SolveError {
    /// The distance input is not square, there are fewer than three nodes,
    /// a coordinate is out of the supported range, or the requested run or
    /// candidate count is zero.
    InvalidInput,
    /// A node ended up with no candidate edge. Defensive only: it cannot
    /// happen for the complete cost matrices this crate builds, since every
    /// node with at least one other node always receives a candidate.
    InfeasibleCandidateSet,
}

} // verus!
