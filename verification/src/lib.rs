//! A local-search solver for symmetric and asymmetric travelling salesman
//! problems.
//!
//! The solver works on a dense, non-negative cost matrix (asymmetric costs
//! allowed) or on 2D integer coordinates with rounded Euclidean edge costs.
//! It builds a bounded candidate-edge graph (nearest neighbours per node),
//! constructs a nearest-neighbour starting tour, improves it with
//! first-improvement 2-opt moves restricted to candidate edges plus Or-opt
//! segment relocations, and repeats the search over several runs, perturbing
//! the running best with a double-bridge kick between runs. The best tour
//! and its exact cost are returned.

mod candidates;
mod construct;
mod controller;
mod coords;
mod errors;
mod matrix;
mod perm;
mod rng;
mod search;
mod tour;

pub use crate::candidates::CandidateGraph;
pub use crate::candidates::build_candidates;
pub use crate::construct::nearest_neighbor_tour;
pub use crate::controller::DEFAULT_CANDIDATE_COUNT;
pub use crate::controller::Solution;
pub use crate::controller::SolveParams;
pub use crate::controller::double_bridge;
pub use crate::controller::solve_with_params;
pub use crate::coords::COORD_LIMIT;
pub use crate::coords::Coordinates2D;
pub use crate::coords::rounded_dist;
pub use crate::errors::SolveError;
pub use crate::matrix::DistanceMatrix;
pub use crate::matrix::is_2d_matrix;
pub use crate::matrix::is_symmetric_matrix;
pub use crate::rng::Rng;
pub use crate::search::SearchBudget;
pub use crate::search::SearchOutcome;
pub use crate::search::improve_step;
pub use crate::search::local_search;
pub use crate::tour::Tour;
