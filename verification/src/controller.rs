use vstd::prelude::*;
use crate::candidates::CandidateGraph;
use crate::candidates::build_candidates;
use crate::candidates::cand_wf;
use crate::candidates::lemma_cand_wf_basic;
use crate::construct::nearest_neighbor_tour;
use crate::construct::nn_tour;
use crate::errors::SolveError;
use crate::matrix::DistanceMatrix;
use crate::matrix::is_square;
use crate::perm::is_perm;
use crate::rng::Rng;
use crate::search::SearchBudget;
use crate::search::local_search;
use crate::search::locally_optimal;
use crate::tour::Tour;
use crate::tour::tour_cost;

verus! {

/// How many candidate edges each node gets when the caller does not say.
pub const DEFAULT_CANDIDATE_COUNT: usize = 8;

/// The configuration of a solve: how many independent runs to perform, how
/// many candidate edges each node gets, the seed of the deterministic
/// perturbation stream, and an optional cooperative iteration budget shared
/// by all runs.
#[derive(Debug, Clone, Copy)]
pub struct SolveParams {
    pub runs: usize,
    pub candidate_count: usize,
    pub seed: u64,
    pub iteration_limit: Option<u64>,
}

impl SolveParams {
    /// The default configuration with the given number of runs.
    pub fn with_runs(runs: usize) -> (p: SolveParams)
        ensures
            p.runs == runs,
            p.candidate_count == DEFAULT_CANDIDATE_COUNT,
            p.seed == 0,
            p.iteration_limit is None,
    {
        SolveParams { runs, candidate_count: DEFAULT_CANDIDATE_COUNT, seed: 0, iteration_limit: None }
    }
}

/// The result of a solve: the best tour found as a visiting order over the
/// node indices, its exact total cost, and whether the search stopped early
/// because the iteration budget ran out (the tour is then still the best
/// one found so far).
#[derive(Debug)]
pub struct Solution {
    pub tour: Vec<usize>,
    pub cost: u128,
    pub cancelled: bool,
}

/// A solve request is valid when there is at least one run, at least one
/// candidate edge per node, at least three nodes, and a square cost matrix.
pub open spec fn valid_instance(m: Seq<Seq<u64>>, runs: int, k: int) -> bool {
    &&& runs >= 1
    &&& k >= 1
    &&& m.len() >= 3
    &&& is_square(m)
}

/// A double-bridge kick: cut the tour into four non-empty parts A B C D and
/// reassemble them as A C B D. This 4-opt perturbation is unreachable by
/// sequential 2-opt moves, so it can carry the search out of a local
/// optimum; the result is again a permutation.
pub fn double_bridge(t: &Tour, rng: &mut Rng) -> (r: Tour)
    requires
        t.valid(),
        t@.len() >= 4,
    ensures
        r.valid(),
        r@.len() == t@.len(),
        exists|a: int, b: int, c: int|
            1 <= a < b && b < c < t@.len() && r@ == #[trigger] crate::tour::segment_exchange(
                t@,
                a,
                b,
                c,
            ),
{
    let n = t.node_count();
    let a = 1 + rng.below(n - 3);
    let b = a + 1 + rng.below(n - 2 - a);
    let c = b + 1 + rng.below(n - 1 - b);
    let r = t.relocated(a, b - a, a + (c - b));
    proof {
        let ga = a as int;
        let gb = b as int;
        let gc = c as int;
        assert(1 <= ga && ga < gb && gb < gc && gc < t@.len());
        assert(r@ == crate::tour::segment_exchange(t@, ga, gb, gc));
    }
    r
}

/// Runs the whole search (the run controller): validate the input, build
/// the candidate graph, construct a nearest-neighbour tour, drive it to a
/// local optimum, and then repeat with double-bridge perturbations of the
/// running best, keeping the cheapest tour found (ties keep the earliest).
///
/// The contract states: an invalid request is rejected with `InvalidInput`
/// before any search, and exactly those; a returned solution is a
/// permutation of the nodes whose reported cost is exactly its tour cost;
/// the cost never exceeds the cost of the first constructed
/// (nearest-neighbour) tour; and unless the budget tripped, the returned
/// tour is a local optimum of the move set for the well-formed candidate
/// graph of the instance.
pub fn solve_with_params(m: &DistanceMatrix, params: SolveParams) -> (r: Result<
    Solution,
    SolveError,
>)
    ensures
        r is Err <==> !valid_instance(m@, params.runs as int, params.candidate_count as int),
        r matches Err(e) ==> e == SolveError::InvalidInput,
        r matches Ok(sol) ==> {
            &&& is_perm(sol.tour@, m@.len() as nat)
            &&& sol.cost as int == tour_cost(m@, sol.tour@)
            &&& tour_cost(m@, sol.tour@) <= tour_cost(m@, nn_tour(m@))
            &&& params.iteration_limit is None ==> !sol.cancelled
            &&& !sol.cancelled ==> exists|c: Seq<Seq<usize>>|
                cand_wf(m@, params.candidate_count as nat, c) && locally_optimal(m@, sol.tour@, c)
        },
{
    let n = m.node_count();
    if params.runs < 1 || params.candidate_count < 1 || n < 3 || !m.is_square_check() {
        return Err(SolveError::InvalidInput);
    }
    let cands = build_candidates(m, params.candidate_count);
    proof {
        lemma_cand_wf_basic(m@, params.candidate_count as nat, cands@);
    }
    let mut v: usize = 0;
    while v < n
        invariant
            v <= n,
            n == m@.len(),
            n >= 3,
            params.candidate_count >= 1,
            cands@.len() == n,
            cand_wf(m@, params.candidate_count as nat, cands@),
        decreases n - v,
    {
        if cands.list_len(v) == 0 {
            proof {
                assert(crate::candidates::cand_list_wf(
                    m@,
                    params.candidate_count as nat,
                    v as int,
                    cands@[v as int],
                ));
                assert(false);
            }
            return Err(SolveError::InfeasibleCandidateSet);
        }
        v += 1;
    }
    let mut budget = match params.iteration_limit {
        Some(limit) => SearchBudget { limited: true, remaining: limit },
        None => SearchBudget { limited: false, remaining: 0 },
    };
    let mut best = nearest_neighbor_tour(m);
    let out0 = local_search(&mut best, m, &cands, &mut budget);
    let mut best_cost = best.total_cost(m);
    let mut any_cancelled = out0.cancelled;
    let mut rng = Rng::new(params.seed);
    let mut run: usize = 1;
    while run < params.runs
        invariant
            1 <= run <= params.runs || params.runs < 1,
            n == m@.len(),
            n >= 3,
            is_square(m@),
            cand_wf(m@, params.candidate_count as nat, cands@),
            crate::candidates::cand_basic(cands@, n as nat),
            best.valid(),
            best@.len() == n,
            best_cost as int == tour_cost(m@, best@),
            tour_cost(m@, best@) <= tour_cost(m@, nn_tour(m@)),
            budget.limited == (params.iteration_limit is Some),
            params.iteration_limit is None ==> !any_cancelled,
            !any_cancelled ==> locally_optimal(m@, best@, cands@),
        decreases params.runs - run,
    {
        let mut trial = if n >= 4 {
            double_bridge(&best, &mut rng)
        } else {
            best.duplicate()
        };
        let outr = local_search(&mut trial, m, &cands, &mut budget);
        let trial_cost = trial.total_cost(m);
        if trial_cost < best_cost {
            best = trial;
            best_cost = trial_cost;
        }
        any_cancelled = any_cancelled || outr.cancelled;
        run += 1;
    }
    proof {
        if !any_cancelled {
            assert(cand_wf(m@, params.candidate_count as nat, cands@) && locally_optimal(
                m@,
                best@,
                cands@,
            ));
        }
    }
    Ok(Solution { tour: best.into_order(), cost: best_cost, cancelled: any_cancelled })
}

impl DistanceMatrix {
    /// Solves the instance with `runs` independent restarts and the default
    /// candidate count, seed and (absent) budget. The returned tour is a
    /// permutation of the node indices `0..n`, its reported cost is exactly
    /// the tour's cost under this matrix, that cost never exceeds the cost
    /// of the first constructed (nearest-neighbour) tour, and the tour is a
    /// local optimum of the configured move set. Rejected with
    /// `InvalidInput` exactly when `runs == 0`, the matrix is not square,
    /// or there are fewer than three nodes.
    pub fn solve(&self, runs: usize) -> (r: Result<Solution, SolveError>)
        ensures
            r is Err <==> !(runs >= 1 && self@.len() >= 3 && is_square(self@)),
            r matches Err(e) ==> e == SolveError::InvalidInput,
            r matches Ok(sol) ==> {
                &&& is_perm(sol.tour@, self@.len() as nat)
                &&& sol.cost as int == tour_cost(self@, sol.tour@)
                &&& tour_cost(self@, sol.tour@) <= tour_cost(self@, nn_tour(self@))
                &&& !sol.cancelled
                &&& exists|c: Seq<Seq<usize>>|
                    cand_wf(self@, DEFAULT_CANDIDATE_COUNT as nat, c) && locally_optimal(
                        self@,
                        sol.tour@,
                        c,
                    )
            },
    {
        solve_with_params(self, SolveParams::with_runs(runs))
    }
}

} // verus!
