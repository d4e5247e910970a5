use vstd::prelude::*;
use crate::candidates::CandidateGraph;
use crate::candidates::cand_basic;
use crate::matrix::DistanceMatrix;
use crate::matrix::is_square;
use crate::perm::pos_of;
use crate::tour::Tour;
use crate::tour::lemma_cost_prefix_bounds;
use crate::tour::relocate;
use crate::tour::reverse_seg;
use crate::tour::tour_cost;

verus! {

/// The tour position of the candidate node named by scan index `i` and
/// candidate index `ci`: with `t2 = s[i]`, the position of the `ci`-th
/// candidate of `t2`.
pub open spec fn two_opt_target(s: Seq<usize>, c: Seq<Seq<usize>>, i: int, ci: int) -> int {
    pos_of(s, c[s[i] as int][ci])
}

/// The 2-opt move named by `(i, ci)` is in the configured move set: with
/// `t1 = s[i-1]`, `t2 = s[i]` and `t3` the `ci`-th candidate of `t2`
/// standing at position `j`, the candidate edge `(t2, t3)` must be cheaper
/// than the broken edge `(t1, t2)` (the pruning rule: without it the move
/// cannot improve a symmetric instance), and the reversed run `i..=j` must
/// be a proper segment.
pub open spec fn two_opt_applicable(
    m: Seq<Seq<u64>>,
    s: Seq<usize>,
    c: Seq<Seq<usize>>,
    i: int,
    ci: int,
) -> bool {
    let n = s.len() as int;
    &&& 1 <= i < n
    &&& 0 <= ci < c[s[i] as int].len()
    &&& {
        let t1 = s[i - 1] as int;
        let t2 = s[i] as int;
        let t3 = c[t2][ci] as int;
        let j = two_opt_target(s, c, i, ci);
        &&& m[t2][t3] < m[t1][t2]
        &&& i < j < n
    }
}

/// The 2-opt move named by `(i, ci)` strictly lowers the tour cost. Cost is
/// re-evaluated on the reversed order, which is exact for asymmetric
/// instances too.
pub open spec fn two_opt_improves(
    m: Seq<Seq<u64>>,
    s: Seq<usize>,
    c: Seq<Seq<usize>>,
    i: int,
    ci: int,
) -> bool {
    &&& two_opt_applicable(m, s, c, i, ci)
    &&& tour_cost(m, reverse_seg(s, i, two_opt_target(s, c, i, ci))) < tour_cost(m, s)
}

/// No candidate-restricted 2-opt move improves the tour.
pub open spec fn no_improving_two_opt(m: Seq<Seq<u64>>, s: Seq<usize>, c: Seq<Seq<usize>>) -> bool {
    forall|i: int, ci: int| !two_opt_improves(m, s, c, i, ci)
}

/// The Or-opt move `(i, len, j)` is in the move set: a run of one to three
/// nodes starting at position `i` is taken out and reinserted at position
/// `j` of the remaining order.
pub open spec fn or_opt_applicable(s: Seq<usize>, i: int, len: int, j: int) -> bool {
    &&& 1 <= len <= 3
    &&& 0 <= i
    &&& i + len <= s.len()
    &&& 0 <= j <= s.len() - len
}

/// The Or-opt move `(i, len, j)` strictly lowers the tour cost.
pub open spec fn or_opt_improves(m: Seq<Seq<u64>>, s: Seq<usize>, i: int, len: int, j: int) -> bool {
    &&& or_opt_applicable(s, i, len, j)
    &&& tour_cost(m, relocate(s, i, len, j)) < tour_cost(m, s)
}

/// No Or-opt relocation improves the tour.
pub open spec fn no_improving_or_opt(m: Seq<Seq<u64>>, s: Seq<usize>) -> bool {
    forall|i: int, len: int, j: int| !or_opt_improves(m, s, i, len, j)
}

/// A local optimum of the configured move set: no candidate-pruned 2-opt
/// reversal and no Or-opt relocation strictly lowers the tour cost.
pub open spec fn locally_optimal(m: Seq<Seq<u64>>, s: Seq<usize>, c: Seq<Seq<usize>>) -> bool {
    &&& no_improving_two_opt(m, s, c)
    &&& no_improving_or_opt(m, s)
}

/// One first-improvement step of the engine: scan the 2-opt moves in order
/// and apply the first strictly improving one; when none improves, scan the
/// Or-opt moves the same way. Applying a move strictly lowers the cost and
/// keeps the tour a permutation; applying none means the tour is a local
/// optimum, and the tour is then left untouched. A malformed tour is ruled
/// out by the precondition rather than detected at run time: callers inside
/// the library are verified to uphold it.
pub fn improve_step(tour: &mut Tour, m: &DistanceMatrix, cands: &CandidateGraph) -> (applied: bool)
    requires
        is_square(m@),
        old(tour).valid(),
        old(tour)@.len() == m@.len(),
        m@.len() >= 1,
        cand_basic(cands@, m@.len() as nat),
    ensures
        final(tour).valid(),
        final(tour)@.len() == old(tour)@.len(),
        applied ==> tour_cost(m@, final(tour)@) < tour_cost(m@, old(tour)@),
        applied ==> !locally_optimal(m@, old(tour)@, cands@),
        applied ==> (exists|i: int, ci: int|
            #[trigger] two_opt_improves(m@, old(tour)@, cands@, i, ci) && final(tour)@
                == reverse_seg(old(tour)@, i, two_opt_target(old(tour)@, cands@, i, ci))) || (
        exists|i: int, len: int, j: int|
            #[trigger] or_opt_improves(m@, old(tour)@, i, len, j) && final(tour)@ == relocate(
                old(tour)@,
                i,
                len,
                j,
            )),
        !applied ==> final(tour)@ == old(tour)@ && locally_optimal(m@, old(tour)@, cands@),
{
    let ghost s0 = tour@;
    let n = tour.node_count();
    let cur_cost = tour.total_cost(m);
    let mut i: usize = 1;
    while i < n
        invariant
            1 <= i <= n,
            n == m@.len(),
            n >= 1,
            is_square(m@),
            cand_basic(cands@, n as nat),
            s0 == old(tour)@,
            tour@ == s0,
            tour.valid(),
            tour@.len() == n,
            cur_cost as int == tour_cost(m@, s0),
            forall|i2: int, ci2: int| i2 < i ==> !two_opt_improves(m@, s0, cands@, i2, ci2),
        decreases n - i,
    {
        let t1 = tour.get(i - 1);
        let t2 = tour.get(i);
        let c12 = m.cost(t1, t2);
        let llen = cands.list_len(t2);
        let mut ci: usize = 0;
        while ci < llen
            invariant
                1 <= i < n,
                ci <= llen,
                n == m@.len(),
                is_square(m@),
                cand_basic(cands@, n as nat),
                s0 == old(tour)@,
                tour@ == s0,
                tour.valid(),
                tour@.len() == n,
                cur_cost as int == tour_cost(m@, s0),
                t1 == s0[i - 1],
                t2 == s0[i as int],
                c12 == m@[t1 as int][t2 as int],
                t2 < n,
                llen == cands@[t2 as int].len(),
                forall|ci2: int| ci2 < ci ==> !two_opt_improves(m@, s0, cands@, i as int, ci2),
            decreases llen - ci,
        {
            let t3 = cands.entry(t2, ci);
            let c23 = m.cost(t2, t3);
            if c23 < c12 {
                let j = tour.sequence_position(t3);
                if j > i {
                    let mut cand_tour = tour.duplicate();
                    cand_tour.reverse(i, j);
                    let c_new = cand_tour.total_cost(m);
                    if c_new < cur_cost {
                        tour.reverse(i, j);
                        proof {
                            assert(two_opt_improves(m@, s0, cands@, i as int, ci as int));
                        }
                        return true;
                    }
                    proof {
                        assert(!two_opt_improves(m@, s0, cands@, i as int, ci as int));
                    }
                } else {
                    proof {
                        assert(!two_opt_applicable(m@, s0, cands@, i as int, ci as int));
                    }
                }
            } else {
                proof {
                    assert(!two_opt_applicable(m@, s0, cands@, i as int, ci as int));
                }
            }
            ci += 1;
        }
        i += 1;
    }
    proof {
        assert forall|i2: int, ci2: int| !two_opt_improves(m@, s0, cands@, i2, ci2) by {
            if 1 <= i2 < n {
                if !(0 <= ci2 < cands@[s0[i2] as int].len()) {
                    assert(!two_opt_applicable(m@, s0, cands@, i2, ci2));
                }
            } else {
                assert(!two_opt_applicable(m@, s0, cands@, i2, ci2));
            }
        }
    }
    let mut oi: usize = 0;
    while oi < n
        invariant
            oi <= n,
            n == m@.len(),
            n >= 1,
            is_square(m@),
            s0 == old(tour)@,
            tour@ == s0,
            tour.valid(),
            tour@.len() == n,
            cur_cost as int == tour_cost(m@, s0),
            forall|i2: int, l2: int, j2: int| i2 < oi ==> !or_opt_improves(m@, s0, i2, l2, j2),
        decreases n - oi,
    {
        let lmax = if 3 <= n - oi {
            3
        } else {
            n - oi
        };
        let mut ol: usize = 1;
        while ol <= lmax
            invariant
                1 <= ol <= lmax + 1,
                oi < n,
                lmax <= 3,
                lmax <= n - oi,
                n == m@.len(),
                is_square(m@),
                s0 == old(tour)@,
                tour@ == s0,
                tour.valid(),
                tour@.len() == n,
                cur_cost as int == tour_cost(m@, s0),
                forall|l2: int, j2: int| l2 < ol ==> !or_opt_improves(m@, s0, oi as int, l2, j2),
            decreases lmax + 1 - ol,
        {
            let jmax = n - ol;
            let mut oj: usize = 0;
            while oj <= jmax
                invariant
                    oj <= jmax + 1,
                    jmax == n - ol,
                    oi < n,
                    1 <= ol <= lmax,
                    lmax <= 3,
                    lmax <= n - oi,
                    n == m@.len(),
                    is_square(m@),
                    s0 == old(tour)@,
                    tour@ == s0,
                    tour.valid(),
                    tour@.len() == n,
                    cur_cost as int == tour_cost(m@, s0),
                    forall|j2: int| j2 < oj ==> !or_opt_improves(m@, s0, oi as int, ol as int, j2),
                decreases jmax + 1 - oj,
            {
                let cand_tour = tour.relocated(oi, ol, oj);
                let c_new = cand_tour.total_cost(m);
                if c_new < cur_cost {
                    proof {
                        assert(or_opt_improves(m@, s0, oi as int, ol as int, oj as int));
                    }
                    *tour = cand_tour;
                    return true;
                }
                proof {
                    assert(!or_opt_improves(m@, s0, oi as int, ol as int, oj as int));
                }
                oj += 1;
            }
            proof {
                assert forall|j2: int| !or_opt_improves(m@, s0, oi as int, ol as int, j2) by {
                    if j2 > n - ol {
                        assert(!or_opt_applicable(s0, oi as int, ol as int, j2));
                    }
                }
            }
            ol += 1;
        }
        proof {
            assert forall|l2: int, j2: int| !or_opt_improves(m@, s0, oi as int, l2, j2) by {
                if l2 > lmax {
                    assert(!or_opt_applicable(s0, oi as int, l2, j2));
                }
            }
        }
        oi += 1;
    }
    proof {
        assert forall|i2: int, l2: int, j2: int| !or_opt_improves(m@, s0, i2, l2, j2) by {
            if !(0 <= i2 < n) {
                assert(!or_opt_applicable(s0, i2, l2, j2));
            }
        }
    }
    false
}

/// The cooperative cancellation bound: when `limited`, the engine checks
/// `remaining` at the top of every scan and stops once it reaches zero.
pub struct SearchBudget {
    pub limited: bool,
    pub remaining: u64,
}

/// What a run of the engine did: how many improving moves it applied, and
/// whether it stopped because the budget ran out rather than at a local
/// optimum.
pub struct SearchOutcome {
    pub moves: u128,
    pub cancelled: bool,
}

/// Drives the tour to a local optimum of the move set (or until the budget
/// trips): improving moves are applied first-improvement, and after each
/// applied move the scan starts afresh rather than continuing the stale
/// one. The cost never increases; when the search was not cancelled the
/// result is a local optimum; and a tour that is already a local optimum is
/// returned untouched with zero moves applied.
pub fn local_search(
    tour: &mut Tour,
    m: &DistanceMatrix,
    cands: &CandidateGraph,
    budget: &mut SearchBudget,
) -> (out: SearchOutcome)
    requires
        is_square(m@),
        old(tour).valid(),
        old(tour)@.len() == m@.len(),
        m@.len() >= 1,
        cand_basic(cands@, m@.len() as nat),
    ensures
        final(tour).valid(),
        final(tour)@.len() == old(tour)@.len(),
        tour_cost(m@, final(tour)@) <= tour_cost(m@, old(tour)@),
        !out.cancelled ==> locally_optimal(m@, final(tour)@, cands@),
        !old(budget).limited ==> !out.cancelled,
        final(budget).limited == old(budget).limited,
        locally_optimal(m@, old(tour)@, cands@) ==> final(tour)@ == old(tour)@ && out.moves == 0,
{
    let ghost orig = tour@;
    let n = tour.node_count();
    let mut moves: u128 = 0;
    let mut cancelled = false;
    loop
        invariant_except_break
            is_square(m@),
            m@.len() >= 1,
            cand_basic(cands@, m@.len() as nat),
            tour.valid(),
            tour@.len() == orig.len(),
            orig.len() == m@.len(),
            orig.len() == n,
            tour_cost(m@, tour@) <= tour_cost(m@, orig),
            locally_optimal(m@, orig, cands@) ==> tour@ == orig && moves == 0,
            moves as int <= tour_cost(m@, orig) - tour_cost(m@, tour@),
            cancelled == false,
            budget.limited == old(budget).limited,
        ensures
            tour.valid(),
            tour@.len() == orig.len(),
            tour_cost(m@, tour@) <= tour_cost(m@, orig),
            locally_optimal(m@, orig, cands@) ==> tour@ == orig && moves == 0,
            budget.limited == old(budget).limited,
            !cancelled ==> locally_optimal(m@, tour@, cands@),
            cancelled ==> old(budget).limited,
        decreases tour_cost(m@, tour@),
    {
        proof {
            lemma_cost_prefix_bounds(m@, tour@, tour@.len() as int);
            lemma_cost_prefix_bounds(m@, orig, orig.len() as int);
        }
        if budget.limited {
            if budget.remaining == 0 {
                cancelled = true;
                break;
            }
            budget.remaining = budget.remaining - 1;
        }
        let applied = improve_step(tour, m, cands);
        proof {
            lemma_cost_prefix_bounds(m@, tour@, tour@.len() as int);
        }
        if !applied {
            break;
        }
        proof {
            assert((n as int) * (u64::MAX as int) < u128::MAX as int) by (nonlinear_arith)
                requires
                    0 <= n as int <= usize::MAX as int,
            ;
        }
        moves = moves + 1;
    }
    SearchOutcome { moves, cancelled }
}

} // verus!
