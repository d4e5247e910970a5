use vstd::prelude::*;
use crate::candidates::cand_before;
use crate::matrix::DistanceMatrix;
use crate::matrix::is_square;
use crate::perm::count_true;
use crate::perm::is_perm;
use crate::perm::lemma_count_true_bound;
use crate::perm::lemma_count_true_missing;
use crate::perm::lemma_count_true_update;
use crate::perm::lemma_count_true_zero;

verus! {

/// Among the nodes `w < upto` that are not yet on the partial tour `cur`,
/// the one whose directed edge from the last tour node is cheapest, ties
/// broken towards the lower index; `-1` when all of them are already on the
/// tour.
pub open spec fn nn_scan(m: Seq<Seq<u64>>, cur: Seq<usize>, upto: int) -> int
    decreases upto,
{
    if upto <= 0 {
        -1
    } else {
        let rest = nn_scan(m, cur, upto - 1);
        let w = upto - 1;
        if cur.contains(w as usize) {
            rest
        } else if rest == -1 {
            w
        } else if cand_before(m, cur.last() as int, w, rest) {
            w
        } else {
            rest
        }
    }
}

/// The greedy completion of the partial tour `cur`: keep appending the
/// nearest unvisited node until all `n` nodes are visited.
pub open spec fn nn_extend(m: Seq<Seq<u64>>, cur: Seq<usize>) -> Seq<usize>
    decreases m.len() - cur.len(),
{
    if cur.len() >= m.len() {
        cur
    } else {
        let w = nn_scan(m, cur, m.len() as int);
        if w < 0 {
            cur
        } else {
            nn_extend(m, cur.push(w as usize))
        }
    }
}

/// The nearest-neighbour starting tour: begin at node 0 and repeatedly
/// travel to the cheapest unvisited node (ties to the lower index).
pub open spec fn nn_tour(m: Seq<Seq<u64>>) -> Seq<usize> {
    nn_extend(m, seq![0usize])
}

/// The scan yields `-1` or an index below `upto`.
proof fn lemma_nn_scan_range(m: Seq<Seq<u64>>, cur: Seq<usize>, upto: int)
    ensures
        -1 <= nn_scan(m, cur, upto) < upto || (upto <= 0 && nn_scan(m, cur, upto) == -1),
        -1 <= nn_scan(m, cur, upto),
    decreases upto,
{
    if upto > 0 {
        lemma_nn_scan_range(m, cur, upto - 1);
    }
}

/// The scan finds something whenever an unvisited node below `upto` exists.
proof fn lemma_nn_scan_found(m: Seq<Seq<u64>>, cur: Seq<usize>, upto: int, w: int)
    requires
        0 <= w < upto,
        !cur.contains(w as usize),
    ensures
        nn_scan(m, cur, upto) >= 0,
    decreases upto,
{
    lemma_nn_scan_range(m, cur, upto - 1);
    if w < upto - 1 {
        lemma_nn_scan_found(m, cur, upto - 1, w);
    }
}

/// Builds the nearest-neighbour starting tour for the instance (the run
/// construction step): the returned order is exactly `nn_tour(m)` and is a
/// permutation of the nodes.
pub fn nearest_neighbor_tour(m: &DistanceMatrix) -> (t: crate::tour::Tour)
    requires
        is_square(m@),
        m@.len() >= 1,
    ensures
        t@ == nn_tour(m@),
        t.valid(),
        t@.len() == m@.len(),
{
    let n = m.node_count();
    let mut order: Vec<usize> = Vec::new();
    order.push(0);
    let mut visited: Vec<bool> = vec![false; n];
    visited[0] = true;
    proof {
        assert(order@ =~= seq![0usize]);
        assert(visited@ =~= Seq::new(n as nat, |x: int| false).update(0, true));
        lemma_count_true_zero(n as nat);
        lemma_count_true_update(Seq::new(n as nat, |x: int| false), 0);
        assert(order@[0] == 0usize);
        assert(order@.contains(0usize));
    }
    while order.len() < n
        invariant
            1 <= order@.len() <= n,
            n == m@.len(),
            is_square(m@),
            visited@.len() == n,
            count_true(visited@) == order@.len(),
            forall|w: int|
                0 <= w < n ==> (visited@[w] <==> order@.contains(w as usize)),
            forall|a: int| 0 <= a < order@.len() ==> (#[trigger] order@[a]) < n,
            forall|a: int, b: int| 0 <= a < b < order@.len() ==> order@[a] != order@[b],
            nn_extend(m@, order@) == nn_tour(m@),
        decreases n - order.len(),
    {
        let last = order[order.len() - 1];
        let mut best: usize = 0;
        let mut found = false;
        let mut w: usize = 0;
        while w < n
            invariant
                w <= n,
                n == m@.len(),
                is_square(m@),
                visited@.len() == n,
                order@.len() >= 1,
                last == order@.last(),
                last < n,
                forall|x: int|
                    0 <= x < n ==> (visited@[x] <==> order@.contains(x as usize)),
                found ==> best < n && (best as int) < w && !visited@[best as int],
                found ==> (best as int) == nn_scan(m@, order@, w as int),
                !found ==> nn_scan(m@, order@, w as int) == -1,
            decreases n - w,
        {
            let ghost prev = nn_scan(m@, order@, w as int);
            proof {
                lemma_nn_scan_range(m@, order@, w as int);
            }
            if !visited[w] {
                proof {
                    assert(!order@.contains(w));
                }
                if !found {
                    best = w;
                    found = true;
                } else {
                    let cw = m.cost(last, w);
                    let cb = m.cost(last, best);
                    if cw < cb {
                        best = w;
                    }
                }
            } else {
                proof {
                    assert(order@.contains(w));
                }
            }
            w += 1;
        }
        proof {
            if !found {
                lemma_count_true_bound(visited@);
                lemma_count_true_missing(visited@);
                let miss = choose|i: int| 0 <= i < n && !visited@[i];
                lemma_nn_scan_found(m@, order@, n as int, miss);
                assert(false);
            }
            assert(nn_scan(m@, order@, n as int) == best as int);
            assert(nn_extend(m@, order@) == nn_extend(m@, order@.push(best)));
        }
        let ghost old_order = order@;
        let ghost old_visited = visited@;
        visited[best] = true;
        order.push(best);
        proof {
            lemma_count_true_update(old_visited, best as int);
            assert forall|x: int|
                0 <= x < n implies (visited@[x] <==> order@.contains(x as usize)) by {
                if x == best as int {
                    assert(order@[order@.len() - 1] == best);
                    assert(order@.contains(best));
                } else {
                    assert(old_order.contains(x as usize) <==> order@.contains(x as usize)) by {
                        if old_order.contains(x as usize) {
                            let a = choose|a: int|
                                0 <= a < old_order.len() && old_order[a] == x as usize;
                            assert(order@[a] == x as usize);
                        }
                        if order@.contains(x as usize) {
                            let a = choose|a: int| 0 <= a < order@.len() && order@[a] == x as usize;
                            assert(a < old_order.len());
                            assert(old_order[a] == x as usize);
                        }
                    }
                }
            }
        }
    }
    proof {
        assert(is_perm(order@, order@.len() as nat));
        assert(nn_extend(m@, order@) == order@);
    }
    crate::tour::Tour::from_order_unchecked(order)
}

} // verus!
