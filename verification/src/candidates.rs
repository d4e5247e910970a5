use vstd::prelude::*;
use crate::matrix::DistanceMatrix;
use crate::matrix::is_square;
use crate::perm::count_true;
use crate::perm::lemma_count_true_bound;
use crate::perm::lemma_count_true_missing;
use crate::perm::lemma_count_true_update;
use crate::perm::lemma_count_true_zero;

verus! {

/// Candidate ordering at node `v`: `a` is a strictly better candidate than
/// `b` when the directed edge from `v` to `a` is cheaper than the one to
/// `b`, ties broken by the lower node index. For distinct `a` and `b` this
/// is a total order.
pub open spec fn cand_before(m: Seq<Seq<u64>>, v: int, a: int, b: int) -> bool {
    ||| m[v][a] < m[v][b]
    ||| (m[v][a] == m[v][b] && a < b)
}

/// Well-formedness of the candidate list `l` of node `v`: it holds exactly
/// `min(k, n-1)` entries, every entry is another node, the entries are
/// strictly ordered by (cost, index), and no node left out beats any entry.
/// These conditions pin the list down uniquely.
pub open spec fn cand_list_wf(m: Seq<Seq<u64>>, k: nat, v: int, l: Seq<usize>) -> bool {
    let n = m.len() as int;
    &&& l.len() == if k as int <= n - 1 {
        k as int
    } else {
        n - 1
    }
    &&& forall|a: int| 0 <= a < l.len() ==> (#[trigger] l[a]) < n && l[a] != v
    &&& forall|a: int, b: int| 0 <= a < b < l.len() ==> cand_before(m, v, l[a] as int, l[b] as int)
    &&& forall|w: usize|
        (w as int) < n && (w as int) != v && !(#[trigger] l.contains(w)) ==> forall|a: int|
            0 <= a < l.len() ==> cand_before(m, v, #[trigger] l[a] as int, w as int)
}

/// Well-formedness of the whole candidate graph: one well-formed list per
/// node.
pub open spec fn cand_wf(m: Seq<Seq<u64>>, k: nat, c: Seq<Seq<usize>>) -> bool {
    &&& c.len() == m.len()
    &&& forall|v: int| 0 <= v < c.len() ==> cand_list_wf(m, k, v, #[trigger] c[v])
}

/// The shape the search needs: one list per node, entries are node indices.
pub open spec fn cand_basic(c: Seq<Seq<usize>>, n: nat) -> bool {
    &&& c.len() == n
    &&& forall|v: int, a: int|
        0 <= v < c.len() && 0 <= a < c[v].len() ==> (#[trigger] c[v][a]) < n
}

pub proof fn lemma_cand_wf_basic(m: Seq<Seq<u64>>, k: nat, c: Seq<Seq<usize>>)
    requires
        cand_wf(m, k, c),
    ensures
        cand_basic(c, m.len()),
{
    assert forall|v: int, a: int|
        0 <= v < c.len() && 0 <= a < c[v].len() implies (#[trigger] c[v][a]) < m.len() by {
        assert(cand_list_wf(m, k, v, c[v]));
    }
}

/// The read-only candidate graph: for each node, a short list of promising
/// neighbour edges, built once per instance and used to prune the 2-opt
/// search.
pub struct CandidateGraph {
    lists: Vec<Vec<usize>>,
}

impl View for CandidateGraph {
    type V = Seq<Seq<usize>>;

    closed spec fn view(&self) -> Seq<Seq<usize>> {
        self.lists@.map_values(|l: Vec<usize>| l@)
    }
}

impl CandidateGraph {
    /// How many candidates node `v` has.
    pub fn list_len(&self, v: usize) -> (r: usize)
        requires
            (v as int) < self@.len(),
        ensures
            r == self@[v as int].len(),
    {
        proof {
            assert(self@[v as int] == self.lists@[v as int]@);
        }
        self.lists[v].len()
    }

    /// The `a`-th candidate of node `v`, in best-first order.
    pub fn entry(&self, v: usize, a: usize) -> (r: usize)
        requires
            (v as int) < self@.len(),
            (a as int) < self@[v as int].len(),
        ensures
            r == self@[v as int][a as int],
    {
        proof {
            assert(self@[v as int] == self.lists@[v as int]@);
        }
        self.lists[v][a]
    }
}

/// Builds the candidate graph: for every node, the `k` cheapest directed
/// edges to other nodes, ties broken towards the lower node index. With at
/// least two nodes and `k >= 1`, every node receives at least one
/// candidate.
pub fn build_candidates(m: &DistanceMatrix, k: usize) -> (r: CandidateGraph)
    requires
        is_square(m@),
    ensures
        cand_wf(m@, k as nat, r@),
{
    let n = m.node_count();
    let mut lists: Vec<Vec<usize>> = Vec::new();
    let mut v: usize = 0;
    while v < n
        invariant
            v <= n,
            n == m@.len(),
            is_square(m@),
            lists@.len() == v,
            forall|u: int| 0 <= u < v ==> cand_list_wf(m@, k as nat, u, (#[trigger] lists@[u])@),
        decreases n - v,
    {
        let kk = if k <= n - 1 {
            k
        } else {
            n - 1
        };
        let mut used: Vec<bool> = vec![false; n];
        used[v] = true;
        proof {
            assert(used@ =~= Seq::new(n as nat, |x: int| false).update(v as int, true));
            lemma_count_true_update(Seq::new(n as nat, |x: int| false), v as int);
            lemma_count_true_zero(n as nat);
        }
        let mut l: Vec<usize> = Vec::new();
        while l.len() < kk
            invariant
                kk <= n - 1,
                v < n,
                n == m@.len(),
                is_square(m@),
                l@.len() <= kk,
                used@.len() == n,
                count_true(used@) == l@.len() + 1,
                forall|w: int|
                    0 <= w < n ==> (used@[w] <==> (w == v as int || l@.contains(w as usize))),
                forall|a: int| 0 <= a < l@.len() ==> (#[trigger] l@[a]) < n && l@[a] != v,
                forall|a: int, b: int|
                    0 <= a < b < l@.len() ==> cand_before(m@, v as int, l@[a] as int, l@[b] as int),
                forall|w: int|
                    0 <= w < n && !used@[w] ==> forall|a: int|
                        0 <= a < l@.len() ==> cand_before(m@, v as int, #[trigger] l@[a] as int, w),
            decreases kk - l.len(),
        {
            let mut best: usize = 0;
            let mut found = false;
            let mut w: usize = 0;
            while w < n
                invariant
                    w <= n,
                    v < n,
                    n == m@.len(),
                    is_square(m@),
                    used@.len() == n,
                    found ==> best < n && (best as int) < w && !used@[best as int],
                    found ==> forall|x: int|
                        0 <= x < w && !used@[x] ==> best as int == x || cand_before(
                            m@,
                            v as int,
                            best as int,
                            x,
                        ),
                    !found ==> forall|x: int| 0 <= x < w ==> used@[x],
                decreases n - w,
            {
                if !used[w] {
                    if !found {
                        best = w;
                        found = true;
                    } else {
                        let cw = m.cost(v, w);
                        let cb = m.cost(v, best);
                        if cw < cb {
                            best = w;
                        }
                    }
                }
                w += 1;
            }
            proof {
                if !found {
                    lemma_count_true_bound(used@);
                    lemma_count_true_missing(used@);
                    assert(false);
                }
            }
            let ghost old_used = used@;
            let ghost old_l = l@;
            used[best] = true;
            l.push(best);
            proof {
                lemma_count_true_update(old_used, best as int);
                assert forall|x: int|
                    0 <= x < n implies (used@[x] <==> (x == v as int || l@.contains(
                    x as usize,
                ))) by {
                    if x == best as int {
                        assert(l@[l@.len() - 1] == best);
                        assert(l@.contains(best));
                    } else {
                        assert(used@[x] == old_used[x]);
                        assert(l@.contains(x as usize) <==> old_l.contains(x as usize)) by {
                            if old_l.contains(x as usize) {
                                let a = choose|a: int|
                                    0 <= a < old_l.len() && old_l[a] == x as usize;
                                assert(l@[a] == x as usize);
                            }
                            if l@.contains(x as usize) {
                                let a = choose|a: int| 0 <= a < l@.len() && l@[a] == x as usize;
                                assert(a < old_l.len());
                                assert(old_l[a] == x as usize);
                            }
                        }
                    }
                }
                assert forall|w2: int|
                    0 <= w2 < n && !used@[w2] implies forall|a: int|
                    0 <= a < l@.len() ==> cand_before(m@, v as int, #[trigger] l@[a] as int, w2) by {
                    assert forall|a: int|
                        0 <= a < l@.len() implies cand_before(
                        m@,
                        v as int,
                        #[trigger] l@[a] as int,
                        w2,
                    ) by {
                        assert(!old_used[w2]);
                        if a < l@.len() - 1 {
                            assert(cand_before(m@, v as int, old_l[a] as int, w2));
                        } else {
                            assert(l@[a] == best);
                            assert(best as int == w2 || cand_before(
                                m@,
                                v as int,
                                best as int,
                                w2,
                            ));
                        }
                    }
                }
            }
        }
        lists.push(l);
        proof {
            let u = v as int;
            let ll = lists@[u]@;
            assert(ll.len() == kk);
            assert forall|wx: usize|
                (wx as int) < n && (wx as int) != u && !(#[trigger] ll.contains(wx)) implies forall|
                a: int,
            | 0 <= a < ll.len() ==> cand_before(m@, u, #[trigger] ll[a] as int, wx as int) by {
                assert(!used@[wx as int]);
            }
            assert(cand_list_wf(m@, k as nat, u, ll));
        }
        v += 1;
    }
    let r = CandidateGraph { lists };
    proof {
        assert forall|u: int| 0 <= u < r@.len() implies cand_list_wf(
            m@,
            k as nat,
            u,
            #[trigger] r@[u],
        ) by {
            assert(r@[u] == lists@[u]@);
        }
    }
    r
}

} // verus!
