use vstd::prelude::*;
use crate::matrix::DistanceMatrix;
use crate::matrix::is_square;
use crate::perm::is_perm;
use crate::perm::lemma_perm_contains_all;
use crate::perm::lemma_pos_of;
use crate::perm::pos_of;

verus! {

/// A valid tour visits every node exactly once: each node below `n` stands
/// at exactly one position of the order, so the order forms a single
/// Hamiltonian cycle over all `n` nodes.
pub proof fn lemma_tour_single_cycle(s: Seq<usize>, n: nat, v: usize)
    requires
        is_perm(s, n),
        v < n,
    ensures
        exists|i: int| 0 <= i < s.len() && s[i] == v,
        forall|i: int, j: int|
            0 <= i < s.len() && 0 <= j < s.len() && s[i] == v && s[j] == v ==> i == j,
{
    lemma_perm_contains_all(s, n, v);
}

/// The order with the segment at positions `i..=j` flipped; everything
/// outside the segment is unchanged.
pub open spec fn reverse_seg(s: Seq<usize>, i: int, j: int) -> Seq<usize> {
    Seq::new(s.len(), |p: int| if i <= p && p <= j { s[i + j - p] } else { s[p] })
}

/// The order with the segment of `len` entries starting at position `i`
/// taken out and reinserted so that it starts at position `j` of the
/// remaining order.
pub open spec fn relocate(s: Seq<usize>, i: int, len: int, j: int) -> Seq<usize> {
    let seg = s.subrange(i, i + len);
    let rest = s.subrange(0, i) + s.subrange(i + len, s.len() as int);
    rest.subrange(0, j) + seg + rest.subrange(j, rest.len() as int)
}

/// The four-segment exchange with cut points `0 < a < b < c < n`: the order
/// A B C D (B at positions `a..b`, C at `b..c`) becomes A C B D. This is the
/// double-bridge perturbation, written as a relocation of B.
pub open spec fn segment_exchange(s: Seq<usize>, a: int, b: int, c: int) -> Seq<usize> {
    relocate(s, a, b - a, a + (c - b))
}

/// Reversing a segment of a permutation leaves a permutation: position `p`
/// of the result reads position `i + j - p` or `p` of the original, and that
/// source map is injective. This is the tour invariant under 2-opt moves.
pub proof fn lemma_reverse_seg_perm(s: Seq<usize>, n: nat, i: int, j: int)
    requires
        is_perm(s, n),
        0 <= i <= j < s.len(),
    ensures
        is_perm(reverse_seg(s, i, j), n),
{
}

/// Reversing the same segment twice restores the original order exactly.
pub proof fn lemma_reverse_seg_involutive(s: Seq<usize>, i: int, j: int)
    requires
        0 <= i <= j < s.len(),
    ensures
        reverse_seg(reverse_seg(s, i, j), i, j) == s,
{
    assert(reverse_seg(reverse_seg(s, i, j), i, j) =~= s);
}

/// Relocating a segment of a permutation leaves a permutation: every result
/// position reads a distinct position of the original. This is the tour
/// invariant under Or-opt and double-bridge moves.
pub proof fn lemma_relocate_perm(s: Seq<usize>, n: nat, i: int, len: int, j: int)
    requires
        is_perm(s, n),
        1 <= len,
        0 <= i,
        i + len <= n,
        0 <= j <= n - len,
    ensures
        is_perm(relocate(s, i, len, j), n),
{
    let r = relocate(s, i, len, j);
    let rest = s.subrange(0, i) + s.subrange(i + len, s.len() as int);
    assert(r.len() == n);
    assert forall|p: int| 0 <= p < n implies (#[trigger] r[p]) < n by {
        if p < j {
            assert(r[p] == rest[p]);
        } else if p < j + len {
            assert(r[p] == s[i + (p - j)]);
        } else {
            assert(r[p] == rest[p - len]);
        }
    }
    assert forall|p: int, q: int| 0 <= p < q < n implies r[p] != r[q] by {
        lemma_relocate_source(s, n, i, len, j, p);
        lemma_relocate_source(s, n, i, len, j, q);
    }
}

/// Which position of the original order each result position of `relocate`
/// reads.
pub open spec fn relocate_source(i: int, len: int, j: int, p: int) -> int {
    if p < j {
        if p < i {
            p
        } else {
            p + len
        }
    } else if p < j + len {
        i + (p - j)
    } else {
        if p - len < i {
            p - len
        } else {
            p
        }
    }
}

proof fn lemma_relocate_source(s: Seq<usize>, n: nat, i: int, len: int, j: int, p: int)
    requires
        is_perm(s, n),
        1 <= len,
        0 <= i,
        i + len <= n,
        0 <= j <= n - len,
        0 <= p < n,
    ensures
        relocate(s, i, len, j)[p] == s[relocate_source(i, len, j, p)],
        0 <= relocate_source(i, len, j, p) < n,
{
    let rest = s.subrange(0, i) + s.subrange(i + len, s.len() as int);
    if p < j {
        assert(relocate(s, i, len, j)[p] == rest[p]);
    } else if p < j + len {
        assert(relocate(s, i, len, j)[p] == s[i + (p - j)]);
    } else {
        assert(relocate(s, i, len, j)[p] == rest[p - len]);
    }
}

/// The cost of the edge leaving position `p` of the cyclic order `s`: the
/// last position closes the cycle back to `s[0]`.
pub open spec fn edge_cost(m: Seq<Seq<u64>>, s: Seq<usize>, p: int) -> int {
    if p == s.len() - 1 {
        m[s[p] as int][s[0] as int] as int
    } else {
        m[s[p] as int][s[p + 1] as int] as int
    }
}

/// The summed cost of the edges leaving positions `0..k`.
pub open spec fn cost_prefix(m: Seq<Seq<u64>>, s: Seq<usize>, k: int) -> int
    decreases k,
{
    if k <= 0 {
        0
    } else {
        cost_prefix(m, s, k - 1) + edge_cost(m, s, k - 1)
    }
}

/// The total cost of the Hamiltonian cycle
/// `s[0] -> s[1] -> ... -> s[n-1] -> s[0]` under the cost matrix `m`.
pub open spec fn tour_cost(m: Seq<Seq<u64>>, s: Seq<usize>) -> int {
    cost_prefix(m, s, s.len() as int)
}

/// Every prefix cost is non-negative and at most `k` full-range edges.
pub proof fn lemma_cost_prefix_bounds(m: Seq<Seq<u64>>, s: Seq<usize>, k: int)
    requires
        0 <= k,
    ensures
        0 <= cost_prefix(m, s, k) <= k * (u64::MAX as int),
    decreases k,
{
    if k > 0 {
        lemma_cost_prefix_bounds(m, s, k - 1);
        assert((k - 1) * (u64::MAX as int) + u64::MAX as int == k * (u64::MAX as int))
            by (nonlinear_arith);
    }
}

/// The position of `b` walking forward from `a` around a cycle of length
/// `n`: 0 when they are equal, else the number of forward steps.
pub open spec fn cyclic_offset(n: int, a: int, b: int) -> int {
    if b >= a {
        b - a
    } else {
        b + n - a
    }
}

/// Node `b` lies on the forward path from node `a` to node `c` (endpoints
/// included) in the tour order `s`.
pub open spec fn between_spec(s: Seq<usize>, a: usize, b: usize, c: usize) -> bool {
    let n = s.len() as int;
    cyclic_offset(n, pos_of(s, a), pos_of(s, b)) <= cyclic_offset(n, pos_of(s, a), pos_of(s, c))
}

/// The node after `v` in tour order (cyclically).
pub open spec fn tour_next(s: Seq<usize>, v: usize) -> usize {
    let p = pos_of(s, v);
    if p == s.len() - 1 {
        s[0]
    } else {
        s[p + 1]
    }
}

/// The node before `v` in tour order (cyclically).
pub open spec fn tour_prev(s: Seq<usize>, v: usize) -> usize {
    let p = pos_of(s, v);
    if p == 0 {
        s[s.len() - 1]
    } else {
        s[p - 1]
    }
}

/// A Hamiltonian cycle over the nodes `0..n`, stored as the visiting order.
/// This is the simple array representation: `next`, `prev` and
/// `sequence_position` scan in O(n), `reverse` costs O(segment length), and
/// every mutating operation preserves the permutation invariant.
pub struct Tour {
    order: Vec<usize>,
}

impl View for Tour {
    type V = Seq<usize>;

    closed spec fn view(&self) -> Seq<usize> {
        self.order@
    }
}

impl Tour {
    /// The tour invariant: the stored order is a permutation of `0..n`, so
    /// the tour is a single cycle visiting every node exactly once.
    pub open spec fn valid(&self) -> bool {
        is_perm(self@, self@.len() as nat)
    }

    /// Wraps an order known to be a permutation.
    pub(crate) fn from_order_unchecked(order: Vec<usize>) -> (t: Tour)
        requires
            is_perm(order@, order@.len() as nat),
        ensures
            t@ == order@,
            t.valid(),
    {
        Tour { order }
    }

    /// Builds a tour from a visiting order, checking that the order is a
    /// permutation of `0..n`; returns `None` exactly when it is not.
    pub fn from_order(order: Vec<usize>) -> (r: Option<Tour>)
        ensures
            r matches Some(t) ==> t@ == order@ && t.valid(),
            r is Some <==> is_perm(order@, order@.len() as nat),
    {
        let n = order.len();
        let mut seen: Vec<bool> = vec![false; n];
        let mut i: usize = 0;
        while i < n
            invariant
                i <= n,
                n == order@.len(),
                seen@.len() == n,
                forall|w: int|
                    0 <= w < n ==> (seen@[w] <==> exists|p: int|
                        0 <= p < i && order@[p] == w as usize),
                forall|p: int| 0 <= p < i ==> (#[trigger] order@[p]) < n,
                forall|p: int, q: int| 0 <= p < q < i ==> order@[p] != order@[q],
            decreases n - i,
        {
            let v = order[i];
            if v >= n {
                return None;
            }
            if seen[v] {
                proof {
                    let p = choose|p: int| 0 <= p < i && order@[p] == v;
                    assert(order@[p] == order@[i as int]);
                }
                return None;
            }
            seen[v] = true;
            proof {
                assert forall|w: int|
                    0 <= w < n implies (seen@[w] <==> exists|p: int|
                        0 <= p < i + 1 && order@[p] == w as usize) by {
                    if w == v as int {
                        assert(order@[i as int] == w as usize);
                    } else {
                        if exists|p: int| 0 <= p < i + 1 && order@[p] == w as usize {
                            let p = choose|p: int| 0 <= p < i + 1 && order@[p] == w as usize;
                            assert(p < i);
                        }
                    }
                }
            }
            i += 1;
        }
        Some(Tour { order })
    }

    /// The number of nodes on the tour.
    pub fn node_count(&self) -> (n: usize)
        ensures
            n == self@.len(),
    {
        self.order.len()
    }

    /// The node at position `i` of the order.
    pub fn get(&self, i: usize) -> (v: usize)
        requires
            i < self@.len(),
        ensures
            v == self@[i as int],
    {
        self.order[i]
    }

    /// Gives the visiting order up, consuming the tour.
    pub fn into_order(self) -> (r: Vec<usize>)
        ensures
            r@ == self@,
    {
        self.order
    }

    /// An exact copy of the tour.
    pub fn duplicate(&self) -> (r: Tour)
        ensures
            r@ == self@,
    {
        let order = self.order.clone();
        proof {
            assert forall|i: int| 0 <= i < order@.len() implies order@[i] == self.order@[i] by {
                assert(cloned::<usize>(self.order@[i], order@[i]));
            }
            assert(order@ =~= self.order@);
        }
        Tour { order }
    }

    /// The position at which node `v` is visited (O(n) scan).
    pub fn sequence_position(&self, v: usize) -> (p: usize)
        requires
            self.valid(),
            (v as int) < self@.len(),
        ensures
            p < self@.len(),
            self@[p as int] == v,
            p as int == pos_of(self@, v),
    {
        proof {
            lemma_perm_contains_all(self@, self@.len() as nat, v);
        }
        let n = self.order.len();
        let mut i: usize = 0;
        while i < n
            invariant
                i <= n,
                n == self@.len(),
                self.valid(),
                v < n,
                exists|q: int| 0 <= q < n && self@[q] == v,
                forall|q: int| 0 <= q < i ==> self@[q] != v,
            decreases n - i,
        {
            if self.order[i] == v {
                proof {
                    lemma_pos_of(self@, self@.len() as nat, v, i as int);
                }
                return i;
            }
            i += 1;
        }
        proof {
            assert(false);
        }
        0
    }

    /// The node visited immediately after `v`.
    pub fn next(&self, v: usize) -> (w: usize)
        requires
            self.valid(),
            (v as int) < self@.len(),
        ensures
            w == tour_next(self@, v),
    {
        let p = self.sequence_position(v);
        if p == self.order.len() - 1 {
            self.order[0]
        } else {
            self.order[p + 1]
        }
    }

    /// The node visited immediately before `v`.
    pub fn prev(&self, v: usize) -> (w: usize)
        requires
            self.valid(),
            (v as int) < self@.len(),
        ensures
            w == tour_prev(self@, v),
    {
        let p = self.sequence_position(v);
        if p == 0 {
            self.order[self.order.len() - 1]
        } else {
            self.order[p - 1]
        }
    }

    /// Says whether node `b` lies on the forward path from node `a` to node
    /// `c` in tour order (endpoints included).
    pub fn between(&self, a: usize, b: usize, c: usize) -> (r: bool)
        requires
            self.valid(),
            (a as int) < self@.len(),
            (b as int) < self@.len(),
            (c as int) < self@.len(),
        ensures
            r == between_spec(self@, a, b, c),
    {
        let n = self.order.len();
        let pa = self.sequence_position(a);
        let pb = self.sequence_position(b);
        let pc = self.sequence_position(c);
        let off_b = if pb >= pa {
            pb - pa
        } else {
            (n - pa) + pb
        };
        let off_c = if pc >= pa {
            pc - pa
        } else {
            (n - pa) + pc
        };
        off_b <= off_c
    }

    /// Flips the orientation of the contiguous run of positions `i..=j`
    /// in place (O(segment length)). The permutation invariant is kept.
    pub fn reverse(&mut self, i: usize, j: usize)
        requires
            i <= j < old(self)@.len(),
        ensures
            final(self)@ == reverse_seg(old(self)@, i as int, j as int),
            final(self)@.len() == old(self)@.len(),
            old(self).valid() ==> final(self).valid(),
    {
        let mut a = i;
        let mut b = j;
        while a < b
            invariant
                i <= a,
                b <= j,
                a + b == i + j,
                a <= b + 1,
                j < self@.len(),
                self@.len() == old(self)@.len(),
                forall|p: int|
                    0 <= p < self@.len() && !(a <= p <= b) ==> self@[p] == reverse_seg(
                        old(self)@,
                        i as int,
                        j as int,
                    )[p],
                forall|p: int| a <= p <= b ==> self@[p] == old(self)@[p],
            decreases b + 1 - a,
        {
            let va = self.order[a];
            let vb = self.order[b];
            self.order[a] = vb;
            self.order[b] = va;
            a += 1;
            b -= 1;
        }
        proof {
            assert(self@ =~= reverse_seg(old(self)@, i as int, j as int));
            if old(self).valid() {
                lemma_reverse_seg_perm(old(self)@, old(self)@.len() as nat, i as int, j as int);
            }
        }
    }

    /// A copy of the tour with the segment of `len` nodes starting at
    /// position `i` taken out and reinserted at position `j` of the
    /// remaining order. The permutation invariant is kept.
    pub fn relocated(&self, i: usize, len: usize, j: usize) -> (r: Tour)
        requires
            1 <= len,
            i + len <= self@.len(),
            j + len <= self@.len(),
        ensures
            r@ == relocate(self@, i as int, len as int, j as int),
            r@.len() == self@.len(),
            self.valid() ==> r.valid(),
    {
        let n = self.order.len();
        let ghost s = self@;
        let ghost rest_spec = s.subrange(0, i as int) + s.subrange(i as int + len as int, n as int);
        let mut rest: Vec<usize> = Vec::new();
        let mut p: usize = 0;
        while p < i
            invariant
                p <= i,
                i + len <= n,
                n == s.len(),
                self@ == s,
                rest@ == s.subrange(0, p as int),
            decreases i - p,
        {
            let v = self.order[p];
            rest.push(v);
            proof {
                assert(s.subrange(0, p + 1) =~= s.subrange(0, p as int).push(s[p as int]));
            }
            p += 1;
        }
        let mut q: usize = i + len;
        while q < n
            invariant
                i + len <= q <= n,
                n == s.len(),
                self@ == s,
                rest@ == s.subrange(0, i as int) + s.subrange(i as int + len as int, q as int),
            decreases n - q,
        {
            let v = self.order[q];
            rest.push(v);
            proof {
                assert(s.subrange(0, i as int) + s.subrange(i as int + len as int, q + 1)
                    =~= (s.subrange(0, i as int) + s.subrange(
                    i as int + len as int,
                    q as int,
                )).push(s[q as int]));
            }
            q += 1;
        }
        proof {
            assert(rest@ == rest_spec);
            assert(rest@.len() == n - len);
        }
        let mut out: Vec<usize> = Vec::new();
        let mut a: usize = 0;
        while a < j
            invariant
                a <= j,
                j + len <= n,
                n == s.len(),
                rest@ == rest_spec,
                rest@.len() == n - len,
                out@ == rest_spec.subrange(0, a as int),
            decreases j - a,
        {
            let v = rest[a];
            out.push(v);
            proof {
                assert(rest_spec.subrange(0, a + 1) =~= rest_spec.subrange(0, a as int).push(
                    rest_spec[a as int],
                ));
            }
            a += 1;
        }
        let mut b: usize = 0;
        while b < len
            invariant
                b <= len,
                i + len <= n,
                j + len <= n,
                n == s.len(),
                self@ == s,
                rest@ == rest_spec,
                rest@.len() == n - len,
                out@ == rest_spec.subrange(0, j as int) + s.subrange(i as int, i as int + b as int),
            decreases len - b,
        {
            let v = self.order[i + b];
            out.push(v);
            proof {
                assert(rest_spec.subrange(0, j as int) + s.subrange(i as int, i as int + b + 1)
                    =~= (rest_spec.subrange(0, j as int) + s.subrange(
                    i as int,
                    i as int + b as int,
                )).push(s[i as int + b as int]));
            }
            b += 1;
        }
        let mut c: usize = j;
        let rest_len = rest.len();
        while c < rest_len
            invariant
                j <= c <= rest_len,
                rest_len == n - len,
                i + len <= n,
                j + len <= n,
                n == s.len(),
                rest_spec.len() == n - len,
                rest@ == rest_spec,
                out@ == rest_spec.subrange(0, j as int) + s.subrange(i as int, i as int + len as int)
                    + rest_spec.subrange(j as int, c as int),
            decreases rest_len - c,
        {
            let v = rest[c];
            out.push(v);
            proof {
                assert(rest_spec.subrange(0, j as int) + s.subrange(i as int, i as int + len as int)
                    + rest_spec.subrange(j as int, c + 1) =~= (rest_spec.subrange(0, j as int)
                    + s.subrange(i as int, i as int + len as int) + rest_spec.subrange(
                    j as int,
                    c as int,
                )).push(rest_spec[c as int]));
            }
            c += 1;
        }
        proof {
            assert(out@ =~= relocate(s, i as int, len as int, j as int));
            if self.valid() {
                lemma_relocate_perm(s, s.len() as nat, i as int, len as int, j as int);
            }
        }
        Tour { order: out }
    }

    /// The total cost of the cycle under the given matrix: the sum of the
    /// costs of the `n` directed edges, the last edge closing the cycle.
    pub fn total_cost(&self, m: &DistanceMatrix) -> (r: u128)
        requires
            self.valid(),
            is_square(m@),
            self@.len() == m@.len(),
        ensures
            r as int == tour_cost(m@, self@),
    {
        let n = self.order.len();
        let mut acc: u128 = 0;
        let mut p: usize = 0;
        while p < n
            invariant
                p <= n,
                n == self@.len(),
                self.valid(),
                is_square(m@),
                self@.len() == m@.len(),
                acc as int == cost_prefix(m@, self@, p as int),
            decreases n - p,
        {
            let from = self.order[p];
            let to = if p == n - 1 {
                self.order[0]
            } else {
                self.order[p + 1]
            };
            let e = m.cost(from, to);
            proof {
                lemma_cost_prefix_bounds(m@, self@, p as int);
                assert((p as int) * (u64::MAX as int) + u64::MAX as int <= (usize::MAX as int)
                    * (u64::MAX as int)) by (nonlinear_arith)
                    requires
                        0 <= p as int <= usize::MAX as int - 1,
                ;
                assert(e as int == edge_cost(m@, self@, p as int));
            }
            acc = acc + (e as u128);
            p += 1;
        }
        acc
    }
}

} // verus!
