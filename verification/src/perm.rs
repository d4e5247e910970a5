use vstd::prelude::*;
use vstd::seq_lib::*;
use vstd::set_lib::*;

verus! {

/// A valid tour order: a permutation of the node indices `0..n`. The three
/// conjuncts say the order has length `n`, every entry is a node index, and
/// no node appears twice; together with `lemma_perm_contains_all` this means
/// every node appears exactly once, so the order describes a single
/// Hamiltonian cycle.
pub open spec fn is_perm(s: Seq<usize>, n: nat) -> bool {
    &&& s.len() == n
    &&& forall|i: int| 0 <= i < s.len() ==> (#[trigger] s[i]) < n
    &&& forall|i: int, j: int| 0 <= i < j < s.len() ==> s[i] != s[j]
}

/// Every node below `n` occurs in a permutation of `0..n`: the `n` entries
/// are distinct values drawn from a set of exactly `n` values, so none can
/// be missing. This is the pigeonhole fact behind "the tour visits all `n`
/// nodes".
pub proof fn lemma_perm_contains_all(s: Seq<usize>, n: nat, v: usize)
    requires
        is_perm(s, n),
        v < n,
    ensures
        exists|i: int| 0 <= i < s.len() && s[i] == v,
{
    if !(exists|i: int| 0 <= i < s.len() && s[i] == v) {
        let t = s.map_values(|x: usize| x as int);
        assert(t.no_duplicates());
        t.unique_seq_to_set();
        let missing = set_int_range(0, n as int).remove(v as int);
        lemma_int_range(0, n as int);
        assert(t.to_set().subset_of(missing)) by {
            assert forall|x: int| t.to_set().contains(x) implies missing.contains(x) by {
                assert(t.contains(x));
                let i = choose|i: int| 0 <= i < t.len() && t[i] == x;
                assert(s[i] == x);
            }
        }
        lemma_len_subset(t.to_set(), missing);
        assert(missing.len() == n - 1);
        assert(false);
    }
}

/// The index at which node `v` stands in the order `s`.
pub open spec fn pos_of(s: Seq<usize>, v: usize) -> int {
    s.index_of(v)
}

/// In a permutation, `pos_of` names exactly the one index holding `v`.
pub proof fn lemma_pos_of(s: Seq<usize>, n: nat, v: usize, j: int)
    requires
        is_perm(s, n),
        0 <= j < s.len(),
        s[j] == v,
    ensures
        pos_of(s, v) == j,
{
    assert(s.contains(v));
    let i = s.index_of(v);
    assert(0 <= i < s.len() && s[i] == v);
    if i != j {
        assert(s[i] != s[j]);
    }
}

/// How many entries of `s` are `true`.
pub open spec fn count_true(s: Seq<bool>) -> int
    decreases s.len(),
{
    if s.len() == 0 {
        0
    } else {
        count_true(s.drop_last()) + if s.last() {
            1int
        } else {
            0int
        }
    }
}

pub proof fn lemma_count_true_bound(s: Seq<bool>)
    ensures
        0 <= count_true(s) <= s.len(),
    decreases s.len(),
{
    if s.len() > 0 {
        lemma_count_true_bound(s.drop_last());
    }
}

/// If fewer entries are `true` than there are entries, some entry is `false`.
pub proof fn lemma_count_true_missing(s: Seq<bool>)
    requires
        count_true(s) < s.len(),
    ensures
        exists|i: int| 0 <= i < s.len() && !s[i],
    decreases s.len(),
{
    if s.len() > 0 {
        if !s.last() {
            assert(!s[s.len() - 1]);
        } else {
            lemma_count_true_bound(s.drop_last());
            lemma_count_true_missing(s.drop_last());
            let i = choose|i: int| 0 <= i < s.len() - 1 && !s.drop_last()[i];
            assert(!s[i]);
        }
    }
}

/// An all-`false` sequence has no `true` entries.
pub proof fn lemma_count_true_zero(n: nat)
    ensures
        count_true(Seq::new(n, |x: int| false)) == 0,
    decreases n,
{
    if n > 0 {
        assert(Seq::new(n, |x: int| false).drop_last() =~= Seq::new(
            (n - 1) as nat,
            |x: int| false,
        ));
        lemma_count_true_zero((n - 1) as nat);
    }
}

/// Setting a `false` entry to `true` raises the count by one.
pub proof fn lemma_count_true_update(s: Seq<bool>, i: int)
    requires
        0 <= i < s.len(),
        !s[i],
    ensures
        count_true(s.update(i, true)) == count_true(s) + 1,
    decreases s.len(),
{
    let t = s.update(i, true);
    if i == s.len() - 1 {
        assert(t.drop_last() =~= s.drop_last());
    } else {
        assert(t.drop_last() =~= s.drop_last().update(i, true));
        lemma_count_true_update(s.drop_last(), i);
    }
}

} // verus!
