use vstd::prelude::*;

verus! {

/// A matrix is square when every row is as long as the list of rows.
pub open spec fn is_square(m: Seq<Seq<u64>>) -> bool {
    forall|i: int| 0 <= i < m.len() ==> (#[trigger] m[i]).len() == m.len()
}

/// A matrix is symmetric when the cost of every ordered pair equals the cost
/// of the reversed pair.
pub open spec fn is_symmetric(m: Seq<Seq<u64>>) -> bool {
    forall|i: int, j: int|
        0 <= i < m.len() && 0 <= j < m.len() ==> #[trigger] m[i][j] == m[j][i]
}

/// The dense distance oracle: `distances[i][j]` is the non-negative cost of
/// travelling from node `i` directly to node `j`. Costs need not be
/// symmetric. The matrix is stored as given; squareness is checked when a
/// solve is requested, and a non-square input is then rejected as invalid.
pub struct DistanceMatrix {
    pub(crate) distances: Vec<Vec<u64>>,
}

impl View for DistanceMatrix {
    type V = Seq<Seq<u64>>;

    closed spec fn view(&self) -> Seq<Seq<u64>> {
        self.distances@.map_values(|row: Vec<u64>| row@)
    }
}

/// Says whether `m` is a square 2D matrix: every row has as many entries as
/// there are rows.
pub fn is_2d_matrix<T>(m: &Vec<Vec<T>>) -> (r: bool)
    ensures
        r == (forall|i: int| 0 <= i < m@.len() ==> (#[trigger] m@[i])@.len() == m@.len()),
{
    let dim = m.len();
    let mut i: usize = 0;
    while i < dim
        invariant
            i <= dim,
            dim == m@.len(),
            forall|q: int| 0 <= q < i ==> (#[trigger] m@[q])@.len() == m@.len(),
        decreases dim - i,
    {
        if m[i].len() != dim {
            return false;
        }
        i += 1;
    }
    true
}

/// Says whether the square matrix `m` is symmetric: `m[i][j] == m[j][i]` for
/// all pairs of indices.
pub fn is_symmetric_matrix(m: &Vec<Vec<u64>>) -> (r: bool)
    requires
        forall|i: int| 0 <= i < m@.len() ==> (#[trigger] m@[i])@.len() == m@.len(),
    ensures
        r == (forall|i: int, j: int|
            0 <= i < m@.len() && 0 <= j < m@.len() ==> #[trigger] m@[i]@[j] == m@[j]@[i]),
{
    let n = m.len();
    let mut i: usize = 0;
    while i < n
        invariant
            i <= n,
            n == m@.len(),
            forall|q: int| 0 <= q < m@.len() ==> (#[trigger] m@[q])@.len() == m@.len(),
            forall|p: int, q: int|
                0 <= p < i && 0 <= q < m@.len() ==> #[trigger] m@[p]@[q] == m@[q]@[p],
        decreases n - i,
    {
        let mut j: usize = 0;
        while j < n
            invariant
                i < n,
                j <= n,
                n == m@.len(),
                forall|q: int| 0 <= q < m@.len() ==> (#[trigger] m@[q])@.len() == m@.len(),
                forall|p: int, q: int|
                    0 <= p < i && 0 <= q < m@.len() ==> #[trigger] m@[p]@[q] == m@[q]@[p],
                forall|q: int| 0 <= q < j ==> #[trigger] m@[i as int]@[q] == m@[q]@[i as int],
            decreases n - j,
        {
            if m[i][j] != m[j][i] {
                return false;
            }
            j += 1;
        }
        i += 1;
    }
    true
}

impl DistanceMatrix {
    /// Wraps a list of rows as a distance matrix. The rows are taken as
    /// given; whether they form a square matrix is checked at solve time.
    pub fn new(distances: Vec<Vec<u64>>) -> (r: Self)
        ensures
            r@ == distances@.map_values(|row: Vec<u64>| row@),
    {
        DistanceMatrix { distances }
    }

    /// The number of nodes, i.e. the number of rows.
    pub fn node_count(&self) -> (n: usize)
        ensures
            n == self@.len(),
    {
        self.distances.len()
    }

    /// The cost of the directed edge from `i` to `j`.
    pub fn cost(&self, i: usize, j: usize) -> (c: u64)
        requires
            is_square(self@),
            i < self@.len(),
            j < self@.len(),
        ensures
            c == self@[i as int][j as int],
    {
        proof {
            self.lemma_view_rows();
            assert(self@[i as int].len() == self@.len());
        }
        self.distances[i][j]
    }

    /// The cost of the directed edge from `i` to `j`, rejecting an
    /// out-of-range index with an error rather than a panic (the oracle
    /// contract). `Ok` is returned exactly when both indices land in the
    /// stored rows.
    pub fn cost_checked(&self, i: usize, j: usize) -> (r: Result<u64, crate::errors::SolveError>)
        ensures
            r is Ok <==> i < self@.len() && (j as int) < self@[i as int].len(),
            r matches Ok(c) ==> c == self@[i as int][j as int],
            r matches Err(e) ==> e == crate::errors::SolveError::InvalidInput,
    {
        proof {
            self.lemma_view_rows();
        }
        if i >= self.distances.len() {
            return Err(crate::errors::SolveError::InvalidInput);
        }
        if j >= self.distances[i].len() {
            return Err(crate::errors::SolveError::InvalidInput);
        }
        Ok(self.distances[i][j])
    }

    /// The view lists exactly the stored rows' views.
    proof fn lemma_view_rows(&self)
        ensures
            self@.len() == self.distances@.len(),
            forall|i: int| 0 <= i < self@.len() ==> #[trigger] self@[i] == self.distances@[i]@,
    {
    }

    /// Says whether the stored rows form a square matrix.
    pub fn is_square_check(&self) -> (r: bool)
        ensures
            r == is_square(self@),
    {
        let r = is_2d_matrix(&self.distances);
        proof {
            self.lemma_view_rows();
            let d = self.distances@;
            if r {
                assert forall|i: int| 0 <= i < self@.len() implies (#[trigger] self@[i]).len()
                    == self@.len() by {
                    assert(d[i]@.len() == d.len());
                }
            } else {
                let i = choose|i: int| 0 <= i < d.len() && !(d[i]@.len() == d.len());
                assert(self@[i].len() != self@.len());
            }
        }
        r
    }

    /// Says whether the stored square matrix is symmetric.
    pub fn is_symmetric_check(&self) -> (r: bool)
        requires
            is_square(self@),
        ensures
            r == is_symmetric(self@),
    {
        proof {
            self.lemma_view_rows();
            assert forall|i: int| 0 <= i < self.distances@.len() implies (#[trigger] self.distances@[i])@.len()
                == self.distances@.len() by {
                assert(self@[i].len() == self@.len());
            }
        }
        let r = is_symmetric_matrix(&self.distances);
        proof {
            let d = self.distances@;
            if r {
                assert forall|i: int, j: int|
                    0 <= i < self@.len() && 0 <= j < self@.len() implies #[trigger] self@[i][j]
                    == self@[j][i] by {
                    assert(d[i]@[j] == d[j]@[i]);
                }
            } else {
                let (i, j): (int, int) = choose|i: int, j: int|
                    0 <= i < d.len() && 0 <= j < d.len() && !(d[i]@[j] == d[j]@[i]);
                assert(self@[i][j] != self@[j][i]);
            }
        }
        r
    }
}

} // verus!
