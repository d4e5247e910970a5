use vstd::prelude::*;
use crate::candidates::cand_wf;
use crate::construct::nn_tour;
use crate::controller::DEFAULT_CANDIDATE_COUNT;
use crate::controller::SolveParams;
use crate::controller::solve_with_params;
use crate::errors::SolveError;
use crate::matrix::DistanceMatrix;
use crate::perm::is_perm;
use crate::search::locally_optimal;
use crate::tour::tour_cost;

verus! {

/// Coordinates must fit in `[-COORD_LIMIT, COORD_LIMIT]` so that squared
/// Euclidean distances fit in the cost type.
pub const COORD_LIMIT: i64 = 0x4000_0000;

/// The largest natural number whose square does not exceed `d`.
pub open spec fn floor_sqrt(d: nat) -> nat
    decreases d,
{
    if d == 0 {
        0
    } else {
        let f = floor_sqrt((d - 1) as nat);
        if (f + 1) * (f + 1) <= d {
            (f + 1) as nat
        } else {
            f
        }
    }
}

pub proof fn lemma_floor_sqrt(d: nat)
    ensures
        floor_sqrt(d) * floor_sqrt(d) <= d < (floor_sqrt(d) + 1) * (floor_sqrt(d) + 1),
    decreases d,
{
    if d == 0 {
        assert(floor_sqrt(0) == 0);
        assert(floor_sqrt(d) * floor_sqrt(d) <= d);
        assert(d < (floor_sqrt(d) + 1) * (floor_sqrt(d) + 1)) by (nonlinear_arith)
            requires
                d == 0 && floor_sqrt(d) == 0,
        ;
    } else {
        lemma_floor_sqrt((d - 1) as nat);
        let f = floor_sqrt((d - 1) as nat);
        assert(f * f <= d - 1);
        assert(d - 1 < (f + 1) * (f + 1));
        if (f + 1) * (f + 1) <= d {
            assert(floor_sqrt(d) == f + 1);
            assert(d <= (f + 1) * (f + 1));
            assert(d < (f + 1 + 1) * (f + 1 + 1)) by (nonlinear_arith)
                requires
                    d <= (f + 1) * (f + 1),
            ;
        } else {
            assert(floor_sqrt(d) == f);
            assert(f * f <= d);
            assert(d < (f + 1) * (f + 1));
        }
    }
}

pub proof fn lemma_floor_sqrt_unique(d: nat, f: nat)
    requires
        f * f <= d < (f + 1) * (f + 1),
    ensures
        f == floor_sqrt(d),
{
    lemma_floor_sqrt(d);
    let g = floor_sqrt(d);
    if f < g {
        assert((f + 1) * (f + 1) <= g * g) by (nonlinear_arith)
            requires
                f + 1 <= g,
        ;
    }
    if g < f {
        assert((g + 1) * (g + 1) <= f * f) by (nonlinear_arith)
            requires
                g + 1 <= f,
        ;
    }
}

/// The square root of `d` rounded to the nearest integer: the floor square
/// root `f`, raised by one when `d` lies strictly above `f * (f + 1)` (the
/// midpoint between the squares of `f` and `f + 1`).
pub open spec fn rounded_sqrt(d: nat) -> nat {
    let f = floor_sqrt(d);
    if d > f * (f + 1) {
        (f + 1) as nat
    } else {
        f
    }
}

/// The Euclidean distance between the two points, rounded to the nearest
/// integer (the cost policy for coordinate instances).
pub open spec fn euclid_cost(ax: int, ay: int, bx: int, by: int) -> int {
    rounded_sqrt((((ax - bx) * (ax - bx)) + ((ay - by) * (ay - by))) as nat) as int
}

/// The floor square root, by binary search on the answer.
fn floor_sqrt_u64(d: u64) -> (f: u64)
    ensures
        f as nat == floor_sqrt(d as nat),
        (f as int) * (f as int) <= d as int,
        (d as int) < ((f as int) + 1) * ((f as int) + 1),
{
    let mut lo: u64 = 0;
    let mut hi: u64 = 0x1_0000_0000;
    proof {
        assert((hi as int) * (hi as int) > d as int);
    }
    while lo + 1 < hi
        invariant
            lo < hi,
            hi <= 0x1_0000_0000,
            (lo as int) * (lo as int) <= d as int,
            (hi as int) * (hi as int) > d as int,
        decreases hi - lo,
    {
        let mid = lo + (hi - lo) / 2;
        proof {
            assert((mid as int) * (mid as int) <= 0x1_0000_0000_0000_0000) by (nonlinear_arith)
                requires
                    0 <= mid as int <= 0x1_0000_0000,
            ;
        }
        let m2: u128 = (mid as u128) * (mid as u128);
        if m2 <= d as u128 {
            lo = mid;
        } else {
            hi = mid;
        }
    }
    proof {
        lemma_floor_sqrt_unique(d as nat, lo as nat);
    }
    lo
}

/// The rounded Euclidean distance between two in-range points.
pub fn rounded_dist(ax: i64, ay: i64, bx: i64, by: i64) -> (r: u64)
    requires
        -COORD_LIMIT <= ax <= COORD_LIMIT,
        -COORD_LIMIT <= ay <= COORD_LIMIT,
        -COORD_LIMIT <= bx <= COORD_LIMIT,
        -COORD_LIMIT <= by <= COORD_LIMIT,
    ensures
        r as int == euclid_cost(ax as int, ay as int, bx as int, by as int),
{
    let dx = ax - bx;
    let dy = ay - by;
    proof {
        assert(0 <= (dx as int) * (dx as int) <= 0x4000_0000_0000_0000) by (nonlinear_arith)
            requires
                -0x8000_0000 <= dx as int <= 0x8000_0000,
        ;
        assert(0 <= (dy as int) * (dy as int) <= 0x4000_0000_0000_0000) by (nonlinear_arith)
            requires
                -0x8000_0000 <= dy as int <= 0x8000_0000,
        ;
    }
    let dx2 = (dx as i128) * (dx as i128);
    let dy2 = (dy as i128) * (dy as i128);
    let d2 = (dx2 + dy2) as u64;
    let f = floor_sqrt_u64(d2);
    proof {
        assert(f as int <= 3_037_000_499) by (nonlinear_arith)
            requires
                (f as int) * (f as int) <= 0x8000_0000_0000_0000,
        ;
        assert(3_037_000_499i128 * 3_037_000_500i128 < 0x1_0000_0000_0000_0000i128)
            by (nonlinear_arith);
        assert((f as int) * ((f as int) + 1) <= 3_037_000_499i128 * 3_037_000_500i128)
            by (nonlinear_arith)
            requires
                0 <= f as int <= 3_037_000_499,
        ;
    }
    let fup = f * (f + 1);
    if d2 > fup {
        f + 1
    } else {
        f
    }
}

/// The coordinate pairs of the stored cities, in order.
pub open spec fn points_of(cs: Seq<(String, (i64, i64))>) -> Seq<(i64, i64)> {
    cs.map_values(|c: (String, (i64, i64))| c.1)
}

/// Every coordinate lies within the supported range.
pub open spec fn coords_in_range(pts: Seq<(i64, i64)>) -> bool {
    forall|p: int|
        0 <= p < pts.len() ==> -COORD_LIMIT <= (#[trigger] pts[p]).0 <= COORD_LIMIT
            && -COORD_LIMIT <= pts[p].1 <= COORD_LIMIT
}

/// The dense symmetric cost matrix induced by the points: entry `(i, j)` is
/// the rounded Euclidean distance between point `i` and point `j`.
pub open spec fn coords_matrix(pts: Seq<(i64, i64)>) -> Seq<Seq<u64>> {
    Seq::new(
        pts.len(),
        |i: int|
            Seq::new(
                pts.len(),
                |j: int|
                    euclid_cost(
                        pts[i].0 as int,
                        pts[i].1 as int,
                        pts[j].0 as int,
                        pts[j].1 as int,
                    ) as u64,
            ),
    )
}

/// A named 2D coordinate instance: a list of `(city name, (x, y))` pairs.
/// Edge costs are rounded Euclidean distances, so the instance is
/// symmetric. The solver answers with the city names in tour order.
pub struct Coordinates2D {
    cities: Vec<(String, (i64, i64))>,
}

impl View for Coordinates2D {
    type V = Seq<(String, (i64, i64))>;

    closed spec fn view(&self) -> Seq<(String, (i64, i64))> {
        self.cities@
    }
}

impl Coordinates2D {
    /// Wraps a list of named coordinates. The cities are taken as given;
    /// the counts and ranges are checked at solve time.
    pub fn new(cities: Vec<(String, (i64, i64))>) -> (r: Self)
        ensures
            r@ == cities@,
    {
        Coordinates2D { cities }
    }

    /// The number of cities.
    pub fn city_count(&self) -> (n: usize)
        ensures
            n == self@.len(),
    {
        self.cities.len()
    }

    /// Solves the instance with `runs` independent restarts: the returned
    /// names are the stored city names in tour order for some permutation
    /// of the cities, and the returned cost is that tour's exact cost under
    /// the rounded-Euclidean matrix of the instance; the cost never exceeds
    /// the cost of the first constructed (nearest-neighbour) tour, and the
    /// tour is a local optimum of the configured move set. Rejected with
    /// `InvalidInput` exactly when `runs == 0`, there are fewer than three
    /// cities, or a coordinate is out of range.
    pub fn solve(&self, runs: usize) -> (r: Result<(Vec<String>, u128), SolveError>)
        ensures
            r is Err <==> !(runs >= 1 && self@.len() >= 3 && coords_in_range(points_of(self@))),
            r matches Err(e) ==> e == SolveError::InvalidInput,
            r matches Ok(p) ==> exists|t: Seq<usize>|
                {
                    let cm = coords_matrix(points_of(self@));
                    &&& #[trigger] is_perm(t, self@.len() as nat)
                    &&& p.1 as int == tour_cost(cm, t)
                    &&& tour_cost(cm, t) <= tour_cost(cm, nn_tour(cm))
                    &&& p.0.len() == self@.len()
                    &&& (forall|q: int| 0 <= q < t.len() ==> #[trigger] p.0[q] == self@[t[q] as int].0)
                    &&& exists|c: Seq<Seq<usize>>|
                        cand_wf(cm, DEFAULT_CANDIDATE_COUNT as nat, c) && locally_optimal(cm, t, c)
                },
    {
        let n = self.cities.len();
        if runs < 1 || n < 3 {
            return Err(SolveError::InvalidInput);
        }
        let ghost pts = points_of(self@);
        let mut idx: usize = 0;
        while idx < n
            invariant
                idx <= n,
                n == self@.len(),
                pts == points_of(self@),
                pts.len() == n,
                forall|p: int|
                    0 <= p < idx ==> -COORD_LIMIT <= (#[trigger] pts[p]).0 <= COORD_LIMIT
                        && -COORD_LIMIT <= pts[p].1 <= COORD_LIMIT,
            decreases n - idx,
        {
            let x = self.cities[idx].1.0;
            let y = self.cities[idx].1.1;
            proof {
                assert(pts[idx as int] == self@[idx as int].1);
            }
            if x < -COORD_LIMIT || x > COORD_LIMIT || y < -COORD_LIMIT || y > COORD_LIMIT {
                proof {
                    assert(!(-COORD_LIMIT <= pts[idx as int].0 <= COORD_LIMIT
                        && -COORD_LIMIT <= pts[idx as int].1 <= COORD_LIMIT));
                }
                return Err(SolveError::InvalidInput);
            }
            idx += 1;
        }
        let ghost cm = coords_matrix(pts);
        let mut rows: Vec<Vec<u64>> = Vec::new();
        let mut i: usize = 0;
        while i < n
            invariant
                i <= n,
                n == self@.len(),
                pts == points_of(self@),
                pts.len() == n,
                cm == coords_matrix(pts),
                cm.len() == n,
                coords_in_range(pts),
                rows@.len() == i,
                forall|ii: int| 0 <= ii < i ==> (#[trigger] rows@[ii])@ == cm[ii],
            decreases n - i,
        {
            let ax = self.cities[i].1.0;
            let ay = self.cities[i].1.1;
            let mut row: Vec<u64> = Vec::new();
            let mut j: usize = 0;
            while j < n
                invariant
                    j <= n,
                    i < n,
                    n == self@.len(),
                    pts == points_of(self@),
                    pts.len() == n,
                    cm == coords_matrix(pts),
                    cm.len() == n,
                    coords_in_range(pts),
                    ax == pts[i as int].0,
                    ay == pts[i as int].1,
                    row@.len() == j,
                    forall|jj: int| 0 <= jj < j ==> (#[trigger] row@[jj]) == cm[i as int][jj],
                decreases n - j,
            {
                let bx = self.cities[j].1.0;
                let by = self.cities[j].1.1;
                proof {
                    assert(pts[j as int] == self@[j as int].1);
                    assert(-COORD_LIMIT <= pts[j as int].0 <= COORD_LIMIT
                        && -COORD_LIMIT <= pts[j as int].1 <= COORD_LIMIT);
                    assert(-COORD_LIMIT <= pts[i as int].0 <= COORD_LIMIT
                        && -COORD_LIMIT <= pts[i as int].1 <= COORD_LIMIT);
                }
                let d = rounded_dist(ax, ay, bx, by);
                proof {
                    assert(cm[i as int][j as int] == euclid_cost(
                        pts[i as int].0 as int,
                        pts[i as int].1 as int,
                        pts[j as int].0 as int,
                        pts[j as int].1 as int,
                    ) as u64);
                }
                row.push(d);
                j += 1;
            }
            proof {
                assert(row@ =~= cm[i as int]);
            }
            rows.push(row);
            i += 1;
        }
        let dm = DistanceMatrix::new(rows);
        proof {
            assert forall|ii: int| 0 <= ii < n implies #[trigger] dm@[ii] == cm[ii] by {
                assert(dm@[ii] == rows@[ii]@);
            }
            assert(dm@ =~= cm);
        }
        match solve_with_params(&dm, SolveParams::with_runs(runs)) {
            Ok(sol) => {
                let mut names: Vec<String> = Vec::new();
                let mut q: usize = 0;
                let tlen = sol.tour.len();
                while q < tlen
                    invariant
                        q <= tlen,
                        tlen == sol.tour@.len(),
                        n == self@.len(),
                        is_perm(sol.tour@, n as nat),
                        names@.len() == q,
                        forall|p: int|
                            0 <= p < q ==> #[trigger] names@[p] == self@[sol.tour@[p] as int].0,
                    decreases tlen - q,
                {
                    let city_idx = sol.tour[q];
                    let name = self.cities[city_idx].0.clone();
                    names.push(name);
                    q += 1;
                }
                proof {
                    let t = sol.tour@;
                    assert(is_perm(t, self@.len() as nat));
                }
                Ok((names, sol.cost))
            },
            Err(_) => {
                proof {
                    assert(false);
                }
                Err(SolveError::InvalidInput)
            },
        }
    }
}

} // verus!
