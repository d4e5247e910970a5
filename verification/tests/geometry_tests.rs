use elkai_rs::DistanceMatrix;
use elkai_rs::Rng;
use elkai_rs::build_candidates;
use elkai_rs::is_2d_matrix;
use elkai_rs::is_symmetric_matrix;
use elkai_rs::SolveError;
use elkai_rs::rounded_dist;

#[test]
fn rounded_distances_are_exact() {
    assert_eq!(rounded_dist(0, 0, 0, 0), 0);
    assert_eq!(rounded_dist(0, 0, 0, 4), 4);
    assert_eq!(rounded_dist(0, 0, 3, 4), 5);
    // sqrt(41) = 6.403... rounds down to 6
    assert_eq!(rounded_dist(0, 4, 5, 0), 6);
    // sqrt(2) = 1.414... rounds down to 1
    assert_eq!(rounded_dist(0, 0, 1, 1), 1);
    // sqrt(8) = 2.828... rounds up to 3
    assert_eq!(rounded_dist(0, 0, 2, 2), 3);
    // symmetric by construction
    assert_eq!(rounded_dist(7, -3, -2, 11), rounded_dist(-2, 11, 7, -3));
    // works at the coordinate limit
    let lim = 1 << 30;
    assert_eq!(rounded_dist(-lim, 0, lim, 0), 2 * (lim as u64));
}

#[test]
fn candidate_lists_hold_nearest_neighbours() {
    let m = DistanceMatrix::new(vec![
        vec![0, 5, 2, 9],
        vec![5, 0, 7, 1],
        vec![2, 7, 0, 4],
        vec![9, 1, 4, 0],
    ]);
    let g = build_candidates(&m, 2);
    assert_eq!(g.list_len(0), 2);
    assert_eq!((g.entry(0, 0), g.entry(0, 1)), (2, 1));
    assert_eq!((g.entry(1, 0), g.entry(1, 1)), (3, 0));
    assert_eq!((g.entry(2, 0), g.entry(2, 1)), (0, 3));
    assert_eq!((g.entry(3, 0), g.entry(3, 1)), (1, 2));
}

#[test]
fn candidate_ties_break_to_lower_index() {
    let m = DistanceMatrix::new(vec![vec![0, 3, 3], vec![3, 0, 3], vec![3, 3, 0]]);
    let g = build_candidates(&m, 2);
    assert_eq!((g.entry(0, 0), g.entry(0, 1)), (1, 2));
    assert_eq!((g.entry(1, 0), g.entry(1, 1)), (0, 2));
    assert_eq!((g.entry(2, 0), g.entry(2, 1)), (0, 1));
}

#[test]
fn candidate_count_is_capped_by_node_count() {
    let m = DistanceMatrix::new(vec![vec![0, 1, 2], vec![1, 0, 3], vec![2, 3, 0]]);
    let g = build_candidates(&m, 8);
    assert_eq!(g.list_len(0), 2);
    assert_eq!(g.list_len(1), 2);
    assert_eq!(g.list_len(2), 2);
}

#[test]
fn checked_cost_rejects_bad_indices() {
    let m = DistanceMatrix::new(vec![vec![0, 4, 0], vec![0, 0, 5], vec![0, 0, 0]]);
    assert_eq!(m.cost_checked(0, 1), Ok(4));
    assert_eq!(m.cost_checked(1, 2), Ok(5));
    assert_eq!(m.cost_checked(3, 0), Err(SolveError::InvalidInput));
    assert_eq!(m.cost_checked(0, 3), Err(SolveError::InvalidInput));
}

#[test]
fn square_matrix_checks() {
    assert!(is_2d_matrix(&vec![vec![0, 1], vec![2, 3]]));
    assert!(!is_2d_matrix(&vec![vec![0, 1], vec![2]]));
    assert!(is_2d_matrix::<u64>(&vec![]));
}

#[test]
fn symmetric_matrix_checks() {
    assert!(is_symmetric_matrix(&vec![vec![0, 7], vec![7, 0]]));
    assert!(!is_symmetric_matrix(&vec![vec![0, 7], vec![8, 0]]));
}

#[test]
fn rng_is_deterministic_and_bounded() {
    let mut a = Rng::new(99);
    let mut b = Rng::new(99);
    for _ in 0..100 {
        let x = a.below(17);
        let y = b.below(17);
        assert_eq!(x, y);
        assert!(x < 17);
    }
    let mut c = Rng::new(100);
    let mut differs = false;
    let mut a2 = Rng::new(99);
    for _ in 0..100 {
        if a2.below(1000) != c.below(1000) {
            differs = true;
        }
    }
    assert!(differs);
}
