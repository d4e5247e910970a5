use elkai_rs::Coordinates2D;
use elkai_rs::DistanceMatrix;
use elkai_rs::Tour;
use elkai_rs::SearchBudget;
use elkai_rs::SolveError;
use elkai_rs::SolveParams;
use elkai_rs::build_candidates;
use elkai_rs::local_search;
use elkai_rs::nearest_neighbor_tour;
use elkai_rs::solve_with_params;

#[test]
fn dis_mat() {
    let s = DistanceMatrix::new(vec![vec![0, 4, 0], vec![0, 0, 5], vec![0, 0, 0]]);
    println!("{:?}", s.solve(10));
}

#[test]
fn coordinates2d() {
    let s = Coordinates2D::new(vec![
        ("city1".to_string(), (0, 0)),
        ("city2".to_string(), (0, 4)),
        ("city3".to_string(), (5, 0)),
    ]);
    println!("{:?}", s.solve(10));
}

#[test]
fn asymmetric_three_nodes_scenario() {
    let s = DistanceMatrix::new(vec![vec![0, 4, 0], vec![0, 0, 5], vec![0, 0, 0]]);
    let sol = s.solve(10).unwrap();
    let mut seen = vec![false; 3];
    for &v in &sol.tour {
        assert!(v < 3);
        assert!(!seen[v]);
        seen[v] = true;
    }
    let m: Vec<Vec<u64>> = vec![vec![0, 4, 0], vec![0, 0, 5], vec![0, 0, 0]];
    let mut total: u128 = 0;
    for p in 0..3 {
        total += m[sol.tour[p]][sol.tour[(p + 1) % 3]] as u128;
    }
    assert_eq!(total, sol.cost);
    assert_eq!(sol.cost, 0);
    assert!(!sol.cancelled);
}

#[test]
fn euclidean_three_cities_scenario() {
    let s = Coordinates2D::new(vec![
        ("a".to_string(), (0, 0)),
        ("b".to_string(), (0, 4)),
        ("c".to_string(), (5, 0)),
    ]);
    let (names, cost) = s.solve(10).unwrap();
    assert_eq!(cost, 15);
    assert_eq!(names.len(), 3);
    let coord = |n: &str| -> (f64, f64) {
        if n == "a" {
            (0.0, 0.0)
        } else if n == "b" {
            (0.0, 4.0)
        } else {
            assert_eq!(n, "c");
            (5.0, 0.0)
        }
    };
    let mut len = 0.0f64;
    for i in 0..3 {
        let (x1, y1) = coord(&names[i]);
        let (x2, y2) = coord(&names[(i + 1) % 3]);
        len += ((x1 - x2).powi(2) + (y1 - y2).powi(2)).sqrt();
    }
    let expected = 4.0 + 41.0f64.sqrt() + 5.0;
    assert!((len - expected).abs() < 1e-9);
}

#[test]
fn rejects_zero_runs() {
    let s = DistanceMatrix::new(vec![vec![0, 1, 2], vec![1, 0, 3], vec![2, 3, 0]]);
    assert!(matches!(s.solve(0), Err(SolveError::InvalidInput)));
}

#[test]
fn rejects_two_nodes() {
    let s = DistanceMatrix::new(vec![vec![0, 1], vec![1, 0]]);
    assert!(matches!(s.solve(1), Err(SolveError::InvalidInput)));
}

#[test]
fn rejects_ragged_matrix() {
    let s = DistanceMatrix::new(vec![vec![0, 1, 2], vec![1, 0], vec![2, 3, 0]]);
    assert!(matches!(s.solve(5), Err(SolveError::InvalidInput)));
}

#[test]
fn rejects_two_cities() {
    let s = Coordinates2D::new(vec![("a".to_string(), (0, 0)), ("b".to_string(), (1, 1))]);
    assert!(matches!(s.solve(1), Err(SolveError::InvalidInput)));
}

#[test]
fn rejects_out_of_range_coordinate() {
    let s = Coordinates2D::new(vec![
        ("a".to_string(), (0, 0)),
        ("b".to_string(), (0, 4)),
        ("c".to_string(), (1 << 31, 0)),
    ]);
    assert!(matches!(s.solve(1), Err(SolveError::InvalidInput)));
}

fn seven_node_matrix() -> DistanceMatrix {
    // an irregular asymmetric instance
    let rows: Vec<Vec<u64>> = vec![
        vec![0, 13, 51, 77, 68, 12, 40],
        vec![19, 0, 14, 65, 41, 22, 9],
        vec![50, 11, 0, 17, 72, 53, 26],
        vec![45, 8, 63, 0, 9, 34, 58],
        vec![31, 70, 15, 60, 0, 29, 44],
        vec![12, 21, 38, 73, 27, 0, 16],
        vec![39, 42, 25, 10, 55, 18, 0],
    ];
    DistanceMatrix::new(rows)
}

#[test]
fn fixed_seed_is_deterministic() {
    let m = seven_node_matrix();
    let p = SolveParams {
        runs: 6,
        candidate_count: 3,
        seed: 12345,
        iteration_limit: None,
    };
    let a = solve_with_params(&m, p).unwrap();
    let b = solve_with_params(&m, p).unwrap();
    assert_eq!(a.tour, b.tour);
    assert_eq!(a.cost, b.cost);
    assert_eq!(a.cancelled, b.cancelled);
}

#[test]
fn result_no_worse_than_first_tour() {
    let m = seven_node_matrix();
    let nn = nearest_neighbor_tour(&m);
    let nn_cost = nn.total_cost(&m);
    let sol = m.solve(4).unwrap();
    assert!(sol.cost <= nn_cost);
    // the reported cost is the exact cost of the returned order
    let check = Tour::from_order(sol.tour.clone()).unwrap();
    assert_eq!(check.total_cost(&m), sol.cost);
}

#[test]
fn rerun_on_local_optimum_does_nothing() {
    let m = seven_node_matrix();
    let cands = build_candidates(&m, 3);
    let mut t = nearest_neighbor_tour(&m);
    let mut budget = SearchBudget { limited: false, remaining: 0 };
    let _ = local_search(&mut t, &m, &cands, &mut budget);
    let cost1 = t.total_cost(&m);
    let order1 = t.duplicate().into_order();
    let out2 = local_search(&mut t, &m, &cands, &mut budget);
    assert_eq!(out2.moves, 0);
    assert!(!out2.cancelled);
    assert_eq!(t.duplicate().into_order(), order1);
    assert_eq!(t.total_cost(&m), cost1);
}

#[test]
fn zero_budget_cancels_with_first_tour() {
    let m = seven_node_matrix();
    let p = SolveParams {
        runs: 3,
        candidate_count: 3,
        seed: 7,
        iteration_limit: Some(0),
    };
    let sol = solve_with_params(&m, p).unwrap();
    assert!(sol.cancelled);
    let nn = nearest_neighbor_tour(&m);
    assert_eq!(sol.tour, nn.into_order());
}

#[test]
fn coordinates_solve_is_deterministic() {
    let cities = vec![
        ("a".to_string(), (0, 0)),
        ("b".to_string(), (13, 7)),
        ("c".to_string(), (-5, 20)),
        ("d".to_string(), (8, -11)),
        ("e".to_string(), (21, 3)),
    ];
    let s1 = Coordinates2D::new(cities.clone());
    let s2 = Coordinates2D::new(cities);
    let (names1, cost1) = s1.solve(5).unwrap();
    let (names2, cost2) = s2.solve(5).unwrap();
    assert_eq!(names1, names2);
    assert_eq!(cost1, cost2);
}

#[test]
fn five_cities_reach_the_perimeter_tour() {
    let s = Coordinates2D::new(vec![
        ("p0".to_string(), (0, 0)),
        ("p1".to_string(), (4, 0)),
        ("p2".to_string(), (8, 0)),
        ("p3".to_string(), (8, 3)),
        ("p4".to_string(), (0, 3)),
    ]);
    // the optimal tour walks the rectangle's perimeter: 4 + 4 + 3 + 8 + 3
    let (names, cost) = s.solve(3).unwrap();
    assert_eq!(cost, 22);
    assert_eq!(names.len(), 5);
}

#[test]
fn large_budget_converges_uncancelled() {
    let m = seven_node_matrix();
    let p = SolveParams {
        runs: 3,
        candidate_count: 3,
        seed: 7,
        iteration_limit: Some(10_000),
    };
    let sol = solve_with_params(&m, p).unwrap();
    assert!(!sol.cancelled);
    let q = SolveParams {
        runs: 3,
        candidate_count: 3,
        seed: 7,
        iteration_limit: None,
    };
    let unbounded = solve_with_params(&m, q).unwrap();
    assert_eq!(sol.tour, unbounded.tour);
    assert_eq!(sol.cost, unbounded.cost);
}

#[test]
fn three_nodes_over_many_runs() {
    let s = DistanceMatrix::new(vec![vec![0, 2, 9], vec![9, 0, 3], vec![4, 9, 0]]);
    let sol = s.solve(7).unwrap();
    assert_eq!(sol.cost, 9);
}

#[test]
fn solve_improves_bad_instance() {
    // points on a line: the optimal tour walks the line and back
    let rows: Vec<Vec<u64>> = vec![
        vec![0, 10, 20, 30],
        vec![10, 0, 10, 20],
        vec![20, 10, 0, 10],
        vec![30, 20, 10, 0],
    ];
    let m = DistanceMatrix::new(rows);
    let sol = m.solve(5).unwrap();
    assert_eq!(sol.cost, 60);
}
