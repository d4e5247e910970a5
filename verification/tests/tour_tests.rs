use elkai_rs::DistanceMatrix;
use elkai_rs::Rng;
use elkai_rs::Tour;
use elkai_rs::build_candidates;
use elkai_rs::double_bridge;
use elkai_rs::improve_step;
use elkai_rs::nearest_neighbor_tour;

#[test]
fn from_order_accepts_permutations() {
    assert!(Tour::from_order(vec![0, 1, 2, 3]).is_some());
    assert!(Tour::from_order(vec![2, 0, 3, 1]).is_some());
}

#[test]
fn from_order_rejects_duplicates() {
    assert!(Tour::from_order(vec![0, 1, 1]).is_none());
}

#[test]
fn from_order_rejects_out_of_range() {
    assert!(Tour::from_order(vec![0, 2]).is_none());
}

#[test]
fn position_and_neighbours() {
    let t = Tour::from_order(vec![2, 0, 3, 1]).unwrap();
    assert_eq!(t.node_count(), 4);
    assert_eq!(t.sequence_position(2), 0);
    assert_eq!(t.sequence_position(3), 2);
    assert_eq!(t.next(3), 1);
    assert_eq!(t.next(1), 2);
    assert_eq!(t.prev(2), 1);
    assert_eq!(t.prev(0), 2);
}

#[test]
fn between_follows_tour_order() {
    let t = Tour::from_order(vec![2, 0, 3, 1]).unwrap();
    assert!(t.between(2, 0, 3));
    assert!(!t.between(2, 3, 0));
    assert!(t.between(3, 1, 0));
    assert!(t.between(0, 0, 1));
}

#[test]
fn reverse_flips_a_segment() {
    let mut t = Tour::from_order(vec![0, 1, 2, 3, 4]).unwrap();
    t.reverse(1, 3);
    assert_eq!(t.into_order(), vec![0, 3, 2, 1, 4]);
}

#[test]
fn reverse_twice_restores_the_tour() {
    let mut t = Tour::from_order(vec![4, 2, 0, 1, 3]).unwrap();
    t.reverse(0, 3);
    t.reverse(0, 3);
    assert_eq!(t.duplicate().into_order(), vec![4, 2, 0, 1, 3]);
    t.reverse(2, 4);
    t.reverse(2, 4);
    assert_eq!(t.into_order(), vec![4, 2, 0, 1, 3]);
}

#[test]
fn reverse_keeps_all_nodes() {
    let mut t = Tour::from_order(vec![0, 1, 2, 3, 4, 5]).unwrap();
    t.reverse(2, 5);
    let mut order = t.into_order();
    order.sort();
    assert_eq!(order, vec![0, 1, 2, 3, 4, 5]);
}

#[test]
fn relocated_moves_a_segment() {
    let t = Tour::from_order(vec![0, 1, 2, 3, 4]).unwrap();
    let r = t.relocated(1, 2, 0);
    assert_eq!(r.into_order(), vec![1, 2, 0, 3, 4]);
    let r2 = t.relocated(0, 1, 3);
    assert_eq!(r2.into_order(), vec![1, 2, 3, 0, 4]);
}

#[test]
fn double_bridge_keeps_all_nodes() {
    let t = Tour::from_order(vec![0, 1, 2, 3, 4, 5, 6, 7]).unwrap();
    let mut rng = Rng::new(7);
    let kicked = double_bridge(&t, &mut rng);
    let mut order = kicked.into_order();
    order.sort();
    assert_eq!(order, vec![0, 1, 2, 3, 4, 5, 6, 7]);
}

#[test]
fn total_cost_counts_every_edge() {
    let m = DistanceMatrix::new(vec![vec![0, 4, 0], vec![0, 0, 5], vec![0, 0, 0]]);
    let forward = Tour::from_order(vec![0, 1, 2]).unwrap();
    assert_eq!(forward.total_cost(&m), 9);
    let backward = Tour::from_order(vec![0, 2, 1]).unwrap();
    assert_eq!(backward.total_cost(&m), 0);
}

#[test]
fn improve_step_lowers_cost_or_reports_optimum() {
    let m = DistanceMatrix::new(vec![
        vec![0, 10, 20, 30],
        vec![10, 0, 10, 20],
        vec![20, 10, 0, 10],
        vec![30, 20, 10, 0],
    ]);
    let cands = build_candidates(&m, 3);
    let mut t = Tour::from_order(vec![0, 2, 1, 3]).unwrap();
    let before = t.total_cost(&m);
    let applied = improve_step(&mut t, &m, &cands);
    assert!(applied);
    assert!(t.total_cost(&m) < before);
}

#[test]
fn nearest_neighbour_walks_greedily() {
    let m = DistanceMatrix::new(vec![
        vec![0, 5, 2, 9],
        vec![5, 0, 7, 1],
        vec![2, 7, 0, 4],
        vec![9, 1, 4, 0],
    ]);
    let t = nearest_neighbor_tour(&m);
    assert_eq!(t.into_order(), vec![0, 2, 3, 1]);
}
