use cheapest_journey::solve::solve;
use cheapest_journey::table::EdgeCostTable;
use cheapest_journey::table::MissingEdge;

// locations A = 0, B = 1, C = 2 throughout

#[test]
fn test_solve_three_cities() {
    // edges A-B = 20, A-C = 30, B-C = 40: all six orderings are priced,
    // the minimum is 50, achieved by B,A,C and C,A,B in discovery order
    let mut costs = EdgeCostTable::new();
    costs.insert(0, 1, 20);
    costs.insert(0, 2, 30);
    costs.insert(1, 2, 40);
    let set = solve(&[0, 1, 2], &costs).unwrap();
    assert_eq!(set.minimum(), Some(50));
    assert_eq!(set.winners(), &vec![vec![1, 0, 2], vec![2, 0, 1]]);
}

#[test]
fn test_solve_missing_edge_aborts() {
    // only A-B and B-C are recorded; some ordering puts A and C side by
    // side, so the run aborts naming that pair instead of reporting a
    // partial minimum
    let mut costs = EdgeCostTable::new();
    costs.insert(0, 1, 20);
    costs.insert(1, 2, 40);
    match solve(&[0, 1, 2], &costs) {
        Err(e) => assert_eq!(e, MissingEdge { a: 0, b: 2 }),
        Ok(_) => panic!("expected the run to abort on the unpriced pair"),
    }
}

#[test]
fn test_solve_single_city() {
    // fewer than two locations: no edges to cost, one trivial journey
    let costs = EdgeCostTable::new();
    let set = solve(&[5], &costs).unwrap();
    assert_eq!(set.minimum(), Some(0));
    assert_eq!(set.winners(), &vec![vec![5]]);
}

#[test]
fn test_solve_no_cities() {
    let costs = EdgeCostTable::new();
    let set = solve(&[], &costs).unwrap();
    assert_eq!(set.minimum(), Some(0));
    assert_eq!(set.winners(), &vec![Vec::<u32>::new()]);
}

#[test]
fn test_solve_two_cities_both_orders_tie() {
    let mut costs = EdgeCostTable::new();
    costs.insert(0, 1, 17);
    let set = solve(&[0, 1], &costs).unwrap();
    assert_eq!(set.minimum(), Some(17));
    assert_eq!(set.winners(), &vec![vec![0, 1], vec![1, 0]]);
}
