use cheapest_journey::citykey::CityKey;
use cheapest_journey::cost::calculate_cost;
use cheapest_journey::cost::journey_cost;
use cheapest_journey::cost::journey_to_city_pairs;
use cheapest_journey::table::EdgeCostTable;
use cheapest_journey::table::MissingEdge;
use cheapest_journey::util::factorial;

#[test]
fn test_calculate_cost() {
    let mut costs = EdgeCostTable::new();
    costs.insert(0, 1, 30);
    costs.insert(1, 2, 50);
    let city_pairs = vec![(0, 1), (1, 2)];
    assert_eq!(calculate_cost(&city_pairs, &costs), Ok(80))
}

#[test]
fn test_journey_to_city_pairs_strings() {
    let journey = vec![0, 1, 2, 3, 4];
    let correct_result = vec![(0, 1), (1, 2), (2, 3), (3, 4)];
    assert_eq!(journey_to_city_pairs(&journey), correct_result)
}

#[test]
fn test_journey_to_city_pairs_short_journeys() {
    assert_eq!(journey_to_city_pairs(&[]), vec![]);
    assert_eq!(journey_to_city_pairs(&[9]), vec![]);
}

#[test]
fn test_factorial() {
    assert_eq!(factorial(1), 1);
    assert_eq!(factorial(2), 2);
    assert_eq!(factorial(3), 6);
    assert_eq!(factorial(5), 120);
    assert_eq!(factorial(0), 1);
}

#[test]
fn test_lookup_is_orientation_invariant() {
    // inserting (A, B, 30) and asking for B -> A yields 30
    let mut costs = EdgeCostTable::new();
    costs.insert(0, 1, 30);
    assert_eq!(costs.lookup(1, 0), Ok(30));
    assert_eq!(costs.lookup(0, 1), Ok(30));
    assert_eq!(journey_cost(&[1, 0], &costs), Ok(30));
}

#[test]
fn test_insert_overwrites_either_orientation() {
    let mut costs = EdgeCostTable::new();
    costs.insert(0, 1, 30);
    costs.insert(1, 0, 45);
    assert_eq!(costs.lookup(0, 1), Ok(45));
    assert_eq!(costs.lookup(1, 0), Ok(45));
}

#[test]
fn test_journey_cost_sums_consecutive_pairs() {
    let mut costs = EdgeCostTable::new();
    costs.insert(0, 1, 30);
    costs.insert(1, 2, 50);
    costs.insert(2, 3, 7);
    assert_eq!(journey_cost(&[0, 1, 2, 3], &costs), Ok(87));
}

#[test]
fn test_trivial_journeys_cost_nothing() {
    let costs = EdgeCostTable::new();
    assert_eq!(journey_cost(&[], &costs), Ok(0));
    assert_eq!(journey_cost(&[4], &costs), Ok(0));
}

#[test]
fn test_missing_edge_is_reported() {
    let mut costs = EdgeCostTable::new();
    costs.insert(0, 1, 30);
    costs.insert(1, 2, 50);
    assert_eq!(
        journey_cost(&[1, 0, 2], &costs),
        Err(MissingEdge { a: 0, b: 2 })
    );
}

#[test]
fn test_city_key_round_trip() {
    let key = CityKey::new(3, 8);
    assert_eq!(key.start(), 3);
    assert_eq!(key.end(), 8);
    let reversed = key.reverse_key();
    assert_eq!(reversed.start(), 8);
    assert_eq!(reversed.end(), 3);
    assert_eq!(reversed.reverse_key(), key);
    assert_eq!(CityKey::from(&(3, 8)), key);
}
