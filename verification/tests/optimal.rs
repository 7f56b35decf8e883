use cheapest_journey::optimal::CostedJourney;
use cheapest_journey::optimal::OptimalJourneySet;

#[test]
fn test_fresh_tracker_has_no_minimum() {
    let set = OptimalJourneySet::new();
    assert_eq!(set.minimum(), None);
    assert!(set.winners().is_empty());
}

#[test]
fn test_ties_are_kept_in_observation_order() {
    // costs [80, 50, 50, 90, 50] with orderings [o1..o5]:
    // minimum 50, winners [o2, o3, o5] in that order
    let orderings: Vec<Vec<u32>> = vec![
        vec![1, 2, 3],
        vec![2, 1, 3],
        vec![3, 1, 2],
        vec![1, 3, 2],
        vec![2, 3, 1],
    ];
    let costs: Vec<i64> = vec![80, 50, 50, 90, 50];
    let mut set = OptimalJourneySet::new();
    for (ordering, cost) in orderings.iter().cloned().zip(costs.iter().copied()) {
        set.record(CostedJourney { ordering, cost });
    }
    assert_eq!(set.minimum(), Some(50));
    assert_eq!(
        set.winners(),
        &vec![vec![2, 1, 3], vec![3, 1, 2], vec![2, 3, 1]]
    );
}

#[test]
fn test_cheaper_journey_discards_previous_winners() {
    let mut set = OptimalJourneySet::new();
    set.record(CostedJourney { ordering: vec![0, 1], cost: 9 });
    set.record(CostedJourney { ordering: vec![1, 0], cost: 9 });
    assert_eq!(set.minimum(), Some(9));
    assert_eq!(set.winners().len(), 2);
    set.record(CostedJourney { ordering: vec![0, 1], cost: 3 });
    assert_eq!(set.minimum(), Some(3));
    assert_eq!(set.winners(), &vec![vec![0, 1]]);
    // a dearer journey changes nothing
    set.record(CostedJourney { ordering: vec![1, 0], cost: 4 });
    assert_eq!(set.minimum(), Some(3));
    assert_eq!(set.winners(), &vec![vec![0, 1]]);
}
