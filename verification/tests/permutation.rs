use std::collections::HashSet;

use cheapest_journey::permutation::create_integer_array;
use cheapest_journey::permutation::odd;
use cheapest_journey::permutation::Permutations;

#[test]
fn test_create_integer_array() {
    let v = create_integer_array(3);
    assert_eq!(vec![0, 1, 2, 3], v)
}

#[test]
fn test_odd() {
    assert_eq!(odd(1), true);
    assert_eq!(odd(2), false);
}

#[test]
fn test_permutations() {
    let mut p = Permutations::new(&vec![1, 2, 3]);
    assert_eq!(p.next(), Some(vec![1, 2, 3]));
    assert_eq!(p.next(), Some(vec![2, 1, 3]));
    assert_eq!(p.next(), Some(vec![3, 1, 2]));
    assert_eq!(p.next(), Some(vec![1, 3, 2]));
    assert_eq!(p.next(), Some(vec![2, 3, 1]));
    assert_eq!(p.next(), Some(vec![3, 2, 1]));
    assert_eq!(p.next(), None);
}

#[test]
fn test_permutations_empty_input() {
    let mut p = Permutations::new(&[]);
    assert_eq!(p.next(), Some(vec![]));
    assert_eq!(p.next(), None);
    // querying an exhausted generator stays a no-op
    assert_eq!(p.next(), None);
}

#[test]
fn test_permutations_single_element() {
    let mut p = Permutations::new(&[7]);
    assert_eq!(p.next(), Some(vec![7]));
    assert_eq!(p.next(), None);
}

#[test]
fn test_permutations_count_and_distinct() {
    // n! distinct permutations of the input, no duplicates, no omissions
    for n in 0..6u32 {
        let input: Vec<u32> = (0..n).collect();
        let mut p = Permutations::new(&input);
        let mut seen: HashSet<Vec<u32>> = HashSet::new();
        let mut count: u64 = 0;
        while let Some(journey) = p.next() {
            let mut sorted = journey.clone();
            sorted.sort();
            assert_eq!(sorted, input);
            assert!(seen.insert(journey));
            count += 1;
        }
        let expected: u64 = (1..=n as u64).product();
        assert_eq!(count, expected);
    }
}

#[test]
fn test_permutations_single_swap_between_steps() {
    // the first ordering is the untouched input; each later one differs
    // from its predecessor in exactly two positions
    let input: Vec<u32> = vec![10, 20, 30, 40];
    let mut p = Permutations::new(&input);
    let first = p.next().unwrap();
    assert_eq!(first, input);
    let mut prev = first;
    while let Some(cur) = p.next() {
        let differing = prev.iter().zip(cur.iter()).filter(|(a, b)| a != b).count();
        assert_eq!(differing, 2);
        prev = cur;
    }
}
