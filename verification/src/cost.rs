//! The journey-cost evaluator: a journey of `m` locations decomposes into
//! its `m - 1` consecutive pairs, and its total cost is the sum of one
//! edge-cost lookup per pair. A journey with an unpriced leg has no defined
//! cost, and evaluation fails naming the first such leg.

use vstd::prelude::*;

use crate::citykey::Location;
use crate::table::EdgeCostTable;
use crate::table::MissingEdge;
use crate::table::MAX_EDGE_COST;

verus! {

/// The consecutive pairs of a journey: `(j[k], j[k+1])` for each `k`.
/// A journey of fewer than two locations has no legs at all.
pub open spec fn spec_journey_pairs(j: Seq<Location>) -> Seq<(Location, Location)> {
    if j.len() <= 1 {
        Seq::empty()
    } else {
        Seq::new((j.len() - 1) as nat, |k: int| (j[k], j[k + 1]))
    }
}

/// The total cost of a sequence of legs: the sum of one lookup per leg,
/// or `None` as soon as any leg is unpriced.
pub open spec fn spec_pairs_cost(pairs: Seq<(Location, Location)>, t: EdgeCostTable) -> Option<
    int,
>
    decreases pairs.len(),
{
    if pairs.len() == 0 {
        Some(0)
    } else {
        match t.spec_lookup(pairs[0].0, pairs[0].1) {
            None => None,
            Some(c) => match spec_pairs_cost(pairs.drop_first(), t) {
                None => None,
                Some(rest) => Some(c + rest),
            },
        }
    }
}

/// The total cost of a journey: the sum of the lookups of its consecutive
/// pairs, or `None` if any of them is unpriced.
pub open spec fn spec_journey_cost(j: Seq<Location>, t: EdgeCostTable) -> Option<int> {
    spec_pairs_cost(spec_journey_pairs(j), t)
}

/// A journey of fewer than two locations has no legs to pay for: its cost
/// is zero whatever the table holds.
pub proof fn lemma_trivial_journey_cost(j: Seq<Location>, t: EdgeCostTable)
    requires
        j.len() <= 1,
    ensures
        spec_journey_cost(j, t) == Some(0int),
{
}

/// The consecutive pairs of `journey`, in order.
pub fn journey_to_city_pairs(journey: &[Location]) -> (r: Vec<(Location, Location)>)
    ensures
        r@ == spec_journey_pairs(journey@),
{
    let mut result: Vec<(Location, Location)> = Vec::new();
    if journey.len() <= 1 {
        proof {
            assert(result@ =~= spec_journey_pairs(journey@));
        }
        return result;
    }
    let mut k: usize = 0;
    while k < journey.len() - 1
        invariant
            journey@.len() >= 2,
            k <= journey@.len() - 1,
            result@.len() == k,
            forall|m: int| 0 <= m < k ==> result@[m] == (journey@[m], journey@[m + 1]),
        decreases journey@.len() - 1 - k,
    {
        result.push((journey[k], journey[k + 1]));
        k = k + 1;
    }
    proof {
        assert(result@ =~= spec_journey_pairs(journey@));
    }
    result
}

/// The total cost of a sequence of legs: one lookup per pair, summed front
/// to back, failing on the first leg that has no recorded cost.
pub fn calculate_cost(city_pairs: &[(Location, Location)], costs: &EdgeCostTable) -> (r: Result<
    i64,
    MissingEdge,
>)
    requires
        costs.wf(),
        city_pairs@.len() <= 0x1_0000_0000,
    ensures
        match r {
            Ok(total) => spec_pairs_cost(city_pairs@, *costs) == Some(total as int),
            Err(e) => {
                &&& spec_pairs_cost(city_pairs@, *costs).is_none()
                &&& costs.spec_lookup(e.a, e.b).is_none()
                &&& exists|k: int|
                    0 <= k < city_pairs@.len() && #[trigger] city_pairs@[k] == (e.a, e.b)
            },
        },
{
    let mut acc: i64 = 0;
    let mut k: usize = 0;
    proof {
        assert(city_pairs@.skip(0) =~= city_pairs@);
    }
    while k < city_pairs.len()
        invariant
            costs.wf(),
            city_pairs@.len() <= 0x1_0000_0000,
            k <= city_pairs@.len(),
            0 <= acc <= k * MAX_EDGE_COST,
            spec_pairs_cost(city_pairs@, *costs) == match spec_pairs_cost(
                city_pairs@.skip(k as int),
                *costs,
            ) {
                None => None::<int>,
                Some(rest) => Some(acc + rest),
            },
        decreases city_pairs@.len() - k,
    {
        let pair = city_pairs[k];
        match costs.lookup(pair.0, pair.1) {
            Ok(c) => {
                proof {
                    let tail = city_pairs@.skip(k as int);
                    assert(tail[0] == city_pairs@[k as int]);
                    assert(tail.drop_first() =~= city_pairs@.skip(k + 1));
                }
                acc = acc + c;
            },
            Err(e) => {
                proof {
                    let tail = city_pairs@.skip(k as int);
                    assert(tail[0] == city_pairs@[k as int]);
                    assert(spec_pairs_cost(tail, *costs).is_none());
                }
                return Err(e);
            },
        }
        k = k + 1;
    }
    proof {
        assert(city_pairs@.skip(city_pairs@.len() as int) =~= Seq::<(Location, Location)>::empty());
    }
    Ok(acc)
}

/// The total cost of traversing `journey` in sequence: the sum of the
/// lookups of its consecutive pairs, as signed 64-bit arithmetic. Fails
/// with the first unpriced leg, named by the orientation it was walked in.
pub fn journey_cost(journey: &[Location], costs: &EdgeCostTable) -> (r: Result<i64, MissingEdge>)
    requires
        costs.wf(),
        journey@.len() <= 0x1_0000_0000,
    ensures
        match r {
            Ok(total) => spec_journey_cost(journey@, *costs) == Some(total as int),
            Err(e) => {
                &&& spec_journey_cost(journey@, *costs).is_none()
                &&& costs.spec_lookup(e.a, e.b).is_none()
                &&& exists|k: int|
                    0 <= k < journey@.len() - 1 && #[trigger] journey@[k] == e.a && journey@[k
                        + 1] == e.b
            },
        },
{
    let pairs = journey_to_city_pairs(journey);
    calculate_cost(pairs.as_slice(), costs)
}

} // verus!
