//! The whole search, wired together: enumerate every ordering of the
//! locations, price each one, and keep the set of orderings tied for the
//! minimum total cost. The enumeration aborts on the first unpriced leg —
//! with an incomplete cost graph the objective itself is ill-defined.

use vstd::prelude::*;

use crate::citykey::Location;
use crate::cost::journey_cost;
use crate::cost::spec_journey_cost;
use crate::optimal::CostedJourney;
use crate::optimal::OptimalJourneySet;
use crate::permutation::Permutations;
use crate::table::EdgeCostTable;
use crate::table::MissingEdge;
use crate::util::fact;
use crate::util::lemma_fact_pos;

verus! {

broadcast use vstd::seq_lib::group_to_multiset_ensures;

/// Run the full brute-force search over every permutation of `locations`.
///
/// On success the tracker has been fed exactly `n!` costed journeys, each a
/// rearrangement of `locations` priced by the table, and holds the minimum
/// and all its ties. On failure some rearrangement put two locations with
/// no priced edge side by side, and they are named in the error.
pub fn solve(locations: &[Location], table: &EdgeCostTable) -> (r: Result<
    OptimalJourneySet,
    MissingEdge,
>)
    requires
        table.wf(),
        locations@.len() < usize::MAX,
        locations@.len() <= 0x1_0000_0000,
    ensures
        match r {
            Ok(s) => {
                &&& s.wf()
                &&& s.history().len() == fact(locations@.len() as nat)
                &&& forall|k: int|
                    0 <= k < s.history().len() ==> (#[trigger] s.history()[k]).0.to_multiset()
                        == locations@.to_multiset()
                &&& forall|k: int|
                    0 <= k < s.history().len() ==> spec_journey_cost(
                        (#[trigger] s.history()[k]).0,
                        *table,
                    ) == Some((s.history()[k]).1 as int)
                &&& s.spec_minimum().is_some()
            },
            Err(e) => {
                &&& table.spec_lookup(e.a, e.b).is_none()
                &&& exists|j: Seq<Location>, k: int|
                    j.to_multiset() == locations@.to_multiset() && 0 <= k < j.len() - 1
                        && #[trigger] j[k] == e.a && j[k + 1] == e.b
            },
        },
{
    let mut perms = Permutations::new(locations);
    let mut set = OptimalJourneySet::new();
    loop
        invariant
            perms.wf(),
            perms.spec_initial() == locations@,
            table.wf(),
            locations@.len() <= 0x1_0000_0000,
            set.wf(),
            set.history().len() + perms.remaining() == fact(locations@.len() as nat),
            perms.remaining() >= 0,
            forall|k: int|
                0 <= k < set.history().len() ==> (#[trigger] set.history()[k]).0.to_multiset()
                    == locations@.to_multiset(),
            forall|k: int|
                0 <= k < set.history().len() ==> spec_journey_cost(
                    (#[trigger] set.history()[k]).0,
                    *table,
                ) == Some((set.history()[k]).1 as int),
        ensures
            set.wf(),
            set.history().len() == fact(locations@.len() as nat),
            forall|k: int|
                0 <= k < set.history().len() ==> (#[trigger] set.history()[k]).0.to_multiset()
                    == locations@.to_multiset(),
            forall|k: int|
                0 <= k < set.history().len() ==> spec_journey_cost(
                    (#[trigger] set.history()[k]).0,
                    *table,
                ) == Some((set.history()[k]).1 as int),
        decreases perms.remaining(),
    {
        match perms.next() {
            None => {
                break;
            },
            Some(journey) => {
                proof {
                    assert(journey@.len() == journey@.to_multiset().len());
                    assert(locations@.len() == locations@.to_multiset().len());
                }
                match journey_cost(journey.as_slice(), table) {
                    Ok(c) => {
                        let ghost h0 = set.history();
                        set.record(CostedJourney { ordering: journey, cost: c });
                        proof {
                            perms.lemma_remaining_nonneg();
                            assert(forall|k: int|
                                0 <= k < h0.len() ==> #[trigger] set.history()[k] == h0[k]);
                        }
                    },
                    Err(e) => {
                        proof {
                            let kk = choose|k: int|
                                0 <= k < journey@.len() - 1 && #[trigger] journey@[k] == e.a
                                    && journey@[k + 1] == e.b;
                            assert(journey@.to_multiset() == locations@.to_multiset()
                                && 0 <= kk < journey@.len() - 1 && journey@[kk] == e.a
                                && journey@[kk + 1] == e.b);
                        }
                        return Err(e);
                    },
                }
            },
        }
    }
    proof {
        lemma_fact_pos(locations@.len() as nat);
        set.lemma_wf_meaning();
    }
    Ok(set)
}

} // verus!
