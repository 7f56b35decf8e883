//! The tie-preserving minimum tracker: across a stream of costed journeys
//! it keeps the minimum cost seen so far and every journey that achieves
//! it, in the order the tied journeys were first observed.

use vstd::prelude::*;

use crate::citykey::Location;

verus! {

/// A journey paired with its total cost, as the evaluator prices it.
pub struct CostedJourney {
    pub ordering: Vec<Location>,
    pub cost: i64,
}

/// The journeys of `h` whose cost is exactly `m`, in observation order.
pub open spec fn winners_of(h: Seq<(Seq<Location>, i64)>, m: i64) -> Seq<Seq<Location>>
    decreases h.len(),
{
    if h.len() == 0 {
        Seq::empty()
    } else if h.last().1 == m {
        winners_of(h.drop_last(), m).push(h.last().0)
    } else {
        winners_of(h.drop_last(), m)
    }
}

/// A stream in which no journey costs `m` has no winners at `m`.
pub proof fn lemma_winners_of_empty(h: Seq<(Seq<Location>, i64)>, m: i64)
    requires
        forall|k: int| 0 <= k < h.len() ==> (#[trigger] h[k]).1 != m,
    ensures
        winners_of(h, m) == Seq::<Seq<Location>>::empty(),
    decreases h.len(),
{
    if h.len() > 0 {
        lemma_winners_of_empty(h.drop_last(), m);
    }
}

/// The current minimum cost (`None` until the first journey arrives) and
/// the journeys observed so far that achieve it.
pub struct OptimalJourneySet {
    minimum: Option<i64>,
    winners: Vec<Vec<Location>>,
    history: Ghost<Seq<(Seq<Location>, i64)>>,
}

impl OptimalJourneySet {
    /// Every costed journey this tracker has been fed, in order.
    pub closed spec fn history(self) -> Seq<(Seq<Location>, i64)> {
        self.history@
    }

    /// The minimum cost seen so far, or `None` before any journey.
    pub closed spec fn spec_minimum(self) -> Option<i64> {
        self.minimum
    }

    /// The journeys tied for the minimum, in observation order.
    pub closed spec fn spec_winners(self) -> Seq<Seq<Location>> {
        self.winners@.map_values(|w: Vec<Location>| w@)
    }

    /// The tracker's invariant: the minimum really is the least cost in the
    /// history, and the winners are exactly the journeys that achieve it.
    pub closed spec fn wf(self) -> bool {
        match self.minimum {
            None => self.history@.len() == 0 && self.winners@.len() == 0,
            Some(m) => {
                &&& self.history@.len() > 0
                &&& forall|k: int| 0 <= k < self.history@.len() ==> (#[trigger] self.history@[k]).1 >= m
                &&& exists|k: int| 0 <= k < self.history@.len() && (#[trigger] self.history@[k]).1 == m
                &&& self.spec_winners() == winners_of(self.history@, m)
            },
        }
    }

    /// What the closed invariant promises of a well-formed tracker, for
    /// callers that only see the public view.
    pub proof fn lemma_wf_meaning(self)
        requires
            self.wf(),
        ensures
            match self.spec_minimum() {
                None => self.history().len() == 0 && self.spec_winners().len() == 0,
                Some(m) => {
                    &&& self.history().len() > 0
                    &&& forall|k: int| 0 <= k < self.history().len() ==> (#[trigger] self.history()[k]).1 >= m
                    &&& exists|k: int| 0 <= k < self.history().len() && (#[trigger] self.history()[k]).1 == m
                    &&& self.spec_winners() == winners_of(self.history(), m)
                },
            },
    {
    }

    /// A tracker that has seen nothing: minimum unbounded, no winners.
    pub fn new() -> (r: OptimalJourneySet)
        ensures
            r.wf(),
            r.history() == Seq::<(Seq<Location>, i64)>::empty(),
            r.spec_minimum().is_none(),
            r.spec_winners() == Seq::<Seq<Location>>::empty(),
    {
        let r = OptimalJourneySet {
            minimum: None,
            winners: Vec::new(),
            history: Ghost(Seq::empty()),
        };
        proof {
            assert(r.spec_winners() =~= Seq::<Seq<Location>>::empty());
        }
        r
    }

    /// Feed one costed journey: a strictly cheaper journey replaces all
    /// winners, a tie joins them, a dearer one changes nothing.
    pub fn record(&mut self, journey: CostedJourney)
        requires
            old(self).wf(),
        ensures
            final(self).wf(),
            final(self).history() == old(self).history().push(
                (journey.ordering@, journey.cost),
            ),
            final(self).spec_minimum() == match old(self).spec_minimum() {
                None => Some(journey.cost),
                Some(m) => Some(if journey.cost < m { journey.cost } else { m }),
            },
            final(self).spec_winners() == match old(self).spec_minimum() {
                None => seq![journey.ordering@],
                Some(m) => if journey.cost < m {
                    seq![journey.ordering@]
                } else if journey.cost == m {
                    old(self).spec_winners().push(journey.ordering@)
                } else {
                    old(self).spec_winners()
                },
            },
    {
        let ghost entry = (journey.ordering@, journey.cost);
        let ghost h0 = self.history@;
        proof {
            self.history@ = self.history@.push(entry);
            assert(self.history@.drop_last() =~= h0);
        }
        match self.minimum {
            None => {
                self.minimum = Some(journey.cost);
                self.winners.push(journey.ordering);
                proof {
                    assert((self.history@[0]).1 == journey.cost);
                    assert(winners_of(h0, journey.cost) =~= Seq::<Seq<Location>>::empty());
                    assert(winners_of(self.history@, journey.cost) =~= seq![entry.0]);
                    assert(self.spec_winners() =~= seq![entry.0]);
                }
            },
            Some(m) => {
                if journey.cost < m {
                    proof {
                        lemma_winners_of_empty(h0, journey.cost);
                    }
                    self.minimum = Some(journey.cost);
                    let mut fresh: Vec<Vec<Location>> = Vec::new();
                    fresh.push(journey.ordering);
                    self.winners = fresh;
                    proof {
                        assert((self.history@[h0.len() as int]).1 == journey.cost);
                        assert(winners_of(self.history@, journey.cost) =~= winners_of(
                            h0,
                            journey.cost,
                        ).push(entry.0));
                        assert(self.spec_winners() =~= seq![entry.0]);
                    }
                } else if journey.cost == m {
                    self.winners.push(journey.ordering);
                    proof {
                        let k0 = choose|k: int| 0 <= k < h0.len() && (#[trigger] h0[k]).1 == m;
                        assert((self.history@[k0]).1 == m);
                        assert(winners_of(self.history@, m) =~= winners_of(h0, m).push(entry.0));
                        assert(self.spec_winners() =~= winners_of(self.history@, m));
                    }
                } else {
                    proof {
                        let k0 = choose|k: int| 0 <= k < h0.len() && (#[trigger] h0[k]).1 == m;
                        assert((self.history@[k0]).1 == m);
                        assert(winners_of(self.history@, m) =~= winners_of(h0, m));
                    }
                }
            },
        }
    }

    /// The minimum cost seen so far, or `None` before any journey.
    pub fn minimum(&self) -> (r: Option<i64>)
        ensures
            r == self.spec_minimum(),
    {
        self.minimum
    }

    /// The journeys tied for the minimum, in observation order.
    pub fn winners(&self) -> (r: &Vec<Vec<Location>>)
        ensures
            r@.map_values(|w: Vec<Location>| w@) == self.spec_winners(),
    {
        &self.winners
    }
}

} // verus!
