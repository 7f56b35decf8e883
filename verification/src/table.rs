//! The undirected edge-cost table: a map from an unordered pair of distinct
//! locations to the non-negative cost of traveling between them.
//!
//! An entry is stored once, under the canonical (sorted) form of the pair,
//! so a lookup succeeds whichever orientation the edge was inserted in and
//! a later insert of either orientation overwrites the earlier one.

use std::collections::HashMap;

use vstd::prelude::*;

use crate::citykey::Location;

verus! {

broadcast use vstd::std_specs::hash::group_hash_axioms;

/// The fatal condition: neither orientation of the pair `{a, b}` has a
/// recorded travel cost.
#[derive(Clone, Copy, PartialEq, Eq, Structural, Debug)]
pub struct MissingEdge {
    pub a: Location,
    pub b: Location,
}

/// Largest cost a single edge may carry. Keeping single edges in this range
/// lets a journey of up to 2^32 legs be summed in an `i64` without overflow.
pub const MAX_EDGE_COST: i64 = 0x7fff_ffff;

/// The canonical map key of the unordered pair `{a, b}`: the smaller
/// location in the high 32 bits, the larger in the low 32 bits, so both
/// orientations of a pair share one key and distinct pairs never collide.
pub open spec fn spec_edge_key(a: Location, b: Location) -> u64 {
    let lo = if a <= b { a } else { b };
    let hi = if a <= b { b } else { a };
    (lo * 0x1_0000_0000 + hi) as u64
}

/// Distinct unordered pairs have distinct canonical keys.
pub proof fn lemma_edge_key_injective(a: Location, b: Location, c: Location, d: Location)
    requires
        spec_edge_key(a, b) == spec_edge_key(c, d),
    ensures
        (c == a && d == b) || (c == b && d == a),
{
    let lo1: int = if a <= b { a as int } else { b as int };
    let hi1: int = if a <= b { b as int } else { a as int };
    let lo2: int = if c <= d { c as int } else { d as int };
    let hi2: int = if c <= d { d as int } else { c as int };
    assert(0 <= lo1 * 0x1_0000_0000 + hi1 < 0x1_0000_0000_0000_0000);
    assert(0 <= lo2 * 0x1_0000_0000 + hi2 < 0x1_0000_0000_0000_0000);
    assert(lo1 * 0x1_0000_0000 + hi1 == lo2 * 0x1_0000_0000 + hi2);
    assert(lo1 == lo2 && hi1 == hi2);
}

/// Costs of traveling between locations, keyed by the unordered pair.
pub struct EdgeCostTable {
    costs: HashMap<u64, i64>,
}

impl EdgeCostTable {
    /// The recorded cost of the unordered pair `{a, b}`, if any. Symmetric
    /// in `a` and `b` by construction.
    pub closed spec fn spec_lookup(self, a: Location, b: Location) -> Option<i64> {
        if self.costs@.contains_key(spec_edge_key(a, b)) {
            Some(self.costs@[spec_edge_key(a, b)])
        } else {
            None
        }
    }

    /// Every recorded cost is non-negative and small enough to sum safely,
    /// and no pair of equal locations (a self-loop) is ever priced.
    pub closed spec fn wf(self) -> bool {
        &&& forall|k: u64| #[trigger]
            self.costs@.contains_key(k) ==> 0 <= self.costs@[k] <= MAX_EDGE_COST
        &&& forall|x: Location| !self.costs@.contains_key(#[trigger] spec_edge_key(x, x))
    }

    pub fn new() -> (r: EdgeCostTable)
        ensures
            r.wf(),
            forall|a: Location, b: Location| r.spec_lookup(a, b).is_none(),
    {
        EdgeCostTable { costs: HashMap::new() }
    }

    /// Record `cost` for the unordered pair `{a, b}`, overwriting what either
    /// orientation of the pair had before; every other pair keeps its cost.
    pub fn insert(&mut self, a: Location, b: Location, cost: i64)
        requires
            old(self).wf(),
            a != b,
            0 <= cost <= MAX_EDGE_COST,
        ensures
            final(self).wf(),
            forall|c: Location, d: Location|
                final(self).spec_lookup(c, d) == if (c == a && d == b) || (c == b && d == a) {
                    Some(cost)
                } else {
                    old(self).spec_lookup(c, d)
                },
    {
        let key = edge_key(a, b);
        self.costs.insert(key, cost);
        proof {
            assert forall|c: Location, d: Location|
                final(self).spec_lookup(c, d) == if (c == a && d == b) || (c == b && d == a) {
                    Some(cost)
                } else {
                    old(self).spec_lookup(c, d)
                } by {
                if spec_edge_key(c, d) == spec_edge_key(a, b) {
                    lemma_edge_key_injective(a, b, c, d);
                }
            }
            assert forall|x: Location| !self.costs@.contains_key(
                #[trigger] spec_edge_key(x, x),
            ) by {
                if spec_edge_key(x, x) == spec_edge_key(a, b) {
                    lemma_edge_key_injective(a, b, x, x);
                }
            }
        }
    }

    /// The cost of the unordered pair `{a, b}`: the entry stored under either
    /// orientation, or `MissingEdge` naming the pair when neither was ever
    /// inserted.
    pub fn lookup(&self, a: Location, b: Location) -> (r: Result<i64, MissingEdge>)
        ensures
            match r {
                Ok(c) => self.spec_lookup(a, b) == Some(c),
                Err(e) => self.spec_lookup(a, b).is_none() && e == (MissingEdge { a, b }),
            },
            self.wf() && r.is_ok() ==> 0 <= r.unwrap() <= MAX_EDGE_COST,
    {
        let key = edge_key(a, b);
        match self.costs.get(&key) {
            Some(c) => Ok(*c),
            None => Err(MissingEdge { a, b }),
        }
    }
}

/// A lookup is invariant to the orientation an edge was asked for in.
pub proof fn lemma_lookup_symmetric(t: EdgeCostTable, a: Location, b: Location)
    ensures
        t.spec_lookup(a, b) == t.spec_lookup(b, a),
{
}

fn edge_key(a: Location, b: Location) -> (r: u64)
    ensures
        r == spec_edge_key(a, b),
{
    let lo: u64 = if a <= b {
        a as u64
    } else {
        b as u64
    };
    let hi: u64 = if a <= b {
        b as u64
    } else {
        a as u64
    };
    lo * 0x1_0000_0000 + hi
}

} // verus!
