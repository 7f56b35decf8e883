//! Locations and the unordered pairs that name an edge between two of them.
//!
//! A location is a small integer handle. The caller owns the mapping from
//! raw city names to handles and passes handles by value, so equality is
//! O(1) and the solver never touches a string.

use vstd::prelude::*;

verus! {

/// A place in the cost graph: a cheap, copyable identifier handed out by the
/// caller's symbol table.
pub type Location = u32;

/// A directed view of an edge between two locations, as it appears in the
/// source data. The cost table canonicalizes it, so `CityKey::new(a, b)` and
/// `CityKey::new(b, a)` name the same undirected edge.
#[derive(Clone, Copy, PartialEq, Eq, Structural, Hash, Debug)]
pub struct CityKey {
    start: Location,
    end: Location,
}

impl CityKey {
    /// The location the edge is recorded from.
    pub closed spec fn spec_start(self) -> Location {
        self.start
    }

    /// The location the edge is recorded to.
    pub closed spec fn spec_end(self) -> Location {
        self.end
    }

    pub fn new(start: Location, end: Location) -> (r: CityKey)
        ensures
            r.spec_start() == start,
            r.spec_end() == end,
    {
        CityKey { start, end }
    }

    pub fn start(&self) -> (r: Location)
        ensures
            r == self.spec_start(),
    {
        self.start
    }

    pub fn end(&self) -> (r: Location)
        ensures
            r == self.spec_end(),
    {
        self.end
    }

    pub fn from(city_pair: &(Location, Location)) -> (r: CityKey)
        ensures
            r.spec_start() == city_pair.0,
            r.spec_end() == city_pair.1,
    {
        CityKey { start: city_pair.0, end: city_pair.1 }
    }

    /// The same edge seen from the other side. Reversal has no state to
    /// preserve, so this is a pure function of the key.
    pub fn reverse_key(&self) -> (r: CityKey)
        ensures
            r.spec_start() == self.spec_end(),
            r.spec_end() == self.spec_start(),
    {
        CityKey { start: self.end, end: self.start }
    }
}

} // verus!
