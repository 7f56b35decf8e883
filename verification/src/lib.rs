//! Exact brute-force solver for the symmetric traveling-salesman decision
//! problem on small complete graphs: enumerate every ordering of the
//! locations with a minimal-change permutation generator, price each
//! ordering against an undirected edge-cost table, and keep every ordering
//! tied for the minimum total cost.
//!
//! Locations are small integer handles owned by the caller; mapping city
//! names to handles, reading cost files and printing results are left to
//! the surrounding program.

pub mod citykey;
pub mod cost;
pub mod optimal;
pub mod permutation;
pub mod solve;
pub mod table;
pub mod util;
