//! Firmware size analysis: parsers for section-header, symbol-table and
//! linker-map text, aggregation into totals, ranked lists and a size
//! tree, heuristic findings, a content-addressed cache key, and an
//! in-memory symbol store with paged queries and address lookup.
pub mod analysis;
pub mod cache;
pub mod filenames;
pub mod findings;
pub mod mapfile;
pub mod model;
pub mod numbers;
pub mod rank;
pub mod sections;
pub mod store;
pub mod symbols;
pub mod text;

use vstd::prelude::*;

verus! {

/// Saturating sum of two byte counts: aggregate totals never wrap, they
/// cap at `u64::MAX` when the input claims absurd sizes.
pub open spec fn sat_add(a: u64, b: u64) -> u64 {
    if a + b > u64::MAX {
        u64::MAX
    } else {
        (a + b) as u64
    }
}

} // verus!
