//! Streaming ingest of a community-submitted interval snapshot into a
//! relational store: a header-driven line parser that tolerates malformed
//! rows, an existence oracle with a per-record and a bulk-preload strategy,
//! a store model owning the schema lifecycle and the insert contract, and
//! the orchestrator that ties them into one idempotent run.

use vstd::prelude::*;

pub mod indexes;
pub mod numeric;
pub mod oracle;
pub mod sponsor_time;
pub mod sponsor_times;
pub mod store;
pub mod sponsor_time_error;
pub mod strutil;
pub mod sync;

verus! {

/// A progress tally: bump the count of processed records and report whether
/// this record falls on the fixed progress-reporting cadence.
pub fn add_current(current: &mut usize, total: usize) -> (emit: bool)
    requires
        *old(current) < usize::MAX,
    ensures
        *final(current) == *old(current) + 1,
        emit == (*final(current) % 100000 == 0),
{
    *current += 1;
    *current % 100000 == 0
}

} // verus!
