use vstd::prelude::*;

verus! {

/// Why one entity's ingestion failed. Every variant is caught at the
/// entity-task boundary and counted; none aborts the run or a sibling
/// entity.
#[derive(Clone, Copy, Debug, PartialEq, Eq, Structural)]
pub enum IngestError {
    /// The remote fetch failed (network error, 4xx/5xx, timeout).
    FetchError,
    /// The fetched payload did not match the expected shape.
    DecodeError,
    /// Reading the entity's existing composite keys from storage failed.
    ReconcileError,
    /// The all-or-nothing bulk write failed; the whole batch was
    /// discarded.
    LoadError,
    /// The entity's natural key was absent from a required lookup table.
    KeyNotFound,
}

} // verus!
