use vstd::prelude::*;

verus! {

/// The ways a run can fail to obtain real data. Every variant is recoverable:
/// the pipeline degrades to the fixed `{"N/A", "N/A"}` output (or, for
/// `CacheWriteError`, merely skips persistence) instead of aborting.
#[derive(Clone, Copy, Debug, PartialEq, Eq, Structural)]
pub enum PrayerError {
    /// The bounded retry budget for the remote timing service ran out.
    FetchExhausted,
    /// The cached snapshot on disk is not valid structured data.
    CacheCorrupt,
    /// The cache file could not be created or written; non-fatal.
    CacheWriteError,
    /// The snapshot lacks the timing mapping or the calendar descriptor.
    MissingField,
    /// A recognized event's time string is not of the form `HH:MM`.
    MalformedTiming,
}

} // verus!
