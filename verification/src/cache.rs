use vstd::prelude::*;

verus! {

/// Whether a cached snapshot is still usable: its file was last written at
/// `modified_secs` (none if the file or its metadata cannot be read) and the
/// deployment allows a staleness of `window_secs`. A record is fresh iff it
/// was modified strictly less than `window_secs` seconds before `now_secs`;
/// a record from the future counts as fresh.
pub open spec fn fresh_spec(now_secs: u64, modified_secs: Option<u64>, window_secs: u64) -> bool {
    match modified_secs {
        Option::None => false,
        Option::Some(m) => now_secs - m < window_secs,
    }
}

/// Freshness decision for the cache store. Never fails: an unreadable
/// modification time (`None`) simply means "not fresh".
pub fn is_fresh(now_secs: u64, modified_secs: Option<u64>, window_secs: u64) -> (r: bool)
    ensures
        r == fresh_spec(now_secs, modified_secs, window_secs),
{
    match modified_secs {
        None => false,
        Some(m) => {
            if m > now_secs {
                true
            } else {
                now_secs - m < window_secs
            }
        },
    }
}

/// Freshness is monotonic in time: a snapshot fresh at a later instant was
/// also fresh at any earlier instant.
pub proof fn lemma_freshness_monotonic(
    earlier_secs: u64,
    later_secs: u64,
    modified_secs: u64,
    window_secs: u64,
)
    requires
        earlier_secs <= later_secs,
        fresh_spec(later_secs, Some(modified_secs), window_secs),
    ensures
        fresh_spec(earlier_secs, Some(modified_secs), window_secs),
{
}

/// The freshness window is exact at its boundary: a snapshot is stale at the
/// very instant the window has elapsed, and still fresh one second before.
pub proof fn lemma_freshness_boundary(modified_secs: u64, window_secs: u64)
    requires
        modified_secs + window_secs <= u64::MAX,
    ensures
        !fresh_spec((modified_secs + window_secs) as u64, Some(modified_secs), window_secs),
        window_secs > 0 ==> fresh_spec(
            (modified_secs + window_secs - 1) as u64,
            Some(modified_secs),
            window_secs,
        ),
{
}

} // verus!
