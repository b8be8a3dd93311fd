use vstd::prelude::*;
use crate::errors::PrayerError;

verus! {

/// Maximum number of consecutive failed attempts against the remote service.
pub const MAX_ATTEMPTS: u32 = 20;

/// Base backoff delay; the n-th failure waits n times this long.
pub const BASE_DELAY_MS: u64 = 500;

/// The retry policy: after `failures` consecutive failures, either wait this
/// many milliseconds and try again (linear backoff, no jitter), or give up.
pub open spec fn retry_spec(failures: u32) -> Result<u64, PrayerError> {
    if failures >= MAX_ATTEMPTS {
        Err(PrayerError::FetchExhausted)
    } else {
        Ok(((failures as u64) * (BASE_DELAY_MS as u64)) as u64)
    }
}

/// Decides how to proceed after `failures` consecutive failed fetch attempts:
/// `Ok(delay_ms)` means sleep that long and retry; once the attempt ceiling
/// is reached the fetch fails with `FetchExhausted` and the caller must fall
/// back to the degraded output. The caller performs the sleeping and the
/// network call; this decision is pure.
pub fn retry_decision(failures: u32) -> (r: Result<u64, PrayerError>)
    ensures
        r == retry_spec(failures),
{
    if failures >= MAX_ATTEMPTS {
        Err(PrayerError::FetchExhausted)
    } else {
        Ok((failures as u64) * BASE_DELAY_MS)
    }
}

/// Backoff grows strictly with each failure, so retries spread out over time.
pub proof fn lemma_backoff_increases(failures: u32)
    requires
        1 <= failures,
        failures + 1 < MAX_ATTEMPTS,
    ensures
        retry_spec(failures) is Ok,
        retry_spec((failures + 1) as u32) is Ok,
        retry_spec(failures)->Ok_0 < retry_spec((failures + 1) as u32)->Ok_0,
{
}

} // verus!
