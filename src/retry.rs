//! Retry policies: the downloader's fetch backoff and the client's connection
//! attempts.
use vstd::prelude::*;

verus! {

/// The shortest wait before fetching again, in seconds.
pub const MIN_BACKOFF_SECS: u64 = 1;

/// The longest wait before fetching again, in seconds.
pub const MAX_BACKOFF_SECS: u64 = 60;

/// The wait after a failed fetch that followed a wait of `secs`: doubled,
/// within `MIN_BACKOFF_SECS` and `MAX_BACKOFF_SECS`.
pub fn next_backoff(secs: u64) -> (r: u64)
    ensures
        r == if 2 * secs < MIN_BACKOFF_SECS {
            MIN_BACKOFF_SECS as int
        } else if 2 * secs > MAX_BACKOFF_SECS {
            MAX_BACKOFF_SECS as int
        } else {
            2 * secs
        },
{
    if secs > MAX_BACKOFF_SECS / 2 {
        MAX_BACKOFF_SECS
    } else if secs * 2 < MIN_BACKOFF_SECS {
        MIN_BACKOFF_SECS
    } else {
        secs * 2
    }
}

/// The first wait of the client between connection attempts, in milliseconds.
pub const FIRST_RETRY_DELAY_MS: u64 = 1000;

/// What follows failed connection attempt number `attempt` (counted from 0)
/// when `max_retries` attempts are allowed and the client has just waited
/// `delay_ms`: `None` to give up, or the next attempt's number and the wait
/// after it, doubled (saturating at the largest `u64`).
pub fn after_failed_attempt(attempt: usize, delay_ms: u64, max_retries: usize) -> (r: Option<(usize, u64)>)
    ensures
        attempt + 1 >= max_retries ==> r is None,
        attempt + 1 < max_retries ==> r == Some(
            (
                (attempt + 1) as usize,
                if 2 * delay_ms > u64::MAX {
                    u64::MAX
                } else {
                    (2 * delay_ms) as u64
                },
            ),
        ),
{
    if attempt >= max_retries || max_retries - attempt <= 1 {
        None
    } else {
        Some((attempt + 1, delay_ms.saturating_add(delay_ms)))
    }
}

} // verus!
