//! The wall clock.

use vstd::prelude::*;

verus! {

/// The current time, in seconds since the Unix epoch.
///
/// Calls `chrono::Utc::now().timestamp()`. Its value depends on when the
/// call is made; chrono's source counts it from the epoch with
/// `duration_since(UNIX_EPOCH)`, so it is never negative, and the call
/// panics, with nothing a caller can rule out, when the system clock is set
/// before the epoch.
#[verifier::external_body]
pub fn now() -> (r: i64)
    ensures
        r >= 0,
{
    chrono::Utc::now().timestamp()
}

} // verus!
