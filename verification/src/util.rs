//! The clock source: monotonic wall-clock epoch milliseconds.

use std::time::{SystemTime, UNIX_EPOCH};
use vstd::prelude::*;

verus! {

/// The current time in epoch milliseconds.
///
/// Relies on SystemTime::now and Duration::as_millis: the milliseconds since
/// the Unix epoch by the system clock. Nothing more can be promised of a
/// clock reading than that this function never reports a negative time: a
/// clock set before the epoch reads as zero, one past the representable
/// range as the ceiling.
#[verifier::external_body]
pub fn get_unix() -> (r: i64)
    ensures
        r >= 0,
{
    match SystemTime::now().duration_since(UNIX_EPOCH) {
        Ok(d) => d.as_millis().try_into().unwrap_or(i64::MAX),
        Err(_) => 0,
    }
}

} // verus!
