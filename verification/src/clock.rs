//! Wall-clock access for record timestamps.

use vstd::prelude::*;

verus! {

/// Relies on chrono's conversion from the system clock: seconds since
/// the Unix epoch, negative for a clock set before it, so no clock
/// setting makes the read panic. Nothing is promised of the value;
/// callers that need monotonic timestamps must compare with the previous
/// value themselves.
#[verifier::external_body]
pub fn now_timestamp() -> i64 {
    chrono::DateTime::<chrono::Utc>::from(std::time::SystemTime::now()).timestamp()
}

} // verus!
