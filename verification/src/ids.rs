//! The sources of fresh identities and of the current time.
//!
//! Both values come from outside the verified world, so nothing is promised
//! of them: every caller states what holds of its result whatever value
//! comes back.

use vstd::prelude::*;

verus! {

/// Relies on `uuid::Uuid::new_v4`, a randomly drawn version-4 identifier,
/// taken as its 128-bit value.  The value is random: nothing is promised of
/// it, and callers check freshness against the store before relying on it.
#[verifier::external_body]
pub(crate) fn fresh_id() -> u128 {
    uuid::Uuid::new_v4().as_u128()
}

/// Relies on `chrono::Utc::now`, the current wall-clock time, taken as its
/// microsecond timestamp.  The clock is the machine's: nothing is promised
/// of the value.
#[verifier::external_body]
pub(crate) fn now_micros() -> u64 {
    chrono::Utc::now().timestamp_micros() as u64
}

} // verus!
