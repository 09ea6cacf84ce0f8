//! The wall clock.

use vstd::prelude::*;

verus! {

/// The current time as milliseconds since the Unix epoch, from
/// `chrono::Utc::now().timestamp_millis()`. Nothing is claimed of the value: it is whatever
/// the system clock reads.
#[verifier::external_body]
pub(crate) fn now_millis() -> i64 {
    chrono::Utc::now().timestamp_millis()
}

} // verus!
