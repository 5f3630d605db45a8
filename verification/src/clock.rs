//! The wall clock, read in milliseconds.

use vstd::prelude::*;

verus! {

/// Milliseconds since the Unix epoch, from `chrono::Utc::now()` followed by
/// `DateTime::timestamp_millis()`.
///
/// Nothing is claimed of the value: it depends on the machine's clock, and two
/// readings may even go backwards. The call panics if the system clock stands
/// before 1970.
#[verifier::external_body]
pub(crate) fn now_millis() -> i64 {
    chrono::Utc::now().timestamp_millis()
}

} // verus!
