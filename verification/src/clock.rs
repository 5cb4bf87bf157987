//! The wall clock.

use vstd::prelude::*;

verus! {

/// Calls `chrono::Utc::now` and `DateTime::timestamp`: the seconds since the
/// Unix epoch as the machine's clock has them at the call. Nothing is claimed
/// of the number. chrono stops the program where the clock stands before the
/// epoch.
#[verifier::external_body]
pub(crate) fn unix_now() -> (r: u64) {
    chrono::Utc::now().timestamp() as u64
}

} // verus!
