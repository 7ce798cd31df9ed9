//! The one place the library consults the wall clock.

use vstd::prelude::*;

verus! {

/// Relies on `chrono::Utc::now`: the current Unix timestamp in seconds.
/// Nothing is promised of its value.
#[verifier::external_body]
pub fn unix_now() -> u64 {
    chrono::Utc::now().timestamp() as u64
}

} // verus!
