//! The clock. What it returns is known to no contract: a function that
//! reads it says what holds whatever the time was.

use vstd::prelude::*;

verus! {

/// The time in UTC as text, year to microsecond, from chrono's `Utc::now`
/// and `format`. Nothing is claimed of the result.
#[verifier::external_body]
pub(crate) fn timestamp_now() -> String {
    chrono::Utc::now().format("%Y-%m-%dT%H:%M:%S%.6f").to_string()
}

} // verus!
