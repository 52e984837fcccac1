//! The wall-clock time source.

use vstd::prelude::*;

verus! {

/// Relies on `chrono::DateTime::<Utc>::from(std::time::SystemTime)` and
/// `chrono::DateTime::timestamp_millis`: the current time as Unix
/// milliseconds. Unlike `chrono::Utc::now`, which panics on a system clock
/// set before 1970, this `From` impl maps a pre-epoch reading by negation
/// and accepts every clock within chrono's representable range of about a
/// quarter million years around the epoch. The value depends on when the
/// call is made, so nothing is promised of it; callers state what holds of
/// every timestamp.
#[verifier::external_body]
pub(crate) fn now_timestamp_ms() -> i64 {
    chrono::DateTime::<chrono::Utc>::from(std::time::SystemTime::now()).timestamp_millis()
}

} // verus!
