//! Wall-clock readings. Nothing is promised of the values: every caller
//! states what holds whatever the clock returns.

use vstd::prelude::*;

verus! {

/// Relies on std::time::SystemTime::now and duration_since: nanoseconds
/// since the Unix epoch, truncated to 64 bits; zero if the clock reads
/// before the epoch. Nothing is promised of the value.
#[verifier::external_body]
pub(crate) fn now_nanos() -> u64 {
    match std::time::SystemTime::now().duration_since(std::time::UNIX_EPOCH) {
        Ok(d) => d.as_nanos() as u64,
        Err(_) => 0,
    }
}

/// Relies on std::time::SystemTime::now and duration_since: milliseconds
/// since the Unix epoch; zero if the clock reads before the epoch. Nothing
/// is promised of the value.
#[verifier::external_body]
pub(crate) fn now_millis() -> u128 {
    match std::time::SystemTime::now().duration_since(std::time::UNIX_EPOCH) {
        Ok(d) => d.as_millis(),
        Err(_) => 0,
    }
}

/// Relies on std::time::SystemTime::now and duration_since: seconds since
/// the Unix epoch; zero if the clock reads before the epoch. Nothing is
/// promised of the value.
#[verifier::external_body]
pub(crate) fn now_secs() -> u64 {
    match std::time::SystemTime::now().duration_since(std::time::UNIX_EPOCH) {
        Ok(d) => d.as_secs(),
        Err(_) => 0,
    }
}

} // verus!
