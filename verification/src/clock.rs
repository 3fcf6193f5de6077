//! Access to the system clock.

use vstd::prelude::*;

verus! {

/// Nanoseconds since the Unix epoch, read from `std::time::SystemTime::now`.
/// Nothing is promised of the value: it depends on the moment of the call
/// and the machine's clock, which may even step backwards.
#[verifier::external_body]
pub(crate) fn now_nanos() -> u64 {
    let d = std::time::SystemTime::now().duration_since(std::time::UNIX_EPOCH);
    match d {
        Ok(d) => d.as_nanos() as u64,
        Err(_) => 0,
    }
}

/// Whole seconds since the Unix epoch, read from
/// `std::time::SystemTime::now`. Nothing is promised of the value.
#[verifier::external_body]
pub(crate) fn now_secs() -> u64 {
    let d = std::time::SystemTime::now().duration_since(std::time::UNIX_EPOCH);
    match d {
        Ok(d) => d.as_secs(),
        Err(_) => 0,
    }
}

} // verus!
