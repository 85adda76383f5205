use vstd::prelude::*;

verus! {

/// Relies on `std::time::SystemTime::elapsed`, taken from the Unix epoch: the wall
/// clock in milliseconds, or 0 where the clock stands before the epoch. Nothing is
/// promised of the value: the clock may move either way between two readings.
#[verifier::external_body]
pub(crate) fn now_ms() -> (r: u64) {
    match std::time::UNIX_EPOCH.elapsed() {
        Ok(d) => d.as_millis() as u64,
        Err(_) => 0,
    }
}

} // verus!
