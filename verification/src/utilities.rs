//! The wall clock. The executor and the `WAIT` poller take the current
//! time as an argument; this is where callers get it.

use vstd::prelude::*;

verus! {

/// Milliseconds since the Unix epoch, by the system clock.
///
/// Relies on `std::time::SystemTime`: `now` read against `UNIX_EPOCH`.
/// Nothing is promised of the result - the clock is the machine's - and a
/// clock before the epoch reads as zero.
#[verifier::external_body]
pub fn now() -> u64 {
    match std::time::SystemTime::now().duration_since(std::time::UNIX_EPOCH) {
        Ok(d) => d.as_millis() as u64,
        Err(_) => 0,
    }
}

} // verus!
