//! Wall-clock readings used for heartbeats and idle expiry.

use vstd::prelude::*;

verus! {

/// `std::time::SystemTime::now`, as milliseconds since the Unix epoch (0 if
/// the clock reads earlier than the epoch). The reading depends on the
/// machine's clock, so nothing is stated of it.
#[verifier::external_body]
pub fn now_millis() -> u64 {
    std::time::SystemTime::now().duration_since(std::time::UNIX_EPOCH).map(|d| d.as_millis() as u64).unwrap_or(0)
}

} // verus!
