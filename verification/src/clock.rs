//! The single point where the library reads the wall clock.
use vstd::prelude::*;

verus! {

/// Relies on `std::time::SystemTime::now`: the reading is converted to the
/// number of nanoseconds since the Unix epoch (`duration_since(UNIX_EPOCH)`
/// followed by `Duration::as_nanos`); a clock before the epoch reads as 0.
/// Nothing is assumed of the value: the limiters hold for every reading.
#[verifier::external_body]
fn clock_nanos() -> (r: u128) {
    match std::time::SystemTime::now().duration_since(std::time::UNIX_EPOCH) {
        Ok(d) => d.as_nanos(),
        Err(_) => 0,
    }
}

/// Saturate a raw nanosecond reading into the `u64` domain the limiters use.
pub fn saturate_nanos(raw: u128) -> (r: u64)
    ensures
        r == (if raw <= u64::MAX { raw as u64 } else { u64::MAX }),
{
    if raw > u64::MAX as u128 {
        u64::MAX
    } else {
        raw as u64
    }
}

/// The current instant, as nanoseconds since the Unix epoch, saturated to
/// `u64`.  Two readings are unrelated as far as the contracts are concerned.
pub fn now_nanos() -> u64 {
    saturate_nanos(clock_nanos())
}

} // verus!
