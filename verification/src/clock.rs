//! Wall-clock readings.
//!
//! Identifier generation mixes the current time into every value. The
//! readings are inherently nondeterministic, so nothing is promised of
//! them; callers state what holds of every possible reading.

use vstd::prelude::*;

verus! {

/// Milliseconds since the Unix epoch, truncated to 64 bits.
///
/// Relies on std::time::SystemTime::now and its duration since
/// std::time::UNIX_EPOCH. Panics if the system clock reads before the
/// epoch, which is treated as a broken host environment rather than a
/// recoverable error.
#[verifier::external_body]
pub(crate) fn current_millis() -> u64 {
    std::time::SystemTime::now()
        .duration_since(std::time::UNIX_EPOCH)
        .unwrap()
        .as_millis() as u64
}

/// Busy-polls the wall clock and returns the first reading strictly
/// after `after`, in milliseconds since the Unix epoch truncated to 64
/// bits. Does not return until the clock advances that far.
///
/// Relies on std::time::SystemTime through `current_millis`: the loop
/// exits only once a reading exceeds `after`, so the bound holds of
/// every value returned.
#[verifier::external_body]
pub(crate) fn wait_past_millis(after: u64) -> (r: u64)
    ensures
        r > after,
{
    let mut t = current_millis();
    while t <= after {
        t = current_millis();
    }
    t
}

/// Whole seconds since the Unix epoch, truncated to 32 bits.
///
/// Relies on std::time::SystemTime::now and its duration since
/// std::time::UNIX_EPOCH. Panics if the system clock reads before the
/// epoch, which is treated as a broken host environment rather than a
/// recoverable error.
#[verifier::external_body]
pub(crate) fn current_secs() -> u32 {
    std::time::SystemTime::now()
        .duration_since(std::time::UNIX_EPOCH)
        .unwrap()
        .as_secs() as u32
}

} // verus!
