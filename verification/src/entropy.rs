//! Random bits for identifier generation.
//!
//! Nothing can be promised of a random value, so these wrappers carry no
//! postconditions; verified callers state what holds of every outcome.

use vstd::prelude::*;

verus! {

/// 64 uniformly random bits.
///
/// Relies on rand::random with the standard uniform distribution over u64.
#[verifier::external_body]
pub(crate) fn random_u64() -> u64 {
    rand::random::<u64>()
}

/// 128 uniformly random bits.
///
/// Relies on rand::random with the standard uniform distribution over u128.
#[verifier::external_body]
pub(crate) fn random_u128() -> u128 {
    rand::random::<u128>()
}

} // verus!
