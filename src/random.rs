//! A source of random values, for callers that want variation (jitter,
//! babble) without process-wide seeded state.

use vstd::prelude::*;

verus! {

/// Types that can produce a random value of themselves.
pub trait Random: Sized {
    fn random() -> Self;
}

/// A random value of type `T`.
pub fn random<T: Random>() -> T {
    T::random()
}

/// Relies on `RandomState::new`: a hasher builder with fresh random keys.
/// Nothing is promised of the keys.
#[verifier::external_body]
fn fresh_random_state() -> std::collections::hash_map::RandomState {
    std::collections::hash_map::RandomState::new()
}

/// Relies on `BuildHasher::hash_one`: the hash of `0u64` under `state`, a
/// random number when the state's keys are random. Nothing is promised of
/// the value.
#[verifier::external_body]
fn hash_zero(state: &std::collections::hash_map::RandomState) -> u64 {
    std::hash::BuildHasher::hash_one(state, 0u64)
}

impl Random for u64 {
    fn random() -> u64 {
        let state = fresh_random_state();
        hash_zero(&state)
    }
}

} // verus!
