//! Random draws, from the thread-local generator of `rand`.
use vstd::prelude::*;

verus! {

/// Relies on `rand::random`: a value drawn from the thread-local generator.
/// Nothing is promised of which value comes back.
pub assume_specification<T>[ rand::random::<T> ]() -> (r: T)
    where
        rand::distributions::Standard: rand::distributions::Distribution<T>,
;

/// Relies on `rand::Rng::gen_range` over `rand::thread_rng()`: a value drawn
/// from the inclusive range `0..=max`, which is never empty.
#[verifier::external_body]
pub(crate) fn roll_at_most(max: u32) -> (r: u32)
    ensures
        r <= max,
{
    rand::Rng::gen_range(&mut rand::thread_rng(), 0..=max)
}

} // verus!
