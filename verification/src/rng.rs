//! The one randomness primitive the library uses.

use vstd::prelude::*;

verus! {

/// Relies on rand::random: nothing can be promised of a random value, so
/// this carries no `ensures`.
pub assume_specification<T>[ rand::random::<T> ]() -> (r: T)
    where
        rand::distributions::Standard: rand::distributions::Distribution<T>,
;

/// Draws a fresh visual skin id.
pub fn random_skin() -> u64 {
    rand::random::<u64>()
}

} // verus!
