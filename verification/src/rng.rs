//! The one crossing point into the process-wide random generator.

use vstd::prelude::*;

verus! {

/// Relies on rand::random: draws a value from the thread-local generator.
/// Nothing can be promised of a random value, so no clause constrains it.
pub assume_specification<T>[ rand::random::<T> ]() -> (r: T)
    where
        rand::distributions::Standard: rand::distributions::Distribution<T>,
;

/// One raw 64-bit draw.
pub fn random_u64() -> u64 {
    rand::random::<u64>()
}

/// One draw from the unit interval of the grid: a fixed-point scalar in
/// `[0, 1)`, uniform over the grid points.
pub fn random_unit() -> (r: i64)
    ensures
        0 <= r < crate::fixed::SCALE,
{
    let raw: u64 = random_u64();
    (raw % (crate::fixed::SCALE as u64)) as i64
}

/// One draw from `{0, 1, 2}`: a uniformly chosen axis index.
pub fn random_axis() -> (r: u8)
    ensures
        r < 3,
{
    let raw: u64 = random_u64();
    (raw % 3) as u8
}

} // verus!
