//! The library's single source of randomness.
//!
//! Everything downstream takes the drawn value as data, so every function
//! past this point is verified for all outcomes of the draw.

use vstd::prelude::*;

verus! {

/// Relies on rand::random: a fresh pseudo-random value from the thread's
/// generator. Nothing is promised of which value comes back.
pub assume_specification<T>[ rand::random::<T> ]() -> (r: T)
    where
        rand::distributions::Standard: rand::distributions::Distribution<T>,
;

/// A pseudo-random value strictly below `n`; which one is not promised.
pub fn random_below(n: u64) -> (r: u64)
    requires
        n > 0,
    ensures
        r < n,
{
    let v: u64 = rand::random::<u64>();
    v % n
}

/// A pseudo-random value in `[lo, hi]`; which one is not promised.
pub fn random_in_range(lo: i64, hi: i64) -> (r: i64)
    requires
        lo <= hi,
        hi - lo <= i64::MAX,
    ensures
        lo <= r <= hi,
{
    let span: u64 = ((hi - lo) as u64) + 1;
    let off: u64 = random_below(span);
    lo + (off as i64)
}

} // verus!
