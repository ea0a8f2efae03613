//! The crate's only window onto the `rand` crate.
//!
//! A uniform `u16` is exactly a uniform Q47.16 fixed-point value in
//! `[0, 1)`: its 16 bits are the 16 fractional bits of the scalar format.

use vstd::prelude::*;

verus! {

/// Relies on `rand::random`, which draws a value from the thread-local
/// generator's `Standard` distribution. Nothing is promised of the result:
/// every caller must hold for every value the type allows.
pub assume_specification<T>[ rand::random::<T> ]() -> (r: T)
    where
        rand::distributions::Standard: rand::distributions::Distribution<T>,
;

/// A uniform fixed-point sample in `[0, 1)`; the range is forced by the
/// `u16` type alone, so no further trust is involved.
pub fn random_unit() -> (r: i64)
    ensures
        0 <= r < 65536,
{
    let bits: u16 = rand::random::<u16>();
    bits as i64
}

} // verus!
