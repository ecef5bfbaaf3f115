//! Fixed point: percentages, durations and instants in millionths.
//!
//! A percentage of one is `MICRO`, a second is `MICRO`, and an instant is the
//! number of microseconds since the Unix epoch. Sums are made in 128 bits and
//! clipped to 64 where they are kept.

use vstd::prelude::*;

verus! {

/// One percent, or one second.
pub const MICRO: i64 = 1_000_000;

/// A full window: one hundred percent.
pub const FULL_PCT: i64 = 100_000_000;

/// The 64-bit number nearest to `x`.
pub open spec fn clip(x: int) -> i64 {
    if x < i64::MIN {
        i64::MIN
    } else if x > i64::MAX {
        i64::MAX
    } else {
        x as i64
    }
}

/// The 64-bit number nearest to `x`.
pub fn clipped(x: i128) -> (r: i64)
    ensures
        r == clip(x as int),
{
    if x < i64::MIN as i128 {
        i64::MIN
    } else if x > i64::MAX as i128 {
        i64::MAX
    } else {
        x as i64
    }
}

/// The greater of two numbers.
pub open spec fn greater(a: int, b: int) -> int {
    if a >= b {
        a
    } else {
        b
    }
}

/// The lesser of two numbers.
pub open spec fn lesser(a: int, b: int) -> int {
    if a <= b {
        a
    } else {
        b
    }
}

/// The greater of two numbers.
pub fn at_least(a: i128, b: i128) -> (r: i128)
    ensures
        r == greater(a as int, b as int),
{
    if a >= b {
        a
    } else {
        b
    }
}

/// The lesser of two numbers.
pub fn at_most(a: i128, b: i128) -> (r: i128)
    ensures
        r == lesser(a as int, b as int),
{
    if a <= b {
        a
    } else {
        b
    }
}

/// `a - b`, exactly.
pub fn gap(a: i64, b: i64) -> (r: i128)
    ensures
        r == a - b,
{
    a as i128 - b as i128
}

/// `a + b`, clipped.
pub fn later(a: i64, b: i64) -> (r: i64)
    ensures
        r == clip(a + b),
{
    clipped(a as i128 + b as i128)
}

} // verus!
