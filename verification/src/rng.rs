//! Random draws, through the `rand` crate's thread-local generator.
//!
//! A draw depends on chance, so nothing names its value: each wrapper
//! states only the range every outcome falls in.
use rand::Rng;
use vstd::prelude::*;

verus! {

/// Calls `rand::Rng::gen_range(start..end)` on `rand::thread_rng()`; claims
/// only that the value lies in `start..end` (the range is nonempty, so the
/// call does not panic).
#[verifier::external_body]
pub(crate) fn random_range(start: usize, end: usize) -> (res: usize)
    requires
        start < end,
    ensures
        start <= res < end,
{
    rand::thread_rng().gen_range(start..end)
}

/// Calls `rand::Rng::gen_range(low..=high)` on `rand::thread_rng()`; claims
/// only that the value lies in `low..=high`.
#[verifier::external_body]
pub(crate) fn random_inclusive(low: u32, high: u32) -> (res: u32)
    requires
        low <= high,
    ensures
        low <= res <= high,
{
    rand::thread_rng().gen_range(low..=high)
}

/// A one-in-`odds` chance: a draw from `1..=odds` that comes out as 1.
/// With odds of one it always comes out.
pub fn luck(odds: u32) -> (res: bool)
    requires
        odds >= 1,
    ensures
        odds == 1 ==> res,
{
    random_inclusive(1, odds) == 1
}

/// Picks an index into a list of `len` choices.
pub fn random_choice(len: usize) -> (res: usize)
    requires
        len > 0,
    ensures
        res < len,
{
    random_range(0, len)
}

} // verus!
