//! Rounding to the nearest IEEE 754 binary64 number, on non-negative values
//! held as whole multiples of a fixed power of two.
//!
//! A binary64 number has 53 significant bits. A value `x` counted in some
//! unit `2^-k` that needs more than 53 bits is therefore not representable;
//! the representable numbers around it are `spacing(x)` units apart.
use vstd::prelude::*;

verus! {

/// Two to the power 53: the first integer whose successor binary64 cannot
/// represent.
pub const SIGNIFICAND_LIMIT: u128 = 0x20_0000_0000_0000;

/// Two to the power 52.
pub const HALF_SIGNIFICAND_LIMIT: u128 = 0x10_0000_0000_0000;

/// The largest value that [`round_nearest`] accepts.
pub const ROUNDING_LIMIT: u128 = 0xffff_ffff_ffff_ffff_ffff_ffff;

/// The distance, in units, between neighbouring binary64 numbers in the
/// binade of `x`: one as long as `x` has at most 53 bits, and doubling with
/// every further bit.
pub open spec fn spacing(x: nat) -> nat
    decreases x,
{
    if x < SIGNIFICAND_LIMIT {
        1
    } else {
        2 * spacing(x / 2)
    }
}

/// The binary64 number nearest to `x`, a tie going to the neighbour whose
/// last significant bit is zero.
pub open spec fn nearest(x: nat) -> nat {
    let step = spacing(x);
    let below = (x - x % step) as nat;
    if 2 * (x % step) < step || (2 * (x % step) == step && (x / step) % 2 == 0) {
        below
    } else {
        below + step
    }
}

/// The spacing is positive and, past 53 bits, at most `x / 2^52`.
pub proof fn lemma_spacing_bounds(x: nat)
    ensures
        1 <= spacing(x),
        x < SIGNIFICAND_LIMIT ==> spacing(x) == 1,
        x >= SIGNIFICAND_LIMIT ==> spacing(x) * HALF_SIGNIFICAND_LIMIT <= x,
    decreases x,
{
    if x >= SIGNIFICAND_LIMIT {
        lemma_spacing_bounds(x / 2);
    }
}

/// Rounding moves a value by at most half the spacing of its binade.
pub proof fn lemma_nearest_bounds(x: nat)
    ensures
        2 * x <= 2 * nearest(x) + spacing(x),
        2 * nearest(x) <= 2 * x + spacing(x),
{
    lemma_spacing_bounds(x);
}

/// Computes [`spacing`].
fn spacing_of(x: u128) -> (step: u128)
    requires
        x <= ROUNDING_LIMIT,
    ensures
        step == spacing(x as nat),
        1 <= step,
        step == 1 || step * HALF_SIGNIFICAND_LIMIT <= x,
    decreases x,
{
    if x < SIGNIFICAND_LIMIT {
        1
    } else {
        let half: u128 = spacing_of(x / 2);
        2 * half
    }
}

/// Rounds `x` to the nearest binary64 number, ties to even.
pub fn round_nearest(x: u128) -> (rounded: u128)
    requires
        x <= ROUNDING_LIMIT,
    ensures
        rounded == nearest(x as nat),
        rounded <= 2 * x + 1,
{
    let step: u128 = spacing_of(x);
    let rest: u128 = x % step;
    let below: u128 = x - rest;
    if 2 * rest < step || (2 * rest == step && (x / step) % 2 == 0) {
        below
    } else {
        below + step
    }
}

} // verus!
