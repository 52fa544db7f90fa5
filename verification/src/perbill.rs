//! Parts-per-billion and rational arithmetic on balances.
//!
//! The arithmetic itself is done by `sp_runtime`: by its `Perbill` and by its
//! 128-bit helpers. The four calls into it are the functions of this module
//! without a verified body; their contracts restate what that crate computes
//! and are taken on trust.

use sp_runtime::helpers_128bit::multiply_by_rational_with_rounding;
use sp_runtime::{Perbill, Rounding};
use vstd::prelude::*;

verus! {

/// Number of parts that make up one whole.
pub const ACCURACY: u32 = 1_000_000_000;

/// The ratio `p / q` in parts per billion, rounded down; one whole when the
/// ratio is undefined or exceeds one.
pub open spec fn rational_parts(p: nat, q: nat) -> nat {
    if q == 0 || p > q {
        ACCURACY as nat
    } else {
        p * (ACCURACY as nat) / q
    }
}

/// `x` scaled by `parts` billionths, rounded down.
pub open spec fn scaled_down(parts: nat, x: nat) -> nat {
    parts * x / (ACCURACY as nat)
}

/// `x` divided by `parts` billionths, rounded down and capped at the largest
/// 128-bit value.
pub open spec fn scaled_up(parts: nat, x: nat) -> nat {
    let exact = x * (ACCURACY as nat) / parts;
    if exact > u128::MAX {
        u128::MAX as nat
    } else {
        exact
    }
}

/// `a * b / c` rounded down, where that is defined and fits 128 bits.
pub open spec fn rational_product(a: nat, b: nat, c: nat) -> Option<nat> {
    if c == 0 || a * b / c > u128::MAX {
        None
    } else {
        Some(a * b / c)
    }
}

/// Calls `helpers_128bit::multiply_by_rational_with_rounding`, rounding
/// down.
///
/// Trusted: the result is `a * b / c` rounded down, taken over the whole
/// product without intermediate overflow or rounding; it is `None` when `c`
/// is zero or the quotient does not fit 128 bits.
#[verifier::external_body]
pub(crate) fn multiply_by_rational_floor(a: u128, b: u128, c: u128) -> (r: Option<u128>)
    ensures
        match r {
            Some(quotient) => rational_product(a as nat, b as nat, c as nat) == Some(
                quotient as nat,
            ),
            None => rational_product(a as nat, b as nat, c as nat) is None,
        },
{
    multiply_by_rational_with_rounding(a, b, c, Rounding::Down)
}

/// Calls `Perbill::from_rational` and returns the parts of its result.
///
/// Trusted: the result is one whole when `q` is zero or `p > q`, and
/// otherwise `p * 10^9 / q` rounded down, computed without intermediate
/// overflow.
#[verifier::external_body]
pub(crate) fn from_rational(p: u128, q: u128) -> (parts: u32)
    ensures
        parts as nat == rational_parts(p as nat, q as nat),
{
    Perbill::from_rational(p, q).deconstruct()
}

/// Calls `Perbill::mul_floor` on the ratio of `parts` billionths.
///
/// Trusted: the result is `parts * x / 10^9` rounded down, computed without
/// intermediate overflow.
#[verifier::external_body]
pub(crate) fn mul_floor(parts: u32, x: u128) -> (r: u128)
    requires
        parts <= ACCURACY,
    ensures
        r as nat == scaled_down(parts as nat, x as nat),
{
    Perbill::from_parts(parts).mul_floor(x)
}

/// Calls `Perbill::saturating_reciprocal_mul_floor` on the ratio of `parts`
/// billionths.
///
/// Trusted: the result is `x * 10^9 / parts` rounded down, or `u128::MAX`
/// when that does not fit. A ratio of zero is excluded: the call divides by
/// it.
#[verifier::external_body]
pub(crate) fn saturating_reciprocal_mul_floor(parts: u32, x: u128) -> (r: u128)
    requires
        0 < parts <= ACCURACY,
    ensures
        r as nat == scaled_up(parts as nat, x as nat),
{
    Perbill::from_parts(parts).saturating_reciprocal_mul_floor(x)
}

/// A ratio never exceeds one whole.
pub proof fn lemma_rational_parts_bounded(p: nat, q: nat)
    ensures
        rational_parts(p, q) <= ACCURACY,
{
    if !(q == 0 || p > q) {
        let a = ACCURACY as nat;
        assert(p * a <= q * a) by (nonlinear_arith)
            requires
                p <= q,
        ;
        assert(p * a / q <= a) by (nonlinear_arith)
            requires
                p * a <= q * a,
                q > 0,
        ;
    }
}

} // verus!
