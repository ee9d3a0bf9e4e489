//! The cost model: a pure map from byte sizes to a monthly dollar estimate.
//!
//! Storage is priced at $0.10 per GiB-month, and reported image sizes are
//! corrected by a fixed compression factor of 0.65, so one byte costs
//! 0.65 * 0.10 / 2^30 dollars = 65 / (1000 * 2^30) dollars = 13 / 2^31 cents
//! per month. The model is kept exact: a cost is the rational number
//! `bytes * 13 / 2^31` cents, carried as its numerator `bytes * 13` over the
//! fixed denominator 2^31, and rounded (half up) to whole cents only for
//! display. The constants are a documented approximation, not a billing
//! guarantee.

use vstd::arithmetic::div_mod::{
    lemma_div_is_ordered, lemma_fundamental_div_mod, lemma_hoist_over_denominator,
};
use vstd::prelude::*;

verus! {

/// The exact monthly cost of `bytes` bytes, in units of 1 / 2^31 cents.
pub open spec fn cost_numer(bytes: int) -> int {
    bytes * 13
}

/// The monthly cost of `bytes` bytes rounded (half up) to whole cents.
pub open spec fn cost_cents(bytes: int) -> int {
    (bytes * 13 + 0x4000_0000) / 0x8000_0000
}

/// Rounded whole cents for a byte size, matching `cost_cents` exactly.
pub fn cents_for_bytes(bytes: u128) -> (cents: u128)
    ensures
        cents as int == cost_cents(bytes as int),
{
    let q: u128 = bytes / 0x8000_0000;
    let r: u128 = bytes % 0x8000_0000;
    proof {
        let b = bytes as int;
        lemma_fundamental_div_mod(b, 0x8000_0000);
        lemma_div_is_ordered(b, u128::MAX as int, 0x8000_0000);
        lemma_hoist_over_denominator(
            13 * (b % 0x8000_0000) + 0x4000_0000,
            13 * (b / 0x8000_0000),
            0x8000_0000,
        );
    }
    13 * q + (13 * r + 0x4000_0000) / 0x8000_0000
}

/// The cost model is monotone: more bytes never cost fewer cents.
pub proof fn lemma_cost_cents_monotone(b1: int, b2: int)
    requires
        b1 <= b2,
    ensures
        cost_cents(b1) <= cost_cents(b2),
{
    lemma_div_is_ordered(b1 * 13 + 0x4000_0000, b2 * 13 + 0x4000_0000, 0x8000_0000);
}

/// Zero bytes cost zero cents.
pub proof fn lemma_cost_cents_zero()
    ensures
        cost_cents(0) == 0,
{
    assert(cost_cents(0) == 0x4000_0000int / 0x8000_0000int);
}

} // verus!
