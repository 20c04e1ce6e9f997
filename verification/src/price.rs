//! Quantized prices and the step that quantizes them.
//!
//! A price is a signed count of atomic units. A price step is a positive
//! count of the same units; a step of one unit or less leaves every price
//! as it is. Rounding is done on mathematical integers and the result is
//! clamped to the range of `i64`, so that no input overflows.

use vstd::arithmetic::div_mod::lemma_fundamental_div_mod;
use vstd::arithmetic::div_mod::lemma_mod_multiples_basic;
use vstd::arithmetic::div_mod::lemma_mod_bound;
use vstd::prelude::*;

verus! {

/// A price in atomic units.
#[derive(Clone, Copy, Debug, PartialEq, Eq, Structural, PartialOrd, Ord, Hash)]
pub struct Price {
    pub units: i64,
}

/// The width of one price bin in atomic units.
#[derive(Clone, Copy, Debug, PartialEq, Eq, Structural, PartialOrd, Ord, Hash)]
pub struct PriceStep {
    pub units: i64,
}

/// The multiple of `s` nearest to `p`; a price halfway between two
/// multiples goes to the higher one.
pub open spec fn nearest_multiple(p: int, s: int) -> int {
    if s <= 1 {
        p
    } else {
        ((p + s / 2) / s) * s
    }
}

/// The greatest multiple of `s` that is not above `p`.
pub open spec fn floor_multiple(p: int, s: int) -> int {
    if s <= 1 {
        p
    } else {
        (p / s) * s
    }
}

/// The least multiple of `s` that is not below `p`.
pub open spec fn ceil_multiple(p: int, s: int) -> int {
    if s <= 1 {
        p
    } else {
        ((p + s - 1) / s) * s
    }
}

/// `x` brought into the range of `i64`.
pub open spec fn clamp_units(x: int) -> i64 {
    if x < i64::MIN {
        i64::MIN
    } else if x > i64::MAX {
        i64::MAX
    } else {
        x as i64
    }
}

/// `nearest_multiple(p, s)` is a multiple of `s` at most half a step away
/// from `p`, and exactly half a step away only from below.
pub proof fn lemma_nearest_multiple(p: int, s: int)
    requires
        s > 1,
    ensures
        nearest_multiple(p, s) % s == 0,
        2 * nearest_multiple(p, s) - s <= 2 * p < 2 * nearest_multiple(p, s) + s,
{
    let x = p + s / 2;
    lemma_fundamental_div_mod(x, s);
    lemma_mod_bound(x, s);
    lemma_fundamental_div_mod(s, 2);
    lemma_mod_multiples_basic(x / s, s);
    assert(s * (x / s) == (x / s) * s) by (nonlinear_arith);
}

/// `floor_multiple(p, s)` is a multiple of `s` less than one step below `p`.
pub proof fn lemma_floor_multiple(p: int, s: int)
    requires
        s > 1,
    ensures
        floor_multiple(p, s) % s == 0,
        floor_multiple(p, s) <= p < floor_multiple(p, s) + s,
{
    lemma_fundamental_div_mod(p, s);
    lemma_mod_bound(p, s);
    lemma_mod_multiples_basic(p / s, s);
    assert(s * (p / s) == (p / s) * s) by (nonlinear_arith);
}

/// `ceil_multiple(p, s)` is a multiple of `s` less than one step above `p`.
pub proof fn lemma_ceil_multiple(p: int, s: int)
    requires
        s > 1,
    ensures
        ceil_multiple(p, s) % s == 0,
        ceil_multiple(p, s) - s < p <= ceil_multiple(p, s),
{
    let x = p + s - 1;
    lemma_fundamental_div_mod(x, s);
    lemma_mod_bound(x, s);
    lemma_mod_multiples_basic(x / s, s);
    assert(s * (x / s) == (x / s) * s) by (nonlinear_arith);
}

/// The greatest multiple of `unit` not above `x`, for `unit > 1`.
fn floor_to_unit(x: i128, unit: i64) -> (r: i128)
    requires
        unit > 1,
        -0x1_0000_0000_0000_0000 <= x <= 0x1_0000_0000_0000_0000,
    ensures
        r == ((x as int) / (unit as int)) * (unit as int),
        x - unit < r <= x,
{
    let wide: i128 = unit as i128;
    proof {
        lemma_fundamental_div_mod(x as int, wide as int);
        lemma_mod_bound(x as int, wide as int);
        let q = x as int / wide as int;
        assert(wide * q == q * wide) by (nonlinear_arith);
        assert(-0x1_0000_0000_0000_0000 <= q <= 0x1_0000_0000_0000_0000) by (nonlinear_arith)
            requires
                wide >= 2,
                -0x1_0000_0000_0000_0000 <= x <= 0x1_0000_0000_0000_0000,
                x - wide < q * wide <= x,
        ;
    }
    let q: i128 = match x.checked_div_euclid(wide) {
        Some(q) => q,
        None => 0,
    };
    q * wide
}

/// `x` as an `i64`, or the end of the range that it lies beyond.
fn clamp_to_units(x: i128) -> (r: i64)
    ensures
        r == clamp_units(x as int),
{
    if x < i64::MIN as i128 {
        i64::MIN
    } else if x > i64::MAX as i128 {
        i64::MAX
    } else {
        x as i64
    }
}

impl Price {
    /// The price of zero units.
    pub fn zero() -> (p: Price)
        ensures
            p.units == 0,
    {
        Price { units: 0 }
    }

    /// What `round_to_step` returns.
    pub open spec fn rounded(self, step: PriceStep) -> Price {
        Price { units: clamp_units(nearest_multiple(self.units as int, step.units as int)) }
    }

    /// What `round_to_side_step` returns.
    pub open spec fn side_rounded(self, is_sell_or_bid: bool, step: PriceStep) -> Price {
        if is_sell_or_bid {
            Price { units: clamp_units(floor_multiple(self.units as int, step.units as int)) }
        } else {
            Price { units: clamp_units(ceil_multiple(self.units as int, step.units as int)) }
        }
    }

    /// Rounds to the nearest multiple of the step, halves upward.
    pub fn round_to_step(self, step: PriceStep) -> (r: Price)
        ensures
            r == self.rounded(step),
    {
        let unit = step.units;
        if unit <= 1 {
            return self;
        }
        let shifted: i128 = self.units as i128 + (unit / 2) as i128;
        Price { units: clamp_to_units(floor_to_unit(shifted, unit)) }
    }

    /// Rounds down to a multiple of the step for a sell or a bid, up for a
    /// buy or an ask.
    pub fn round_to_side_step(self, is_sell_or_bid: bool, step: PriceStep) -> (r: Price)
        ensures
            r == self.side_rounded(is_sell_or_bid, step),
    {
        let unit = step.units;
        if unit <= 1 {
            return self;
        }
        if is_sell_or_bid {
            Price { units: clamp_to_units(floor_to_unit(self.units as i128, unit)) }
        } else {
            let shifted: i128 = self.units as i128 + (unit - 1) as i128;
            Price { units: clamp_to_units(floor_to_unit(shifted, unit)) }
        }
    }
}

} // verus!
