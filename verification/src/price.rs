//! Fixed-point price levels.
//!
//! A price is held as a whole number of ticks, at a fixed precision of
//! `FRACTION_UNITS` ticks per whole currency unit. Numerically equal prices
//! always yield equal keys, and the tick order agrees with comparing the
//! integral part first and the fractional part second.

use vstd::prelude::*;

verus! {

/// Ticks per whole currency unit: two decimal digits of precision.
pub const FRACTION_UNITS: u64 = 100;

/// A price expressed as a whole number of ticks.
#[derive(Clone, Copy, Debug, Hash, PartialEq, Eq, Structural)]
pub struct PriceLevel {
    pub ticks: u64,
}

impl PriceLevel {
    /// The whole-unit part of the price.
    pub open spec fn spec_integral(self) -> u64 {
        self.ticks / FRACTION_UNITS
    }

    /// The sub-unit part of the price, in ticks.
    pub open spec fn spec_fractional(self) -> u64 {
        self.ticks % FRACTION_UNITS
    }

    /// Builds the price `integral + fractional / FRACTION_UNITS`.
    pub fn new(integral: u64, fractional: u64) -> (r: PriceLevel)
        requires
            fractional < FRACTION_UNITS,
            integral * FRACTION_UNITS + fractional <= u64::MAX,
        ensures
            r.ticks == integral * FRACTION_UNITS + fractional,
            r.spec_integral() == integral,
            r.spec_fractional() == fractional,
    {
        let r = PriceLevel { ticks: integral * FRACTION_UNITS + fractional };
        proof {
            vstd::arithmetic::div_mod::lemma_fundamental_div_mod_converse(
                r.ticks as int,
                FRACTION_UNITS as int,
                integral as int,
                fractional as int,
            );
        }
        r
    }

    /// Builds a price directly from a tick count.
    pub fn from_ticks(ticks: u64) -> (r: PriceLevel)
        ensures
            r.ticks == ticks,
    {
        PriceLevel { ticks }
    }

    /// The whole-unit part of the price.
    pub fn integral(&self) -> (r: u64)
        ensures
            r == self.spec_integral(),
    {
        self.ticks / FRACTION_UNITS
    }

    /// The sub-unit part of the price, in ticks.
    pub fn fractional(&self) -> (r: u64)
        ensures
            r == self.spec_fractional(),
    {
        self.ticks % FRACTION_UNITS
    }
}

/// Tick order agrees with comparing the integral part first and the
/// fractional part second: no two distinct keys compare equal, and no two
/// numerically equal prices compare unequal.
pub proof fn lemma_order_matches_parts(a: PriceLevel, b: PriceLevel)
    ensures
        (a.ticks < b.ticks) <==> (a.spec_integral() < b.spec_integral()
            || (a.spec_integral() == b.spec_integral()
                && a.spec_fractional() < b.spec_fractional())),
        (a.ticks == b.ticks) <==> (a.spec_integral() == b.spec_integral()
            && a.spec_fractional() == b.spec_fractional()),
{
    vstd::arithmetic::div_mod::lemma_fundamental_div_mod(a.ticks as int, FRACTION_UNITS as int);
    vstd::arithmetic::div_mod::lemma_fundamental_div_mod(b.ticks as int, FRACTION_UNITS as int);
    assert((a.ticks < b.ticks) <==> (a.spec_integral() < b.spec_integral()
        || (a.spec_integral() == b.spec_integral()
            && a.spec_fractional() < b.spec_fractional()))) by (nonlinear_arith)
        requires
            a.ticks == FRACTION_UNITS * a.spec_integral() + a.spec_fractional(),
            b.ticks == FRACTION_UNITS * b.spec_integral() + b.spec_fractional(),
            a.spec_fractional() < FRACTION_UNITS,
            b.spec_fractional() < FRACTION_UNITS,
    ;
    assert((a.ticks == b.ticks) <==> (a.spec_integral() == b.spec_integral()
        && a.spec_fractional() == b.spec_fractional())) by (nonlinear_arith)
        requires
            a.ticks == FRACTION_UNITS * a.spec_integral() + a.spec_fractional(),
            b.ticks == FRACTION_UNITS * b.spec_integral() + b.spec_fractional(),
            a.spec_fractional() < FRACTION_UNITS,
            b.spec_fractional() < FRACTION_UNITS,
    ;
}

} // verus!
