//! Exact rational frame rates.
//!
//! A source's frames-per-second rate is kept as an exact fraction
//! `num / den` so that the timeline arithmetic (maximum rate, output
//! frame count, per-source frame selection) is deterministic and free
//! of rounding drift.

use vstd::prelude::*;

verus! {

/// A frames-per-second rate as the exact fraction `num / den`.
#[derive(Clone, Copy, Debug)]
pub struct Rate {
    pub num: u32,
    pub den: u32,
}

impl Rate {
    /// A rate is valid when it is strictly positive: both the numerator
    /// and the denominator are at least one.
    pub open spec fn valid(self) -> bool {
        self.num >= 1 && self.den >= 1
    }

    /// `self <= other`, by cross multiplication of the two fractions.
    pub open spec fn spec_le(self, other: Rate) -> bool {
        self.num * other.den <= other.num * self.den
    }

    /// The two fractions denote the same rate.
    pub open spec fn spec_eq_value(self, other: Rate) -> bool {
        self.num * other.den == other.num * self.den
    }

    /// Compare two rates exactly.
    pub fn le(&self, other: &Rate) -> (r: bool)
        ensures
            r == self.spec_le(*other),
    {
        proof {
            lemma_u32_mul_fits_u64(self.num, other.den);
            lemma_u32_mul_fits_u64(other.num, self.den);
        }
        (self.num as u64) * (other.den as u64) <= (other.num as u64) * (self.den as u64)
    }

    /// Construct a rate from an integer number of frames per second.
    pub fn from_integer(fps: u32) -> (r: Rate)
        requires
            fps >= 1,
        ensures
            r.valid(),
            r.num == fps,
            r.den == 1,
    {
        Rate { num: fps, den: 1 }
    }
}

/// The product of two `u32` values fits in a `u64`.
pub proof fn lemma_u32_mul_fits_u64(a: u32, b: u32)
    ensures
        a * b <= 0xffff_ffff * 0xffff_ffff < u64::MAX,
{
    vstd::arithmetic::mul::lemma_mul_upper_bound(a as int, 0xffff_ffff, b as int, 0xffff_ffff);
}

} // verus!
