//! Exact rational elevation results.
//!
//! A bilinear sample is a convex combination of up to four grid samples
//! and is carried exactly as a fraction `num / den` in model units, so no
//! rounding policy is imposed on callers.

use vstd::prelude::*;

verus! {

use crate::raster::VALUE_LIMIT;

/// Largest denominator an interpolated height may carry: the product of
/// the two pixel-size magnitudes, each at most `GEO_LIMIT`.
pub const DEN_LIMIT: i128 = 1_000_000_000_000_000_000_000_000;

/// An exact rational elevation `num / den` in model units.
#[derive(Clone, Copy, Debug, PartialEq, Eq, Structural)]
pub struct Height {
    pub num: i128,
    pub den: i128,
}

impl Height {
    /// Positive bounded denominator, and a value within `VALUE_LIMIT`
    /// (every height is a convex combination of in-range samples).
    pub open spec fn wf(self) -> bool {
        &&& 0 < self.den <= DEN_LIMIT
        &&& -(VALUE_LIMIT as int) * self.den <= self.num <= (VALUE_LIMIT as int) * self.den
    }

    /// True exactly when the rational equals the whole number `v`.
    pub fn is_exactly(&self, v: i64) -> (r: bool)
        requires
            self.wf(),
            -VALUE_LIMIT <= v <= VALUE_LIMIT,
        ensures
            r == (self.num == v * self.den),
    {
        proof {
            lemma_scaled_value_in_range(v as int, self.den as int);
        }
        self.num == (v as i128) * self.den
    }

    /// True exactly when the rational is at most the whole number `v`.
    pub fn at_most(&self, v: i64) -> (r: bool)
        requires
            self.wf(),
            -VALUE_LIMIT <= v <= VALUE_LIMIT,
        ensures
            r == (self.num <= v * self.den),
    {
        proof {
            lemma_scaled_value_in_range(v as int, self.den as int);
        }
        self.num <= (v as i128) * self.den
    }

    /// True exactly when the rational is at least the whole number `v`.
    pub fn at_least(&self, v: i64) -> (r: bool)
        requires
            self.wf(),
            -VALUE_LIMIT <= v <= VALUE_LIMIT,
        ensures
            r == (self.num >= v * self.den),
    {
        proof {
            lemma_scaled_value_in_range(v as int, self.den as int);
        }
        self.num >= (v as i128) * self.den
    }
}

/// A whole number within `VALUE_LIMIT`, scaled by a bounded positive
/// denominator, stays within machine range.
proof fn lemma_scaled_value_in_range(v: int, den: int)
    by (nonlinear_arith)
    requires
        -VALUE_LIMIT <= v <= VALUE_LIMIT,
        0 < den <= DEN_LIMIT,
    ensures
        -(VALUE_LIMIT as int) * (DEN_LIMIT as int) <= v * den <= (VALUE_LIMIT as int) * (
        DEN_LIMIT as int),
{
}

} // verus!
