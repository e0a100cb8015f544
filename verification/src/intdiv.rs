//! Exact integer division helpers for the coordinate-to-pixel transform.
//!
//! The sampler divides signed numerators by positive denominators and needs
//! two rounding policies: floor (for locating the interpolation cell) and
//! truncation toward zero (for the fast nearest-pixel path).

use vstd::prelude::*;

verus! {

use vstd::arithmetic::div_mod::lemma_fundamental_div_mod;
use vstd::arithmetic::div_mod::lemma_fundamental_div_mod_converse_div;

/// The exact quotient `n / d` rounded toward zero, for `d > 0`.
///
/// Spec-level `/` is Euclidean (floor for positive divisors), so truncation
/// of a negative quotient is written as the negated floor of `-n / d`.
pub open spec fn trunc_div_spec(n: int, d: int) -> int {
    if n >= 0 {
        n / d
    } else {
        -((-n) / d)
    }
}

/// Floor division of `n` by a positive `d`: the unique `q` with
/// `d * q <= n < d * (q + 1)`.  Coincides with spec-level `/`.
pub fn floor_div(n: i128, d: i128) -> (q: i128)
    requires
        0 < d,
        i128::MIN < n,
    ensures
        q == n as int / d as int,
        0 <= n ==> 0 <= q <= n,
        n < 0 ==> n <= q <= 0,
{
    if n >= 0 {
        let nu: u128 = n as u128;
        let du: u128 = d as u128;
        let qu: u128 = nu / du;
        proof {
            assert(nu as int / du as int <= nu as int) by (nonlinear_arith)
                requires
                    0 <= nu as int,
                    1 <= du as int,
            ;
        }
        qu as i128
    } else {
        let m: u128 = (-n) as u128;
        let du: u128 = d as u128;
        let t: u128 = m / du;
        let r: u128 = m % du;
        proof {
            lemma_fundamental_div_mod(m as int, du as int);
            assert(m as int / du as int <= m as int) by (nonlinear_arith)
                requires
                    0 <= m as int,
                    1 <= du as int,
            ;
        }
        if r == 0 {
            proof {
                assert((-(t as int)) * (d as int) + 0 == -((du as int) * (t as int)))
                    by (nonlinear_arith)
                    requires
                        d == du,
                ;
                lemma_fundamental_div_mod_converse_div(
                    n as int,
                    d as int,
                    -(t as int),
                    0,
                );
            }
            -(t as i128)
        } else {
            proof {
                assert(t as int <= m as int - 1) by (nonlinear_arith)
                    requires
                        0 <= t as int,
                        1 <= du as int,
                        1 <= r as int,
                        m as int == (du as int) * (t as int) + (r as int),
                ;
                assert((-(t as int) - 1) * (d as int) + ((du as int) - (r as int)) == -(
                (du as int) * (t as int) + (r as int))) by (nonlinear_arith)
                    requires
                        d == du,
                ;
                lemma_fundamental_div_mod_converse_div(
                    n as int,
                    d as int,
                    -(t as int) - 1,
                    du as int - r as int,
                );
            }
            -(t as i128) - 1
        }
    }
}

/// Division of `n` by a positive `d` rounded toward zero.
pub fn trunc_div(n: i128, d: i128) -> (q: i128)
    requires
        0 < d,
        i128::MIN < n,
    ensures
        q == trunc_div_spec(n as int, d as int),
        0 <= n ==> 0 <= q <= n,
        n < 0 ==> n <= q <= 0,
{
    if n >= 0 {
        floor_div(n, d)
    } else {
        let m: u128 = (-n) as u128;
        let du: u128 = d as u128;
        let t: u128 = m / du;
        proof {
            assert(m as int / du as int <= m as int) by (nonlinear_arith)
                requires
                    0 <= m as int,
                    1 <= du as int,
            ;
        }
        -(t as i128)
    }
}

} // verus!
