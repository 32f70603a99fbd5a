//! Whole-number division and clamping, as the fixed-point rules use them.

use vstd::arithmetic::div_mod::{
    lemma_div_is_ordered, lemma_fundamental_div_mod, lemma_fundamental_div_mod_converse,
};
use vstd::prelude::*;

verus! {

/// `n` where a vector's component can hold it, else the nearest value that
/// a component can hold.
pub open spec fn clamp32(n: int) -> i32 {
    if n < i32::MIN {
        i32::MIN
    } else if n > i32::MAX {
        i32::MAX
    } else {
        n as i32
    }
}

/// Computes `clamp32`.
pub fn clamp_to_i32(n: i128) -> (r: i32)
    ensures
        r == clamp32(n as int),
{
    if n < i32::MIN as i128 {
        i32::MIN
    } else if n > i32::MAX as i128 {
        i32::MAX
    } else {
        n as i32
    }
}

/// The quotient of `num` by `den`, rounded down.
pub fn floor_div(num: i128, den: i128) -> (q: i128)
    requires
        den > 0,
        num > i128::MIN,
    ensures
        q == num as int / den as int,
{
    if num >= 0 {
        let q: u128 = (num as u128) / (den as u128);
        proof {
            lemma_div_is_ordered(0, num as int, den as int);
            lemma_fundamental_div_mod(num as int, den as int);
            assert(den * (num as int / den as int) >= num as int / den as int) by (nonlinear_arith)
                requires
                    den >= 1,
                    num as int / den as int >= 0,
            ;
        }
        q as i128
    } else {
        let m: u128 = (-num) as u128;
        let q: u128 = m / (den as u128);
        let rest: u128 = m % (den as u128);
        proof {
            lemma_fundamental_div_mod(m as int, den as int);
            lemma_div_is_ordered(0, m as int, den as int);
            assert(den * q >= q) by (nonlinear_arith)
                requires
                    den >= 1,
                    q >= 0,
            ;
            if rest == 0 {
                assert(num == (-(q as int)) * den + 0) by (nonlinear_arith)
                    requires
                        num == -(m as int),
                        m == den * q + 0,
                ;
                lemma_fundamental_div_mod_converse(num as int, den as int, -(q as int), 0);
            } else {
                assert(num == (-(q as int) - 1) * den + (den - rest)) by (nonlinear_arith)
                    requires
                        num == -(m as int),
                        m == den * q + rest,
                ;
                lemma_fundamental_div_mod_converse(
                    num as int,
                    den as int,
                    -(q as int) - 1,
                    den - rest,
                );
            }
        }
        if rest == 0 {
            -(q as i128)
        } else {
            -(q as i128) - 1
        }
    }
}

} // verus!
