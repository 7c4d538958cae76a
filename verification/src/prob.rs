//! Fixed-point probability arithmetic.
//!
//! A probability is a `u64` in `[0, SCALE]`, read as the fraction
//! `value / SCALE`. Products are computed in 128-bit intermediate precision
//! and floored back to the scale, so multiplying two probabilities never
//! overflows and never exceeds either factor.

use vstd::prelude::*;
use vstd::arithmetic::div_mod::{
    lemma_div_is_ordered, lemma_div_multiples_vanish, lemma_div_pos_is_pos,
};
use vstd::arithmetic::mul::{lemma_mul_inequality, lemma_mul_is_commutative};

verus! {

/// One unit of probability: a table entry `p` stands for `p / SCALE`.
pub const SCALE: u64 = 1_000_000_000;

/// Fixed-point product: `floor(a * b / SCALE)`.
pub open spec fn pmul_spec(a: int, b: int) -> int {
    (a * b) / (SCALE as int)
}

/// The fixed-point product of probabilities stays within `[0, min(a, b)]`.
pub proof fn lemma_pmul_bounds(a: int, b: int)
    requires
        0 <= a <= SCALE,
        0 <= b <= SCALE,
    ensures
        0 <= pmul_spec(a, b),
        pmul_spec(a, b) <= a,
        pmul_spec(a, b) <= b,
        pmul_spec(a, b) <= SCALE,
{
    let s = SCALE as int;
    assert(0 <= a * b) by (nonlinear_arith)
        requires 0 <= a && 0 <= b;
    lemma_div_is_ordered(0, a * b, s);
    lemma_mul_inequality(b, s, a);
    lemma_mul_is_commutative(a, b);
    lemma_mul_is_commutative(a, s);
    lemma_div_is_ordered(a * b, a * s, s);
    lemma_div_multiples_vanish(a, s);
    lemma_mul_inequality(a, s, b);
    lemma_mul_is_commutative(b, s);
    lemma_div_is_ordered(a * b, b * s, s);
    lemma_div_multiples_vanish(b, s);
}

/// Fixed-point multiplication of two probabilities.
pub fn pmul(a: u64, b: u64) -> (r: u64)
    requires
        a <= SCALE,
        b <= SCALE,
    ensures
        r as int == pmul_spec(a as int, b as int),
        r <= a,
        r <= b,
        r <= SCALE,
{
    proof {
        lemma_pmul_bounds(a as int, b as int);
    }
    let wide: u128 = (a as u128) * (b as u128) / (SCALE as u128);
    wide as u64
}

} // verus!
