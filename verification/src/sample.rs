use vstd::prelude::*;

use crate::confidence::{spec_z_score_x100, Confidence};
use vstd::arithmetic::div_mod::{
    lemma_div_by_self, lemma_div_is_ordered, lemma_div_pos_is_pos, lemma_fundamental_div_mod,
    lemma_fundamental_div_mod_converse_div, lemma_mod_bound,
};
use vstd::arithmetic::mul::{lemma_mul_inequality, lemma_mul_is_commutative};

verus! {

/// Integer division rounded up instead of down.
pub open spec fn ceil_div(n: int, d: int) -> int
    recommends
        0 <= n,
        1 <= d,
{
    (n + d - 1) / d
}

/// Cochran's `n0 = 0.25 * (z / moe)^2`, multiplied by the square of the
/// margin of error in per-mille so that it is an exact integer: with
/// `z = z100 / 100` and `moe = m / 1000`, `n0` equals `25 * z100^2 / m^2`.
pub open spec fn spec_n0_scaled(c: Confidence) -> int {
    25 * spec_z_score_x100(c) * spec_z_score_x100(c)
}

/// The minimum number of blocks to sample from a population of `pop`
/// blocks for a margin of error of `m` per-mille at confidence level `c`:
/// Cochran's `ceil(pop * n0 / (n0 + pop - 1))` for a finite population,
/// with numerator and denominator both scaled by `m^2` to stay integral.
/// An empty population yields zero (there is nothing to sample from).
pub open spec fn spec_sample_size(pop: int, m: int, c: Confidence) -> int
    recommends
        0 <= pop,
        1 <= m < 1000,
{
    if pop <= 0 {
        0
    } else {
        let a = spec_n0_scaled(c);
        ceil_div(pop * a, a + (pop - 1) * m * m)
    }
}

/// Rounding up gives at least the true quotient: `d * ceil_div(n, d) >= n`.
proof fn lemma_ceil_div_bounds(n: int, d: int)
    requires
        0 <= n,
        1 <= d,
    ensures
        0 <= ceil_div(n, d),
        d * ceil_div(n, d) >= n,
        1 <= n ==> 1 <= ceil_div(n, d),
{
    let x = n + d - 1;
    lemma_fundamental_div_mod(x, d);
    lemma_mod_bound(x, d);
    lemma_div_pos_is_pos(x, d);
    if 1 <= n {
        lemma_div_is_ordered(d, x, d);
        lemma_div_by_self(d);
    }
}

/// Rounding up never overshoots a known multiple: if `n <= k * d` then
/// `ceil_div(n, d) <= k`.
proof fn lemma_ceil_div_le(n: int, d: int, k: int)
    requires
        0 <= n,
        1 <= d,
        0 <= k,
        n <= k * d,
    ensures
        ceil_div(n, d) <= k,
{
    lemma_div_is_ordered(n + d - 1, k * d + d - 1, d);
    lemma_fundamental_div_mod_converse_div(k * d + d - 1, d, k, d - 1);
}

/// A larger divisor never gives a larger rounded-up quotient.
proof fn lemma_ceil_div_antitone(n: int, d1: int, d2: int)
    requires
        0 <= n,
        1 <= d1 <= d2,
    ensures
        ceil_div(n, d2) <= ceil_div(n, d1),
{
    let q = ceil_div(n, d1);
    lemma_ceil_div_bounds(n, d1);
    lemma_mul_inequality(d1, d2, q);
    lemma_mul_is_commutative(d1, q);
    lemma_mul_is_commutative(d2, q);
    lemma_ceil_div_le(n, d2, q);
}

/// The scaled `n0` numerator is at least one and at most `25 * 258^2`.
proof fn lemma_n0_scaled_bounds(c: Confidence)
    ensures
        409600 <= spec_n0_scaled(c) <= 1664100,
{
}

/// The sample size never exceeds the population, and a nonempty population
/// always yields at least one sample.
pub proof fn lemma_sample_size_bounds(pop: int, m: int, c: Confidence)
    requires
        0 <= pop,
        1 <= m < 1000,
    ensures
        0 <= spec_sample_size(pop, m, c) <= pop,
        1 <= pop ==> 1 <= spec_sample_size(pop, m, c),
{
    if pop >= 1 {
        let a = spec_n0_scaled(c);
        lemma_n0_scaled_bounds(c);
        let d = a + (pop - 1) * m * m;
        assert(m * m >= 1 && (pop - 1) * (m * m) >= 0) by (nonlinear_arith)
            requires
                1 <= m,
                1 <= pop,
        ;
        assert((pop - 1) * m * m == (pop - 1) * (m * m)) by (nonlinear_arith);
        lemma_mul_inequality(1, pop, a);
        lemma_mul_is_commutative(pop, a);
        lemma_ceil_div_bounds(pop * a, d);
        lemma_mul_inequality(a, d, pop);
        lemma_mul_is_commutative(a, pop);
        lemma_mul_is_commutative(d, pop);
        lemma_ceil_div_le(pop * a, d, pop);
    }
}

/// Widening the margin of error never increases the sample size: for a
/// fixed population and confidence level, a margin `m2` at least as large
/// as `m1` asks for at most as many samples.
pub proof fn lemma_sample_size_margin_antitone(pop: int, m1: int, m2: int, c: Confidence)
    requires
        0 <= pop,
        1 <= m1 <= m2 < 1000,
    ensures
        spec_sample_size(pop, m2, c) <= spec_sample_size(pop, m1, c),
{
    if pop >= 1 {
        let a = spec_n0_scaled(c);
        lemma_n0_scaled_bounds(c);
        let d1 = a + (pop - 1) * m1 * m1;
        let d2 = a + (pop - 1) * m2 * m2;
        assert(d1 <= d2 && 0 <= (pop - 1) * m1 * m1) by (nonlinear_arith)
            requires
                1 <= m1 <= m2,
                1 <= pop,
                d1 == a + (pop - 1) * m1 * m1,
                d2 == a + (pop - 1) * m2 * m2,
        ;
        lemma_mul_inequality(1, pop, a);
        lemma_mul_is_commutative(pop, a);
        lemma_ceil_div_antitone(pop * a, d1, d2);
    }
}

/// Raising the confidence level never decreases the sample size: for a
/// fixed population and margin, a confidence level with a z-score at least
/// as large asks for at least as many samples.
pub proof fn lemma_sample_size_confidence_monotone(pop: int, m: int, c1: Confidence, c2: Confidence)
    requires
        0 <= pop,
        1 <= m < 1000,
        spec_z_score_x100(c1) <= spec_z_score_x100(c2),
    ensures
        spec_sample_size(pop, m, c1) <= spec_sample_size(pop, m, c2),
{
    if pop >= 1 {
        let a1 = spec_n0_scaled(c1);
        let a2 = spec_n0_scaled(c2);
        lemma_n0_scaled_bounds(c1);
        lemma_n0_scaled_bounds(c2);
        assert(a1 <= a2) by (nonlinear_arith)
            requires
                0 <= spec_z_score_x100(c1) <= spec_z_score_x100(c2),
                a1 == 25 * spec_z_score_x100(c1) * spec_z_score_x100(c1),
                a2 == 25 * spec_z_score_x100(c2) * spec_z_score_x100(c2),
        ;
        let cc = (pop - 1) * m * m;
        assert(0 <= cc) by (nonlinear_arith)
            requires
                1 <= m,
                1 <= pop,
                cc == (pop - 1) * m * m,
        ;
        let d1 = a1 + cc;
        let d2 = a2 + cc;
        lemma_sample_size_bounds(pop, m, c2);
        let q2 = spec_sample_size(pop, m, c2);
        lemma_mul_inequality(1, pop, a2);
        lemma_mul_is_commutative(pop, a2);
        lemma_ceil_div_bounds(pop * a2, d2);
        assert(pop * a1 <= q2 * d1) by (nonlinear_arith)
            requires
                0 <= a1 <= a2,
                0 <= cc,
                0 <= q2 <= pop,
                1 <= pop,
                d1 == a1 + cc,
                d2 == a2 + cc,
                d2 * q2 >= pop * a2,
        ;
        lemma_mul_inequality(1, pop, a1);
        lemma_mul_is_commutative(pop, a1);
        lemma_ceil_div_le(pop * a1, d1, q2);
    }
}

/// The minimum number of blocks to sample from a population of `pop`
/// blocks, for a margin of error of `margin_per_mille` thousandths at
/// the given confidence level.
pub fn sample_size(pop: u64, margin_per_mille: u64, confidence: Confidence) -> (n: u64)
    requires
        1 <= margin_per_mille < 1000,
    ensures
        n == spec_sample_size(pop as int, margin_per_mille as int, confidence),
        n <= pop,
        1 <= pop ==> 1 <= n,
{
    if pop == 0 {
        return 0;
    }
    let z = confidence.z_score_x100();
    assert((25 * z) * z <= 1664100) by (nonlinear_arith)
        requires
            z <= 258,
    ;
    let a: u64 = 25 * z * z;
    assert(margin_per_mille * margin_per_mille <= 998001) by (nonlinear_arith)
        requires
            margin_per_mille <= 999,
    ;
    let b: u64 = margin_per_mille * margin_per_mille;
    assert((pop as u128) * (a as u128) <= 0xffffffffffffffffu128 * 1664100) by (nonlinear_arith)
        requires
            pop <= 0xffffffffffffffffu128,
            a <= 1664100,
    ;
    let num: u128 = (pop as u128) * (a as u128);
    assert(((pop - 1) as u128) * (b as u128) <= 0xffffffffffffffffu128 * 998001)
        by (nonlinear_arith)
        requires
            ((pop - 1) as u128) <= 0xffffffffffffffffu128,
            b <= 998001,
    ;
    let den: u128 = (a as u128) + ((pop - 1) as u128) * (b as u128);
    let n128: u128 = (num + den - 1) / den;
    proof {
        assert((pop - 1) as int * (b as int) == (pop - 1) as int * (margin_per_mille as int)
            * (margin_per_mille as int)) by (nonlinear_arith)
            requires
                b == (margin_per_mille as int) * (margin_per_mille as int),
        ;
        lemma_sample_size_bounds(pop as int, margin_per_mille as int, confidence);
    }
    n128 as u64
}

} // verus!
