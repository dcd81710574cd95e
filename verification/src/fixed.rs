//! Fixed-point conventions and the arithmetic shared by all stages.

use vstd::prelude::*;
use vstd::arithmetic::div_mod::lemma_fundamental_div_mod_converse;

verus! {

/// The integer that stands for the real number one.
pub const UNIT: u64 = 1_000_000;

/// Dividing `q * d + r` by `d` gives back `q` when `0 <= r < d`.
pub proof fn lemma_quotient(x: int, d: int, q: int, r: int)
    requires
        d > 0,
        0 <= r < d,
        x == q * d + r,
    ensures
        x / d == q,
        x % d == r,
{
    lemma_fundamental_div_mod_converse(x, d, q, r);
}

/// A multiple of `d` added to the numerator moves the quotient by that many.
pub proof fn lemma_shift_quotient(a: int, x: int, d: int)
    requires
        d > 0,
    ensures
        (a * d + x) / d == a + x / d,
        (a * d + x) % d == x % d,
{
    let q = x / d;
    let r = x % d;
    assert(x == q * d + r && 0 <= r < d) by (nonlinear_arith)
        requires
            d > 0,
            q == x / d,
            r == x % d,
    ;
    assert(a * d + x == (a + q) * d + r) by (nonlinear_arith)
        requires
            x == q * d + r,
    ;
    lemma_quotient(a * d + x, d, a + q, r);
}

/// Division by a positive number keeps the order of the numerators.
pub proof fn lemma_quotient_monotonic(x: int, y: int, d: int)
    requires
        d > 0,
        x <= y,
    ensures
        x / d <= y / d,
{
    assert(x / d <= y / d) by (nonlinear_arith)
        requires
            d > 0,
            x <= y,
    ;
}

/// A sequence of machine integers read as mathematical integers.
pub open spec fn ints(s: Seq<u64>) -> Seq<int> {
    Seq::new(s.len(), |i: int| s[i] as int)
}

/// The larger of two integers.
pub open spec fn max_int(a: int, b: int) -> int {
    if a >= b {
        a
    } else {
        b
    }
}

/// The smaller of two integers.
pub open spec fn min_int(a: int, b: int) -> int {
    if a <= b {
        a
    } else {
        b
    }
}

/// The weighted mean `prev * (1 - weight) + next * weight`, with `weight`
/// counted in millionths and the result rounded down.
pub open spec fn blend(prev: int, next: int, weight: int) -> int {
    (prev * (UNIT as int - weight) + next * weight) / (UNIT as int)
}

/// `value * num / den` rounded down and cut to 64 bits; zero when `den` is
/// zero, so that a missing reference scale draws nothing.
pub open spec fn scale_value(value: int, num: int, den: int) -> int {
    if den <= 0 {
        0
    } else {
        min_int((value * num) / den, u64::MAX as int)
    }
}

/// A weighted mean of two values lies between them.
pub proof fn lemma_blend_between(prev: int, next: int, weight: int)
    requires
        0 <= weight <= UNIT,
    ensures
        min_int(prev, next) <= blend(prev, next, weight) <= max_int(prev, next),
{
    let u = UNIT as int;
    let lo = min_int(prev, next);
    let hi = max_int(prev, next);
    let total = prev * (u - weight) + next * weight;
    assert(lo * u <= total <= hi * u) by (nonlinear_arith)
        requires
            0 <= weight <= u,
            lo <= prev <= hi,
            lo <= next <= hi,
            total == prev * (u - weight) + next * weight,
    ;
    lemma_quotient(lo * u + 0, u, lo, 0);
    lemma_quotient(hi * u + 0, u, hi, 0);
    lemma_quotient_monotonic(lo * u, total, u);
    lemma_quotient_monotonic(total, hi * u, u);
}

/// Blending a value with itself changes nothing, whatever the weight.
pub proof fn lemma_blend_constant(value: int, weight: int)
    ensures
        blend(value, value, weight) == value,
{
    let u = UNIT as int;
    assert(value * (u - weight) + value * weight == value * u + 0) by (nonlinear_arith);
    lemma_quotient(value * (u - weight) + value * weight, u, value, 0);
}

/// Computes [`blend`] on machine integers.
pub fn blend_value(prev: u64, next: u64, weight: u64) -> (r: u64)
    requires
        weight <= UNIT,
    ensures
        r as int == blend(prev as int, next as int, weight as int),
{
    let keep: u128 = (UNIT - weight) as u128;
    let take: u128 = weight as u128;
    assert(prev as int * keep as int <= 0xffff_ffff_ffff_ffff * 1_000_000) by (nonlinear_arith)
        requires
            0 <= prev as int <= 0xffff_ffff_ffff_ffff,
            0 <= keep as int <= 1_000_000,
    ;
    assert(next as int * take as int <= 0xffff_ffff_ffff_ffff * 1_000_000) by (nonlinear_arith)
        requires
            0 <= next as int <= 0xffff_ffff_ffff_ffff,
            0 <= take as int <= 1_000_000,
    ;
    let total: u128 = prev as u128 * keep + next as u128 * take;
    let mean: u128 = total / (UNIT as u128);
    proof {
        lemma_blend_between(prev as int, next as int, weight as int);
    }
    mean as u64
}

/// Computes [`scale_value`] on machine integers.
pub fn scale_by(value: u64, num: u64, den: u64) -> (r: u64)
    ensures
        r as int == scale_value(value as int, num as int, den as int),
{
    if den == 0 {
        return 0;
    }
    assert(value as int * num as int <= 0xffff_ffff_ffff_ffff * 0xffff_ffff_ffff_ffff) by (nonlinear_arith)
        requires
            0 <= value as int <= 0xffff_ffff_ffff_ffff,
            0 <= num as int <= 0xffff_ffff_ffff_ffff,
    ;
    let scaled: u128 = (value as u128 * num as u128) / (den as u128);
    if scaled > u64::MAX as u128 {
        u64::MAX
    } else {
        scaled as u64
    }
}

} // verus!
