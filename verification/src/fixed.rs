//! Q32.32 fixed-point numbers and extended objective values.
//!
//! A quantity `x` is represented by the `i64` whose mathematical value is
//! `x / SCALE` with `SCALE = 2^32`. Sums and differences are ordinary `i64`
//! arithmetic; products go through [`fmul`], which divides the wide product
//! by `SCALE`, rounding toward zero.

use vstd::prelude::*;

verus! {

use vstd::arithmetic::div_mod::lemma_fundamental_div_mod;
use vstd::arithmetic::mul::lemma_mul_inequality;
use vstd::arithmetic::mul::lemma_mul_nonnegative;

/// One, in Q32.32: the fixed-point scale factor 2^32.
pub const SCALE: i64 = 0x1_0000_0000;

/// Largest magnitude admitted for bankrolls, positions and stakes
/// (2^51, i.e. 2^19 whole units).
pub const MONEY_MAX: i64 = 0x8_0000_0000_0000;

/// Largest magnitude admitted for prices (2^42, i.e. 1024 whole units).
pub const PRICE_MAX: i64 = 0x400_0000_0000;

/// Largest magnitude admitted for Kelly fractions (2^43, i.e. 2048).
pub const FRACTION_MAX: i64 = 0x800_0000_0000;

/// Largest magnitude a fixed-point product is allowed to reach (2^62).
pub const PRODUCT_MAX: i64 = 0x4000_0000_0000_0000;

/// The value of a fixed-point product: the exact integer product scaled
/// back down by `SCALE`, rounded toward zero.
pub open spec fn spec_fmul(a: int, b: int) -> int {
    if a * b >= 0 {
        (a * b) / (SCALE as int)
    } else {
        -((-(a * b)) / (SCALE as int))
    }
}

/// An objective value: either a finite Q32.32 number or negative infinity,
/// the sentinel for certain ruin. Negative infinity compares below every
/// finite value.
#[derive(Clone, Copy, Debug, PartialEq, Eq, Structural)]
pub enum ExtVal {
    NegInf,
    Fin(i64),
}

/// Strict order on extended values: negative infinity is below everything,
/// including itself.
pub open spec fn spec_ext_gt(a: ExtVal, b: ExtVal) -> bool {
    match a {
        ExtVal::NegInf => false,
        ExtVal::Fin(x) => match b {
            ExtVal::NegInf => true,
            ExtVal::Fin(y) => x > y,
        },
    }
}

/// Decides whether `a` is strictly better (greater) than `b`.
pub fn ext_gt(a: ExtVal, b: ExtVal) -> (r: bool)
    ensures
        r == spec_ext_gt(a, b),
{
    match a {
        ExtVal::NegInf => false,
        ExtVal::Fin(x) => match b {
            ExtVal::NegInf => true,
            ExtVal::Fin(y) => x > y,
        },
    }
}

/// Fixed-point multiplication: `a * b / SCALE`, rounded toward zero.
pub fn fmul(a: i64, b: i64) -> (r: i64)
    requires
        -(PRODUCT_MAX as int) <= spec_fmul(a as int, b as int) <= PRODUCT_MAX as int,
    ensures
        r as int == spec_fmul(a as int, b as int),
{
    let p: i128 = (a as i128) * (b as i128);
    if p >= 0 {
        let q: u128 = (p as u128) / (SCALE as u128);
        proof {
            assert(q == spec_fmul(a as int, b as int));
        }
        q as i64
    } else {
        let q: u128 = ((-p) as u128) / (SCALE as u128);
        proof {
            assert(-(q as int) == spec_fmul(a as int, b as int));
        }
        -(q as i64)
    }
}

/// Scaling by a factor in `[0, 1]` keeps a nonnegative value within itself:
/// `0 <= fmul(c, w) <= w` whenever `0 <= c <= SCALE` and `w >= 0`.
pub proof fn lemma_fmul_frac_bounds(c: int, w: int)
    requires
        0 <= c <= SCALE as int,
        0 <= w,
    ensures
        0 <= spec_fmul(c, w) <= w,
{
    lemma_mul_nonnegative(c, w);
    lemma_mul_inequality(c, SCALE as int, w);
    lemma_fundamental_div_mod(c * w, SCALE as int);
}

/// Multiplying by one is the identity: `fmul(x, SCALE) == x`.
pub proof fn lemma_fmul_unit(x: int)
    ensures
        spec_fmul(x, SCALE as int) == x,
{
    if x >= 0 {
        lemma_mul_nonnegative(x, SCALE as int);
        lemma_fundamental_div_mod(x * (SCALE as int), SCALE as int);
    } else {
        lemma_mul_nonnegative(-x, SCALE as int);
        lemma_fundamental_div_mod((-x) * (SCALE as int), SCALE as int);
    }
}

/// A probability-weighted term is no larger in magnitude than the term
/// itself: `|fmul(a, b)| <= |b|` whenever `0 <= a <= SCALE`.
pub proof fn lemma_fmul_abs_le(a: int, b: int)
    requires
        0 <= a <= SCALE as int,
    ensures
        b >= 0 ==> 0 <= spec_fmul(a, b) <= b,
        b < 0 ==> b <= spec_fmul(a, b) <= 0,
{
    if b >= 0 {
        lemma_fmul_frac_bounds(a, b);
    } else {
        lemma_mul_nonnegative(a, -b);
        lemma_mul_inequality(a, SCALE as int, -b);
        lemma_fundamental_div_mod(a * (-b), SCALE as int);
        assert(a * b == -(a * (-b))) by (nonlinear_arith);
    }
}

/// A stake scaled by `price - 1` stays well below `PRODUCT_MAX`:
/// `|fmul(a, b)| <= 2^61 + 2^51` for `|a| <= MONEY_MAX` and
/// `|b| <= PRICE_MAX + SCALE`.
pub proof fn lemma_fmul_scaled_stake_range(a: int, b: int)
    requires
        -(MONEY_MAX as int) <= a <= MONEY_MAX as int,
        -((PRICE_MAX + SCALE) as int) <= b <= (PRICE_MAX + SCALE) as int,
    ensures
        -0x2008_0000_0000_0000 <= spec_fmul(a, b) <= 0x2008_0000_0000_0000,
{
    assert(-0x2008_0000_0000_0000 * (SCALE as int) <= a * b <= 0x2008_0000_0000_0000 * (
    SCALE as int)) by (nonlinear_arith)
        requires
            -(MONEY_MAX as int) <= a <= MONEY_MAX as int,
            -((PRICE_MAX + SCALE) as int) <= b <= (PRICE_MAX + SCALE) as int,
    ;
    if a * b >= 0 {
        lemma_fundamental_div_mod(a * b, SCALE as int);
        assert((a * b) % (SCALE as int) >= 0);
        assert((SCALE as int) * ((a * b) / (SCALE as int)) <= 0x2008_0000_0000_0000 * (
        SCALE as int));
        assert((a * b) / (SCALE as int) <= 0x2008_0000_0000_0000);
        assert((a * b) / (SCALE as int) >= 0);
    } else {
        lemma_fundamental_div_mod(-(a * b), SCALE as int);
        assert((-(a * b)) % (SCALE as int) >= 0);
        assert((SCALE as int) * ((-(a * b)) / (SCALE as int)) <= 0x2008_0000_0000_0000 * (
        SCALE as int));
        assert((-(a * b)) / (SCALE as int) <= 0x2008_0000_0000_0000);
        assert((-(a * b)) / (SCALE as int) >= 0);
    }
}

/// Money-by-fraction products stay within the representable range:
/// `|fmul(a, b)| <= PRODUCT_MAX` for `|a| <= MONEY_MAX`, `|b| <= FRACTION_MAX`.
pub proof fn lemma_fmul_money_range(a: int, b: int)
    requires
        -(MONEY_MAX as int) <= a <= MONEY_MAX as int,
        -(FRACTION_MAX as int) <= b <= FRACTION_MAX as int,
    ensures
        -(PRODUCT_MAX as int) <= spec_fmul(a, b) <= PRODUCT_MAX as int,
{
    assert(-(MONEY_MAX as int) * (FRACTION_MAX as int) <= a * b <= (MONEY_MAX as int) * (
    FRACTION_MAX as int)) by (nonlinear_arith)
        requires
            -(MONEY_MAX as int) <= a <= MONEY_MAX as int,
            -(FRACTION_MAX as int) <= b <= FRACTION_MAX as int,
    ;
    if a * b >= 0 {
        lemma_fundamental_div_mod(a * b, SCALE as int);
    } else {
        lemma_fundamental_div_mod(-(a * b), SCALE as int);
    }
}

} // verus!
