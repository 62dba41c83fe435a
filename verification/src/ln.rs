//! Natural logarithm on Q32.32 fixed-point numbers.
//!
//! `ln_fixed(x)` approximates `ln(x / SCALE) * SCALE` for positive `x`. It
//! normalizes `x` to `m * 2^k` with `m` in `[SCALE, 2 * SCALE)`, extracts 32
//! fractional bits of the base-two logarithm of `m` by repeated squaring,
//! and rescales the base-two result by `ln 2`. Every step is integer
//! arithmetic with deterministic rounding, so the result is a pure function
//! of `x`, mirrored exactly by [`spec_ln`].

use vstd::prelude::*;

verus! {

use crate::fixed::PRODUCT_MAX;
use crate::fixed::SCALE;
use vstd::arithmetic::div_mod::lemma_fundamental_div_mod;
use vstd::arithmetic::power2::lemma2_to64;
use vstd::arithmetic::power2::lemma_pow2_pos;
use vstd::arithmetic::power2::lemma_pow2_strictly_increases;
use vstd::arithmetic::power2::lemma_pow2_unfold;
use vstd::arithmetic::power2::pow2;

/// `ln 2` in Q32.32.
pub const LN2_FIXED: i64 = 0xB17217F7;

/// A bound on the magnitude of [`ln_fixed`]'s result: the intermediate
/// base-two logarithm has magnitude at most `32 * SCALE`, and
/// `32 * LN2_FIXED < 2^37`.
pub const LN_ABS_BOUND: i64 = 0x20_0000_0000;

/// Doubles `m` (decrementing the exponent `k`) until `m >= SCALE`.
pub open spec fn spec_norm_up(m: int, k: int) -> (int, int)
    decreases (if m < SCALE as int { SCALE as int - m } else { 0 }),
{
    if 1 <= m && m < SCALE as int {
        spec_norm_up(2 * m, k - 1)
    } else {
        (m, k)
    }
}

/// Halves `m` (incrementing the exponent `k`) until `m < 2 * SCALE`.
pub open spec fn spec_norm_down(m: int, k: int) -> (int, int)
    decreases (if m >= 0 { m } else { 0 }),
{
    if m >= 2 * (SCALE as int) {
        spec_norm_down(m / 2, k + 1)
    } else {
        (m, k)
    }
}

/// Accumulates, from bit `i` up to 32, the fractional bits of the base-two
/// logarithm of `m / SCALE` for `m` in `[SCALE, 2 * SCALE)`: square `m`,
/// emit a one bit and halve if the square reached two, else emit a zero bit.
pub open spec fn spec_frac_bits(m: int, acc: int, i: int) -> int
    decreases 32 - i,
{
    if 0 <= i && i < 32 {
        let sq = (m * m) / (SCALE as int);
        if sq >= 2 * (SCALE as int) {
            spec_frac_bits(sq / 2, 2 * acc + 1, i + 1)
        } else {
            spec_frac_bits(sq, 2 * acc, i + 1)
        }
    } else {
        acc
    }
}

/// The exact value returned by [`ln_fixed`]: normalize, extract the base-two
/// fraction, and rescale `k * SCALE + frac` by `ln 2`, rounding toward zero.
pub open spec fn spec_ln(x: int) -> int {
    let nu = spec_norm_up(x, 0);
    let nd = spec_norm_down(nu.0, nu.1);
    let frac = spec_frac_bits(nd.0, 0, 0);
    let l2 = nd.1 * (SCALE as int) + frac;
    let p = l2 * (LN2_FIXED as int);
    if p >= 0 {
        p / (SCALE as int)
    } else {
        -((-p) / (SCALE as int))
    }
}

/// Fixed-point natural logarithm of `x / SCALE`, for positive `x`.
pub fn ln_fixed(x: i64) -> (r: i64)
    requires
        1 <= x <= PRODUCT_MAX,
    ensures
        r as int == spec_ln(x as int),
        -(LN_ABS_BOUND as int) <= r as int <= LN_ABS_BOUND as int,
{
    let mut m: i64 = x;
    let mut k: i64 = 0;
    proof {
        lemma2_to64();
    }
    while m < SCALE
        invariant
            1 <= m <= PRODUCT_MAX,
            -32 <= k <= 0,
            pow2((-k) as nat) <= m,
            spec_norm_up(m as int, k as int) == spec_norm_up(x as int, 0),
        decreases PRODUCT_MAX - m,
    {
        proof {
            lemma2_to64();
            if k == -32 {
                assert(pow2(32) <= m);
                assert(false);
            }
            lemma_pow2_unfold((1 - k) as nat);
            assert(spec_norm_up(m as int, k as int) == spec_norm_up(2 * (m as int), k as int - 1));
        }
        m = m * 2;
        k = k - 1;
    }
    proof {
        assert(spec_norm_up(m as int, k as int) == (m as int, k as int));
    }
    let ghost m1: int = m as int;
    let ghost k1: int = k as int;
    while m >= 2 * SCALE
        invariant
            SCALE <= m <= PRODUCT_MAX,
            k1 <= k,
            k - k1 <= 30,
            -32 <= k1 <= 0,
            m1 <= PRODUCT_MAX as int,
            (m as int) * pow2((k - k1) as nat) <= m1,
            spec_norm_down(m as int, k as int) == spec_norm_down(m1, k1),
        decreases m,
    {
        let ghost d: int = m as int / 2;
        proof {
            lemma2_to64();
            // The exponent gap cannot reach 30 while m is still at least
            // 2 * SCALE: the product would exceed m1's bound.
            if k - k1 >= 30 {
                assert((m as int) * pow2((k - k1) as nat) > PRODUCT_MAX as int)
                    by (nonlinear_arith)
                    requires
                        m as int >= 2 * (SCALE as int),
                        pow2((k - k1) as nat) == 0x4000_0000,
                ;
                assert(false);
            }
            lemma_pow2_unfold((k + 1 - k1) as nat);
            lemma_pow2_pos((k - k1) as nat);
            assert(2 * d <= m as int);
            assert(d * pow2((k + 1 - k1) as nat) <= m1) by (nonlinear_arith)
                requires
                    pow2((k + 1 - k1) as nat) == 2 * pow2((k - k1) as nat),
                    2 * d <= m as int,
                    (m as int) * pow2((k - k1) as nat) <= m1,
                    pow2((k - k1) as nat) >= 0,
            ;
            assert(spec_norm_down(m as int, k as int) == spec_norm_down(d, k as int + 1));
        }
        m = ((m as u64) / 2) as i64;
        proof {
            assert(m as int == d);
        }
        k = k + 1;
    }
    proof {
        assert(spec_norm_down(m as int, k as int) == (m as int, k as int));
        assert(-32 <= k <= 30);
        lemma2_to64();
    }
    let ghost m2: int = m as int;
    let ghost k2: int = k as int;
    let mut frac: i64 = 0;
    let mut i: u32 = 0;
    while i < 32
        invariant
            SCALE <= m < 2 * SCALE,
            i <= 32,
            0 <= frac < pow2(i as nat),
            spec_frac_bits(m as int, frac as int, i as int) == spec_frac_bits(m2, 0, 0),
        decreases 32 - i,
    {
        proof {
            lemma2_to64();
            if i < 31 {
                lemma_pow2_strictly_increases(i as nat, 31);
            }
            assert(frac < 0x8000_0000);
            assert((SCALE as int) * (SCALE as int) <= (m as int) * (m as int))
                by (nonlinear_arith)
                requires
                    (SCALE as int) <= (m as int),
            ;
            assert((m as int) * (m as int) < 0x4_0000_0000_0000_0000) by (nonlinear_arith)
                requires
                    0 <= (m as int) < 2 * (SCALE as int),
            ;
            lemma_fundamental_div_mod((m as int) * (m as int), SCALE as int);
        }
        let sq_wide: u128 = (m as u128) * (m as u128);
        let q_wide: u128 = sq_wide / (SCALE as u128);
        proof {
            assert(sq_wide == (m as int) * (m as int));
            assert(q_wide == ((m as int) * (m as int)) / (SCALE as int));
            assert((SCALE as int) <= q_wide < 4 * (SCALE as int));
        }
        let q: u64 = q_wide as u64;
        if q >= 0x2_0000_0000u64 {
            proof {
                lemma_pow2_unfold((i + 1) as nat);
                assert(spec_frac_bits(m as int, frac as int, i as int) == spec_frac_bits(
                    (((m as int) * (m as int)) / (SCALE as int)) / 2,
                    2 * (frac as int) + 1,
                    i as int + 1,
                ));
            }
            m = (q / 2) as i64;
            frac = frac * 2 + 1;
        } else {
            proof {
                lemma_pow2_unfold((i + 1) as nat);
                assert(spec_frac_bits(m as int, frac as int, i as int) == spec_frac_bits(
                    ((m as int) * (m as int)) / (SCALE as int),
                    2 * (frac as int),
                    i as int + 1,
                ));
            }
            m = q as i64;
            frac = frac * 2;
        }
        i = i + 1;
    }
    proof {
        lemma2_to64();
        assert(spec_frac_bits(m as int, frac as int, 32) == frac as int);
        assert(0 <= frac < SCALE as int);
    }
    let l2: i64 = k * SCALE + frac;
    proof {
        assert(-32 * (SCALE as int) <= l2 as int <= 31 * (SCALE as int));
        assert(-32 * (SCALE as int) * (LN2_FIXED as int) <= (l2 as int) * (LN2_FIXED as int) <= 31
            * (SCALE as int) * (LN2_FIXED as int)) by (nonlinear_arith)
            requires
                -32 * (SCALE as int) <= l2 as int <= 31 * (SCALE as int),
        ;
    }
    let p_wide: i128 = (l2 as i128) * (LN2_FIXED as i128);
    proof {
        assert(p_wide == (l2 as int) * (LN2_FIXED as int));
    }
    let r: i64 = if p_wide >= 0 {
        let q: u128 = (p_wide as u128) / (SCALE as u128);
        proof {
            lemma_fundamental_div_mod(p_wide as int, SCALE as int);
        }
        q as i64
    } else {
        let q: u128 = ((-p_wide) as u128) / (SCALE as u128);
        proof {
            lemma_fundamental_div_mod(-(p_wide as int), SCALE as int);
        }
        -(q as i64)
    };
    proof {
        assert(spec_norm_up(x as int, 0) == (m1, k1));
        assert(spec_norm_down(m1, k1) == (m2, k2));
        assert(r as int == spec_ln(x as int));
    }
    r
}

} // verus!
