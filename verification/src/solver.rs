//! Bracket-narrowing search for the maximum of a unimodal objective.
//!
//! [`golden_section_search`] maintains a bracket `[a, b]` known to contain
//! the maximum. Each iteration evaluates the objective at the two interior
//! golden-ratio probes of the current bracket and discards the outer part
//! of the bracket on the side of the worse probe, shrinking the width by a
//! factor of about 0.618. Negative infinity compares below every finite
//! value, so infeasible regions are shrunk away rather than crashing the
//! search. The search stops once the bracket is narrower than the
//! tolerance and returns the best point evaluated so far; if the iteration
//! cap is hit first it reports a convergence failure instead of a possibly
//! poor estimate.
//!
//! The whole run is mirrored step for step by [`spec_golden_section`], so
//! the result is a pure function of the inputs. Because each iteration
//! multiplies the bracket width by at most 2/3, a cap of
//! [`GUARANTEED_ITERS`] provably always suffices: convergence failures can
//! only arise with smaller caps.

use vstd::prelude::*;

verus! {

use crate::fixed::ExtVal;
use crate::fixed::SCALE;
use crate::fixed::ext_gt;
use crate::fixed::fmul;
use crate::fixed::spec_ext_gt;
use crate::fixed::spec_fmul;
use crate::objectives::Objective;
use vstd::arithmetic::div_mod::lemma_fundamental_div_mod;
use vstd::arithmetic::mul::lemma_mul_inequality;
use vstd::arithmetic::power::lemma_pow0;
use vstd::arithmetic::power::lemma_pow1;
use vstd::arithmetic::power::lemma_pow_multiplies;
use vstd::arithmetic::power::lemma_pow_strictly_increases;
use vstd::arithmetic::power::lemma_pow_adds;
use vstd::arithmetic::power::lemma_pow_positive;
use vstd::arithmetic::power::pow;

/// How a stake calculation can fail: an invalid search interval, reported
/// before any evaluation, or failure to reach the width tolerance within
/// the iteration cap.
#[derive(Clone, Copy, Debug, PartialEq, Eq, Structural)]
pub enum StakeError {
    Setup,
    Convergence,
}

/// The inverse golden ratio `(sqrt(5) - 1) / 2` in Q32.32.
pub const GOLDEN_LONG: i64 = 2654435769;

/// Its complement `1 - (sqrt(5) - 1) / 2` in Q32.32.
pub const GOLDEN_SHORT: i64 = 1640531527;

/// Largest magnitude admitted for bracket endpoints (2^61).
pub const MAX_COORD: i64 = 0x2000_0000_0000_0000;

/// Smallest admissible width tolerance: below 32 ulps the integer golden
/// probes could stall.
pub const MIN_TOLERANCE: i64 = 32;

/// An iteration cap at which the search provably always reaches its
/// tolerance before the cap.
pub const GUARANTEED_ITERS: u32 = 120;

/// One run of the bracket-narrowing loop from the given state: `[a, b]` is
/// the current bracket, `(bx, bf)` the best evaluation seen so far.
pub open spec fn spec_gss_loop(
    f: spec_fn(int) -> ExtVal,
    a: int,
    b: int,
    bx: int,
    bf: ExtVal,
    iters: int,
    tolerance: int,
    max_iters: int,
) -> Result<(i64, ExtVal), StakeError>
    decreases (if max_iters - iters >= 0 { max_iters - iters } else { 0 }),
{
    if b - a <= tolerance {
        Ok((bx as i64, bf))
    } else if iters >= max_iters {
        Err(StakeError::Convergence)
    } else {
        let w = b - a;
        let x1 = a + spec_fmul(GOLDEN_SHORT as int, w);
        let x2 = a + spec_fmul(GOLDEN_LONG as int, w);
        let f1 = f(x1);
        let f2 = f(x2);
        let bx1 = if spec_ext_gt(f1, bf) { x1 } else { bx };
        let bf1 = if spec_ext_gt(f1, bf) { f1 } else { bf };
        let bx2 = if spec_ext_gt(f2, bf1) { x2 } else { bx1 };
        let bf2 = if spec_ext_gt(f2, bf1) { f2 } else { bf1 };
        if spec_ext_gt(f1, f2) {
            spec_gss_loop(f, a, x2, bx2, bf2, iters + 1, tolerance, max_iters)
        } else {
            spec_gss_loop(f, x1, b, bx2, bf2, iters + 1, tolerance, max_iters)
        }
    }
}

/// The exact result of [`golden_section_search`]: a setup failure on an
/// empty interval, otherwise the loop seeded with the probe evaluation.
pub open spec fn spec_golden_section(
    f: spec_fn(int) -> ExtVal,
    lo: int,
    hi: int,
    probe: int,
    tolerance: int,
    max_iters: int,
) -> Result<(i64, ExtVal), StakeError> {
    if lo >= hi {
        Err(StakeError::Setup)
    } else {
        spec_gss_loop(f, lo, hi, probe, f(probe), 0, tolerance, max_iters)
    }
}

/// The two golden probes stay inside the bracket and in order.
pub proof fn lemma_probe_bounds(w: int)
    requires
        0 <= w,
    ensures
        0 <= spec_fmul(GOLDEN_SHORT as int, w) <= spec_fmul(GOLDEN_LONG as int, w) <= w,
{
    crate::fixed::lemma_fmul_frac_bounds(GOLDEN_SHORT as int, w);
    crate::fixed::lemma_fmul_frac_bounds(GOLDEN_LONG as int, w);
    lemma_mul_inequality(GOLDEN_SHORT as int, GOLDEN_LONG as int, w);
    lemma_fundamental_div_mod((GOLDEN_SHORT as int) * w, SCALE as int);
    lemma_fundamental_div_mod((GOLDEN_LONG as int) * w, SCALE as int);
}

/// Keeping the left part `[a, x2]` shrinks the width to at most 2/3.
pub proof fn lemma_shrink_left(w: int)
    requires
        0 <= w,
    ensures
        3 * spec_fmul(GOLDEN_LONG as int, w) <= 2 * w,
{
    crate::fixed::lemma_fmul_frac_bounds(GOLDEN_LONG as int, w);
    lemma_fundamental_div_mod((GOLDEN_LONG as int) * w, SCALE as int);
}

/// Keeping the right part `[x1, b]` shrinks the width to at most 2/3 once
/// the width is at least 21.
pub proof fn lemma_shrink_right(w: int)
    requires
        21 <= w,
    ensures
        3 * (w - spec_fmul(GOLDEN_SHORT as int, w)) <= 2 * w,
{
    crate::fixed::lemma_fmul_frac_bounds(GOLDEN_SHORT as int, w);
    lemma_fundamental_div_mod((GOLDEN_SHORT as int) * w, SCALE as int);
}

/// For widths of at least 2 both probes are strictly inside the bracket.
pub proof fn lemma_widths_positive(w: int)
    requires
        2 <= w,
    ensures
        1 <= spec_fmul(GOLDEN_LONG as int, w),
        w - spec_fmul(GOLDEN_SHORT as int, w) >= 1,
{
    crate::fixed::lemma_fmul_frac_bounds(GOLDEN_LONG as int, w);
    crate::fixed::lemma_fmul_frac_bounds(GOLDEN_SHORT as int, w);
    lemma_fundamental_div_mod((GOLDEN_LONG as int) * w, SCALE as int);
    lemma_fundamental_div_mod((GOLDEN_SHORT as int) * w, SCALE as int);
    lemma_mul_inequality(2, w, GOLDEN_LONG as int);
}

/// One step of the width potential: if a step takes the width from `w` to
/// at most `2/3 * w`, the bound `w * 3^i <= w0 * 2^i` carries to `i + 1`.
pub proof fn lemma_potential_step(nw: int, w: int, w0: int, it: nat)
    requires
        3 * nw <= 2 * w,
        w * pow(3, it) <= w0 * pow(2, it),
        0 <= nw,
    ensures
        nw * pow(3, it + 1) <= w0 * pow(2, it + 1),
{
    lemma_pow_positive(3, it);
    lemma_pow_positive(2, it);
    lemma_pow1(3);
    lemma_pow1(2);
    lemma_pow_adds(3, 1, it);
    lemma_pow_adds(2, 1, it);
    assert(nw * pow(3, it + 1) <= w0 * pow(2, it + 1)) by (nonlinear_arith)
        requires
            pow(3, it + 1) == 3 * pow(3, it),
            pow(2, it + 1) == 2 * pow(2, it),
            3 * nw <= 2 * w,
            w * pow(3, it) <= w0 * pow(2, it),
            pow(3, it) > 0,
            pow(2, it) > 0,
            0 <= nw,
    ;
}

/// Raising a larger base to the same positive power gives a larger result.
proof fn lemma_pow_base_strictly_increases(a: int, b: int, e: nat)
    requires
        0 < a < b,
        1 <= e,
    ensures
        pow(a, e) < pow(b, e),
    decreases e,
{
    lemma_pow1(a);
    lemma_pow1(b);
    if e > 1 {
        lemma_pow_base_strictly_increases(a, b, (e - 1) as nat);
        lemma_pow_positive(a, (e - 1) as nat);
        lemma_pow_positive(b, (e - 1) as nat);
        lemma_pow_adds(a, 1, (e - 1) as nat);
        lemma_pow_adds(b, 1, (e - 1) as nat);
        assert(a * pow(a, (e - 1) as nat) < b * pow(b, (e - 1) as nat)) by (nonlinear_arith)
            requires
                0 < a < b,
                0 < pow(a, (e - 1) as nat) < pow(b, (e - 1) as nat),
        ;
    }
}

/// Powers of three outgrow powers of two fast enough that, from the 120th
/// iteration on, `3^e` exceeds `2^57 * 2^e`.
pub proof fn lemma_pow3_dominates(e: nat)
    requires
        e >= 120,
    ensures
        pow(3, e) > pow(2, e + 57),
    decreases e,
{
    if e == 120 {
        assert(pow(3, 12) == 531441) by {
            reveal_with_fuel(vstd::arithmetic::power::pow, 13);
        };
        vstd::arithmetic::power2::lemma2_to64();
        vstd::arithmetic::power2::lemma_pow2(19);
        assert(pow(2, 19) == 524288);
        lemma_pow_multiplies(3, 12, 10);
        lemma_pow_multiplies(2, 19, 10);
        lemma_pow_base_strictly_increases(524288, 531441, 10);
        lemma_pow_strictly_increases(2, 177, 190);
        assert(pow(3, 120) > pow(2, 177));
    } else {
        lemma_pow3_dominates((e - 1) as nat);
        lemma_pow1(3);
        lemma_pow1(2);
        lemma_pow_adds(3, 1, (e - 1) as nat);
        lemma_pow_adds(2, 1, (e + 56) as nat);
        lemma_pow_positive(2, (e + 56) as nat);
        assert(pow(3, e) == 3 * pow(3, (e - 1) as nat));
        assert(pow(2, e + 57) == 2 * pow(2, (e + 56) as nat));
        assert(pow(3, (e - 1) as nat) > pow(2, (e + 56) as nat));
    }
}

/// Finds a maximizer of `c` over the bracket `[lo, hi]`.
///
/// Fails with `StakeError::Setup` exactly when `lo >= hi`, before any
/// evaluation. Otherwise the probe is evaluated first, then the bracket is
/// narrowed by golden-ratio probes until its width is at most `tolerance`;
/// the best point seen, with its objective value, is returned. If
/// `max_iters` iterations do not suffice the search fails with
/// `StakeError::Convergence`; with `max_iters >= GUARANTEED_ITERS` that
/// provably never happens. The result equals [`spec_golden_section`], so
/// identical inputs always produce identical results.
pub fn golden_section_search<C: Objective>(
    c: &C,
    lo: i64,
    hi: i64,
    probe: i64,
    tolerance: i64,
    max_iters: u32,
) -> (r: Result<(i64, ExtVal), StakeError>)
    requires
        -MAX_COORD <= lo <= MAX_COORD,
        -MAX_COORD <= hi <= MAX_COORD,
        tolerance >= MIN_TOLERANCE,
        lo < hi ==> lo <= probe <= hi,
        forall|x: int| lo <= x <= hi ==> c.in_domain(x),
    ensures
        r == spec_golden_section(
            |x: int| c.spec_value(x),
            lo as int,
            hi as int,
            probe as int,
            tolerance as int,
            max_iters as int,
        ),
        (r == Err::<(i64, ExtVal), StakeError>(StakeError::Setup)) <==> lo >= hi,
        r matches Ok(p) ==> lo <= p.0 <= hi && p.1 == c.spec_value(p.0 as int),
        r matches Ok(p) ==> !spec_ext_gt(c.spec_value(probe as int), p.1),
        lo < hi && max_iters >= GUARANTEED_ITERS ==> r matches Ok(_),
{
    let ghost gf = |x: int| c.spec_value(x);
    if lo >= hi {
        proof {
            assert(spec_golden_section(
                gf,
                lo as int,
                hi as int,
                probe as int,
                tolerance as int,
                max_iters as int,
            ) == Err::<(i64, ExtVal), StakeError>(StakeError::Setup));
        }
        return Err(StakeError::Setup);
    }
    let mut a = lo;
    let mut b = hi;
    let mut best_x = probe;
    let mut best_f = c.value(probe);
    let mut iters: u32 = 0;
    let ghost target = spec_gss_loop(
        gf,
        lo as int,
        hi as int,
        probe as int,
        c.spec_value(probe as int),
        0,
        tolerance as int,
        max_iters as int,
    );
    proof {
        lemma_pow0(3);
        lemma_pow0(2);
    }
    while b - a > tolerance
        invariant
            -MAX_COORD <= lo <= MAX_COORD,
            -MAX_COORD <= hi <= MAX_COORD,
            tolerance >= MIN_TOLERANCE,
            lo <= a,
            a < b,
            b <= hi,
            lo <= best_x <= hi,
            best_f == c.spec_value(best_x as int),
            lo <= probe <= hi,
            !spec_ext_gt(c.spec_value(probe as int), best_f),
            iters <= max_iters,
            forall|x: int| lo <= x <= hi ==> c.in_domain(x),
            gf == (|x: int| c.spec_value(x)),
            target == spec_golden_section(
                gf,
                lo as int,
                hi as int,
                probe as int,
                tolerance as int,
                max_iters as int,
            ),
            spec_gss_loop(
                gf,
                a as int,
                b as int,
                best_x as int,
                best_f,
                iters as int,
                tolerance as int,
                max_iters as int,
            ) == target,
            (b - a) * pow(3, iters as nat) <= (hi - lo) * pow(2, iters as nat),
        decreases max_iters - iters,
    {
        if iters >= max_iters {
            proof {
                assert(spec_gss_loop(
                    gf,
                    a as int,
                    b as int,
                    best_x as int,
                    best_f,
                    iters as int,
                    tolerance as int,
                    max_iters as int,
                ) == Err::<(i64, ExtVal), StakeError>(StakeError::Convergence));
                assert(gf(probe as int) == c.spec_value(probe as int));
                assert(spec_golden_section(
                    gf,
                    lo as int,
                    hi as int,
                    probe as int,
                    tolerance as int,
                    max_iters as int,
                ) == target);
                if max_iters >= GUARANTEED_ITERS {
                    let wd = b as int - a as int;
                    let it = iters as nat;
                    let w0 = hi as int - lo as int;
                    lemma_pow_positive(3, it);
                    lemma_pow_positive(2, it);
                    lemma_pow3_dominates(it);
                    lemma_pow_adds(2, 57, it);
                    vstd::arithmetic::power2::lemma2_to64_rest();
                    vstd::arithmetic::power2::lemma_pow2(57);
                    assert(pow(2, 57) == 0x200_0000_0000_0000);
                    assert(false) by (nonlinear_arith)
                        requires
                            33 <= wd,
                            wd * pow(3, it) <= w0 * pow(2, it),
                            w0 <= 0x4000_0000_0000_0000,
                            pow(3, it) > 0x200_0000_0000_0000 * pow(2, it),
                            pow(2, it) > 0,
                            pow(3, it) > 0,
                    ;
                }
            }
            return Err(StakeError::Convergence);
        }
        let ghost a0 = a as int;
        let ghost b0 = b as int;
        let ghost bx0 = best_x as int;
        let ghost bf0 = best_f;
        let ghost it0 = iters as int;
        let w = b - a;
        proof {
            lemma_probe_bounds(w as int);
            lemma_widths_positive(w as int);
        }
        let d1 = fmul(GOLDEN_SHORT, w);
        let d2 = fmul(GOLDEN_LONG, w);
        let x1 = a + d1;
        let x2 = a + d2;
        let f1 = c.value(x1);
        let f2 = c.value(x2);
        if ext_gt(f1, best_f) {
            best_x = x1;
            best_f = f1;
        }
        if ext_gt(f2, best_f) {
            best_x = x2;
            best_f = f2;
        }
        if ext_gt(f1, f2) {
            b = x2;
            proof {
                lemma_shrink_left(b0 - a0);
            }
        } else {
            a = x1;
            proof {
                lemma_shrink_right(b0 - a0);
            }
        }
        proof {
            assert(spec_gss_loop(gf, a0, b0, bx0, bf0, it0, tolerance as int, max_iters as int)
                == spec_gss_loop(
                gf,
                a as int,
                b as int,
                best_x as int,
                best_f,
                it0 + 1,
                tolerance as int,
                max_iters as int,
            ));
            lemma_potential_step(
                b as int - a as int,
                b0 - a0,
                hi as int - lo as int,
                iters as nat,
            );
        }
        iters = iters + 1;
    }
    proof {
        assert(spec_gss_loop(
            gf,
            a as int,
            b as int,
            best_x as int,
            best_f,
            iters as int,
            tolerance as int,
            max_iters as int,
        ) == Ok::<(i64, ExtVal), StakeError>((best_x, best_f)));
        assert(spec_golden_section(
            gf,
            lo as int,
            hi as int,
            probe as int,
            tolerance as int,
            max_iters as int,
        ) == target);
    }
    Ok((best_x, best_f))
}

} // verus!
