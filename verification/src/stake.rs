//! The stake resolver: the crate's top-level entry point.
//!
//! [`calculate_kelly_stake`] builds the expected-log-wealth objective from
//! the caller's market data, searches the interval `[0, bankroll]` with a
//! probe seeded at one hundredth of the bankroll, and scales the maximizing
//! stake by the caller's Kelly fraction. Setup failures (non-positive
//! bankroll) and convergence failures are reported as distinct error
//! values; no default stake is ever returned on error.

use vstd::prelude::*;

verus! {

use crate::fixed::FRACTION_MAX;
use crate::fixed::SCALE;
use crate::fixed::fmul;
use crate::fixed::lemma_fmul_abs_le;
use crate::fixed::lemma_fmul_money_range;
use crate::fixed::lemma_fmul_unit;
use crate::fixed::spec_fmul;
use crate::objectives::LogExpectedWealthObjective;
use crate::objectives::Objective;
use crate::objectives::spec_inputs_wf;
use crate::objectives::spec_lew;
use crate::solver::StakeError;
use crate::solver::golden_section_search;
use crate::solver::spec_golden_section;

/// Bracket-width tolerance used by the resolver: 0.01 in Q32.32.
pub const DEFAULT_TOLERANCE: i64 = 42949673;

/// Iteration cap used by the resolver.
pub const SOLVER_MAX_ITERS: u32 = 500;

/// The exact result of [`calculate_kelly_stake`]: search `[0, bankroll]`
/// for the stake maximizing expected log wealth, then scale by the Kelly
/// fraction. The fraction plays no part in the search itself.
pub open spec fn spec_calculate(
    price: int,
    is_back: bool,
    probability: int,
    other_probabilities: Seq<i64>,
    position: int,
    other_positions: Seq<i64>,
    bankroll: int,
    kelly_fraction: int,
) -> Result<i64, StakeError> {
    let probe = if bankroll > 0 {
        bankroll / 100
    } else {
        0
    };
    match spec_golden_section(
        |x: int|
            spec_lew(
                x,
                price,
                is_back,
                probability,
                other_probabilities,
                position,
                other_positions,
                bankroll,
            ),
        0,
        bankroll,
        probe,
        DEFAULT_TOLERANCE as int,
        SOLVER_MAX_ITERS as int,
    ) {
        Ok(p) => Ok(spec_fmul(p.0 as int, kelly_fraction) as i64),
        Err(e) => Err(e),
    }
}

/// Computes the optimal fractional Kelly stake for a single bet on an
/// event with one winner.
///
/// The search runs over `[0, bankroll]` and the result is the best stake
/// found, multiplied by `kelly_fraction`. A non-positive bankroll yields
/// `StakeError::Setup` before any evaluation; for a positive bankroll the
/// result is always `Ok`, since the iteration cap provably suffices. The
/// result equals [`spec_calculate`], a pure function of the arguments, so
/// identical inputs give identical stakes. For fractions in `[0, 1]` the
/// stake never exceeds the bankroll.
pub fn calculate_kelly_stake(
    price: i64,
    is_back: bool,
    probability: i64,
    other_probabilities: Vec<i64>,
    position: i64,
    other_positions: Vec<i64>,
    bankroll: i64,
    kelly_fraction: i64,
) -> (r: Result<i64, StakeError>)
    requires
        spec_inputs_wf(
            price as int,
            probability as int,
            other_probabilities@,
            position as int,
            other_positions@,
            bankroll as int,
        ),
        -FRACTION_MAX <= kelly_fraction <= FRACTION_MAX,
    ensures
        r == spec_calculate(
            price as int,
            is_back,
            probability as int,
            other_probabilities@,
            position as int,
            other_positions@,
            bankroll as int,
            kelly_fraction as int,
        ),
        r matches Ok(_) <==> bankroll > 0,
        bankroll <= 0 ==> r == Err::<i64, StakeError>(StakeError::Setup),
        r matches Ok(s) ==> (0 <= kelly_fraction <= SCALE ==> 0 <= s <= bankroll),
{
    let probe: i64 = if bankroll > 0 {
        ((bankroll as u64) / 100) as i64
    } else {
        0
    };
    let objective = LogExpectedWealthObjective {
        price,
        is_back,
        probability,
        other_probabilities,
        position,
        other_positions,
        bankroll,
    };
    proof {
        assert(forall|x: int| 0 <= x <= bankroll as int ==> objective.in_domain(x));
    }
    let result = golden_section_search(
        &objective,
        0,
        bankroll,
        probe,
        DEFAULT_TOLERANCE,
        SOLVER_MAX_ITERS,
    );
    proof {
        assert((|x: int| objective.spec_value(x)) =~= (|x: int|
            spec_lew(
                x,
                price as int,
                is_back,
                probability as int,
                other_probabilities@,
                position as int,
                other_positions@,
                bankroll as int,
            )));
    }
    match result {
        Ok(p) => {
            let raw = p.0;
            proof {
                lemma_fmul_money_range(raw as int, kelly_fraction as int);
                if 0 <= kelly_fraction <= SCALE {
                    lemma_fmul_abs_le(kelly_fraction as int, raw as int);
                }
            }
            let stake = fmul(raw, kelly_fraction);
            Ok(stake)
        },
        Err(e) => Err(e),
    }
}

/// LAW (fraction scaling): the Kelly fraction only rescales the result.
/// The search is independent of the fraction, so a calculation with
/// fraction `f` succeeds exactly when the full-Kelly calculation does, and
/// its stake is the full-Kelly stake multiplied by `f` in fixed point.
pub proof fn lemma_fraction_scaling(
    price: int,
    is_back: bool,
    probability: int,
    other_probabilities: Seq<i64>,
    position: int,
    other_positions: Seq<i64>,
    bankroll: int,
    kelly_fraction: int,
)
    ensures
        (spec_calculate(
            price,
            is_back,
            probability,
            other_probabilities,
            position,
            other_positions,
            bankroll,
            kelly_fraction,
        ) matches Ok(_)) <==> (spec_calculate(
            price,
            is_back,
            probability,
            other_probabilities,
            position,
            other_positions,
            bankroll,
            SCALE as int,
        ) matches Ok(_)),
        spec_calculate(
            price,
            is_back,
            probability,
            other_probabilities,
            position,
            other_positions,
            bankroll,
            kelly_fraction,
        ) matches Ok(s) ==> (spec_calculate(
            price,
            is_back,
            probability,
            other_probabilities,
            position,
            other_positions,
            bankroll,
            SCALE as int,
        ) matches Ok(full) && s == spec_fmul(full as int, kelly_fraction) as i64),
{
    let g = spec_golden_section(
        |x: int|
            spec_lew(
                x,
                price,
                is_back,
                probability,
                other_probabilities,
                position,
                other_positions,
                bankroll,
            ),
        0,
        bankroll,
        if bankroll > 0 {
            bankroll / 100
        } else {
            0
        },
        DEFAULT_TOLERANCE as int,
        SOLVER_MAX_ITERS as int,
    );
    match g {
        Ok(p) => {
            lemma_fmul_unit(p.0 as int);
        },
        Err(_) => {
        },
    }
}

/// LAW (determinism): the stake calculation is a pure function of its
/// inputs. Any two results that satisfy the contract of
/// [`calculate_kelly_stake`] for the same inputs are equal, bit for bit.
pub proof fn lemma_stake_deterministic(
    r1: Result<i64, StakeError>,
    r2: Result<i64, StakeError>,
    price: int,
    is_back: bool,
    probability: int,
    other_probabilities: Seq<i64>,
    position: int,
    other_positions: Seq<i64>,
    bankroll: int,
    kelly_fraction: int,
)
    requires
        r1 == spec_calculate(
            price,
            is_back,
            probability,
            other_probabilities,
            position,
            other_positions,
            bankroll,
            kelly_fraction,
        ),
        r2 == spec_calculate(
            price,
            is_back,
            probability,
            other_probabilities,
            position,
            other_positions,
            bankroll,
            kelly_fraction,
        ),
    ensures
        r1 == r2,
{
}

} // verus!
