//! The expected-log-wealth objective.
//!
//! For a candidate stake `s` the objective is the probability-weighted sum
//! of the logarithms of post-bet wealth across all outcomes. If the focal
//! outcome's wealth is non-positive the objective is negative infinity at
//! once (certain ruin), without evaluating the other terms; a non-positive
//! wealth on any other outcome likewise makes the whole value negative
//! infinity, the infeasibility signal that steers the search away.

use vstd::prelude::*;

verus! {

use crate::fixed::ExtVal;
use crate::fixed::MONEY_MAX;
use crate::fixed::PRICE_MAX;
use crate::fixed::SCALE;
use crate::fixed::fmul;
use crate::fixed::lemma_fmul_abs_le;
use crate::fixed::lemma_fmul_scaled_stake_range;
use crate::fixed::spec_fmul;
use crate::ln::LN_ABS_BOUND;
use crate::ln::ln_fixed;
use crate::ln::spec_ln;

/// Most "other" outcomes a market may carry (2^20).
pub const MAX_OUTCOMES: usize = 0x10_0000;

/// Range conditions on the market inputs under which every intermediate
/// fixed-point computation of the objective stays representable.
pub open spec fn spec_inputs_wf(
    price: int,
    probability: int,
    other_probabilities: Seq<i64>,
    position: int,
    other_positions: Seq<i64>,
    bankroll: int,
) -> bool {
    &&& -(PRICE_MAX as int) <= price <= PRICE_MAX as int
    &&& 0 <= probability <= SCALE as int
    &&& other_probabilities.len() == other_positions.len()
    &&& other_positions.len() <= MAX_OUTCOMES as int
    &&& (forall|i: int|
        0 <= i < other_probabilities.len() ==> 0 <= #[trigger] other_probabilities[i]
            <= SCALE)
    &&& (forall|i: int|
        0 <= i < other_positions.len() ==> -MONEY_MAX <= #[trigger] other_positions[i]
            <= MONEY_MAX)
    &&& -(MONEY_MAX as int) <= position <= MONEY_MAX as int
    &&& -(MONEY_MAX as int) <= bankroll <= MONEY_MAX as int
}

/// Post-bet wealth on the focal outcome: the bet there wins (back) or is
/// laid off (lay), so the stake scales with `price - 1`.
pub open spec fn spec_focal_wealth(
    stake: int,
    price: int,
    is_back: bool,
    position: int,
    bankroll: int,
) -> int {
    if is_back {
        bankroll + position + spec_fmul(stake, price - SCALE as int)
    } else {
        bankroll + position - spec_fmul(stake, price - SCALE as int)
    }
}

/// Post-bet wealth on another outcome `i`: a back bet loses its stake when
/// some other outcome occurs; a lay bet keeps it.
pub open spec fn spec_other_wealth(
    stake: int,
    is_back: bool,
    other_positions: Seq<i64>,
    bankroll: int,
    i: int,
) -> int {
    if is_back {
        bankroll + other_positions[i] - stake
    } else {
        bankroll + other_positions[i] + stake
    }
}

/// The probability-weighted sum of log-wealth over the first `n` other
/// outcomes, assuming every such wealth is positive.
pub open spec fn spec_other_sum(
    stake: int,
    is_back: bool,
    other_probabilities: Seq<i64>,
    other_positions: Seq<i64>,
    bankroll: int,
    n: int,
) -> int
    decreases n,
{
    if n <= 0 {
        0
    } else {
        spec_other_sum(stake, is_back, other_probabilities, other_positions, bankroll, n - 1)
            + spec_fmul(
            other_probabilities[n - 1] as int,
            spec_ln(spec_other_wealth(stake, is_back, other_positions, bankroll, n - 1)),
        )
    }
}

/// The expected-log-wealth objective at stake `stake`.
pub open spec fn spec_lew(
    stake: int,
    price: int,
    is_back: bool,
    probability: int,
    other_probabilities: Seq<i64>,
    position: int,
    other_positions: Seq<i64>,
    bankroll: int,
) -> ExtVal {
    let w = spec_focal_wealth(stake, price, is_back, position, bankroll);
    if w <= 0 {
        ExtVal::NegInf
    } else if exists|i: int|
        0 <= i < other_positions.len() && (#[trigger] spec_other_wealth(
            stake,
            is_back,
            other_positions,
            bankroll,
            i,
        )) <= 0 {
        ExtVal::NegInf
    } else {
        ExtVal::Fin(
            (spec_fmul(probability, spec_ln(w)) + spec_other_sum(
                stake,
                is_back,
                other_probabilities,
                other_positions,
                bankroll,
                other_positions.len() as int,
            )) as i64,
        )
    }
}

/// A one-dimensional objective to be maximized over an interval of stakes.
pub trait Objective {
    /// The stakes on which [`Objective::value`] may be evaluated.
    spec fn in_domain(&self, stake: int) -> bool;

    /// The value the evaluation returns.
    spec fn spec_value(&self, stake: int) -> ExtVal;

    /// Evaluates the objective at `stake`.
    fn value(&self, stake: i64) -> (r: ExtVal)
        requires
            self.in_domain(stake as int),
        ensures
            r == self.spec_value(stake as int),
    ;
}

/// The market data the expected-log-wealth objective closes over: the price
/// and side of the bet, the bettor's probabilities and existing positions,
/// and the bankroll. All quantities are Q32.32 fixed point.
pub struct LogExpectedWealthObjective {
    pub price: i64,
    pub is_back: bool,
    pub probability: i64,
    pub other_probabilities: Vec<i64>,
    pub position: i64,
    pub other_positions: Vec<i64>,
    pub bankroll: i64,
}

impl Objective for LogExpectedWealthObjective {
    open spec fn in_domain(&self, stake: int) -> bool {
        &&& spec_inputs_wf(
            self.price as int,
            self.probability as int,
            self.other_probabilities@,
            self.position as int,
            self.other_positions@,
            self.bankroll as int,
        )
        &&& 0 <= stake <= MONEY_MAX as int
    }

    open spec fn spec_value(&self, stake: int) -> ExtVal {
        spec_lew(
            stake,
            self.price as int,
            self.is_back,
            self.probability as int,
            self.other_probabilities@,
            self.position as int,
            self.other_positions@,
            self.bankroll as int,
        )
    }

    fn value(&self, stake: i64) -> (r: ExtVal) {
        calculate_log_expected_wealth(
            stake,
            self.price,
            self.is_back,
            self.probability,
            &self.other_probabilities,
            self.position,
            &self.other_positions,
            self.bankroll,
        )
    }
}

/// Computes the expected logarithm of post-bet wealth at `stake`.
///
/// The result is exactly [`spec_lew`]; in particular it is negative
/// infinity precisely when the focal post-bet wealth is non-positive or
/// some other outcome's post-bet wealth is non-positive.
pub fn calculate_log_expected_wealth(
    stake: i64,
    price: i64,
    is_back: bool,
    probability: i64,
    other_probabilities: &Vec<i64>,
    position: i64,
    other_positions: &Vec<i64>,
    bankroll: i64,
) -> (r: ExtVal)
    requires
        spec_inputs_wf(
            price as int,
            probability as int,
            other_probabilities@,
            position as int,
            other_positions@,
            bankroll as int,
        ),
        0 <= stake <= MONEY_MAX,
    ensures
        r == spec_lew(
            stake as int,
            price as int,
            is_back,
            probability as int,
            other_probabilities@,
            position as int,
            other_positions@,
            bankroll as int,
        ),
        (r is NegInf) <==> (spec_focal_wealth(
            stake as int,
            price as int,
            is_back,
            position as int,
            bankroll as int,
        ) <= 0 || exists|i: int|
            0 <= i < other_positions@.len() && (#[trigger] spec_other_wealth(
                stake as int,
                is_back,
                other_positions@,
                bankroll as int,
                i,
            )) <= 0),
{
    proof {
        lemma_fmul_scaled_stake_range(stake as int, price as int - SCALE as int);
    }
    let scaled = fmul(stake, price - SCALE);
    let w: i64 = if is_back {
        bankroll + position + scaled
    } else {
        bankroll + position - scaled
    };
    if w <= 0 {
        return ExtVal::NegInf;
    }
    let ln_w = ln_fixed(w);
    proof {
        lemma_fmul_abs_le(probability as int, ln_w as int);
    }
    let focal = fmul(probability, ln_w);
    let n = other_positions.len();
    let mut acc: i64 = 0;
    let mut idx: usize = 0;
    while idx < n
        invariant
            spec_inputs_wf(
                price as int,
                probability as int,
                other_probabilities@,
                position as int,
                other_positions@,
                bankroll as int,
            ),
            0 <= stake <= MONEY_MAX,
            n == other_positions@.len(),
            0 <= idx <= n,
            acc as int == spec_other_sum(
                stake as int,
                is_back,
                other_probabilities@,
                other_positions@,
                bankroll as int,
                idx as int,
            ),
            -(idx as int) * (LN_ABS_BOUND as int) <= acc as int <= (idx as int) * (
            LN_ABS_BOUND as int),
            forall|j: int|
                0 <= j < idx ==> (#[trigger] spec_other_wealth(
                    stake as int,
                    is_back,
                    other_positions@,
                    bankroll as int,
                    j,
                )) > 0,
        decreases n - idx,
    {
        let opos = other_positions[idx];
        let ow: i64 = if is_back {
            bankroll + opos - stake
        } else {
            bankroll + opos + stake
        };
        proof {
            assert(ow as int == spec_other_wealth(
                stake as int,
                is_back,
                other_positions@,
                bankroll as int,
                idx as int,
            ));
        }
        if ow <= 0 {
            return ExtVal::NegInf;
        }
        let ln_o = ln_fixed(ow);
        let oprob = other_probabilities[idx];
        proof {
            lemma_fmul_abs_le(oprob as int, ln_o as int);
            assert((idx as int + 1) * (LN_ABS_BOUND as int) == (idx as int) * (LN_ABS_BOUND as int)
                + LN_ABS_BOUND as int) by (nonlinear_arith);
            assert(-(idx as int + 1) * (LN_ABS_BOUND as int) == -(idx as int) * (
            LN_ABS_BOUND as int) - LN_ABS_BOUND as int) by (nonlinear_arith);
        }
        let term = fmul(oprob, ln_o);
        acc = acc + term;
        idx = idx + 1;
    }
    proof {
        assert(!(exists|i: int|
            0 <= i < other_positions@.len() && (#[trigger] spec_other_wealth(
                stake as int,
                is_back,
                other_positions@,
                bankroll as int,
                i,
            )) <= 0));
        assert((idx as int) * (LN_ABS_BOUND as int) <= 0x10_0000 * (LN_ABS_BOUND as int))
            by (nonlinear_arith)
            requires
                0 <= idx as int <= 0x10_0000,
        ;
    }
    ExtVal::Fin(focal + acc)
}

} // verus!
