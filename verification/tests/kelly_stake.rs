use kelly::ExtVal;
use kelly::LogExpectedWealthObjective;
use kelly::SCALE;
use kelly::StakeError;
use kelly::calculate_kelly_stake;
use kelly::calculate_log_expected_wealth;
use kelly::golden_section_search;

/// Converts whole units to Q32.32 fixed point.
fn fx(units: f64) -> i64 {
    (units * 4294967296.0).round() as i64
}

fn assert_close(actual: i64, expected: i64, tol_units: f64) {
    let tol = fx(tol_units);
    assert!(
        (actual - expected).abs() <= tol,
        "expected about {expected}, got {actual}"
    );
}

#[test]
fn classical_kelly_single_outcome() {
    // Backing at evens with probability 0.6 and the complementary outcome
    // at 0.4: the classical Kelly fraction is p - q/b = 0.2 of bankroll.
    let r = calculate_kelly_stake(
        fx(2.0),
        true,
        fx(0.6),
        vec![fx(0.4)],
        0,
        vec![0],
        fx(100.0),
        SCALE,
    );
    assert_close(r.unwrap(), fx(20.0), 0.05);
}

#[test]
fn all_in_when_no_counter_outcome() {
    // With no other outcomes supplied the objective has no losing branch
    // and grows with the stake, so the search ends at the bankroll edge.
    let r = calculate_kelly_stake(fx(2.0), true, fx(0.6), vec![], 0, vec![], fx(100.0), SCALE);
    assert!(r.unwrap() > fx(99.9));
}

#[test]
fn fraction_scaling_halves_stake() {
    let full = calculate_kelly_stake(
        fx(2.0),
        true,
        fx(0.6),
        vec![fx(0.4)],
        0,
        vec![0],
        fx(100.0),
        SCALE,
    )
    .unwrap();
    let half = calculate_kelly_stake(
        fx(2.0),
        true,
        fx(0.6),
        vec![fx(0.4)],
        0,
        vec![0],
        fx(100.0),
        SCALE / 2,
    )
    .unwrap();
    assert_eq!(half, full / 2);
    assert_close(half, fx(10.0), 0.05);
}

#[test]
fn stake_monotone_in_probability() {
    let mut last = -1i64;
    for p in [0.55, 0.60, 0.70] {
        let s = calculate_kelly_stake(
            fx(2.0),
            true,
            fx(p),
            vec![fx(1.0 - p)],
            0,
            vec![0],
            fx(100.0),
            SCALE,
        )
        .unwrap();
        assert!(s > last, "stake should increase with probability");
        last = s;
    }
}

#[test]
fn objective_neg_inf_at_ruinous_stake() {
    // At stake = bankroll a deeply negative focal position drives the
    // focal wealth non-positive: the objective reports negative infinity
    // instead of failing.
    let v = calculate_log_expected_wealth(
        fx(100.0),
        fx(2.0),
        true,
        fx(0.6),
        &vec![],
        fx(-300.0),
        &vec![],
        fx(100.0),
    );
    assert_eq!(v, ExtVal::NegInf);
}

#[test]
fn objective_neg_inf_on_ruinous_other_outcome() {
    // bankroll + other_position - stake <= 0 on the single other outcome.
    let v = calculate_log_expected_wealth(
        fx(60.0),
        fx(2.0),
        true,
        fx(0.6),
        &vec![fx(0.4)],
        0,
        &vec![fx(-50.0)],
        fx(100.0),
    );
    assert_eq!(v, ExtVal::NegInf);
}

#[test]
fn objective_exact_values() {
    // Wealth 2.0 with probability one: the objective is exactly ln 2 in
    // Q32.32. Wealth 1.0: exactly zero.
    let v2 = calculate_log_expected_wealth(0, fx(2.0), true, SCALE, &vec![], SCALE, &vec![], SCALE);
    assert_eq!(v2, ExtVal::Fin(0xB17217F7));
    let v1 = calculate_log_expected_wealth(0, fx(2.0), true, SCALE, &vec![], 0, &vec![], SCALE);
    assert_eq!(v1, ExtVal::Fin(0));
}

#[test]
fn setup_error_on_non_positive_bankroll() {
    let zero = calculate_kelly_stake(fx(2.0), true, fx(0.6), vec![], 0, vec![], 0, SCALE);
    assert_eq!(zero, Err(StakeError::Setup));
    let neg = calculate_kelly_stake(fx(2.0), true, fx(0.6), vec![], 0, vec![], fx(-5.0), SCALE);
    assert_eq!(neg, Err(StakeError::Setup));
}

#[test]
fn identical_inputs_identical_results() {
    let a = calculate_kelly_stake(
        fx(3.5),
        true,
        fx(0.31),
        vec![fx(0.42), fx(0.27)],
        fx(-3.25),
        vec![fx(1.5), fx(-2.0)],
        fx(250.0),
        fx(0.7),
    );
    let b = calculate_kelly_stake(
        fx(3.5),
        true,
        fx(0.31),
        vec![fx(0.42), fx(0.27)],
        fx(-3.25),
        vec![fx(1.5), fx(-2.0)],
        fx(250.0),
        fx(0.7),
    );
    assert_eq!(a, b);
    assert!(a.is_ok());
}

#[test]
fn well_posed_inputs_always_converge() {
    // Any positive bankroll succeeds within the default iteration cap.
    for bank in [0.01, 1.0, 123.456, 500000.0] {
        let r = calculate_kelly_stake(
            fx(2.0),
            true,
            fx(0.6),
            vec![fx(0.4)],
            0,
            vec![0],
            fx(bank),
            SCALE,
        );
        assert!(r.is_ok(), "bankroll {bank} should converge");
    }
}

#[test]
fn engine_reports_convergence_failure_on_tiny_cap() {
    let objective = LogExpectedWealthObjective {
        price: fx(2.0),
        is_back: true,
        probability: fx(0.6),
        other_probabilities: vec![fx(0.4)],
        position: 0,
        other_positions: vec![0],
        bankroll: fx(100.0),
    };
    let r = golden_section_search(&objective, 0, fx(100.0), fx(1.0), 42949673, 3);
    assert_eq!(r, Err(StakeError::Convergence));
}

#[test]
fn engine_reports_setup_failure_on_empty_interval() {
    let objective = LogExpectedWealthObjective {
        price: fx(2.0),
        is_back: true,
        probability: fx(0.6),
        other_probabilities: vec![],
        position: 0,
        other_positions: vec![],
        bankroll: fx(100.0),
    };
    let r = golden_section_search(&objective, fx(5.0), fx(5.0), fx(5.0), 42949673, 500);
    assert_eq!(r, Err(StakeError::Setup));
}

#[test]
fn engine_survives_everywhere_infeasible_objective() {
    // A ruinous other position makes the objective negative infinity at
    // every stake; the search must not crash and returns the initial
    // probe as the best point seen.
    let r = calculate_kelly_stake(
        fx(2.0),
        true,
        fx(0.6),
        vec![fx(0.4)],
        0,
        vec![fx(-100.0)],
        fx(100.0),
        SCALE,
    );
    assert_eq!(r, Ok(fx(1.0)));
}

#[test]
fn lay_side_classical_kelly() {
    // Laying a 0.4 outcome at evens is backing the 0.6 complement: the
    // optimal exposure is again about a fifth of the bankroll.
    let r = calculate_kelly_stake(
        fx(2.0),
        false,
        fx(0.4),
        vec![fx(0.6)],
        0,
        vec![0],
        fx(100.0),
        SCALE,
    );
    assert_close(r.unwrap(), fx(20.0), 0.05);
}

#[test]
fn multi_outcome_market() {
    // 0.5 ln(100 + 2s) + 0.5 ln(100 - s) peaks at s = 25.
    let r = calculate_kelly_stake(
        fx(3.0),
        true,
        fx(0.5),
        vec![fx(0.3), fx(0.2)],
        0,
        vec![0, 0],
        fx(100.0),
        SCALE,
    );
    assert_close(r.unwrap(), fx(25.0), 0.05);
}

#[test]
fn existing_focal_position_shifts_optimum() {
    // A -50 position on the focal outcome: 0.6 ln(50 + s) + 0.4 ln(100 - s)
    // peaks at s = 40.
    let r = calculate_kelly_stake(
        fx(2.0),
        true,
        fx(0.6),
        vec![fx(0.4)],
        fx(-50.0),
        vec![0],
        fx(100.0),
        SCALE,
    );
    assert_close(r.unwrap(), fx(40.0), 0.05);
}

#[test]
fn negative_fraction_passes_through_unvalidated() {
    // The Kelly fraction is not validated; a negative fraction simply
    // negates the stake.
    let full = calculate_kelly_stake(
        fx(2.0),
        true,
        fx(0.6),
        vec![fx(0.4)],
        0,
        vec![0],
        fx(100.0),
        SCALE,
    )
    .unwrap();
    let negated = calculate_kelly_stake(
        fx(2.0),
        true,
        fx(0.6),
        vec![fx(0.4)],
        0,
        vec![0],
        fx(100.0),
        -SCALE,
    )
    .unwrap();
    assert_eq!(negated, -full);
}
