//! Kelly staking in fixed-point arithmetic.
//!
//! The crate computes the stake to place on one outcome of a multi-outcome
//! betting market so as to maximize the expected logarithm of post-bet
//! wealth (the generalized fractional-Kelly criterion), taking existing
//! positions on the chosen outcome and on every other outcome into
//! account.
//!
//! All quantities (prices, probabilities, positions, bankroll, stakes) are
//! signed 64-bit fixed-point numbers with 32 fractional bits; see
//! [`fixed`]. The wealth objective lives in [`objectives`], the
//! golden-section search engine in [`solver`], and the top-level stake
//! resolver in [`stake`]. Every public function's result is pinned down
//! exactly by a spec-level mirror of its computation, so stake
//! calculations are provably deterministic.

pub mod fixed;
pub mod ln;
pub mod objectives;
pub mod solver;
pub mod stake;

pub use fixed::ExtVal;
pub use fixed::SCALE;
pub use objectives::LogExpectedWealthObjective;
pub use objectives::Objective;
pub use objectives::calculate_log_expected_wealth;
pub use solver::StakeError;
pub use solver::golden_section_search;
pub use stake::calculate_kelly_stake;
