//! Strategies that trade a currency pair, with every rule they follow stated and proved.

use vstd::prelude::*;

pub mod bayesian_laws;
pub mod bayesian_lr;
pub mod change_point;
pub mod choice_laws;
pub mod course_laws;
pub mod decision;
pub mod decision_laws;
pub mod detection_laws;
pub mod entropy_laws;
pub mod execution_laws;
pub mod execution_stats;
pub mod extractor;
pub mod extractor_laws;
pub mod feature_laws;
pub mod features;
pub mod learning_laws;
pub mod linalg;
pub mod mc_eval;
pub mod order;
pub mod outlook_laws;
pub mod policy;
pub mod policy_laws;
pub mod q_state;
pub mod regime;
pub mod regime_laws;
pub mod relations;
pub mod reward_laws;
pub mod ridge_laws;
pub mod rolling;
pub mod rounding;
pub mod scalar;
pub mod score_laws;
pub mod signal_laws;
pub mod snapshot_laws;
pub mod state;
pub mod strategy_a;
pub mod strategy_b;
pub mod strategy_c;
pub mod strategy_laws;
pub mod text;
pub mod thompson_sampling;
pub mod trade_laws;
pub mod vector_laws;

verus! {

} // verus!
