//! Thompson sampling: an action is chosen on Q-values that are sampled from the posterior.
//!
//! The posterior shows only in what is sampled; point estimates are for monitoring.

use crate::bayesian_lr::{ActionDraws, ActionValues, QAction, QFunction};
use crate::decision;
use crate::decision::{Choice, TradeRules};
use crate::features::FeatureVector;
use crate::policy::Action;
use crate::scalar::Scalar;
use crate::state::{StateSnapshot, StrategyId};
use vstd::prelude::*;

verus! {

/// Parameters of the policy.
#[derive(Debug, Clone, Copy, PartialEq, Eq, Structural)]
pub struct ThompsonSamplingConfig {
    /// Weight of the noise in the cost of a trade, in a calm market.
    pub non_model_uncertainty_k: Scalar,
    /// Cost of a millisecond of latency.
    pub latency_penalty_k: Scalar,
    /// The least share of decisions that trade.
    pub min_trade_frequency: Scalar,
    /// Over how many decisions that share is taken.
    pub trade_frequency_window: usize,
    /// How far the posterior is widened where trades are too rare.
    pub hold_degeneration_inflation: Scalar,
    /// How much of the widening stays at each decision once trades are frequent again.
    pub inflation_decay_rate: Scalar,
    /// The greatest lot.
    pub max_lot_size: u64,
    /// The least lot; a smaller one is not traded.
    pub min_lot_size: u64,
    /// How close buying and selling may be before neither is done.
    pub consistency_threshold: Scalar,
    /// The lot before its multiplier.
    pub default_lot_size: u64,
}

impl Default for ThompsonSamplingConfig {
    fn default() -> (r: ThompsonSamplingConfig)
        ensures
            r == (ThompsonSamplingConfig {
                non_model_uncertainty_k: Scalar::of_ratio(1, 10),
                latency_penalty_k: Scalar::of_ratio(1, 1000),
                min_trade_frequency: Scalar::of_ratio(2, 100),
                trade_frequency_window: 500,
                hold_degeneration_inflation: Scalar::of_ratio(3, 2),
                inflation_decay_rate: Scalar::of_ratio(99, 100),
                max_lot_size: 1_000_000,
                min_lot_size: 1000,
                consistency_threshold: Scalar::of_ratio(1, 20),
                default_lot_size: 100_000,
            }),
    {
        ThompsonSamplingConfig {
            non_model_uncertainty_k: Scalar::ratio(1, 10),
            latency_penalty_k: Scalar::ratio(1, 1000),
            min_trade_frequency: Scalar::ratio(2, 100),
            trade_frequency_window: 500,
            hold_degeneration_inflation: Scalar::ratio(3, 2),
            inflation_decay_rate: Scalar::ratio(99, 100),
            max_lot_size: 1_000_000,
            min_lot_size: 1000,
            consistency_threshold: Scalar::ratio(1, 20),
            default_lot_size: 100_000,
        }
    }
}

impl ThompsonSamplingConfig {
    /// The parameters of the choice.
    pub open spec fn trade_rules(self) -> TradeRules {
        TradeRules {
            non_model_uncertainty_k: self.non_model_uncertainty_k,
            latency_penalty_k: self.latency_penalty_k,
            min_trade_frequency: self.min_trade_frequency,
            trade_frequency_window: self.trade_frequency_window,
            hold_degeneration_inflation: self.hold_degeneration_inflation,
            max_lot_size: self.max_lot_size,
            min_lot_size: self.min_lot_size,
            consistency_threshold: self.consistency_threshold,
            default_lot_size: self.default_lot_size,
        }
    }

    fn rules(&self) -> (r: TradeRules)
        ensures
            r == self.trade_rules(),
    {
        TradeRules {
            non_model_uncertainty_k: self.non_model_uncertainty_k,
            latency_penalty_k: self.latency_penalty_k,
            min_trade_frequency: self.min_trade_frequency,
            trade_frequency_window: self.trade_frequency_window,
            hold_degeneration_inflation: self.hold_degeneration_inflation,
            max_lot_size: self.max_lot_size,
            min_lot_size: self.min_lot_size,
            consistency_threshold: self.consistency_threshold,
            default_lot_size: self.default_lot_size,
        }
    }
}

/// Which of the last decisions traded.
#[derive(Debug, Clone, PartialEq)]
pub struct TradeFrequencyTracker {
    pub window: usize,
    pub history: Vec<bool>,
}

impl TradeFrequencyTracker {
    /// The record keeps to its window.
    pub open spec fn valid(self) -> bool {
        self.history@.len() <= self.window
    }

    /// No decisions.
    pub fn new(window: usize) -> (r: TradeFrequencyTracker)
        ensures
            r.valid(),
            r.window == window,
            r.history@ == Seq::<bool>::empty(),
    {
        TradeFrequencyTracker { window, history: Vec::new() }
    }

    /// Notes a decision; beyond the window the oldest goes.
    pub fn record(&mut self, traded: bool)
        requires
            old(self).valid(),
        ensures
            final(self).valid(),
            final(self).window == old(self).window,
            final(self).history@ == decision::recorded(
                old(self).history@,
                old(self).window as nat,
                traded,
            ),
    {
        decision::record(&mut self.history, self.window, traded);
    }

    /// The share of decisions that traded.
    pub fn frequency(&self) -> (r: Scalar)
        ensures
            r == decision::frequency_of(self.history@),
    {
        decision::frequency(&self.history)
    }

    /// Forgets every decision.
    pub fn reset(&mut self)
        ensures
            final(self).valid(),
            final(self).window == old(self).window,
            final(self).history@ == Seq::<bool>::empty(),
    {
        self.history.clear();
    }
}

/// What the policy decides.
#[derive(Debug, Clone, Copy, PartialEq, Eq, Structural)]
pub struct ThompsonDecision {
    pub action: Action,
    /// Point estimate of the action, for monitoring.
    pub q_point: Scalar,
    /// Sampled Q-value of the action, after costs.
    pub q_sampled: Scalar,
    /// Posterior standard deviation of the action, for monitoring.
    pub posterior_std: Scalar,
    /// Sampled Q-values of all actions, after costs.
    pub all_sampled_q: ActionValues,
    /// Point estimates of all actions.
    pub all_point_q: ActionValues,
    pub hold_degeneration_detected: bool,
    pub consistency_fallback: bool,
}

/// The weight of the noise: more of it in a volatile market and in an unstable regime, so that
/// less is risked.
pub open spec fn noise_weight(base_k: Scalar, volatility: Scalar, regime_stability: Scalar) -> Scalar {
    let one = Scalar::of_int(1);
    base_k.times(one.plus(Scalar::of_int(10).times(volatility))).times(
        if regime_stability.below(Scalar::of_ratio(1, 2)) {
            one.plus(Scalar::of_int(2).times(one.minus(regime_stability)))
        } else {
            one
        },
    )
}

/// The weight of the noise in the cost of a trade.
pub fn compute_dynamic_k(base_k: Scalar, volatility: Scalar, regime_stability: Scalar) -> (r: Scalar)
    ensures
        r == noise_weight(base_k, volatility, regime_stability),
{
    let one = Scalar::from_u64(1);
    let volatility_factor = one.add(Scalar::from_u64(10).mul(volatility));
    let regime_multiplier = if regime_stability.lt(Scalar::ratio(1, 2)) {
        one.add(Scalar::from_u64(2).mul(one.sub(regime_stability)))
    } else {
        one
    };
    base_k.mul(volatility_factor).mul(regime_multiplier)
}

/// How stable the regime looks: the less volatility exceeds its long-term level, the more.
pub open spec fn stability_of(features: FeatureVector) -> Scalar {
    let one = Scalar::of_int(1);
    one.minus(features.volatility_ratio.lesser(one)).greater(Scalar::of_int(0))
}

/// Chooses actions by Thompson sampling.
#[derive(Debug, Clone, PartialEq)]
pub struct ThompsonSamplingPolicy {
    pub q_function: QFunction,
    pub config: ThompsonSamplingConfig,
    pub trade_tracker: TradeFrequencyTracker,
    pub total_decisions: usize,
    /// How wide the posterior counts as; one is not widened.
    pub current_inflation: Scalar,
}

impl ThompsonSamplingPolicy {
    /// The Q-function is valid, the record keeps to its window, and the posterior never counts as
    /// narrower than one.
    pub open spec fn valid(self) -> bool {
        &&& self.q_function.valid()
        &&& self.trade_tracker.valid()
        &&& !self.current_inflation.below(Scalar::of_int(1))
    }

    /// What the policy chooses.
    pub open spec fn choice(
        self,
        features: FeatureVector,
        state: StateSnapshot,
        latency_ms: Scalar,
        draws: ActionDraws,
    ) -> Choice {
        decision::choice_of(
            self.q_function,
            features.flat(),
            draws,
            features,
            state,
            noise_weight(
                self.config.non_model_uncertainty_k,
                features.realized_volatility,
                stability_of(features),
            ),
            latency_ms,
            true,
            self.config.trade_rules(),
        )
    }

    /// A policy that has decided nothing.
    pub fn new(q_function: QFunction, config: ThompsonSamplingConfig) -> (r: ThompsonSamplingPolicy)
        requires
            q_function.valid(),
        ensures
            r.valid(),
            r.q_function == q_function,
            r.config == config,
            r.trade_tracker.window == config.trade_frequency_window,
            r.trade_tracker.history@ == Seq::<bool>::empty(),
            r.total_decisions == 0,
            r.current_inflation == Scalar::of_int(1),
    {
        let trade_tracker = TradeFrequencyTracker::new(config.trade_frequency_window);
        ThompsonSamplingPolicy {
            q_function,
            config,
            trade_tracker,
            total_decisions: 0,
            current_inflation: Scalar::from_u64(1),
        }
    }

    /// Decides.
    ///
    /// The action with the greatest sampled Q-value after costs is chosen, within the limit on the
    /// global position; costs fall on buying and selling only. Where these two look equally good,
    /// neither is done. Where trades have become too rare, the posterior is widened.
    ///
    /// `draws` is the randomness of the sampled Q-values. The policy decides alike for every strategy.
    pub fn decide(
        &mut self,
        features: &FeatureVector,
        state: &StateSnapshot,
        _strategy_id: StrategyId,
        latency_ms: Scalar,
        draws: &ActionDraws,
    ) -> (r: ThompsonDecision)
        requires
            old(self).valid(),
            old(self).q_function.dim == FeatureVector::DIM,
            old(self).total_decisions < usize::MAX,
            old(self).q_function.fits(*draws),
        ensures
            final(self).valid(),
            final(self).config == old(self).config,
            final(self).total_decisions == old(self).total_decisions + 1,
            ({
                let choice = old(self).choice(*features, *state, latency_ms, *draws);
                let kind = decision::kind_of(choice.action);
                let history = decision::recorded(
                    old(self).trade_tracker.history@,
                    old(self).trade_tracker.window as nat,
                    choice.action != Action::Hold,
                );
                let rare = decision::too_rare(
                    history,
                    (old(self).total_decisions + 1) as nat,
                    old(self).config.trade_rules(),
                );
                let target = old(self).config.hold_degeneration_inflation;
                &&& r == (ThompsonDecision {
                    action: choice.action,
                    q_point: choice.points.of(kind),
                    q_sampled: choice.sampled.of(kind),
                    posterior_std: choice.deviations.of(kind),
                    all_sampled_q: choice.sampled,
                    all_point_q: choice.points,
                    hold_degeneration_detected: rare,
                    consistency_fallback: choice.consistency_fallback,
                })
                &&& final(self).trade_tracker.window == old(self).trade_tracker.window
                &&& final(self).trade_tracker.history@ == history
                &&& decision::widened(
                    final(self).q_function,
                    old(self).q_function,
                    decision::widening(old(self).current_inflation, rare, target),
                )
                &&& final(self).current_inflation == decision::width_after(
                    old(self).current_inflation,
                    rare,
                    target,
                    old(self).config.inflation_decay_rate,
                )
            }),
            !r.hold_degeneration_detected ==> final(self).q_function == old(self).q_function,
            r.hold_degeneration_detected ==> final(self).total_decisions
                >= old(self).config.trade_frequency_window,
            r.hold_degeneration_detected && old(self).current_inflation.below(
                old(self).config.hold_degeneration_inflation,
            ) ==> final(self).current_inflation == old(self).config.hold_degeneration_inflation,
            final(self).trade_tracker.window > 0 ==> final(self).trade_tracker.history@.last() == !(
            r.action is Hold),
            r.action is Buy ==> r.q_point == r.all_point_q.buy && r.q_sampled
                == r.all_sampled_q.buy,
            r.action is Sell ==> r.q_point == r.all_point_q.sell && r.q_sampled
                == r.all_sampled_q.sell,
            r.action is Hold ==> r.q_point == r.all_point_q.hold && r.q_sampled
                == r.all_sampled_q.hold,
    {
        self.total_decisions = self.total_decisions + 1;
        let phi = features.flattened();
        let one = Scalar::from_u64(1);
        let regime_stability = one.sub(features.volatility_ratio.min(one)).max(Scalar::from_u64(0));
        let dynamic_k = compute_dynamic_k(
            self.config.non_model_uncertainty_k,
            features.realized_volatility,
            regime_stability,
        );
        let choice = decision::choose_action(
            &self.q_function,
            &phi,
            draws,
            features,
            state,
            dynamic_k,
            latency_ms,
            true,
            &self.config.rules(),
        );
        self.trade_tracker.record(choice.action != Action::Hold);
        let hold_degeneration_detected = self.check_hold_degeneration();
        self.current_inflation = decision::steer(
            &mut self.q_function,
            self.current_inflation,
            hold_degeneration_detected,
            self.config.hold_degeneration_inflation,
            self.config.inflation_decay_rate,
        );
        let kind = decision::action_kind(&choice.action);
        ThompsonDecision {
            action: choice.action,
            q_point: choice.points.get(kind),
            q_sampled: choice.sampled.get(kind),
            posterior_std: choice.deviations.get(kind),
            all_sampled_q: choice.sampled,
            all_point_q: choice.points,
            hold_degeneration_detected,
            consistency_fallback: choice.consistency_fallback,
        }
    }

    /// Whether buying and selling both look good, and about equally so.
    pub fn check_action_consistency(&self, q_buy: Scalar, q_sell: Scalar) -> (r: bool)
        ensures
            r == decision::undecided(q_buy, q_sell, self.config.consistency_threshold),
    {
        decision::check_consistency(q_buy, q_sell, self.config.consistency_threshold)
    }

    /// The best action among those allowed.
    pub fn select_action(
        &self,
        sampled_q: &ActionValues,
        buy_allowed: bool,
        sell_allowed: bool,
    ) -> (r: QAction)
        ensures
            r == decision::best_allowed(*sampled_q, buy_allowed, sell_allowed),
    {
        decision::select_best(sampled_q, buy_allowed, sell_allowed)
    }

    /// The lot for a multiplier.
    pub fn compute_lot_size(&self, lot_multiplier: Scalar) -> (r: u64)
        ensures
            r == decision::lot_for(
                self.config.default_lot_size,
                self.config.max_lot_size,
                lot_multiplier,
            ),
    {
        decision::lot_size(self.config.default_lot_size, self.config.max_lot_size, lot_multiplier)
    }

    /// Whether trades have become too rare.
    pub fn check_hold_degeneration(&self) -> (r: bool)
        ensures
            r == decision::too_rare(
                self.trade_tracker.history@,
                self.total_decisions as nat,
                self.config.trade_rules(),
            ),
    {
        decision::is_too_rare(
            &self.trade_tracker.history,
            self.total_decisions,
            &self.config.rules(),
        )
    }

    /// The share of decisions that traded.
    pub fn trade_frequency(&self) -> (r: Scalar)
        ensures
            r == decision::frequency_of(self.trade_tracker.history@),
    {
        self.trade_tracker.frequency()
    }

    /// How many decisions there were.
    pub fn total_decisions(&self) -> (r: usize)
        ensures
            r == self.total_decisions,
    {
        self.total_decisions
    }

    /// How wide the posterior counts as; one is not widened.
    pub fn current_inflation(&self) -> (r: Scalar)
        ensures
            r == self.current_inflation,
    {
        self.current_inflation
    }

    pub fn q_function(&self) -> (r: &QFunction)
        ensures
            *r == self.q_function,
    {
        &self.q_function
    }

    /// The Q-function, to change.
    pub fn q_function_mut(&mut self) -> (r: &mut QFunction)
        ensures
            *r == old(self).q_function,
            *final(self) == (ThompsonSamplingPolicy { q_function: *final(r), ..*old(self) }),
    {
        &mut self.q_function
    }

    pub fn config(&self) -> (r: &ThompsonSamplingConfig)
        ensures
            *r == self.config,
    {
        &self.config
    }

    /// Forgets which decisions traded.
    pub fn reset_trade_tracker(&mut self)
        ensures
            old(self).valid() ==> final(self).valid(),
            final(self).trade_tracker.window == old(self).trade_tracker.window,
            final(self).trade_tracker.history@ == Seq::<bool>::empty(),
            final(self).total_decisions == 0,
            final(self).q_function == old(self).q_function,
            final(self).config == old(self).config,
            final(self).current_inflation == old(self).current_inflation,
    {
        self.trade_tracker.reset();
        self.total_decisions = 0;
    }
}

} // verus!
