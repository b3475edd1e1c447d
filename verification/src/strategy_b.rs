//! Volatility decay momentum.
//!
//! When volatility falls after a spike, the move that the order book points to is followed for
//! minutes.

use crate::bayesian_lr;
use crate::bayesian_lr::{ActionDraws, ActionValues, QAction, QFunction, UpdateResult};
use crate::decision;
use crate::decision::{Choice, DecisionModel, Situation, StrategyModel, TradeRules};
use crate::extractor;
use crate::features::FeatureVector;
use crate::policy::Action;
use crate::relations;
use crate::scalar;
use crate::scalar::Scalar;
use crate::state::{StateSnapshot, StrategyId};
use vstd::prelude::*;
use vstd::string::*;

verus! {

/// How many features the strategy adds.
pub const STRATEGY_B_EXTRA_DIM: usize = 5;

/// How many features the strategy decides on.
pub const STRATEGY_B_FEATURE_DIM: usize = 43;

/// Parameters of the strategy.
#[derive(Debug, Clone, Copy, PartialEq, Eq, Structural)]
pub struct StrategyBConfig {
    /// Trigger: the volatility ratio is above this.
    pub vol_spike_threshold: Scalar,
    /// Trigger: the volatility changes by less than this.
    pub vol_decaying_threshold: Scalar,
    /// Trigger: the magnitude of the order book imbalance is above this.
    pub obi_alignment_threshold: Scalar,
    /// Trigger: the divergence of the regime is below this.
    pub regime_kl_threshold: Scalar,
    /// The longest time that a position is held, in milliseconds.
    pub max_hold_time_ms: u64,
    /// How fast the worth of a position decays, per millisecond.
    pub decay_rate_b: Scalar,
    /// Regularization strength of the Q-function.
    pub lambda_reg: Scalar,
    /// Halflife of the noise variance, in observations.
    pub halflife: usize,
    /// Noise variance before any observation.
    pub initial_sigma2: Scalar,
    /// Bias of buying and selling before any observation.
    pub optimistic_bias: Scalar,
    /// Weight of the noise in the cost of a trade.
    pub non_model_uncertainty_k: Scalar,
    /// Cost of a millisecond of latency.
    pub latency_penalty_k: Scalar,
    /// The least share of decisions that trade.
    pub min_trade_frequency: Scalar,
    /// Over how many decisions that share is taken.
    pub trade_frequency_window: usize,
    /// How far the posterior is widened where trades are too rare.
    pub hold_degeneration_inflation: Scalar,
    /// The greatest lot.
    pub max_lot_size: u64,
    /// The least lot; a smaller one is not traded.
    pub min_lot_size: u64,
    /// How close buying and selling may be before neither is done.
    pub consistency_threshold: Scalar,
    /// The lot before its multiplier.
    pub default_lot_size: u64,
}

impl Default for StrategyBConfig {
    fn default() -> (r: StrategyBConfig)
        ensures
            r == (StrategyBConfig {
                vol_spike_threshold: Scalar::of_int(2),
                vol_decaying_threshold: Scalar::of_int(0),
                obi_alignment_threshold: Scalar::of_ratio(1, 10),
                regime_kl_threshold: Scalar::of_int(1),
                max_hold_time_ms: 300_000,
                decay_rate_b: Scalar::of_ratio(1, 10000),
                lambda_reg: Scalar::of_ratio(1, 100),
                halflife: 500,
                initial_sigma2: Scalar::of_ratio(1, 100),
                optimistic_bias: Scalar::of_ratio(1, 100),
                non_model_uncertainty_k: Scalar::of_ratio(1, 10),
                latency_penalty_k: Scalar::of_ratio(1, 1000),
                min_trade_frequency: Scalar::of_ratio(2, 100),
                trade_frequency_window: 500,
                hold_degeneration_inflation: Scalar::of_ratio(3, 2),
                max_lot_size: 1_000_000,
                min_lot_size: 1000,
                consistency_threshold: Scalar::of_ratio(1, 20),
                default_lot_size: 100_000,
            }),
    {
        StrategyBConfig {
            vol_spike_threshold: Scalar::from_u64(2),
            vol_decaying_threshold: Scalar::from_u64(0),
            obi_alignment_threshold: Scalar::ratio(1, 10),
            regime_kl_threshold: Scalar::from_u64(1),
            max_hold_time_ms: 300_000,
            decay_rate_b: Scalar::ratio(1, 10000),
            lambda_reg: Scalar::ratio(1, 100),
            halflife: 500,
            initial_sigma2: Scalar::ratio(1, 100),
            optimistic_bias: Scalar::ratio(1, 100),
            non_model_uncertainty_k: Scalar::ratio(1, 10),
            latency_penalty_k: Scalar::ratio(1, 1000),
            min_trade_frequency: Scalar::ratio(2, 100),
            trade_frequency_window: 500,
            hold_degeneration_inflation: Scalar::ratio(3, 2),
            max_lot_size: 1_000_000,
            min_lot_size: 1000,
            consistency_threshold: Scalar::ratio(1, 20),
            default_lot_size: 100_000,
        }
    }
}

impl StrategyBConfig {
    /// The parameters of the choice.
    pub open spec fn trade_rules(self) -> TradeRules {
        TradeRules {
            non_model_uncertainty_k: self.non_model_uncertainty_k,
            latency_penalty_k: self.latency_penalty_k,
            min_trade_frequency: self.min_trade_frequency,
            trade_frequency_window: self.trade_frequency_window,
            hold_degeneration_inflation: self.hold_degeneration_inflation,
            max_lot_size: self.max_lot_size,
            min_lot_size: self.min_lot_size,
            consistency_threshold: self.consistency_threshold,
            default_lot_size: self.default_lot_size,
        }
    }

    fn rules(&self) -> (r: TradeRules)
        ensures
            r == self.trade_rules(),
    {
        TradeRules {
            non_model_uncertainty_k: self.non_model_uncertainty_k,
            latency_penalty_k: self.latency_penalty_k,
            min_trade_frequency: self.min_trade_frequency,
            trade_frequency_window: self.trade_frequency_window,
            hold_degeneration_inflation: self.hold_degeneration_inflation,
            max_lot_size: self.max_lot_size,
            min_lot_size: self.min_lot_size,
            consistency_threshold: self.consistency_threshold,
            default_lot_size: self.default_lot_size,
        }
    }

    /// High volatility that decays, an uneven book, and a known regime.
    pub open spec fn triggers(self, features: FeatureVector, regime_kl: Scalar) -> bool {
        &&& self.vol_spike_threshold.below(features.volatility_ratio)
        &&& features.volatility_decay_rate.below(self.vol_decaying_threshold)
        &&& self.obi_alignment_threshold.below(features.obi.magnitude())
        &&& regime_kl.below(self.regime_kl_threshold)
    }
}

/// Whether an episode is under way, and since when.
#[derive(Debug, Clone, Copy, PartialEq, Eq, Structural)]
pub enum EpisodeStateB {
    Idle,
    Active { entry_timestamp_ns: u64 },
}

impl EpisodeStateB {
    /// When the episode under way began.
    pub open spec fn began(self) -> Option<u64> {
        match self {
            EpisodeStateB::Idle => None,
            EpisodeStateB::Active { entry_timestamp_ns } => Some(entry_timestamp_ns),
        }
    }

    fn entry(&self) -> (r: Option<u64>)
        ensures
            r == self.began(),
    {
        match self {
            EpisodeStateB::Idle => None,
            EpisodeStateB::Active { entry_timestamp_ns } => Some(*entry_timestamp_ns),
        }
    }
}

/// What the strategy decides.
#[derive(Debug, Clone, PartialEq)]
pub struct StrategyBDecision {
    pub action: Action,
    /// Point estimate of the action, for monitoring.
    pub q_point: Scalar,
    /// Sampled Q-value of the action, after costs.
    pub q_sampled: Scalar,
    /// Posterior standard deviation of the action, for monitoring.
    pub posterior_std: Scalar,
    pub triggered: bool,
    pub episode_active: bool,
    pub should_close: bool,
    pub skip_reason: Option<String>,
    pub remaining_hold_time_ms: u64,
    pub hold_degeneration_detected: bool,
    pub consistency_fallback: bool,
}

impl View for StrategyBDecision {
    type V = DecisionModel;

    open spec fn view(&self) -> DecisionModel {
        DecisionModel {
            action: self.action,
            q_point: self.q_point,
            q_sampled: self.q_sampled,
            posterior_std: self.posterior_std,
            triggered: self.triggered,
            episode_active: self.episode_active,
            should_close: self.should_close,
            skip_reason: match self.skip_reason {
                Some(reason) => Some(reason@),
                None => None,
            },
            remaining_hold_time_ms: self.remaining_hold_time_ms,
            hold_degeneration_detected: self.hold_degeneration_detected,
            consistency_fallback: self.consistency_fallback,
        }
    }
}

/// How likely a move goes on: from decaying volatility, the book, and trade intensity.
pub open spec fn p_continue_b(base: FeatureVector) -> Scalar {
    let one = Scalar::of_int(1);
    let vol_decay_signal = if base.volatility_decay_rate.below(Scalar::of_int(0)) {
        base.volatility_decay_rate.negated().lesser(one)
    } else {
        Scalar::of_int(0)
    };
    decision::blend(
        vol_decay_signal,
        base.obi.magnitude().lesser(one),
        base.trade_intensity.over(Scalar::of_int(10)).lesser(one),
    )
}

/// The features that the strategy decides on: the base features, volatility against
/// book, order flow against trade intensity, likely continuation, what is left of the worth of the
/// position, and volatility against volume.
pub open spec fn features_b(base: FeatureVector, decayed: Scalar) -> Seq<Scalar> {
    base.flat() + seq![
        base.realized_volatility.times(base.obi),
        base.delta_obi.times(base.trade_intensity),
        p_continue_b(base),
        extractor::time_decay_of(base.holding_time_ms, decayed),
        base.volatility_ratio.times(base.signed_volume),
    ]
}

/// Follows moves that emerge as volatility decays.
#[derive(Debug, Clone, PartialEq)]
pub struct StrategyB {
    pub config: StrategyBConfig,
    pub episode: EpisodeStateB,
    pub q_function: QFunction,
    /// Which of the last decisions traded.
    pub trade_history: Vec<bool>,
    pub total_decisions: usize,
}

impl StrategyB {
    /// The Q-function has the dimension of the features, the record keeps to its window.
    pub open spec fn valid(self) -> bool {
        &&& self.q_function.valid()
        &&& self.q_function.dim == STRATEGY_B_FEATURE_DIM
        &&& self.trade_history@.len() <= self.config.trade_frequency_window
    }

    /// What the strategy remembers.
    pub open spec fn memory(self) -> StrategyModel {
        StrategyModel {
            entry: self.episode.began(),
            trades: self.trade_history@,
            total_decisions: self.total_decisions as nat,
        }
    }

    /// What the strategy decides on.
    pub open spec fn situation(
        self,
        base_features: FeatureVector,
        state: StateSnapshot,
        regime_kl: Scalar,
        now_ns: u64,
    ) -> Situation {
        Situation {
            now_ns,
            max_hold_time_ms: self.config.max_hold_time_ms,
            holds: decision::holds(state, StrategyId::B),
            size: decision::size_held(state, StrategyId::B),
            triggered: self.config.triggers(base_features, regime_kl),
            exits_on_signal: false,
        }
    }

    /// What the strategy chooses where it comes to a choice.
    pub open spec fn choice(
        self,
        base_features: FeatureVector,
        state: StateSnapshot,
        latency_ms: Scalar,
        decayed: Scalar,
        draws: ActionDraws,
    ) -> Choice {
        decision::choice_of(
            self.q_function,
            features_b(base_features, decayed),
            draws,
            base_features,
            state,
            self.config.non_model_uncertainty_k,
            latency_ms,
            true,
            self.config.trade_rules(),
        )
    }

    /// The decision, and what the strategy remembers after it.
    pub open spec fn verdict(
        self,
        base_features: FeatureVector,
        state: StateSnapshot,
        regime_kl: Scalar,
        latency_ms: Scalar,
        now_ns: u64,
        decayed: Scalar,
        draws: ActionDraws,
    ) -> (StrategyModel, DecisionModel) {
        decision::decided(
            self.memory(),
            self.situation(base_features, state, regime_kl, now_ns),
            self.choice(base_features, state, latency_ms, decayed, draws),
            self.config.trade_rules(),
        )
    }

    /// A strategy that has learnt nothing. `kept` is the exponential of
    /// `BayesianLinearRegression::decay_exponent` of the halflife.
    pub fn new(config: StrategyBConfig, kept: Scalar) -> (r: StrategyB)
        requires
            Scalar::of_int(0).below(config.lambda_reg),
            Scalar::of_int(0).below(config.initial_sigma2),
        ensures
            r.valid(),
            r.config == config,
            r.memory() == (StrategyModel { entry: None, trades: Seq::empty(), total_decisions: 0 }),
            r.q_function.initial_sigma2 == config.initial_sigma2,
            r.q_function.optimistic_bias == config.optimistic_bias,
            forall|action: QAction|
                {
                    let model = #[trigger] r.q_function.of(action);
                    &&& bayesian_lr::starts(model, action, config.optimistic_bias)
                    &&& model.lambda_reg == config.lambda_reg
                    &&& model.ema_alpha == Scalar::of_int(1).minus(kept)
                    &&& model.sigma2_noise == config.initial_sigma2
                    &&& model.residual_var_ema == config.initial_sigma2
                    &&& model.divergence_threshold == Scalar::of_int(2)
                },
    {
        let q_function = QFunction::new(
            STRATEGY_B_FEATURE_DIM,
            config.lambda_reg,
            kept,
            config.initial_sigma2,
            config.optimistic_bias,
        );
        StrategyB {
            config,
            episode: EpisodeStateB::Idle,
            q_function,
            trade_history: Vec::new(),
            total_decisions: 0,
        }
    }

    /// Whether the trigger conditions are met.
    pub fn is_triggered(&self, features: &FeatureVector, regime_kl: Scalar) -> (r: bool)
        ensures
            r == self.config.triggers(*features, regime_kl),
    {
        features.volatility_ratio.gt(self.config.vol_spike_threshold)
            && features.volatility_decay_rate.lt(self.config.vol_decaying_threshold)
            && features.obi.abs().gt(self.config.obi_alignment_threshold) && regime_kl.lt(
            self.config.regime_kl_threshold,
        )
    }

    /// The exponent whose exponential `extract_features` takes, for a position held for so long.
    pub fn time_decay_exponent(&self, holding_time_ms: Scalar) -> (r: Scalar)
        ensures
            r == self.config.decay_rate_b.negated().times(holding_time_ms),
            self.config.decay_rate_b.finite() && holding_time_ms.finite() ==> relations::rounds(
                r,
                -(self.config.decay_rate_b.value() * holding_time_ms.value()),
                scalar::one_unit(),
            ),
    {
        proof {
            relations::negated_product(self.config.decay_rate_b, holding_time_ms);
        }
        self.config.decay_rate_b.neg_of().mul(holding_time_ms)
    }

    /// The features that the strategy decides on.
    pub fn extract_features(&self, base: &FeatureVector, decayed: Scalar) -> (r: Vec<Scalar>)
        ensures
            r@ == features_b(*base, decayed),
            r@.len() == STRATEGY_B_FEATURE_DIM,
    {
        let mut phi = base.flattened();
        phi.push(base.realized_volatility.mul(base.obi));
        phi.push(base.delta_obi.mul(base.trade_intensity));
        phi.push(self.compute_p_continue_b(base));
        phi.push(self.compute_time_decay_b(base.holding_time_ms, decayed));
        phi.push(base.volatility_ratio.mul(base.signed_volume));
        assert(phi@ =~= features_b(*base, decayed));
        phi
    }

    /// How likely a move goes on.
    pub fn compute_p_continue_b(&self, base: &FeatureVector) -> (r: Scalar)
        ensures
            r == p_continue_b(*base),
    {
        let one = Scalar::from_u64(1);
        let vol_decay_signal = if base.volatility_decay_rate.lt(Scalar::from_u64(0)) {
            base.volatility_decay_rate.neg_of().min(one)
        } else {
            Scalar::from_u64(0)
        };
        let obi_signal = base.obi.abs().min(one);
        let intensity_signal = base.trade_intensity.div(Scalar::from_u64(10)).min(one);
        decision::blended(vol_decay_signal, obi_signal, intensity_signal)
    }

    /// What is left of the worth of a position.
    pub fn compute_time_decay_b(&self, holding_time_ms: Scalar, decayed: Scalar) -> (r: Scalar)
        ensures
            r == extractor::time_decay_of(holding_time_ms, decayed),
    {
        extractor::time_decay(holding_time_ms, decayed)
    }

    /// Begins an episode.
    pub fn start_episode(&mut self, timestamp_ns: u64)
        ensures
            *final(self) == (StrategyB {
                episode: EpisodeStateB::Active { entry_timestamp_ns: timestamp_ns },
                ..*old(self)
            }),
    {
        self.episode = EpisodeStateB::Active { entry_timestamp_ns: timestamp_ns };
    }

    /// Ends the episode.
    pub fn end_episode(&mut self)
        ensures
            *final(self) == (StrategyB { episode: EpisodeStateB::Idle, ..*old(self) }),
    {
        self.episode = EpisodeStateB::Idle;
    }

    /// Whether the episode has lasted as long as it may.
    pub fn should_end_episode(&self, now_ns: u64) -> (r: bool)
        requires
            decision::clock_fits(self.episode.began(), now_ns, self.config.max_hold_time_ms),
        ensures
            r == decision::timed_out(self.episode.began(), now_ns, self.config.max_hold_time_ms),
    {
        decision::is_timed_out(self.episode.entry(), now_ns, self.config.max_hold_time_ms)
    }

    /// How long the episode may still last.
    pub fn remaining_hold_time_ms(&self, now_ns: u64) -> (r: u64)
        requires
            self.episode.began() matches Some(entry_ns) ==> entry_ns <= now_ns,
        ensures
            r == decision::time_left(self.episode.began(), now_ns, self.config.max_hold_time_ms),
    {
        decision::remaining_ms(self.episode.entry(), now_ns, self.config.max_hold_time_ms)
    }

    pub fn episode_state(&self) -> (r: &EpisodeStateB)
        ensures
            *r == self.episode,
    {
        &self.episode
    }

    /// Whether the strategy has a position.
    pub fn has_position(&self, state: &StateSnapshot) -> (r: bool)
        ensures
            r == decision::holds(*state, StrategyId::B),
    {
        decision::holds_position(state, StrategyId::B)
    }

    /// Notes whether a decision traded.
    pub fn record_trade(&mut self, traded: bool)
        requires
            old(self).valid(),
        ensures
            final(self).valid(),
            final(self).memory() == (StrategyModel {
                trades: decision::recorded(
                    old(self).trade_history@,
                    old(self).config.trade_frequency_window as nat,
                    traded,
                ),
                ..old(self).memory()
            }),
            final(self).config == old(self).config,
            final(self).q_function == old(self).q_function,
            final(self).episode == old(self).episode,
    {
        decision::record(&mut self.trade_history, self.config.trade_frequency_window, traded);
    }

    /// The share of decisions that traded.
    pub fn trade_frequency(&self) -> (r: Scalar)
        ensures
            r == decision::frequency_of(self.trade_history@),
    {
        decision::frequency(&self.trade_history)
    }

    /// Whether trades have become too rare.
    pub fn check_hold_degeneration(&self) -> (r: bool)
        ensures
            r == decision::too_rare(
                self.trade_history@,
                self.total_decisions as nat,
                self.config.trade_rules(),
            ),
    {
        decision::is_too_rare(&self.trade_history, self.total_decisions, &self.config.rules())
    }

    /// Whether buying and selling both look good, and about equally so.
    pub fn check_action_consistency(&self, q_buy: Scalar, q_sell: Scalar) -> (r: bool)
        ensures
            r == decision::undecided(q_buy, q_sell, self.config.consistency_threshold),
    {
        decision::check_consistency(q_buy, q_sell, self.config.consistency_threshold)
    }

    /// The lot for a multiplier.
    pub fn compute_lot_size(&self, lot_multiplier: Scalar) -> (r: u64)
        ensures
            r == decision::lot_for(
                self.config.default_lot_size,
                self.config.max_lot_size,
                lot_multiplier,
            ),
    {
        decision::lot_size(self.config.default_lot_size, self.config.max_lot_size, lot_multiplier)
    }

    /// The best action among those allowed.
    pub fn select_action(
        &self,
        sampled_q: &ActionValues,
        buy_allowed: bool,
        sell_allowed: bool,
    ) -> (r: QAction)
        ensures
            r == decision::best_allowed(*sampled_q, buy_allowed, sell_allowed),
    {
        decision::select_best(sampled_q, buy_allowed, sell_allowed)
    }

    /// Whether `decide` will come to a choice, and so use its draws.
    pub fn wants_draws(
        &self,
        base_features: &FeatureVector,
        state: &StateSnapshot,
        regime_kl: Scalar,
        now_ns: u64,
    ) -> (r: bool)
        requires
            decision::clock_fits(self.episode.began(), now_ns, self.config.max_hold_time_ms),
        ensures
            r == self.situation(*base_features, *state, regime_kl, now_ns).chooses(self.memory()),
    {
        if self.should_end_episode(now_ns) {
            return false;
        }
        (self.episode.entry().is_some() && self.has_position(state)) || self.is_triggered(
            base_features,
            regime_kl,
        )
    }

    /// Whether `decide` will find that trades have become too rare, and so widen the posterior.
    pub fn will_widen(
        &self,
        base_features: &FeatureVector,
        state: &StateSnapshot,
        regime_kl: Scalar,
        latency_ms: Scalar,
        now_ns: u64,
        decayed: Scalar,
        draws: &ActionDraws,
    ) -> (r: bool)
        requires
            self.valid(),
            self.total_decisions < usize::MAX,
            decision::clock_fits(self.episode.began(), now_ns, self.config.max_hold_time_ms),
            self.situation(*base_features, *state, regime_kl, now_ns).chooses(self.memory())
                ==> self.q_function.fits(*draws),
        ensures
            r == self.verdict(
                *base_features,
                *state,
                regime_kl,
                latency_ms,
                now_ns,
                decayed,
                *draws,
            ).1.hold_degeneration_detected,
    {
        if !self.wants_draws(base_features, state, regime_kl, now_ns) {
            return false;
        }
        let phi = self.extract_features(base_features, decayed);
        let choice = decision::choose_action(
            &self.q_function,
            &phi,
            draws,
            base_features,
            state,
            self.config.non_model_uncertainty_k,
            latency_ms,
            true,
            &self.config.rules(),
        );
        let mut history = self.trade_history.clone();
        assert(history@ =~= self.trade_history@);
        decision::record(
            &mut history,
            self.config.trade_frequency_window,
            choice.action != Action::Hold,
        );
        decision::is_too_rare(&history, self.total_decisions + 1, &self.config.rules())
    }

    /// Decides.
    ///
    /// An expired episode closes its position. An episode without a position is over. Without an
    /// episode and without a trigger nothing is done. Else an action is chosen on the sampled
    /// Q-values after costs, within the limit on the global position; a trade from idle begins an
    /// episode. Where trades have become too rare, the posterior is widened.
    ///
    /// `decayed` is the exponential of `time_decay_exponent` of the holding time in the features,
    /// `draws` the randomness of the sampled Q-values.
    pub fn decide(
        &mut self,
        base_features: &FeatureVector,
        state: &StateSnapshot,
        regime_kl: Scalar,
        latency_ms: Scalar,
        now_ns: u64,
        decayed: Scalar,
        draws: &ActionDraws,
    ) -> (r: StrategyBDecision)
        requires
            old(self).valid(),
            old(self).total_decisions < usize::MAX,
            decision::clock_fits(
                old(self).episode.began(),
                now_ns,
                old(self).config.max_hold_time_ms,
            ),
            old(self).situation(*base_features, *state, regime_kl, now_ns).chooses(
                old(self).memory(),
            ) ==> old(self).q_function.fits(*draws),
            old(self).verdict(
                *base_features,
                *state,
                regime_kl,
                latency_ms,
                now_ns,
                decayed,
                *draws,
            ).1.hold_degeneration_detected ==> Scalar::of_int(1).at_most(
                old(self).config.hold_degeneration_inflation,
            ),
        ensures
            final(self).valid(),
            final(self).config == old(self).config,
            ({
                let (after, d) = old(self).verdict(
                    *base_features,
                    *state,
                    regime_kl,
                    latency_ms,
                    now_ns,
                    decayed,
                    *draws,
                );
                &&& final(self).memory() == after
                &&& r@ == d
                &&& if old(self).situation(*base_features, *state, regime_kl, now_ns).chooses(
                    old(self).memory(),
                ) {
                    if d.hold_degeneration_detected {
                        final(self).q_function.inflated(
                            old(self).q_function,
                            old(self).config.hold_degeneration_inflation,
                        )
                    } else {
                        final(self).q_function == old(self).q_function
                    }
                } else {
                    final(self).q_function == old(self).q_function
                }
            }),
            !r.hold_degeneration_detected ==> final(self).q_function == old(self).q_function,
    {
        self.total_decisions = self.total_decisions + 1;
        let zero = Scalar::from_u64(0);

        if self.should_end_episode(now_ns) {
            let close_action = decision::closing_action(
                decision::position_size(state, StrategyId::B),
            );
            self.end_episode();
            return StrategyBDecision {
                action: close_action,
                q_point: zero,
                q_sampled: zero,
                posterior_std: zero,
                triggered: false,
                episode_active: false,
                should_close: true,
                skip_reason: Some(String::from_str("MAX_HOLD_TIME exceeded")),
                remaining_hold_time_ms: 0,
                hold_degeneration_detected: false,
                consistency_fallback: false,
            };
        }

        if self.episode != EpisodeStateB::Idle && !self.has_position(state) {
            self.end_episode();
        }

        let is_idle = self.episode == EpisodeStateB::Idle;
        let triggered = self.is_triggered(base_features, regime_kl);
        if is_idle && !triggered {
            self.record_trade(false);
            return StrategyBDecision {
                action: Action::Hold,
                q_point: zero,
                q_sampled: zero,
                posterior_std: zero,
                triggered: false,
                episode_active: false,
                should_close: false,
                skip_reason: Some(String::from_str("trigger conditions not met")),
                remaining_hold_time_ms: 0,
                hold_degeneration_detected: false,
                consistency_fallback: false,
            };
        }

        let phi = self.extract_features(base_features, decayed);
        let choice = decision::choose_action(
            &self.q_function,
            &phi,
            draws,
            base_features,
            state,
            self.config.non_model_uncertainty_k,
            latency_ms,
            true,
            &self.config.rules(),
        );

        let traded = choice.action != Action::Hold;
        self.record_trade(traded);
        if is_idle && traded {
            self.start_episode(now_ns);
        }

        let hold_degeneration_detected = self.check_hold_degeneration();
        if hold_degeneration_detected {
            self.q_function.inflate_covariance(self.config.hold_degeneration_inflation);
        }

        let kind = decision::action_kind(&choice.action);
        StrategyBDecision {
            action: choice.action,
            q_point: choice.points.get(kind),
            q_sampled: choice.sampled.get(kind),
            posterior_std: choice.deviations.get(kind),
            triggered,
            episode_active: self.episode != EpisodeStateB::Idle,
            should_close: false,
            skip_reason: None,
            remaining_hold_time_ms: self.remaining_hold_time_ms(now_ns),
            hold_degeneration_detected,
            consistency_fallback: choice.consistency_fallback,
        }
    }

    /// The Q-function learns from an action that was taken.
    pub fn update(&mut self, action: QAction, phi: &[Scalar], target: Scalar) -> (r: UpdateResult)
        requires
            old(self).valid(),
            phi@.len() == STRATEGY_B_FEATURE_DIM,
            old(self).q_function.of(action).n_observations < usize::MAX,
        ensures
            final(self).valid(),
            *final(self) == (StrategyB {
                q_function: old(self).q_function.with(action, final(self).q_function.of(action)),
                ..*old(self)
            }),
            final(self).q_function.of(action).observed(
                old(self).q_function.of(action),
                phi@,
                target,
                r,
            ),
    {
        self.q_function.update(action, phi, target)
    }

    pub fn q_function(&self) -> (r: &QFunction)
        ensures
            *r == self.q_function,
    {
        &self.q_function
    }

    /// The Q-function, to change.
    pub fn q_function_mut(&mut self) -> (r: &mut QFunction)
        ensures
            *r == old(self).q_function,
            *final(self) == (StrategyB { q_function: *final(r), ..*old(self) }),
    {
        &mut self.q_function
    }

    pub fn config(&self) -> (r: &StrategyBConfig)
        ensures
            *r == self.config,
    {
        &self.config
    }

    /// Forgets which decisions traded.
    pub fn reset_trade_tracker(&mut self)
        requires
            old(self).valid(),
        ensures
            final(self).valid(),
            final(self).memory() == (StrategyModel {
                trades: Seq::empty(),
                total_decisions: 0,
                ..old(self).memory()
            }),
            final(self).config == old(self).config,
            final(self).q_function == old(self).q_function,
            final(self).episode == old(self).episode,
    {
        self.trade_history.clear();
        self.total_decisions = 0;
    }
}

} // verus!
