//! Session structural bias.
//!
//! Early in a trading session the order book often leans one way; that lean is followed for tens of
//! minutes.

use crate::bayesian_lr;
use crate::bayesian_lr::{ActionDraws, ActionValues, QAction, QFunction, UpdateResult};
use crate::decision;
use crate::decision::{Choice, DecisionModel, Situation, StrategyModel, TradeRules};
use crate::extractor;
use crate::features::FeatureVector;
use crate::order;
use crate::policy::Action;
use crate::relations;
use crate::scalar;
use crate::scalar::Scalar;
use crate::state::{StateSnapshot, StrategyId};
use vstd::prelude::*;
use vstd::string::*;

verus! {

/// How many features the strategy adds.
pub const STRATEGY_C_EXTRA_DIM: usize = 5;

/// How many features the strategy decides on.
pub const STRATEGY_C_FEATURE_DIM: usize = 43;

/// Parameters of the strategy.
#[derive(Debug, Clone, Copy, PartialEq, Eq, Structural)]
pub struct StrategyCConfig {
    /// Trigger: the mark of a session is above this.
    pub session_active_threshold: Scalar,
    /// Trigger: the magnitude of the order book imbalance is above this.
    pub obi_significance_threshold: Scalar,
    /// Trigger: the session opened less than this ago, in milliseconds.
    pub max_session_open_ms: Scalar,
    /// Trigger: the divergence of the regime is below this.
    pub regime_kl_threshold: Scalar,
    /// The longest time that a position is held, in milliseconds.
    pub max_hold_time_ms: u64,
    /// How fast the worth of a position decays, per millisecond.
    pub decay_rate_c: Scalar,
    /// Regularization strength of the Q-function.
    pub lambda_reg: Scalar,
    /// Halflife of the noise variance, in observations.
    pub halflife: usize,
    /// Noise variance before any observation.
    pub initial_sigma2: Scalar,
    /// Bias of buying and selling before any observation.
    pub optimistic_bias: Scalar,
    /// Weight of the noise in the cost of a trade.
    pub non_model_uncertainty_k: Scalar,
    /// Cost of a millisecond of latency.
    pub latency_penalty_k: Scalar,
    /// The least share of decisions that trade.
    pub min_trade_frequency: Scalar,
    /// Over how many decisions that share is taken.
    pub trade_frequency_window: usize,
    /// How far the posterior is widened where trades are too rare.
    pub hold_degeneration_inflation: Scalar,
    /// How much of the widening stays at each decision once trades are frequent again.
    pub inflation_decay_rate: Scalar,
    /// The greatest lot.
    pub max_lot_size: u64,
    /// The least lot; a smaller one is not traded.
    pub min_lot_size: u64,
    /// How close buying and selling may be before neither is done.
    pub consistency_threshold: Scalar,
    /// The lot before its multiplier.
    pub default_lot_size: u64,
}

impl Default for StrategyCConfig {
    fn default() -> (r: StrategyCConfig)
        ensures
            r == (StrategyCConfig {
                session_active_threshold: Scalar::of_ratio(1, 2),
                obi_significance_threshold: Scalar::of_ratio(3, 20),
                max_session_open_ms: Scalar::of_int(1200000),
                regime_kl_threshold: Scalar::of_int(1),
                max_hold_time_ms: 600_000,
                decay_rate_c: Scalar::of_ratio(5, 100000),
                lambda_reg: Scalar::of_ratio(1, 100),
                halflife: 500,
                initial_sigma2: Scalar::of_ratio(1, 100),
                optimistic_bias: Scalar::of_ratio(1, 100),
                non_model_uncertainty_k: Scalar::of_ratio(1, 10),
                latency_penalty_k: Scalar::of_ratio(1, 1000),
                min_trade_frequency: Scalar::of_ratio(2, 100),
                trade_frequency_window: 500,
                hold_degeneration_inflation: Scalar::of_ratio(3, 2),
                inflation_decay_rate: Scalar::of_ratio(99, 100),
                max_lot_size: 1_000_000,
                min_lot_size: 1000,
                consistency_threshold: Scalar::of_ratio(1, 20),
                default_lot_size: 100_000,
            }),
    {
        StrategyCConfig {
            session_active_threshold: Scalar::ratio(1, 2),
            obi_significance_threshold: Scalar::ratio(3, 20),
            max_session_open_ms: Scalar::from_u64(1200000),
            regime_kl_threshold: Scalar::from_u64(1),
            max_hold_time_ms: 600_000,
            decay_rate_c: Scalar::ratio(5, 100000),
            lambda_reg: Scalar::ratio(1, 100),
            halflife: 500,
            initial_sigma2: Scalar::ratio(1, 100),
            optimistic_bias: Scalar::ratio(1, 100),
            non_model_uncertainty_k: Scalar::ratio(1, 10),
            latency_penalty_k: Scalar::ratio(1, 1000),
            min_trade_frequency: Scalar::ratio(2, 100),
            trade_frequency_window: 500,
            hold_degeneration_inflation: Scalar::ratio(3, 2),
            inflation_decay_rate: Scalar::ratio(99, 100),
            max_lot_size: 1_000_000,
            min_lot_size: 1000,
            consistency_threshold: Scalar::ratio(1, 20),
            default_lot_size: 100_000,
        }
    }
}

impl StrategyCConfig {
    /// The parameters of the choice.
    pub open spec fn trade_rules(self) -> TradeRules {
        TradeRules {
            non_model_uncertainty_k: self.non_model_uncertainty_k,
            latency_penalty_k: self.latency_penalty_k,
            min_trade_frequency: self.min_trade_frequency,
            trade_frequency_window: self.trade_frequency_window,
            hold_degeneration_inflation: self.hold_degeneration_inflation,
            max_lot_size: self.max_lot_size,
            min_lot_size: self.min_lot_size,
            consistency_threshold: self.consistency_threshold,
            default_lot_size: self.default_lot_size,
        }
    }

    fn rules(&self) -> (r: TradeRules)
        ensures
            r == self.trade_rules(),
    {
        TradeRules {
            non_model_uncertainty_k: self.non_model_uncertainty_k,
            latency_penalty_k: self.latency_penalty_k,
            min_trade_frequency: self.min_trade_frequency,
            trade_frequency_window: self.trade_frequency_window,
            hold_degeneration_inflation: self.hold_degeneration_inflation,
            max_lot_size: self.max_lot_size,
            min_lot_size: self.min_lot_size,
            consistency_threshold: self.consistency_threshold,
            default_lot_size: self.default_lot_size,
        }
    }

    /// An open session, an uneven book, early in the session, and a known regime.
    pub open spec fn triggers(self, features: FeatureVector, regime_kl: Scalar) -> bool {
        &&& self.session_active_threshold.below(features.session_tokyo)
            || self.session_active_threshold.below(features.session_london)
            || self.session_active_threshold.below(features.session_ny)
            || self.session_active_threshold.below(features.session_sydney)
        &&& self.obi_significance_threshold.below(features.obi.magnitude())
        &&& features.time_since_open_ms.below(self.max_session_open_ms)
        &&& regime_kl.below(self.regime_kl_threshold)
    }
}

/// Whether an episode is under way, and since when.
#[derive(Debug, Clone, Copy, PartialEq, Eq, Structural)]
pub enum EpisodeStateC {
    Idle,
    Active { entry_timestamp_ns: u64 },
}

impl EpisodeStateC {
    /// When the episode under way began.
    pub open spec fn began(self) -> Option<u64> {
        match self {
            EpisodeStateC::Idle => None,
            EpisodeStateC::Active { entry_timestamp_ns } => Some(entry_timestamp_ns),
        }
    }

    fn entry(&self) -> (r: Option<u64>)
        ensures
            r == self.began(),
    {
        match self {
            EpisodeStateC::Idle => None,
            EpisodeStateC::Active { entry_timestamp_ns } => Some(*entry_timestamp_ns),
        }
    }
}

/// What the strategy decides.
#[derive(Debug, Clone, PartialEq)]
pub struct StrategyCDecision {
    pub action: Action,
    /// Point estimate of the action, for monitoring.
    pub q_point: Scalar,
    /// Sampled Q-value of the action, after costs.
    pub q_sampled: Scalar,
    /// Posterior standard deviation of the action, for monitoring.
    pub posterior_std: Scalar,
    pub triggered: bool,
    pub episode_active: bool,
    pub should_close: bool,
    pub skip_reason: Option<String>,
    pub remaining_hold_time_ms: u64,
    pub hold_degeneration_detected: bool,
    pub consistency_fallback: bool,
}

impl View for StrategyCDecision {
    type V = DecisionModel;

    open spec fn view(&self) -> DecisionModel {
        DecisionModel {
            action: self.action,
            q_point: self.q_point,
            q_sampled: self.q_sampled,
            posterior_std: self.posterior_std,
            triggered: self.triggered,
            episode_active: self.episode_active,
            should_close: self.should_close,
            skip_reason: match self.skip_reason {
                Some(reason) => Some(reason@),
                None => None,
            },
            remaining_hold_time_ms: self.remaining_hold_time_ms,
            hold_degeneration_detected: self.hold_degeneration_detected,
            consistency_fallback: self.consistency_fallback,
        }
    }
}

/// The greatest mark of a session.
pub open spec fn dominant_session(base: FeatureVector) -> Scalar {
    base.session_tokyo.greater(base.session_london).greater(base.session_ny).greater(
        base.session_sydney,
    )
}

/// How likely a trend is: from the book, the session, and how early it is. `time_weight` is the
/// exponential of minus the hours since the session opened.
pub open spec fn p_trend_c(base: FeatureVector, time_weight: Scalar) -> Scalar {
    let one = Scalar::of_int(1);
    decision::blend(
        base.obi.magnitude().lesser(one),
        dominant_session(base),
        if Scalar::of_int(0).below(base.time_since_open_ms) {
            time_weight
        } else {
            one
        },
    )
}

/// The features that the strategy decides on: the base features, session against
/// book, depth against queue, likely trend, what is left of the worth of the position, and book
/// against the age of the session.
pub open spec fn features_c(
    base: FeatureVector,
    time_weight: Scalar,
    decayed: Scalar,
) -> Seq<Scalar> {
    base.flat() + seq![
        base.obi.times(dominant_session(base)),
        base.depth_change_rate.times(base.queue_position),
        p_trend_c(base, time_weight),
        extractor::time_decay_of(base.holding_time_ms, decayed),
        base.obi.times(
            base.time_since_open_ms.over(Scalar::of_int(1_000_000)).lesser(Scalar::of_int(60)),
        ),
    ]
}

/// Follows the lean of the order book early in a session.
#[derive(Debug, Clone, PartialEq)]
pub struct StrategyC {
    pub config: StrategyCConfig,
    pub episode: EpisodeStateC,
    pub q_function: QFunction,
    /// Which of the last decisions traded.
    pub trade_history: Vec<bool>,
    pub total_decisions: usize,
    /// How wide the posterior counts as; one is not widened.
    pub current_inflation: Scalar,
}

impl StrategyC {
    /// The Q-function has the dimension of the features, the record keeps to its window, and the
    /// posterior never counts as narrower than one.
    pub open spec fn valid(self) -> bool {
        &&& self.q_function.valid()
        &&& self.q_function.dim == STRATEGY_C_FEATURE_DIM
        &&& self.trade_history@.len() <= self.config.trade_frequency_window
        &&& !self.current_inflation.below(Scalar::of_int(1))
    }

    /// What the strategy remembers.
    pub open spec fn memory(self) -> StrategyModel {
        StrategyModel {
            entry: self.episode.began(),
            trades: self.trade_history@,
            total_decisions: self.total_decisions as nat,
        }
    }

    /// What the strategy decides on.
    pub open spec fn situation(
        self,
        base_features: FeatureVector,
        state: StateSnapshot,
        regime_kl: Scalar,
        now_ns: u64,
    ) -> Situation {
        Situation {
            now_ns,
            max_hold_time_ms: self.config.max_hold_time_ms,
            holds: decision::holds(state, StrategyId::C),
            size: decision::size_held(state, StrategyId::C),
            triggered: self.config.triggers(base_features, regime_kl),
            exits_on_signal: true,
        }
    }

    /// What the strategy chooses where it comes to a choice.
    pub open spec fn choice(
        self,
        base_features: FeatureVector,
        state: StateSnapshot,
        latency_ms: Scalar,
        time_weight: Scalar,
        decayed: Scalar,
        draws: ActionDraws,
    ) -> Choice {
        decision::choice_of(
            self.q_function,
            features_c(base_features, time_weight, decayed),
            draws,
            base_features,
            state,
            self.config.non_model_uncertainty_k,
            latency_ms,
            self.q_function.buy.n_observations >= 20 && self.q_function.sell.n_observations >= 20,
            self.config.trade_rules(),
        )
    }

    /// The decision, and what the strategy remembers after it.
    pub open spec fn verdict(
        self,
        base_features: FeatureVector,
        state: StateSnapshot,
        regime_kl: Scalar,
        latency_ms: Scalar,
        now_ns: u64,
        time_weight: Scalar,
        decayed: Scalar,
        draws: ActionDraws,
    ) -> (StrategyModel, DecisionModel) {
        decision::decided(
            self.memory(),
            self.situation(base_features, state, regime_kl, now_ns),
            self.choice(base_features, state, latency_ms, time_weight, decayed, draws),
            self.config.trade_rules(),
        )
    }

    /// A strategy that has learnt nothing. `kept` is the exponential of
    /// `BayesianLinearRegression::decay_exponent` of the halflife.
    pub fn new(config: StrategyCConfig, kept: Scalar) -> (r: StrategyC)
        requires
            Scalar::of_int(0).below(config.lambda_reg),
            Scalar::of_int(0).below(config.initial_sigma2),
        ensures
            r.valid(),
            r.config == config,
            r.memory() == (StrategyModel { entry: None, trades: Seq::empty(), total_decisions: 0 }),
            r.current_inflation == Scalar::of_int(1),
            r.q_function.initial_sigma2 == config.initial_sigma2,
            r.q_function.optimistic_bias == config.optimistic_bias,
            forall|action: QAction|
                {
                    let model = #[trigger] r.q_function.of(action);
                    &&& bayesian_lr::starts(model, action, config.optimistic_bias)
                    &&& model.lambda_reg == config.lambda_reg
                    &&& model.ema_alpha == Scalar::of_int(1).minus(kept)
                    &&& model.sigma2_noise == config.initial_sigma2
                    &&& model.residual_var_ema == config.initial_sigma2
                    &&& model.divergence_threshold == Scalar::of_int(2)
                },
    {
        let q_function = QFunction::new(
            STRATEGY_C_FEATURE_DIM,
            config.lambda_reg,
            kept,
            config.initial_sigma2,
            config.optimistic_bias,
        );
        StrategyC {
            config,
            episode: EpisodeStateC::Idle,
            q_function,
            trade_history: Vec::new(),
            total_decisions: 0,
            current_inflation: Scalar::from_u64(1),
        }
    }

    /// Whether the trigger conditions are met.
    pub fn is_triggered(&self, features: &FeatureVector, regime_kl: Scalar) -> (r: bool)
        ensures
            r == self.config.triggers(*features, regime_kl),
    {
        let threshold = self.config.session_active_threshold;
        let session_active = features.session_tokyo.gt(threshold) || features.session_london.gt(
            threshold,
        ) || features.session_ny.gt(threshold) || features.session_sydney.gt(threshold);
        session_active && features.obi.abs().gt(self.config.obi_significance_threshold)
            && features.time_since_open_ms.lt(self.config.max_session_open_ms) && regime_kl.lt(
            self.config.regime_kl_threshold,
        )
    }

    /// The exponent whose exponential `extract_features` takes, for a position held for so long.
    pub fn time_decay_exponent(&self, holding_time_ms: Scalar) -> (r: Scalar)
        ensures
            r == self.config.decay_rate_c.negated().times(holding_time_ms),
            self.config.decay_rate_c.finite() && holding_time_ms.finite() ==> relations::rounds(
                r,
                -(self.config.decay_rate_c.value() * holding_time_ms.value()),
                scalar::one_unit(),
            ),
    {
        proof {
            relations::negated_product(self.config.decay_rate_c, holding_time_ms);
        }
        self.config.decay_rate_c.neg_of().mul(holding_time_ms)
    }

    /// The exponent whose exponential weighs how early it is in a session that opened so long ago.
    pub fn time_weight_exponent(&self, time_since_open_ms: Scalar) -> (r: Scalar)
        ensures
            r == time_since_open_ms.negated().over(Scalar::of_int(3_600_000)),
            time_since_open_ms.finite() ==> relations::rounds(
                r,
                -time_since_open_ms.value(),
                3_600_000,
            ),
    {
        proof {
            if time_since_open_ms.finite() {
                order::negated_value(time_since_open_ms);
                relations::part_of(time_since_open_ms.negated(), 3_600_000);
            }
        }
        time_since_open_ms.neg_of().div(Scalar::from_u64(3_600_000))
    }

    /// The features that the strategy decides on.
    pub fn extract_features(
        &self,
        base: &FeatureVector,
        time_weight: Scalar,
        decayed: Scalar,
    ) -> (r: Vec<Scalar>)
        ensures
            r@ == features_c(*base, time_weight, decayed),
            r@.len() == STRATEGY_C_FEATURE_DIM,
    {
        let mut phi = base.flattened();
        phi.push(self.compute_session_x_obi(base));
        phi.push(base.depth_change_rate.mul(base.queue_position));
        phi.push(self.compute_p_trend_c(base, time_weight));
        phi.push(self.compute_time_decay_c(base.holding_time_ms, decayed));
        phi.push(base.obi.mul(
            base.time_since_open_ms.div(Scalar::from_u64(1_000_000)).min(Scalar::from_u64(60)),
        ));
        assert(phi@ =~= features_c(*base, time_weight, decayed));
        phi
    }

    /// The greatest mark of a session.
    fn get_dominant_session(&self, base: &FeatureVector) -> (r: Scalar)
        ensures
            r == dominant_session(*base),
    {
        base.session_tokyo.max(base.session_london).max(base.session_ny).max(base.session_sydney)
    }

    /// The book, weighed with the session.
    pub fn compute_session_x_obi(&self, base: &FeatureVector) -> (r: Scalar)
        ensures
            r == base.obi.times(dominant_session(*base)),
    {
        base.obi.mul(self.get_dominant_session(base))
    }

    /// How likely a trend is.
    pub fn compute_p_trend_c(&self, base: &FeatureVector, time_weight: Scalar) -> (r: Scalar)
        ensures
            r == p_trend_c(*base, time_weight),
    {
        let one = Scalar::from_u64(1);
        let obi_signal = base.obi.abs().min(one);
        let weight = if base.time_since_open_ms.gt(Scalar::from_u64(0)) {
            time_weight
        } else {
            one
        };
        decision::blended(obi_signal, self.get_dominant_session(base), weight)
    }

    /// What is left of the worth of a position.
    pub fn compute_time_decay_c(&self, holding_time_ms: Scalar, decayed: Scalar) -> (r: Scalar)
        ensures
            r == extractor::time_decay_of(holding_time_ms, decayed),
    {
        extractor::time_decay(holding_time_ms, decayed)
    }

    /// Begins an episode.
    pub fn start_episode(&mut self, timestamp_ns: u64)
        ensures
            *final(self) == (StrategyC {
                episode: EpisodeStateC::Active { entry_timestamp_ns: timestamp_ns },
                ..*old(self)
            }),
    {
        self.episode = EpisodeStateC::Active { entry_timestamp_ns: timestamp_ns };
    }

    /// Ends the episode.
    pub fn end_episode(&mut self)
        ensures
            *final(self) == (StrategyC { episode: EpisodeStateC::Idle, ..*old(self) }),
    {
        self.episode = EpisodeStateC::Idle;
    }

    /// Whether the episode has lasted as long as it may.
    pub fn should_end_episode(&self, now_ns: u64) -> (r: bool)
        requires
            decision::clock_fits(self.episode.began(), now_ns, self.config.max_hold_time_ms),
        ensures
            r == decision::timed_out(self.episode.began(), now_ns, self.config.max_hold_time_ms),
    {
        decision::is_timed_out(self.episode.entry(), now_ns, self.config.max_hold_time_ms)
    }

    /// How long the episode may still last.
    pub fn remaining_hold_time_ms(&self, now_ns: u64) -> (r: u64)
        requires
            self.episode.began() matches Some(entry_ns) ==> entry_ns <= now_ns,
        ensures
            r == decision::time_left(self.episode.began(), now_ns, self.config.max_hold_time_ms),
    {
        decision::remaining_ms(self.episode.entry(), now_ns, self.config.max_hold_time_ms)
    }

    pub fn episode_state(&self) -> (r: &EpisodeStateC)
        ensures
            *r == self.episode,
    {
        &self.episode
    }

    /// Whether the strategy has a position.
    pub fn has_position(&self, state: &StateSnapshot) -> (r: bool)
        ensures
            r == decision::holds(*state, StrategyId::C),
    {
        decision::holds_position(state, StrategyId::C)
    }

    /// Notes whether a decision traded.
    pub fn record_trade(&mut self, traded: bool)
        requires
            old(self).valid(),
        ensures
            final(self).valid(),
            final(self).memory() == (StrategyModel {
                trades: decision::recorded(
                    old(self).trade_history@,
                    old(self).config.trade_frequency_window as nat,
                    traded,
                ),
                ..old(self).memory()
            }),
            final(self).config == old(self).config,
            final(self).q_function == old(self).q_function,
            final(self).episode == old(self).episode,
            final(self).current_inflation == old(self).current_inflation,
    {
        decision::record(&mut self.trade_history, self.config.trade_frequency_window, traded);
    }

    /// The share of decisions that traded.
    pub fn trade_frequency(&self) -> (r: Scalar)
        ensures
            r == decision::frequency_of(self.trade_history@),
    {
        decision::frequency(&self.trade_history)
    }

    /// Whether trades have become too rare.
    pub fn check_hold_degeneration(&self) -> (r: bool)
        ensures
            r == decision::too_rare(
                self.trade_history@,
                self.total_decisions as nat,
                self.config.trade_rules(),
            ),
    {
        decision::is_too_rare(&self.trade_history, self.total_decisions, &self.config.rules())
    }

    /// Whether buying and selling both look good, and about equally so.
    pub fn check_action_consistency(&self, q_buy: Scalar, q_sell: Scalar) -> (r: bool)
        ensures
            r == decision::undecided(q_buy, q_sell, self.config.consistency_threshold),
    {
        decision::check_consistency(q_buy, q_sell, self.config.consistency_threshold)
    }

    /// The lot for a multiplier.
    pub fn compute_lot_size(&self, lot_multiplier: Scalar) -> (r: u64)
        ensures
            r == decision::lot_for(
                self.config.default_lot_size,
                self.config.max_lot_size,
                lot_multiplier,
            ),
    {
        decision::lot_size(self.config.default_lot_size, self.config.max_lot_size, lot_multiplier)
    }

    /// The best action among those allowed.
    pub fn select_action(
        &self,
        sampled_q: &ActionValues,
        buy_allowed: bool,
        sell_allowed: bool,
    ) -> (r: QAction)
        ensures
            r == decision::best_allowed(*sampled_q, buy_allowed, sell_allowed),
    {
        decision::select_best(sampled_q, buy_allowed, sell_allowed)
    }

    /// Whether `decide` will come to a choice, and so use its draws.
    pub fn wants_draws(
        &self,
        base_features: &FeatureVector,
        state: &StateSnapshot,
        regime_kl: Scalar,
        now_ns: u64,
    ) -> (r: bool)
        requires
            decision::clock_fits(self.episode.began(), now_ns, self.config.max_hold_time_ms),
        ensures
            r == self.situation(*base_features, *state, regime_kl, now_ns).chooses(self.memory()),
    {
        if self.should_end_episode(now_ns) {
            return false;
        }
        (self.episode.entry().is_some() && self.has_position(state)) || self.is_triggered(
            base_features,
            regime_kl,
        )
    }

    /// Decides.
    ///
    /// An expired episode closes its position. An episode without a position is over. Without an
    /// episode and without a trigger nothing is done. Else an action is chosen on the sampled
    /// Q-values after costs, within the limit on the global position; a trade from idle begins an
    /// episode. Where trades have become too rare, the posterior is widened.
    ///
    /// `time_weight` is the exponential of `time_weight_exponent` of the time since the session
    /// opened, `decayed` that of `time_decay_exponent` of the holding time, both as in the features;
    /// `draws` is the randomness of the sampled Q-values.
    pub fn decide(
        &mut self,
        base_features: &FeatureVector,
        state: &StateSnapshot,
        regime_kl: Scalar,
        latency_ms: Scalar,
        now_ns: u64,
        time_weight: Scalar,
        decayed: Scalar,
        draws: &ActionDraws,
    ) -> (r: StrategyCDecision)
        requires
            old(self).valid(),
            old(self).total_decisions < usize::MAX,
            decision::clock_fits(
                old(self).episode.began(),
                now_ns,
                old(self).config.max_hold_time_ms,
            ),
            old(self).situation(*base_features, *state, regime_kl, now_ns).chooses(
                old(self).memory(),
            ) ==> old(self).q_function.fits(*draws),
        ensures
            final(self).valid(),
            final(self).config == old(self).config,
            ({
                let (after, d) = old(self).verdict(
                    *base_features,
                    *state,
                    regime_kl,
                    latency_ms,
                    now_ns,
                    time_weight,
                    decayed,
                    *draws,
                );
                &&& final(self).memory() == after
                &&& r@ == d
                &&& if old(self).situation(*base_features, *state, regime_kl, now_ns).chooses(
                    old(self).memory(),
                ) {
                    &&& decision::widened(
                        final(self).q_function,
                        old(self).q_function,
                        decision::widening(
                            old(self).current_inflation,
                            d.hold_degeneration_detected,
                            old(self).config.hold_degeneration_inflation,
                        ),
                    )
                    &&& final(self).current_inflation == decision::width_after(
                        old(self).current_inflation,
                        d.hold_degeneration_detected,
                        old(self).config.hold_degeneration_inflation,
                        old(self).config.inflation_decay_rate,
                    )
                } else {
                    final(self).q_function == old(self).q_function && final(self).current_inflation
                        == old(self).current_inflation
                }
            }),
            !r.hold_degeneration_detected ==> final(self).q_function == old(self).q_function,
            r.hold_degeneration_detected && old(self).current_inflation.below(
                old(self).config.hold_degeneration_inflation,
            ) ==> final(self).current_inflation == old(self).config.hold_degeneration_inflation,
    {
        self.total_decisions = self.total_decisions + 1;
        let zero = Scalar::from_u64(0);

        if self.should_end_episode(now_ns) {
            let close_action = decision::closing_action(
                decision::position_size(state, StrategyId::C),
            );
            self.end_episode();
            return StrategyCDecision {
                action: close_action,
                q_point: zero,
                q_sampled: zero,
                posterior_std: zero,
                triggered: false,
                episode_active: false,
                should_close: true,
                skip_reason: Some(String::from_str("MAX_HOLD_TIME exceeded")),
                remaining_hold_time_ms: 0,
                hold_degeneration_detected: false,
                consistency_fallback: false,
            };
        }

        if self.episode != EpisodeStateC::Idle && !self.has_position(state) {
            self.end_episode();
        }

        let is_idle = self.episode == EpisodeStateC::Idle;
        let triggered = self.is_triggered(base_features, regime_kl);
        if is_idle && !triggered {
            self.record_trade(false);
            return StrategyCDecision {
                action: Action::Hold,
                q_point: zero,
                q_sampled: zero,
                posterior_std: zero,
                triggered: false,
                episode_active: false,
                should_close: false,
                skip_reason: Some(String::from_str("trigger conditions not met")),
                remaining_hold_time_ms: 0,
                hold_degeneration_detected: false,
                consistency_fallback: false,
            };
        }

        let phi = self.extract_features(base_features, time_weight, decayed);
        let checks_consistency = self.q_function.model(QAction::Buy).n_observations() >= 20
            && self.q_function.model(QAction::Sell).n_observations() >= 20;
        let choice = decision::choose_action(
            &self.q_function,
            &phi,
            draws,
            base_features,
            state,
            self.config.non_model_uncertainty_k,
            latency_ms,
            checks_consistency,
            &self.config.rules(),
        );

        let traded = choice.action != Action::Hold;
        self.record_trade(traded);
        if is_idle && traded {
            self.start_episode(now_ns);
        }
        let size = decision::position_size(state, StrategyId::C);
        let should_close = !is_idle && decision::is_against(&choice.action, size);

        let hold_degeneration_detected = self.check_hold_degeneration();
        self.current_inflation = decision::steer(
            &mut self.q_function,
            self.current_inflation,
            hold_degeneration_detected,
            self.config.hold_degeneration_inflation,
            self.config.inflation_decay_rate,
        );

        let kind = decision::action_kind(&choice.action);
        StrategyCDecision {
            action: choice.action,
            q_point: choice.points.get(kind),
            q_sampled: choice.sampled.get(kind),
            posterior_std: choice.deviations.get(kind),
            triggered,
            episode_active: self.episode != EpisodeStateC::Idle,
            should_close,
            skip_reason: if should_close {
                Some(String::from_str("TRIGGER_EXIT close"))
            } else {
                None
            },
            remaining_hold_time_ms: self.remaining_hold_time_ms(now_ns),
            hold_degeneration_detected,
            consistency_fallback: choice.consistency_fallback,
        }
    }

    /// The Q-function learns from an action that was taken.
    pub fn update(&mut self, action: QAction, phi: &[Scalar], target: Scalar) -> (r: UpdateResult)
        requires
            old(self).valid(),
            phi@.len() == STRATEGY_C_FEATURE_DIM,
            old(self).q_function.of(action).n_observations < usize::MAX,
        ensures
            final(self).valid(),
            *final(self) == (StrategyC {
                q_function: old(self).q_function.with(action, final(self).q_function.of(action)),
                ..*old(self)
            }),
            final(self).q_function.of(action).observed(
                old(self).q_function.of(action),
                phi@,
                target,
                r,
            ),
    {
        self.q_function.update(action, phi, target)
    }

    pub fn q_function(&self) -> (r: &QFunction)
        ensures
            *r == self.q_function,
    {
        &self.q_function
    }

    /// The Q-function, to change.
    pub fn q_function_mut(&mut self) -> (r: &mut QFunction)
        ensures
            *r == old(self).q_function,
            *final(self) == (StrategyC { q_function: *final(r), ..*old(self) }),
    {
        &mut self.q_function
    }

    pub fn config(&self) -> (r: &StrategyCConfig)
        ensures
            *r == self.config,
    {
        &self.config
    }

    /// How wide the posterior counts as; one is not widened.
    pub fn current_inflation(&self) -> (r: Scalar)
        ensures
            r == self.current_inflation,
    {
        self.current_inflation
    }

    /// Forgets which decisions traded.
    pub fn reset_trade_tracker(&mut self)
        requires
            old(self).valid(),
        ensures
            final(self).valid(),
            final(self).memory() == (StrategyModel {
                trades: Seq::empty(),
                total_decisions: 0,
                ..old(self).memory()
            }),
            final(self).config == old(self).config,
            final(self).q_function == old(self).q_function,
            final(self).episode == old(self).episode,
            final(self).current_inflation == old(self).current_inflation,
    {
        self.trade_history.clear();
        self.total_decisions = 0;
    }
}

} // verus!
