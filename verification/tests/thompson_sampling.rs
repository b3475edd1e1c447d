#![allow(dead_code)]

use fx_strategy::bayesian_lr;
use fx_strategy::bayesian_lr::{ActionDraws, ActionValues, Draw, QAction};
use fx_strategy::mc_eval::McEvaluator;
use fx_strategy::policy::Action;
use fx_strategy::scalar::Scalar;
use fx_strategy::state::StrategyId;
use fx_strategy::thompson_sampling;
use nalgebra::DMatrix;
use rand::rngs::StdRng;
use rand::{Rng, SeedableRng};
use rand_distr::{Distribution, StandardNormal};
use std::collections::HashMap;

fn s(x: f64) -> Scalar {
    Scalar::from_bits(x.to_bits())
}

fn f(x: Scalar) -> f64 {
    f64::from_bits(x.to_bits())
}

fn scalars(v: &[f64]) -> Vec<Scalar> {
    v.iter().map(|&x| s(x)).collect()
}

fn floats(v: &[Scalar]) -> Vec<f64> {
    v.iter().map(|&x| f(x)).collect()
}

fn seeded_rng() -> StdRng {
    StdRng::seed_from_u64(42)
}

/// The randomness for one draw of weights.
fn draw(model: &bayesian_lr::BayesianLinearRegression, rng: &mut impl Rng) -> Draw {
    let d = model.dim();
    let normals = (0..d).map(|_| s(StandardNormal.sample(rng))).collect();
    let factor = if model.draws_with_factor() {
        DMatrix::from_column_slice(d, d, &floats(&model.a_inv))
            .cholesky()
            .map(|c| scalars(c.l().as_slice()))
    } else {
        None
    };
    Draw { normals, factor }
}

/// The randomness for one draw of weights for each action.
fn draws(q: &bayesian_lr::QFunction, rng: &mut impl Rng) -> ActionDraws {
    ActionDraws {
        buy: draw(&q.buy, rng),
        sell: draw(&q.sell, rng),
        hold: draw(&q.hold, rng),
    }
}

fn kept(halflife: usize) -> Scalar {
    s(f(bayesian_lr::BayesianLinearRegression::decay_exponent(halflife)).exp())
}

#[derive(Debug, Clone, PartialEq)]
struct UpdateResult {
    residual: f64,
    divergence_ratio: f64,
    diverged: bool,
}

impl UpdateResult {
    fn lib(&self) -> fx_strategy::bayesian_lr::UpdateResult {
        fx_strategy::bayesian_lr::UpdateResult {
            residual: s(self.residual),
            divergence_ratio: s(self.divergence_ratio),
            diverged: self.diverged,
        }
    }

    fn plain(x: fx_strategy::bayesian_lr::UpdateResult) -> UpdateResult {
        UpdateResult {
            residual: f(x.residual),
            divergence_ratio: f(x.divergence_ratio),
            diverged: x.diverged,
        }
    }
}

#[derive(Debug, Clone)]
struct BayesianLinearRegression {
    inner: bayesian_lr::BayesianLinearRegression,
}

impl BayesianLinearRegression {
    fn new(dim: usize, lambda_reg: f64, halflife: usize, sigma2: f64) -> BayesianLinearRegression {
        BayesianLinearRegression {
            inner: bayesian_lr::BayesianLinearRegression::new(
                dim,
                s(lambda_reg),
                kept(halflife),
                s(sigma2),
            ),
        }
    }

    fn n_observations(&self) -> usize {
        self.inner.n_observations()
    }

    fn noise_variance(&self) -> f64 {
        f(self.inner.noise_variance())
    }

    fn update(&mut self, phi: &[f64], y: f64) -> UpdateResult {
        UpdateResult::plain(self.inner.update(&scalars(phi), s(y)))
    }

    fn predict(&self, phi: &[f64]) -> f64 {
        f(self.inner.predict(&scalars(phi)))
    }
}

#[derive(Debug, Clone)]
struct QFunction {
    inner: bayesian_lr::QFunction,
}

impl QFunction {
    fn new(dim: usize, lambda_reg: f64, halflife: usize, sigma2: f64, bias: f64) -> QFunction {
        QFunction {
            inner: bayesian_lr::QFunction::new(
                dim,
                s(lambda_reg),
                kept(halflife),
                s(sigma2),
                s(bias),
            ),
        }
    }

    fn dim(&self) -> usize {
        self.inner.dim()
    }

    fn q_value(&self, action: QAction, phi: &[f64]) -> f64 {
        f(self.inner.q_value(action, &scalars(phi)))
    }

    fn q_point(&self, action: QAction, phi: &[f64]) -> f64 {
        f(self.inner.q_point(action, &scalars(phi)))
    }

    fn posterior_std(&self, action: QAction, phi: &[f64]) -> f64 {
        f(self.inner.posterior_std(action, &scalars(phi)))
    }

    fn sample_q_value(&self, action: QAction, phi: &[f64], rng: &mut impl Rng) -> f64 {
        let draw = draw(self.inner.model(action), rng);
        f(self.inner.sample_q_value(action, &scalars(phi), &draw))
    }

    fn update(&mut self, action: QAction, phi: &[f64], target: f64) -> UpdateResult {
        UpdateResult::plain(self.inner.update(action, &scalars(phi), s(target)))
    }

    fn model(&self, action: QAction) -> BayesianLinearRegression {
        BayesianLinearRegression {
            inner: self.inner.model(action).clone(),
        }
    }
}

#[derive(Debug, Clone)]
struct Position {
    size: f64,
    entry_price: f64,
    unrealized_pnl: f64,
    realized_pnl: f64,
    entry_timestamp_ns: u64,
}

#[derive(Debug, Clone)]
struct StateSnapshot {
    positions: HashMap<StrategyId, Position>,
    global_position: f64,
    global_position_limit: f64,
    lot_multiplier: f64,
}

impl StateSnapshot {
    fn lib(&self) -> fx_strategy::state::StateSnapshot {
        let position = |id: StrategyId| {
            self.positions
                .get(&id)
                .map(|p| fx_strategy::state::Position {
                    size: s(p.size),
                    entry_price: s(p.entry_price),
                    unrealized_pnl: s(p.unrealized_pnl),
                    realized_pnl: s(p.realized_pnl),
                })
        };
        fx_strategy::state::StateSnapshot {
            position_a: position(StrategyId::A),
            position_b: position(StrategyId::B),
            position_c: position(StrategyId::C),
            global_position: s(self.global_position),
            global_position_limit: s(self.global_position_limit),
            lot_multiplier: s(self.lot_multiplier),
        }
    }
}

#[derive(Debug, Clone, PartialEq)]
struct FeatureVector {
    spread: f64,
    spread_zscore: f64,
    obi: f64,
    delta_obi: f64,
    depth_change_rate: f64,
    queue_position: f64,
    realized_volatility: f64,
    volatility_ratio: f64,
    volatility_decay_rate: f64,
    session_tokyo: f64,
    session_london: f64,
    session_ny: f64,
    session_sydney: f64,
    time_since_open_ms: f64,
    time_since_last_spike_ms: f64,
    holding_time_ms: f64,
    position_size: f64,
    position_direction: f64,
    entry_price: f64,
    pnl_unrealized: f64,
    trade_intensity: f64,
    signed_volume: f64,
    recent_fill_rate: f64,
    recent_slippage: f64,
    recent_reject_rate: f64,
    execution_drift_trend: f64,
    self_impact: f64,
    time_decay: f64,
    dynamic_cost: f64,
    p_revert: f64,
    p_continue: f64,
    p_trend: f64,
    spread_z_x_vol: f64,
    obi_x_session: f64,
    depth_drop_x_vol_spike: f64,
    position_size_x_vol: f64,
    obi_x_vol: f64,
    spread_z_x_self_impact: f64,
}

impl FeatureVector {
    fn lib(&self) -> fx_strategy::features::FeatureVector {
        fx_strategy::features::FeatureVector {
            spread: s(self.spread),
            spread_zscore: s(self.spread_zscore),
            obi: s(self.obi),
            delta_obi: s(self.delta_obi),
            depth_change_rate: s(self.depth_change_rate),
            queue_position: s(self.queue_position),
            realized_volatility: s(self.realized_volatility),
            volatility_ratio: s(self.volatility_ratio),
            volatility_decay_rate: s(self.volatility_decay_rate),
            session_tokyo: s(self.session_tokyo),
            session_london: s(self.session_london),
            session_ny: s(self.session_ny),
            session_sydney: s(self.session_sydney),
            time_since_open_ms: s(self.time_since_open_ms),
            time_since_last_spike_ms: s(self.time_since_last_spike_ms),
            holding_time_ms: s(self.holding_time_ms),
            position_size: s(self.position_size),
            position_direction: s(self.position_direction),
            entry_price: s(self.entry_price),
            pnl_unrealized: s(self.pnl_unrealized),
            trade_intensity: s(self.trade_intensity),
            signed_volume: s(self.signed_volume),
            recent_fill_rate: s(self.recent_fill_rate),
            recent_slippage: s(self.recent_slippage),
            recent_reject_rate: s(self.recent_reject_rate),
            execution_drift_trend: s(self.execution_drift_trend),
            self_impact: s(self.self_impact),
            time_decay: s(self.time_decay),
            dynamic_cost: s(self.dynamic_cost),
            p_revert: s(self.p_revert),
            p_continue: s(self.p_continue),
            p_trend: s(self.p_trend),
            spread_z_x_vol: s(self.spread_z_x_vol),
            obi_x_session: s(self.obi_x_session),
            depth_drop_x_vol_spike: s(self.depth_drop_x_vol_spike),
            position_size_x_vol: s(self.position_size_x_vol),
            obi_x_vol: s(self.obi_x_vol),
            spread_z_x_self_impact: s(self.spread_z_x_self_impact),
        }
    }

    fn plain(x: fx_strategy::features::FeatureVector) -> FeatureVector {
        FeatureVector {
            spread: f(x.spread),
            spread_zscore: f(x.spread_zscore),
            obi: f(x.obi),
            delta_obi: f(x.delta_obi),
            depth_change_rate: f(x.depth_change_rate),
            queue_position: f(x.queue_position),
            realized_volatility: f(x.realized_volatility),
            volatility_ratio: f(x.volatility_ratio),
            volatility_decay_rate: f(x.volatility_decay_rate),
            session_tokyo: f(x.session_tokyo),
            session_london: f(x.session_london),
            session_ny: f(x.session_ny),
            session_sydney: f(x.session_sydney),
            time_since_open_ms: f(x.time_since_open_ms),
            time_since_last_spike_ms: f(x.time_since_last_spike_ms),
            holding_time_ms: f(x.holding_time_ms),
            position_size: f(x.position_size),
            position_direction: f(x.position_direction),
            entry_price: f(x.entry_price),
            pnl_unrealized: f(x.pnl_unrealized),
            trade_intensity: f(x.trade_intensity),
            signed_volume: f(x.signed_volume),
            recent_fill_rate: f(x.recent_fill_rate),
            recent_slippage: f(x.recent_slippage),
            recent_reject_rate: f(x.recent_reject_rate),
            execution_drift_trend: f(x.execution_drift_trend),
            self_impact: f(x.self_impact),
            time_decay: f(x.time_decay),
            dynamic_cost: f(x.dynamic_cost),
            p_revert: f(x.p_revert),
            p_continue: f(x.p_continue),
            p_trend: f(x.p_trend),
            spread_z_x_vol: f(x.spread_z_x_vol),
            obi_x_session: f(x.obi_x_session),
            depth_drop_x_vol_spike: f(x.depth_drop_x_vol_spike),
            position_size_x_vol: f(x.position_size_x_vol),
            obi_x_vol: f(x.obi_x_vol),
            spread_z_x_self_impact: f(x.spread_z_x_self_impact),
        }
    }

    const DIM: usize = fx_strategy::features::FeatureVector::DIM;

    fn zero() -> FeatureVector {
        FeatureVector::plain(fx_strategy::features::FeatureVector::zero())
    }

    fn flattened(&self) -> Vec<f64> {
        floats(&self.lib().flattened())
    }

    fn from_flattened(flat: &[f64]) -> Option<FeatureVector> {
        fx_strategy::features::FeatureVector::from_flattened(&scalars(flat))
            .map(FeatureVector::plain)
    }
}

#[derive(Debug, Clone)]
struct ThompsonSamplingConfig {
    non_model_uncertainty_k: f64,
    latency_penalty_k: f64,
    min_trade_frequency: f64,
    trade_frequency_window: usize,
    hold_degeneration_inflation: f64,
    inflation_decay_rate: f64,
    max_lot_size: u64,
    min_lot_size: u64,
    consistency_threshold: f64,
    default_lot_size: u64,
}

impl ThompsonSamplingConfig {
    fn lib(&self) -> fx_strategy::thompson_sampling::ThompsonSamplingConfig {
        fx_strategy::thompson_sampling::ThompsonSamplingConfig {
            non_model_uncertainty_k: s(self.non_model_uncertainty_k),
            latency_penalty_k: s(self.latency_penalty_k),
            min_trade_frequency: s(self.min_trade_frequency),
            trade_frequency_window: self.trade_frequency_window,
            hold_degeneration_inflation: s(self.hold_degeneration_inflation),
            inflation_decay_rate: s(self.inflation_decay_rate),
            max_lot_size: self.max_lot_size,
            min_lot_size: self.min_lot_size,
            consistency_threshold: s(self.consistency_threshold),
            default_lot_size: self.default_lot_size,
        }
    }

    fn plain(x: fx_strategy::thompson_sampling::ThompsonSamplingConfig) -> ThompsonSamplingConfig {
        ThompsonSamplingConfig {
            non_model_uncertainty_k: f(x.non_model_uncertainty_k),
            latency_penalty_k: f(x.latency_penalty_k),
            min_trade_frequency: f(x.min_trade_frequency),
            trade_frequency_window: x.trade_frequency_window,
            hold_degeneration_inflation: f(x.hold_degeneration_inflation),
            inflation_decay_rate: f(x.inflation_decay_rate),
            max_lot_size: x.max_lot_size,
            min_lot_size: x.min_lot_size,
            consistency_threshold: f(x.consistency_threshold),
            default_lot_size: x.default_lot_size,
        }
    }
}

impl Default for ThompsonSamplingConfig {
    fn default() -> ThompsonSamplingConfig {
        ThompsonSamplingConfig::plain(fx_strategy::thompson_sampling::ThompsonSamplingConfig::default())
    }
}

struct ThompsonDecision {
    action: Action,
    q_point: f64,
    q_sampled: f64,
    posterior_std: f64,
    all_sampled_q: HashMap<QAction, f64>,
    all_point_q: HashMap<QAction, f64>,
    hold_degeneration_detected: bool,
    consistency_fallback: bool,
}

fn table(values: &ActionValues) -> HashMap<QAction, f64> {
    QAction::all().iter().map(|&a| (a, f(values.get(a)))).collect()
}

fn action_values(q: &HashMap<QAction, f64>) -> ActionValues {
    ActionValues {
        buy: s(q[&QAction::Buy]),
        sell: s(q[&QAction::Sell]),
        hold: s(q[&QAction::Hold]),
    }
}

struct TradeFrequencyTracker {
    inner: thompson_sampling::TradeFrequencyTracker,
}

impl TradeFrequencyTracker {
    fn new(window: usize) -> TradeFrequencyTracker {
        TradeFrequencyTracker {
            inner: thompson_sampling::TradeFrequencyTracker::new(window),
        }
    }

    fn record(&mut self, traded: bool) {
        self.inner.record(traded);
    }

    fn frequency(&self) -> f64 {
        f(self.inner.frequency())
    }

    fn reset(&mut self) {
        self.inner.reset();
    }
}

struct ThompsonSamplingPolicy {
    inner: thompson_sampling::ThompsonSamplingPolicy,
}

impl ThompsonSamplingPolicy {
    fn new(q: QFunction, config: ThompsonSamplingConfig) -> ThompsonSamplingPolicy {
        ThompsonSamplingPolicy {
            inner: thompson_sampling::ThompsonSamplingPolicy::new(q.inner, config.lib()),
        }
    }

    fn decide(
        &mut self,
        features: &FeatureVector,
        state: &StateSnapshot,
        strategy_id: StrategyId,
        latency_ms: f64,
        rng: &mut impl Rng,
    ) -> ThompsonDecision {
        let draws = draws(&self.inner.q_function, rng);
        let d = self
            .inner
            .decide(&features.lib(), &state.lib(), strategy_id, s(latency_ms), &draws);
        ThompsonDecision {
            action: d.action,
            q_point: f(d.q_point),
            q_sampled: f(d.q_sampled),
            posterior_std: f(d.posterior_std),
            all_sampled_q: table(&d.all_sampled_q),
            all_point_q: table(&d.all_point_q),
            hold_degeneration_detected: d.hold_degeneration_detected,
            consistency_fallback: d.consistency_fallback,
        }
    }

    fn check_action_consistency(&self, q_buy: f64, q_sell: f64) -> bool {
        self.inner.check_action_consistency(s(q_buy), s(q_sell))
    }

    fn select_action(&self, q: &HashMap<QAction, f64>, buy: bool, sell: bool) -> QAction {
        self.inner.select_action(&action_values(q), buy, sell)
    }

    fn compute_lot_size(&self, lot_multiplier: f64) -> u64 {
        self.inner.compute_lot_size(s(lot_multiplier))
    }

    fn check_hold_degeneration(&self) -> bool {
        self.inner.check_hold_degeneration()
    }

    fn trade_frequency(&self) -> f64 {
        f(self.inner.trade_frequency())
    }

    fn total_decisions(&self) -> usize {
        self.inner.total_decisions()
    }

    fn current_inflation(&self) -> f64 {
        f(self.inner.current_inflation())
    }

    fn q_function(&self) -> QFunction {
        QFunction {
            inner: self.inner.q_function().clone(),
        }
    }

    fn q_function_mut(&mut self) -> &mut bayesian_lr::QFunction {
        self.inner.q_function_mut()
    }

    fn config(&self) -> ThompsonSamplingConfig {
        ThompsonSamplingConfig::plain(self.inner.config().clone())
    }

    fn reset_trade_tracker(&mut self) {
        self.inner.reset_trade_tracker();
    }
}

fn compute_dynamic_k(base_k: f64, volatility: f64, regime_stability: f64) -> f64 {
    f(thompson_sampling::compute_dynamic_k(
        s(base_k),
        s(volatility),
        s(regime_stability),
    ))
}

fn compute_returns(rewards: &[f64], gamma: f64) -> Vec<f64> {
    floats(&McEvaluator::compute_returns(&scalars(rewards), s(gamma)))
}

fn make_test_config() -> ThompsonSamplingConfig {
    ThompsonSamplingConfig {
        non_model_uncertainty_k: 0.1,
        latency_penalty_k: 0.001,
        min_trade_frequency: 0.02,
        trade_frequency_window: 50,
        hold_degeneration_inflation: 1.5,
        inflation_decay_rate: 0.99,
        max_lot_size: 1_000_000,
        min_lot_size: 1000,
        consistency_threshold: 0.05,
        default_lot_size: 100_000,
    }
}

fn make_q_function() -> QFunction {
    QFunction::new(FeatureVector::DIM, 1.0, 500, 0.01, 0.1)
}

fn make_state() -> StateSnapshot {
    StateSnapshot {
        positions: HashMap::new(),
        global_position: 0.0,
        global_position_limit: 10.0,
        lot_multiplier: 1.0,
    }
}

fn make_features() -> FeatureVector {
    FeatureVector::zero()
}

#[test]
fn test_policy_creation() {
    let qf = make_q_function();
    let config = make_test_config();
    let policy = ThompsonSamplingPolicy::new(qf, config);
    assert_eq!(policy.total_decisions(), 0);
    assert!((policy.trade_frequency() - 0.0).abs() < 1e-15);
}

#[test]
fn test_decide_returns_valid_decision() {
    let qf = make_q_function();
    let config = make_test_config();
    let mut policy = ThompsonSamplingPolicy::new(qf, config);
    let features = make_features();
    let state = make_state();
    let mut rng = seeded_rng();

    let decision = policy.decide(&features, &state, StrategyId::A, 1.0, &mut rng);

    assert_eq!(decision.all_sampled_q.len(), 3);
    assert_eq!(decision.all_point_q.len(), 3);
    assert!(decision.posterior_std >= 0.0);
    assert!(!decision.hold_degeneration_detected);
}

#[test]
fn test_decide_increments_counter() {
    let qf = make_q_function();
    let config = make_test_config();
    let mut policy = ThompsonSamplingPolicy::new(qf, config);
    let features = make_features();
    let state = make_state();
    let mut rng = seeded_rng();

    assert_eq!(policy.total_decisions(), 0);
    policy.decide(&features, &state, StrategyId::A, 1.0, &mut rng);
    assert_eq!(policy.total_decisions(), 1);
    policy.decide(&features, &state, StrategyId::A, 1.0, &mut rng);
    assert_eq!(policy.total_decisions(), 2);
}

#[test]
fn test_optimistic_bias_encourages_exploration() {
    let qf = make_q_function();
    let config = make_test_config();
    let mut policy = ThompsonSamplingPolicy::new(qf, config);
    let features = make_features();
    let state = make_state();
    let mut rng = seeded_rng();

    let mut buy_count = 0;
    let mut sell_count = 0;
    let n = 50;

    for _ in 0..n {
        let decision = policy.decide(&features, &state, StrategyId::A, 0.0, &mut rng);
        match decision.action {
            Action::Buy(_) => buy_count += 1,
            Action::Sell(_) => sell_count += 1,
            Action::Hold => {}
        }
    }

    let directional = buy_count + sell_count;
    assert!(
        directional > 0,
        "Optimistic bias should produce directional trades: buy={}, sell={}",
        buy_count,
        sell_count
    );
}

#[test]
fn test_global_position_constraint_buy_blocked() {
    let qf = make_q_function();
    let config = make_test_config();
    let mut policy = ThompsonSamplingPolicy::new(qf, config);
    let features = make_features();

    let state = StateSnapshot {
        global_position: 10.0,
        global_position_limit: 10.0,
        ..make_state()
    };

    let mut rng = seeded_rng();

    for _ in 0..20 {
        let decision = policy.decide(&features, &state, StrategyId::A, 0.0, &mut rng);
        match decision.action {
            Action::Buy(_) => {
                panic!("Buy should be blocked when at global position limit");
            }
            _ => {}
        }
    }
}

#[test]
fn test_global_position_constraint_sell_blocked() {
    let qf = make_q_function();
    let config = make_test_config();
    let mut policy = ThompsonSamplingPolicy::new(qf, config);
    let features = make_features();

    let state = StateSnapshot {
        global_position: -10.0,
        global_position_limit: 10.0,
        ..make_state()
    };

    let mut rng = seeded_rng();

    for _ in 0..20 {
        let decision = policy.decide(&features, &state, StrategyId::A, 0.0, &mut rng);
        match decision.action {
            Action::Sell(_) => {
                panic!("Sell should be blocked when at negative global position limit");
            }
            _ => {}
        }
    }
}

#[test]
fn test_both_directions_blocked_forces_hold() {
    let qf = make_q_function();
    let config = make_test_config();
    let policy = ThompsonSamplingPolicy::new(qf, config);

    let mut sampled_q = HashMap::new();
    sampled_q.insert(QAction::Buy, 10.0);
    sampled_q.insert(QAction::Sell, 10.0);
    sampled_q.insert(QAction::Hold, -5.0);

    let selected = policy.select_action(&sampled_q, false, false);
    assert_eq!(selected, QAction::Hold);
}

#[test]
fn test_buy_blocked_chooses_sell_or_hold() {
    let qf = make_q_function();
    let config = make_test_config();
    let policy = ThompsonSamplingPolicy::new(qf, config);

    let mut sampled_q = HashMap::new();
    sampled_q.insert(QAction::Buy, 10.0);
    sampled_q.insert(QAction::Sell, 5.0);
    sampled_q.insert(QAction::Hold, 1.0);

    let selected = policy.select_action(&sampled_q, false, true);
    assert_eq!(selected, QAction::Sell);
}

#[test]
fn test_buy_blocked_chooses_hold_when_sell_below() {
    let qf = make_q_function();
    let config = make_test_config();
    let policy = ThompsonSamplingPolicy::new(qf, config);

    let mut sampled_q = HashMap::new();
    sampled_q.insert(QAction::Buy, 10.0);
    sampled_q.insert(QAction::Sell, -5.0);
    sampled_q.insert(QAction::Hold, 1.0);

    let selected = policy.select_action(&sampled_q, false, true);
    assert_eq!(selected, QAction::Hold);
}

#[test]
fn test_argmax_selection() {
    let qf = make_q_function();
    let config = make_test_config();
    let policy = ThompsonSamplingPolicy::new(qf, config);

    let mut sampled_q = HashMap::new();
    sampled_q.insert(QAction::Buy, 5.0);
    sampled_q.insert(QAction::Sell, 3.0);
    sampled_q.insert(QAction::Hold, 1.0);

    assert_eq!(policy.select_action(&sampled_q, true, true), QAction::Buy);

    sampled_q.insert(QAction::Sell, 10.0);
    assert_eq!(policy.select_action(&sampled_q, true, true), QAction::Sell);

    sampled_q.insert(QAction::Hold, 20.0);
    assert_eq!(policy.select_action(&sampled_q, true, true), QAction::Hold);
}

#[test]
fn test_consistency_check_both_positive_close() {
    let policy = ThompsonSamplingPolicy::new(
        make_q_function(),
        ThompsonSamplingConfig {
            consistency_threshold: 0.05,
            ..make_test_config()
        },
    );

    assert!(policy.check_action_consistency(1.0, 1.02));
    assert!(policy.check_action_consistency(1.02, 1.0));
}

#[test]
fn test_consistency_check_not_triggered_when_far_apart() {
    let policy = ThompsonSamplingPolicy::new(
        make_q_function(),
        ThompsonSamplingConfig {
            consistency_threshold: 0.05,
            ..make_test_config()
        },
    );

    assert!(!policy.check_action_consistency(1.0, 2.0));
}

#[test]
fn test_consistency_check_not_triggered_when_one_negative() {
    let policy = ThompsonSamplingPolicy::new(
        make_q_function(),
        ThompsonSamplingConfig {
            consistency_threshold: 0.05,
            ..make_test_config()
        },
    );

    assert!(!policy.check_action_consistency(-1.0, 1.0));
    assert!(!policy.check_action_consistency(1.0, -1.0));
}

#[test]
fn test_consistency_check_not_triggered_when_both_negative() {
    let policy = ThompsonSamplingPolicy::new(
        make_q_function(),
        ThompsonSamplingConfig {
            consistency_threshold: 0.05,
            ..make_test_config()
        },
    );

    assert!(!policy.check_action_consistency(-1.0, -0.98));
}

#[test]
fn test_lot_multiplier_reduces_lot_size() {
    let qf = make_q_function();
    let config = make_test_config();
    let policy = ThompsonSamplingPolicy::new(qf, config);

    assert_eq!(policy.compute_lot_size(1.0), 100_000);
    assert_eq!(policy.compute_lot_size(0.5), 50_000);
    assert_eq!(policy.compute_lot_size(0.1), 10_000);
    assert_eq!(policy.compute_lot_size(0.01), 1_000);
    assert_eq!(policy.compute_lot_size(0.0), 0);
}

#[test]
fn test_lot_size_clamped_to_max() {
    let qf = make_q_function();
    let config = ThompsonSamplingConfig {
        max_lot_size: 500_000,
        default_lot_size: 100_000,
        ..make_test_config()
    };
    let policy = ThompsonSamplingPolicy::new(qf, config);

    assert_eq!(policy.compute_lot_size(10.0), 500_000);
}

#[test]
fn test_low_lot_multiplier_forces_hold() {
    let qf = make_q_function();
    let config = ThompsonSamplingConfig {
        min_lot_size: 100_000,
        default_lot_size: 100_000,
        ..make_test_config()
    };
    let mut policy = ThompsonSamplingPolicy::new(qf, config);
    let features = make_features();

    let state = StateSnapshot {
        lot_multiplier: 0.5,
        ..make_state()
    };

    let mut rng = seeded_rng();

    for _ in 0..20 {
        let decision = policy.decide(&features, &state, StrategyId::A, 0.0, &mut rng);
        assert!(
            matches!(decision.action, Action::Hold),
            "Low lot_multiplier should force hold, got {:?}",
            decision.action
        );
    }
}

#[test]
fn test_zero_lot_multiplier_forces_hold() {
    let qf = make_q_function();
    let config = make_test_config();
    let mut policy = ThompsonSamplingPolicy::new(qf, config);
    let features = make_features();

    let state = StateSnapshot {
        lot_multiplier: 0.0,
        ..make_state()
    };

    let mut rng = seeded_rng();

    let decision = policy.decide(&features, &state, StrategyId::A, 0.0, &mut rng);
    assert!(matches!(decision.action, Action::Hold));
}

#[test]
fn test_hold_degeneration_detection() {
    let qf = make_q_function();
    let config = ThompsonSamplingConfig {
        trade_frequency_window: 10,
        min_trade_frequency: 0.5,
        ..make_test_config()
    };
    let mut policy = ThompsonSamplingPolicy::new(qf, config);

    for _ in 0..10 {
        policy.inner.trade_tracker.record(false);
    }
    policy.inner.total_decisions = 10;

    assert!(policy.check_hold_degeneration());
}

#[test]
fn test_no_hold_degeneration_with_sufficient_trades() {
    let qf = make_q_function();
    let config = ThompsonSamplingConfig {
        trade_frequency_window: 10,
        min_trade_frequency: 0.5,
        ..make_test_config()
    };
    let mut policy = ThompsonSamplingPolicy::new(qf, config);

    for _ in 0..10 {
        policy.inner.trade_tracker.record(true);
    }
    policy.inner.total_decisions = 10;

    assert!(!policy.check_hold_degeneration());
}

#[test]
fn thompson_sampling_test_hold_degeneration_not_checked_early() {
    let qf = make_q_function();
    let config = ThompsonSamplingConfig {
        trade_frequency_window: 50,
        min_trade_frequency: 0.5,
        ..make_test_config()
    };
    let mut policy = ThompsonSamplingPolicy::new(qf, config);

    for _ in 0..50 {
        policy.inner.trade_tracker.record(false);
    }
    policy.inner.total_decisions = 10;

    assert!(!policy.check_hold_degeneration());
}

#[test]
fn test_hold_degeneration_inflates_covariance() {
    let qf = make_q_function();
    let config = ThompsonSamplingConfig {
        trade_frequency_window: 10,
        min_trade_frequency: 0.5,
        hold_degeneration_inflation: 2.0,
        ..make_test_config()
    };
    let mut policy = ThompsonSamplingPolicy::new(qf, config);

    for _ in 0..10 {
        policy.inner.trade_tracker.record(false);
    }
    policy.inner.total_decisions = 10;

    let features = make_features();
    let state = make_state();
    let mut rng = seeded_rng();

    let std_before = policy
        .q_function()
        .posterior_std(QAction::Buy, &features.flattened());

    let decision = policy.decide(&features, &state, StrategyId::A, 0.0, &mut rng);
    assert!(decision.hold_degeneration_detected);

    let std_after = policy
        .q_function()
        .posterior_std(QAction::Buy, &features.flattened());

    assert!(
        std_after > std_before,
        "Covariance inflation should increase posterior std: before={}, after={}",
        std_before,
        std_after
    );
}

#[test]
fn test_trade_frequency_tracker() {
    let mut tracker = TradeFrequencyTracker::new(5);

    assert!((tracker.frequency() - 0.0).abs() < 1e-15);

    tracker.record(true);
    tracker.record(false);
    tracker.record(true);
    tracker.record(true);
    tracker.record(false);

    assert!((tracker.frequency() - 0.6).abs() < 1e-15);

    tracker.record(true);
    assert!((tracker.frequency() - 0.6).abs() < 1e-15);
}

#[test]
fn test_trade_frequency_tracker_reset() {
    let mut tracker = TradeFrequencyTracker::new(5);
    tracker.record(true);
    tracker.record(true);
    assert!((tracker.frequency() - 1.0).abs() < 1e-15);

    tracker.reset();
    assert!((tracker.frequency() - 0.0).abs() < 1e-15);
}

#[test]
fn test_sampled_q_varies_across_decisions() {
    let qf = make_q_function();
    let config = make_test_config();
    let mut policy = ThompsonSamplingPolicy::new(qf, config);
    let features = make_features();
    let state = make_state();
    let mut rng = seeded_rng();

    let mut sampled_values = std::collections::HashSet::new();
    for _ in 0..30 {
        let decision = policy.decide(&features, &state, StrategyId::A, 0.0, &mut rng);
        sampled_values.insert((decision.q_sampled * 1e8) as i64);
    }

    assert!(
        sampled_values.len() > 1,
        "Sampled Q values should vary across decisions"
    );
}

#[test]
fn test_point_q_consistent_with_q_function() {
    let qf = make_q_function();
    let config = make_test_config();
    let mut policy = ThompsonSamplingPolicy::new(qf, config);
    let features = make_features();
    let state = make_state();
    let mut rng = seeded_rng();

    let decision = policy.decide(&features, &state, StrategyId::A, 0.0, &mut rng);

    let phi = features.flattened();
    for &action in QAction::all() {
        let expected = policy.q_function().q_point(action, &phi);
        let actual = decision.all_point_q[&action];
        assert!(
            (expected - actual).abs() < 1e-10,
            "Point Q mismatch for {:?}: expected={}, actual={}",
            action,
            expected,
            actual
        );
    }
}

#[test]
fn thompson_sampling_test_reset_trade_tracker() {
    let qf = make_q_function();
    let config = make_test_config();
    let mut policy = ThompsonSamplingPolicy::new(qf, config);
    let features = make_features();
    let state = make_state();
    let mut rng = seeded_rng();

    policy.decide(&features, &state, StrategyId::A, 0.0, &mut rng);
    policy.decide(&features, &state, StrategyId::A, 0.0, &mut rng);
    assert_eq!(policy.total_decisions(), 2);

    policy.reset_trade_tracker();
    assert_eq!(policy.total_decisions(), 0);
    assert!((policy.trade_frequency() - 0.0).abs() < 1e-15);
}

#[test]
fn thompson_sampling_test_config_access() {
    let qf = make_q_function();
    let config = make_test_config();
    let policy = ThompsonSamplingPolicy::new(qf, config);

    assert!((policy.config().non_model_uncertainty_k - 0.1).abs() < 1e-15);
    assert_eq!(policy.config().default_lot_size, 100_000);
}

#[test]
fn test_q_function_mut_access() {
    let qf = make_q_function();
    let config = make_test_config();
    let mut policy = ThompsonSamplingPolicy::new(qf, config);

    let phi = vec![1.0; FeatureVector::DIM];
    policy.q_function_mut().update(QAction::Buy, &scalars(&phi), s(1.0));

    assert_eq!(policy.q_function().model(QAction::Buy).n_observations(), 1);
}

#[test]
fn test_latency_penalty_reduces_directional_q() {
    let qf = make_q_function();
    let config = ThompsonSamplingConfig {
        latency_penalty_k: 1.0,
        ..make_test_config()
    };
    let mut policy = ThompsonSamplingPolicy::new(qf, config);
    let features = make_features();
    let state = make_state();
    let mut rng = seeded_rng();

    let decision_low_lat = policy.decide(&features, &state, StrategyId::A, 0.0, &mut rng);
    let q_buy_low = decision_low_lat.all_sampled_q[&QAction::Buy];
    let q_hold_low = decision_low_lat.all_sampled_q[&QAction::Hold];

    assert!(
        q_hold_low >= decision_low_lat.all_sampled_q[&QAction::Buy]
            || q_hold_low >= decision_low_lat.all_sampled_q[&QAction::Sell]
            || q_buy_low > q_hold_low,
        "Hold should have no penalties applied"
    );
}

#[test]
fn test_consistency_fallback_in_decision() {
    let qf = QFunction::new(FeatureVector::DIM, 1.0, 500, 0.01, 10.0);
    let config = ThompsonSamplingConfig {
        consistency_threshold: 1.0,
        ..make_test_config()
    };
    let mut policy = ThompsonSamplingPolicy::new(qf, config);

    let features = FeatureVector::zero();
    let state = make_state();
    let mut rng = seeded_rng();

    let decision = policy.decide(&features, &state, StrategyId::A, 0.0, &mut rng);

    assert!(
        decision.consistency_fallback,
        "Should trigger consistency fallback when buy/sell are symmetric"
    );
}

#[test]
fn test_sell_blocked_chooses_buy_or_hold() {
    let qf = make_q_function();
    let config = make_test_config();
    let policy = ThompsonSamplingPolicy::new(qf, config);

    let mut sampled_q = HashMap::new();
    sampled_q.insert(QAction::Buy, 5.0);
    sampled_q.insert(QAction::Sell, 10.0);
    sampled_q.insert(QAction::Hold, 1.0);

    let selected = policy.select_action(&sampled_q, true, false);
    assert_eq!(selected, QAction::Buy);

    sampled_q.insert(QAction::Buy, -5.0);
    let selected = policy.select_action(&sampled_q, true, false);
    assert_eq!(selected, QAction::Hold);
}

#[test]
fn test_q_arch_adaptive_noise_ema_convergence() {
    let dim = 5;
    let halflife = 100;
    let mut blr = BayesianLinearRegression::new(dim, 0.01, halflife, 0.01);
    let phi = vec![1.0; dim];

    let true_noise_var: f64 = 4.0;
    for i in 0..500 {
        let target = 1.0 + true_noise_var.sqrt() * ((i % 7) as f64 / 7.0 - 0.5);
        let _ = blr.update(&phi, target);
    }

    let noise_var = blr.noise_variance();
    assert!(
        noise_var > 0.0,
        "Adaptive noise variance should be positive, got {}",
        noise_var
    );
    assert!(
        noise_var < true_noise_var * 10.0,
        "Adaptive noise variance should be bounded, got {}",
        noise_var
    );
}

#[test]
fn test_q_arch_bayesian_regularization_prior() {
    let dim = 5;
    let lambda_reg = 0.01;
    let mut blr = BayesianLinearRegression::new(dim, lambda_reg, 500, 0.01);
    let phi = vec![1.0; dim];

    let q_before = blr.predict(&phi);
    assert!(
        q_before.abs() < 1e-10,
        "Prior prediction should be ~0, got {}",
        q_before
    );

    for _ in 0..10 {
        let _ = blr.update(&phi, 100.0);
    }
    let q_after = blr.predict(&phi);
    assert!(
        q_after > 0.0,
        "After positive updates, Q should be positive"
    );
    assert!(
        q_after < 1e6,
        "Regularization should bound Q: got {}",
        q_after
    );
}

#[test]
fn test_q_arch_divergence_detection_works() {
    let dim = 5;
    let mut blr = BayesianLinearRegression::new(dim, 0.001, 100, 0.01);
    let phi = vec![1.0; dim];

    for _ in 0..10 {
        let _ = blr.update(&phi, 1.0);
    }

    let result = blr.update(&phi, 2.0);
    assert!(
        !result.diverged,
        "Normal update should not trigger divergence, ratio={}",
        result.divergence_ratio
    );
}

#[test]
fn test_q_arch_posterior_penalty_components() {
    let qf = make_q_function();
    let config = ThompsonSamplingConfig {
        non_model_uncertainty_k: 0.5,
        latency_penalty_k: 0.01,
        ..make_test_config()
    };
    let mut policy = ThompsonSamplingPolicy::new(qf, config);

    let mut features = FeatureVector::zero();
    features.self_impact = 0.3;
    features.dynamic_cost = 0.2;
    let state = make_state();
    let mut rng = seeded_rng();

    let decision = policy.decide(&features, &state, StrategyId::A, 5.0, &mut rng);

    let _q_hold_final = decision.all_sampled_q[&QAction::Hold];
    let q_buy_final = decision.all_sampled_q[&QAction::Buy];
    let q_sell_final = decision.all_sampled_q[&QAction::Sell];

    assert!(
        q_buy_final.is_finite(),
        "Q_buy_final should be finite, got {}",
        q_buy_final
    );
    assert!(
        q_sell_final.is_finite(),
        "Q_sell_final should be finite, got {}",
        q_sell_final
    );

    assert!((policy.config().non_model_uncertainty_k - 0.5).abs() < 1e-10);
}

#[test]
fn test_q_arch_sigma_model_excluded_from_point_estimates() {
    let qf = make_q_function();
    let config = make_test_config();
    let mut policy = ThompsonSamplingPolicy::new(qf, config);
    let features = make_features();
    let state = make_state();
    let mut rng = seeded_rng();

    let decision = policy.decide(&features, &state, StrategyId::A, 1.0, &mut rng);

    let phi = features.flattened();
    let q_buy_point = policy.q_function().q_point(QAction::Buy, &phi);
    let q_buy_point2 = policy.q_function().q_point(QAction::Buy, &phi);
    assert!(
        (q_buy_point - q_buy_point2).abs() < 1e-15,
        "Point estimate should be deterministic (no randomness from sigma_model)"
    );

    assert!(
        (decision.q_point - q_buy_point).abs() < 1e-10
            || (decision.q_point - policy.q_function().q_point(QAction::Sell, &phi)).abs()
                < 1e-10
            || (decision.q_point - policy.q_function().q_point(QAction::Hold, &phi)).abs()
                < 1e-10,
        "Decision q_point should match one of the point estimates"
    );
}

#[test]
fn test_hold_degen_optimistic_init_buy_sell_above_hold() {
    let qf = QFunction::new(FeatureVector::DIM, 1.0, 500, 0.01, 0.5);
    let phi = FeatureVector::zero().flattened();

    let q_buy = qf.q_point(QAction::Buy, &phi);
    let q_sell = qf.q_point(QAction::Sell, &phi);
    let q_hold = qf.q_point(QAction::Hold, &phi);

    assert!(
        q_buy > q_hold,
        "Optimistic init: Q_buy ({}) should be > Q_hold ({})",
        q_buy,
        q_hold
    );
    assert!(
        q_sell > q_hold,
        "Optimistic init: Q_sell ({}) should be > Q_hold ({})",
        q_sell,
        q_hold
    );
    assert!(q_hold.abs() < 1e-10, "Hold Q should be ~0, got {}", q_hold);
}

#[test]
fn test_hold_degen_min_frequency_monitoring() {
    let config = ThompsonSamplingConfig {
        trade_frequency_window: 100,
        min_trade_frequency: 0.05,
        ..make_test_config()
    };
    let mut policy = ThompsonSamplingPolicy::new(make_q_function(), config);

    for _ in 0..100 {
        policy.inner.trade_tracker.record(false);
    }
    policy.inner.total_decisions = 100;
    assert!(
        policy.check_hold_degeneration(),
        "Should detect degeneration with 0% trade frequency"
    );

    policy.inner.trade_tracker.reset();
    for i in 0..100 {
        policy.inner.trade_tracker.record(i < 6);
    }
    assert!(
        !policy.check_hold_degeneration(),
        "Should NOT detect degeneration with 6% trade frequency"
    );

    policy.inner.trade_tracker.reset();
    for i in 0..100 {
        policy.inner.trade_tracker.record(i < 4);
    }
    assert!(
        policy.check_hold_degeneration(),
        "Should detect degeneration with 4% trade frequency"
    );
}

#[test]
fn test_hold_degen_grace_period_before_window() {
    let config = ThompsonSamplingConfig {
        trade_frequency_window: 100,
        min_trade_frequency: 0.5,
        ..make_test_config()
    };
    let mut policy = ThompsonSamplingPolicy::new(make_q_function(), config);

    for _ in 0..50 {
        policy.inner.trade_tracker.record(false);
    }
    policy.inner.total_decisions = 50;
    assert!(
        !policy.check_hold_degeneration(),
        "Should not check degeneration before window is filled"
    );
}

#[test]
fn test_hold_degen_inflation_increases_sampling_diversity() {
    let config = ThompsonSamplingConfig {
        trade_frequency_window: 10,
        min_trade_frequency: 0.5,
        hold_degeneration_inflation: 2.0,
        ..make_test_config()
    };
    let mut policy = ThompsonSamplingPolicy::new(make_q_function(), config);

    for _ in 0..10 {
        policy.inner.trade_tracker.record(false);
    }
    policy.inner.total_decisions = 10;

    let features = make_features();
    let state = make_state();
    let mut rng = seeded_rng();

    let mut pre_samples = Vec::new();
    for _ in 0..20 {
        let q =
            policy
                .q_function()
                .sample_q_value(QAction::Buy, &features.flattened(), &mut rng);
        pre_samples.push(q);
    }
    let pre_var = variance(&pre_samples);

    let _decision = policy.decide(&features, &state, StrategyId::A, 0.0, &mut rng);

    let mut post_samples = Vec::new();
    for _ in 0..20 {
        let q =
            policy
                .q_function()
                .sample_q_value(QAction::Buy, &features.flattened(), &mut rng);
        post_samples.push(q);
    }
    let post_var = variance(&post_samples);

    assert!(
        post_var > pre_var,
        "Post-inflation sample variance ({}) should exceed pre-inflation ({})",
        post_var,
        pre_var
    );
}

#[test]
fn test_hold_degen_inflation_gradual_decrease_on_recovery() {
    let config = ThompsonSamplingConfig {
        trade_frequency_window: 10,
        min_trade_frequency: 0.5,
        hold_degeneration_inflation: 2.0,
        inflation_decay_rate: 0.9,
        ..make_test_config()
    };
    let mut policy = ThompsonSamplingPolicy::new(make_q_function(), config);
    let features = make_features();
    let mut rng = seeded_rng();

    let hold_state = StateSnapshot {
        lot_multiplier: 0.0,
        ..make_state()
    };
    for _ in 0..10 {
        policy.inner.trade_tracker.record(false);
    }
    policy.inner.total_decisions = 10;
    let _decision = policy.decide(&features, &hold_state, StrategyId::A, 0.0, &mut rng);
    assert!(
        (policy.current_inflation() - 2.0).abs() < 1e-10,
        "After degeneration, inflation should be 2.0, got {}",
        policy.current_inflation()
    );

    policy.inner.trade_tracker.reset();
    for _ in 0..10 {
        policy.inner.trade_tracker.record(true);
    }

    let trade_state = StateSnapshot {
        lot_multiplier: 1.0,
        ..make_state()
    };
    policy.inner.config.min_trade_frequency = s(0.0);

    let mut inflation_values = vec![policy.current_inflation()];
    for _ in 0..80 {
        let _d = policy.decide(&features, &trade_state, StrategyId::A, 0.0, &mut rng);
        inflation_values.push(policy.current_inflation());
    }

    for i in 1..inflation_values.len() {
        assert!(
            inflation_values[i] <= inflation_values[i - 1] + 1e-10,
            "Inflation should decrease monotonically: step {} had {} > {}",
            i,
            inflation_values[i],
            inflation_values[i - 1]
        );
    }

    assert!(
        (inflation_values.last().unwrap() - 1.0).abs() < 0.01,
        "After many recovery steps, inflation should approach 1.0, got {}",
        inflation_values.last().unwrap()
    );
}

#[test]
fn test_hold_degen_inflation_no_growth_beyond_max() {
    let config = ThompsonSamplingConfig {
        trade_frequency_window: 10,
        min_trade_frequency: 0.5,
        hold_degeneration_inflation: 1.5,
        ..make_test_config()
    };
    let mut policy = ThompsonSamplingPolicy::new(make_q_function(), config);
    let features = make_features();
    let mut rng = seeded_rng();

    let hold_state = StateSnapshot {
        lot_multiplier: 0.0,
        ..make_state()
    };

    for _ in 0..10 {
        policy.inner.trade_tracker.record(false);
    }
    policy.inner.total_decisions = 10;

    for _ in 0..20 {
        let _d = policy.decide(&features, &hold_state, StrategyId::A, 0.0, &mut rng);
    }

    assert!(
        (policy.current_inflation() - 1.5).abs() < 1e-10,
        "Continuous degeneration should keep inflation at max (1.5), not compound. Got {}",
        policy.current_inflation()
    );
}

#[test]
fn test_hold_degen_gamma_decay_structural_suppression() {
    let rewards: Vec<f64> = vec![1.0, 1.0, 1.0, 1.0, 1.0];

    let returns_low = compute_returns(&rewards, 0.5);
    let returns_high = compute_returns(&rewards, 0.99);

    assert!(
        returns_low[0] < returns_high[0],
        "Low gamma should produce lower cumulative return: low={}, high={}",
        returns_low[0],
        returns_high[0]
    );

    let expected_low: f64 = (0..5).map(|k| 0.5_f64.powi(k as i32)).sum();
    assert!(
        (returns_low[0] - expected_low).abs() < 1e-10,
        "G_0 with gamma=0.5 should be {}, got {}",
        expected_low,
        returns_low[0]
    );
}

#[test]
fn test_hold_degen_time_decay_feature_suppresses_long_holds() {
    let decay_rate = 0.001_f64;
    let decay_short = (-decay_rate * 1000.0_f64).exp();
    let decay_long = (-decay_rate * 20_000.0_f64).exp();

    assert!(
        decay_short > decay_long,
        "Short hold time_decay ({}) should be > long hold ({})",
        decay_short,
        decay_long
    );
    assert!(decay_short > 0.0);
    assert!(decay_long > 0.0);
}

#[test]
fn test_hold_degen_full_cycle_degeneration_and_recovery() {
    let config = ThompsonSamplingConfig {
        trade_frequency_window: 10,
        min_trade_frequency: 0.5,
        hold_degeneration_inflation: 2.0,
        inflation_decay_rate: 0.95,
        ..make_test_config()
    };
    let mut policy = ThompsonSamplingPolicy::new(make_q_function(), config);
    let features = make_features();
    let mut rng = seeded_rng();

    let hold_state = StateSnapshot {
        lot_multiplier: 0.0,
        ..make_state()
    };

    for _ in 0..10 {
        policy.inner.trade_tracker.record(true);
    }
    policy.inner.total_decisions = 10;
    let _d = policy.decide(&features, &hold_state, StrategyId::A, 0.0, &mut rng);
    assert!(
        (policy.current_inflation() - 1.0).abs() < 1e-10,
        "No degeneration should keep inflation at 1.0, got {}",
        policy.current_inflation()
    );

    policy.inner.trade_tracker.reset();
    for _ in 0..10 {
        policy.inner.trade_tracker.record(false);
    }
    let _d = policy.decide(&features, &hold_state, StrategyId::A, 0.0, &mut rng);
    assert!(
        (policy.current_inflation() - 2.0).abs() < 1e-10,
        "Degeneration should set inflation to 2.0, got {}",
        policy.current_inflation()
    );

    policy.inner.trade_tracker.reset();
    for _ in 0..10 {
        policy.inner.trade_tracker.record(true);
    }
    policy.inner.config.min_trade_frequency = s(0.0);
    for _ in 0..200 {
        let _d = policy.decide(&features, &hold_state, StrategyId::A, 0.0, &mut rng);
    }
    assert!(
        (policy.current_inflation() - 1.0).abs() < 0.01,
        "After full recovery, inflation should be ~1.0, got {}",
        policy.current_inflation()
    );
}

fn variance(values: &[f64]) -> f64 {
    if values.is_empty() {
        return 0.0;
    }
    let mean = values.iter().sum::<f64>() / values.len() as f64;
    values.iter().map(|x| (x - mean).powi(2)).sum::<f64>() / values.len() as f64
}

#[test]
fn test_s41_pipeline_order_sample_then_filter_then_select() {
    let config = make_test_config();
    let mut policy = ThompsonSamplingPolicy::new(make_q_function(), config);
    let features = make_features();

    let both_blocked_state = StateSnapshot {
        global_position: 0.0,
        global_position_limit: 0.1,
        ..make_state()
    };
    let mut rng = seeded_rng();
    let d = policy.decide(&features, &both_blocked_state, StrategyId::A, 0.0, &mut rng);

    assert!(
        matches!(d.action, Action::Hold),
        "When both directions are blocked, action must be Hold regardless of Q values"
    );
}

#[test]
fn test_s41_q_final_drives_action_not_q_point() {
    let config = make_test_config();
    let mut policy = ThompsonSamplingPolicy::new(make_q_function(), config);

    let mut penalized_features = FeatureVector::zero();
    penalized_features.self_impact = 100.0;
    penalized_features.dynamic_cost = 100.0;

    let state = make_state();
    let mut rng = seeded_rng();

    let mut hold_count = 0;
    let n = 50;
    for _ in 0..n {
        let d = policy.decide(&penalized_features, &state, StrategyId::A, 100.0, &mut rng);
        if matches!(d.action, Action::Hold) {
            hold_count += 1;
        }
        let q_final_buy = d.all_sampled_q[&QAction::Buy];
        let q_point_buy = d.all_point_q[&QAction::Buy];
        let q_final_sell = d.all_sampled_q[&QAction::Sell];
        let q_point_sell = d.all_point_q[&QAction::Sell];
        assert!(
            q_final_buy < q_point_buy,
            "Q_final(Buy) must be less than Q_point(Buy) due to penalties: final={}, point={}",
            q_final_buy,
            q_point_buy
        );
        assert!(
            q_final_sell < q_point_sell,
            "Q_final(Sell) must be less than Q_point(Sell) due to penalties: final={}, point={}",
            q_final_sell, q_point_sell
        );
    }

    assert!(
        hold_count > n / 2,
        "With large penalties, majority should be Hold: got {}/{}",
        hold_count,
        n
    );
}

#[test]
fn test_s41_penalties_zero_for_hold() {
    let config = ThompsonSamplingConfig {
        non_model_uncertainty_k: 1.0,
        latency_penalty_k: 1.0,
        ..make_test_config()
    };
    let qf = make_q_function();
    let policy = ThompsonSamplingPolicy::new(qf, config);

    let mut features = FeatureVector::zero();
    features.self_impact = 5.0;
    features.dynamic_cost = 3.0;

    let _state = make_state();
    let mut rng = seeded_rng();

    let self_impact = 5.0;
    let dynamic_cost = 3.0;
    let sigma_noise = policy
        .q_function()
        .model(QAction::Buy)
        .noise_variance()
        .sqrt();
    let non_model_penalty = 1.0 * sigma_noise;
    let latency_penalty = 1.0 * 10.0;

    let directional_penalty = self_impact + dynamic_cost + non_model_penalty + latency_penalty;

    assert!(
        directional_penalty > 5.0,
        "Directional penalty should be > 5.0: got {}",
        directional_penalty
    );
}

#[test]
fn test_s41_q_point_is_monitoring_only_does_not_affect_action() {
    let config = make_test_config();
    let qf = make_q_function();
    let mut policy = ThompsonSamplingPolicy::new(qf, config);
    let features = make_features();
    let state = make_state();
    let mut rng = seeded_rng();

    for _ in 0..30 {
        let d = policy.decide(&features, &state, StrategyId::A, 0.0, &mut rng);

        if !d.consistency_fallback {
            let q_buy = d.all_sampled_q[&QAction::Buy];
            let q_sell = d.all_sampled_q[&QAction::Sell];
            let q_hold = d.all_sampled_q[&QAction::Hold];

            let expected = if q_buy >= q_sell && q_buy >= q_hold {
                QAction::Buy
            } else if q_sell >= q_buy && q_sell >= q_hold {
                QAction::Sell
            } else {
                QAction::Hold
            };

            let actual = match d.action {
                Action::Buy(_) => QAction::Buy,
                Action::Sell(_) => QAction::Sell,
                Action::Hold => QAction::Hold,
            };

            assert_eq!(
                expected, actual,
                "Action must follow argmax(Q_final): expected {:?}, got {:?} \
                 (q_buy={}, q_sell={}, q_hold={})",
                expected, actual, q_buy, q_sell, q_hold
            );
        }

        assert!(
            d.q_point.is_finite(),
            "Q_point must be finite for monitoring"
        );
    }
}

#[test]
fn test_s41_a_valid_construction_buy_sell_filtering() {
    let config = make_test_config();
    let mut policy = ThompsonSamplingPolicy::new(make_q_function(), config);
    let features = make_features();
    let mut rng = seeded_rng();

    let buy_blocked = StateSnapshot {
        global_position: 10.0,
        global_position_limit: 10.0,
        ..make_state()
    };
    assert!(!(buy_blocked.global_position + 1.0 <= buy_blocked.global_position_limit));
    assert!(buy_blocked.global_position - 1.0 >= -buy_blocked.global_position_limit);

    let sell_blocked = StateSnapshot {
        global_position: -10.0,
        global_position_limit: 10.0,
        ..make_state()
    };
    assert!(sell_blocked.global_position + 1.0 <= sell_blocked.global_position_limit);
    assert!(!(-sell_blocked.global_position_limit <= sell_blocked.global_position - 1.0));

    let both_ok = make_state();
    assert!(both_ok.global_position + 1.0 <= both_ok.global_position_limit);
    assert!(both_ok.global_position - 1.0 >= -both_ok.global_position_limit);

    let d1 = policy.decide(&features, &buy_blocked, StrategyId::A, 0.0, &mut rng);
    assert!(
        !matches!(d1.action, Action::Buy(_)),
        "Buy must be blocked when at positive limit"
    );

    let d2 = policy.decide(&features, &sell_blocked, StrategyId::A, 0.0, &mut rng);
    assert!(
        !matches!(d2.action, Action::Sell(_)),
        "Sell must be blocked when at negative limit"
    );
}

#[test]
fn test_s41_consistency_fallback_forces_hold_regardless_of_magnitude() {
    let config = ThompsonSamplingConfig {
        consistency_threshold: 0.05,
        ..make_test_config()
    };
    let policy = ThompsonSamplingPolicy::new(make_q_function(), config);

    assert!(
        policy.check_action_consistency(100.0, 102.0),
        "Large but close Q values should trigger consistency fallback"
    );
    assert!(
        policy.check_action_consistency(0.001, 0.001),
        "Tiny but equal positive Q values should trigger fallback"
    );

    assert!(
        !policy.check_action_consistency(-1.0, 1.0),
        "Should not trigger when one is negative"
    );

    assert!(
        !policy.check_action_consistency(100.0, 50.0),
        "Should not trigger when Q values are far apart"
    );

    assert!(
        !policy.check_action_consistency(-100.0, -101.0),
        "Should not trigger when both are negative"
    );
}

#[test]
fn test_s41_full_decision_pipeline_order_verified() {
    let config = ThompsonSamplingConfig {
        consistency_threshold: 0.05,
        non_model_uncertainty_k: 0.1,
        latency_penalty_k: 0.001,
        ..make_test_config()
    };
    let mut policy = ThompsonSamplingPolicy::new(make_q_function(), config);
    let features = make_features();
    let state = make_state();
    let mut rng = seeded_rng();

    let d = policy.decide(&features, &state, StrategyId::A, 0.0, &mut rng);

    assert!(d.q_sampled.is_finite(), "q_sampled must be finite");
    assert!(d.q_point.is_finite(), "q_point must be finite");
    assert!(d.posterior_std >= 0.0, "posterior_std must be non-negative");

    assert!(d.all_sampled_q.contains_key(&QAction::Buy));
    assert!(d.all_sampled_q.contains_key(&QAction::Sell));
    assert!(d.all_sampled_q.contains_key(&QAction::Hold));

    assert!(d.all_point_q.contains_key(&QAction::Buy));
    assert!(d.all_point_q.contains_key(&QAction::Sell));
    assert!(d.all_point_q.contains_key(&QAction::Hold));

    let hold_final = d.all_sampled_q[&QAction::Hold];
    assert!(hold_final.is_finite(), "Hold Q_final must be finite");

    match d.action {
        Action::Buy(lot) => assert!(lot > 0),
        Action::Sell(lot) => assert!(lot > 0),
        Action::Hold => {}
    }
}

#[test]
fn test_dynamic_k_low_volatility_low_k() {
    let k = compute_dynamic_k(0.1, 0.001, 0.9);
    assert!(k < 0.15, "Low vol should give low k: got {}", k);
    assert!(k >= 0.1, "k should be at least base_k: got {}", k);
}

#[test]
fn test_dynamic_k_high_volatility_high_k() {
    let k = compute_dynamic_k(0.1, 0.05, 0.9);
    assert!(k > 0.14, "High vol should increase k: got {}", k);
}

#[test]
fn test_dynamic_k_low_stability_high_k() {
    let k = compute_dynamic_k(0.1, 0.01, 0.0);
    assert!(
        k > 0.3,
        "Low stability should significantly increase k: got {}",
        k
    );
}

#[test]
fn test_dynamic_k_zero_volatility_equals_base() {
    let k = compute_dynamic_k(0.1, 0.0, 1.0);
    assert!(
        (k - 0.1).abs() < 1e-15,
        "Zero vol + full stability should give base_k"
    );
}

#[test]
fn test_dynamic_k_always_positive() {
    for vol in [0.0, 0.001, 0.01, 0.1, 1.0] {
        for stab in [0.0, 0.25, 0.5, 0.75, 1.0] {
            let k = compute_dynamic_k(0.1, vol, stab);
            assert!(k > 0.0, "k must be positive for vol={}, stab={}", vol, stab);
        }
    }
}
