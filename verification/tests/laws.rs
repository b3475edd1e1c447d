//! The laws of the library on concrete values.

use fx_strategy::bayesian_lr::{ActionDraws, ActionValues, BayesianLinearRegression, Draw, QAction, QFunction};
use fx_strategy::change_point::{ChangePointConfig, ChangePointDetector, ChangeSeverity};
use fx_strategy::decision;
use fx_strategy::decision::TradeRules;
use fx_strategy::execution_stats::{Execution, FillStatus, LaggedExecutionStats};
use fx_strategy::extractor::{
    ExecutionReport, FeatureExtractor, FeatureExtractorConfig, MarketQuote, Session,
};
use fx_strategy::features::FeatureVector;
use fx_strategy::mc_eval::{EpisodeBuffer, McEvalConfig, McEvaluator, RewardConfig, TerminalReason};
use fx_strategy::policy::Action;
use fx_strategy::regime;
use fx_strategy::rolling::RollingWindow;
use fx_strategy::scalar::Scalar;
use fx_strategy::state::{Position, StateSnapshot, StrategyId};
use fx_strategy::strategy_a::{EpisodeState, StrategyA, StrategyAConfig};
use fx_strategy::strategy_b::{StrategyB, StrategyBConfig};
use fx_strategy::strategy_c::{EpisodeStateC, StrategyC, StrategyCConfig};
use fx_strategy::thompson_sampling::{
    compute_dynamic_k, ThompsonSamplingConfig, ThompsonSamplingPolicy,
};

fn s(x: f64) -> Scalar {
    Scalar::from_bits(x.to_bits())
}

fn f(x: Scalar) -> f64 {
    f64::from_bits(x.to_bits())
}

fn scalars(v: &[f64]) -> Vec<Scalar> {
    v.iter().map(|&x| s(x)).collect()
}

fn floats(v: &[Scalar]) -> Vec<f64> {
    v.iter().map(|&x| f(x)).collect()
}

fn kept(halflife: usize) -> Scalar {
    s(f(BayesianLinearRegression::decay_exponent(halflife)).exp())
}

fn q_function(dim: usize, bias: f64) -> QFunction {
    QFunction::new(dim, s(1.0), kept(500), s(0.01), s(bias))
}

fn draw_of(dim: usize, value: f64) -> Draw {
    Draw {
        normals: vec![s(value); dim],
        factor: None,
    }
}

fn draws_of(dim: usize, buy: f64, sell: f64, hold: f64) -> ActionDraws {
    ActionDraws {
        buy: draw_of(dim, buy),
        sell: draw_of(dim, sell),
        hold: draw_of(dim, hold),
    }
}

fn values(buy: f64, sell: f64, hold: f64) -> ActionValues {
    ActionValues {
        buy: s(buy),
        sell: s(sell),
        hold: s(hold),
    }
}

fn state() -> StateSnapshot {
    StateSnapshot {
        position_a: None,
        position_b: None,
        position_c: None,
        global_position: s(0.0),
        global_position_limit: s(10.0),
        lot_multiplier: s(1.0),
    }
}

fn position(size: f64) -> Position {
    Position {
        size: s(size),
        entry_price: s(110.0),
        unrealized_pnl: s(5.0),
        realized_pnl: s(0.0),
    }
}

fn rules() -> TradeRules {
    TradeRules {
        non_model_uncertainty_k: s(0.1),
        latency_penalty_k: s(0.001),
        min_trade_frequency: s(0.02),
        trade_frequency_window: 50,
        hold_degeneration_inflation: s(1.5),
        max_lot_size: 1_000_000,
        min_lot_size: 1000,
        consistency_threshold: s(0.05),
        default_lot_size: 100_000,
    }
}

// The choice.

#[test]
fn test_cost_of_a_trade_is_taken_off_trades_only() {
    let dim = FeatureVector::DIM;
    let q = q_function(dim, 0.1);
    let mut features = FeatureVector::zero();
    features.self_impact = s(0.3);
    features.dynamic_cost = s(0.2);
    let phi = features.flattened();
    let draws = draws_of(dim, 0.5, -0.25, 1.5);
    let choice = decision::choose_action(
        &q, &phi, &draws, &features, &state(), s(0.5), s(4.0), true, &rules(),
    );
    let raw = q.sample_q_values(&phi, &draws);
    let noise = f(q.model(QAction::Buy).noise_variance()).sqrt();
    let cost = 0.3 + 0.2 + 0.5 * noise + 0.001 * 4.0;
    assert_eq!(f(choice.sampled.buy), f(raw.buy) - cost);
    assert_eq!(f(choice.sampled.sell), f(raw.sell) - cost);
    assert_eq!(f(choice.sampled.hold), f(raw.hold));
    assert!(f(choice.sampled.buy) < f(raw.buy));
    for &action in QAction::all() {
        assert_eq!(f(choice.points.get(action)), f(q.q_point(action, &phi)));
        assert_eq!(
            f(choice.deviations.get(action)),
            f(q.posterior_std(action, &phi))
        );
    }
}

#[test]
fn test_greatest_sample_is_chosen() {
    let dim = 2;
    let q = q_function(dim, 0.0);
    let features = FeatureVector::zero();
    let phi = scalars(&[1.0, 1.0]);
    for (draws, expected) in [
        (draws_of(dim, 3.0, 0.0, 0.0), QAction::Buy),
        (draws_of(dim, 0.0, 3.0, 0.0), QAction::Sell),
        (draws_of(dim, -3.0, -3.0, 3.0), QAction::Hold),
    ] {
        let choice = decision::choose_action(
            &q, &phi, &draws, &features, &state(), s(0.0), s(0.0), true, &rules(),
        );
        assert_eq!(decision::action_kind(&choice.action), expected);
        let best = f(choice.sampled.get(expected));
        for &other in QAction::all() {
            assert!(f(choice.sampled.get(other)) <= best);
        }
    }
}

#[test]
fn test_position_limit_holds_whatever_the_samples_are() {
    let dim = 2;
    let q = q_function(dim, 0.0);
    let features = FeatureVector::zero();
    let phi = scalars(&[1.0, 1.0]);
    let at_top = StateSnapshot {
        global_position: s(10.0),
        ..state()
    };
    let at_bottom = StateSnapshot {
        global_position: s(-10.0),
        ..state()
    };
    let tight = StateSnapshot {
        global_position_limit: s(0.1),
        ..state()
    };
    assert!(!at_top.buy_allowed() && at_top.sell_allowed());
    assert!(at_bottom.buy_allowed() && !at_bottom.sell_allowed());
    assert!(!tight.buy_allowed() && !tight.sell_allowed());
    for buy in [-5.0, 0.0, 5.0] {
        for sell in [-5.0, 0.0, 5.0] {
            let draws = draws_of(dim, buy, sell, 0.0);
            let act = |state: &StateSnapshot| {
                decision::choose_action(
                    &q, &phi, &draws, &features, state, s(0.0), s(0.0), true, &rules(),
                )
                .action
            };
            assert!(!matches!(act(&at_top), Action::Buy(_)));
            assert!(!matches!(act(&at_bottom), Action::Sell(_)));
            assert_eq!(act(&tight), Action::Hold);
        }
    }
}

#[test]
fn test_undecided_choice_holds() {
    let dim = 2;
    let q = q_function(dim, 0.0);
    let features = FeatureVector::zero();
    let phi = scalars(&[1.0, 1.0]);
    let draws = draws_of(dim, 3.0, 3.0, 0.0);
    let choice = decision::choose_action(
        &q, &phi, &draws, &features, &state(), s(0.0), s(0.0), true, &rules(),
    );
    assert!(choice.consistency_fallback);
    assert_eq!(choice.action, Action::Hold);
    assert!(decision::check_consistency(s(1.0), s(1.02), s(0.05)));
    assert!(!decision::check_consistency(s(1.0), s(1.06), s(0.05)));
    assert!(!decision::check_consistency(s(0.0), s(0.0), s(0.05)));
}

#[test]
fn test_only_samples_decide() {
    let dim = 2;
    let mut wide = q_function(dim, 0.0);
    let narrow = q_function(dim, 0.0);
    wide.inflate_covariance(s(4.0));
    let features = FeatureVector::zero();
    let phi = scalars(&[1.0, 1.0]);
    let act = |q: &QFunction, draws: &ActionDraws| {
        decision::choose_action(
            q, &phi, draws, &features, &state(), s(0.0), s(0.0), true, &rules(),
        )
    };
    let one = act(&wide, &draws_of(dim, 1.0, 0.25, -1.0));
    let other = act(&narrow, &draws_of(dim, 2.0, 0.5, -2.0));
    assert_eq!(floats(&[one.sampled.buy, one.sampled.sell, one.sampled.hold]),
        floats(&[other.sampled.buy, other.sampled.sell, other.sampled.hold]));
    assert_ne!(f(one.deviations.buy), f(other.deviations.buy));
    assert_eq!(one.action, other.action);
}

#[test]
fn test_lots_are_within_bounds() {
    assert_eq!(decision::lot_size(100_000, 1_000_000, s(0.5)), 50_000);
    assert_eq!(decision::lot_size(100_000, 1_000_000, s(20.0)), 1_000_000);
    assert_eq!(decision::lot_size(100_000, 1_000_000, s(-1.0)), 0);
    assert_eq!(decision::lot_size(100_000, 1_000_000, s(f64::NAN)), 0);
    assert_eq!(decision::lot_size(100_000, 1_000_000, s(f64::INFINITY)), 1_000_000);
    let mut last = 0;
    for i in 0..40 {
        let lot = decision::lot_size(100_000, 1_000_000, s(i as f64 * 0.37));
        assert!(last <= lot && lot <= 1_000_000);
        last = lot;
    }
    let dim = 2;
    let q = q_function(dim, 0.0);
    let features = FeatureVector::zero();
    let phi = scalars(&[1.0, 1.0]);
    let draws = draws_of(dim, 3.0, 0.0, 0.0);
    for (multiplier, expected) in [
        (1.0, Action::Buy(100_000)),
        (0.01, Action::Buy(1000)),
        (0.0099, Action::Hold),
        (100.0, Action::Buy(1_000_000)),
    ] {
        let state = StateSnapshot {
            lot_multiplier: s(multiplier),
            ..state()
        };
        let choice = decision::choose_action(
            &q, &phi, &draws, &features, &state, s(0.0), s(0.0), true, &rules(),
        );
        assert_eq!(choice.action, expected);
    }
    let least = TradeRules {
        min_lot_size: 60_000,
        ..rules()
    };
    let half = StateSnapshot {
        lot_multiplier: s(0.5),
        ..state()
    };
    let choice = decision::choose_action(
        &q, &phi, &draws, &features, &half, s(0.0), s(0.0), true, &least,
    );
    assert_eq!(choice.action, Action::Hold);
}

#[test]
fn test_best_allowed_action() {
    let q = values(3.0, 2.0, 1.0);
    assert_eq!(decision::select_best(&q, true, true), QAction::Buy);
    assert_eq!(decision::select_best(&q, false, true), QAction::Sell);
    assert_eq!(decision::select_best(&q, true, false), QAction::Buy);
    assert_eq!(decision::select_best(&q, false, false), QAction::Hold);
    let q = values(-1.0, -2.0, 0.0);
    assert_eq!(decision::select_best(&q, true, true), QAction::Hold);
    assert_eq!(decision::select_best(&q, true, false), QAction::Hold);
}

// How often trades are made.

#[test]
fn test_frequency_is_a_share_of_the_window() {
    let mut history: Vec<bool> = Vec::new();
    assert_eq!(f(decision::frequency(&history)), 0.0);
    for i in 0..10 {
        decision::record(&mut history, 4, i % 4 == 0);
        assert!(history.len() <= 4);
        assert_eq!(*history.last().unwrap(), i % 4 == 0);
        let share = f(decision::frequency(&history));
        assert!((0.0..=1.0).contains(&share));
    }
    assert_eq!(f(decision::frequency(&history)), 0.25);
    assert_eq!(f(decision::frequency(&[true, true])), 1.0);
}

#[test]
fn test_too_rare_only_after_a_full_window() {
    let rules = TradeRules {
        trade_frequency_window: 4,
        min_trade_frequency: s(0.5),
        ..rules()
    };
    let history = [false, false, false, true];
    assert!(!decision::is_too_rare(&history, 3, &rules));
    assert!(decision::is_too_rare(&history, 4, &rules));
    assert!(!decision::is_too_rare(&[true, false, false, true], 4, &rules));
}

#[test]
fn test_widening_stops_at_its_target_and_fades() {
    let mut q = q_function(3, 0.1);
    let before = q.model(QAction::Buy).a_inv.clone();
    let mut width = decision::steer(&mut q, s(1.0), true, s(2.0), s(0.9));
    assert_eq!(f(width), 2.0);
    let wide = q.model(QAction::Buy).a_inv.clone();
    for (x, y) in before.iter().zip(wide.iter()) {
        assert_eq!(f(*y), 2.0 * f(*x));
    }
    width = decision::steer(&mut q, width, true, s(2.0), s(0.9));
    assert_eq!(f(width), 2.0);
    assert_eq!(q.model(QAction::Buy).a_inv, wide);
    let mut last = f(width);
    for _ in 0..80 {
        width = decision::steer(&mut q, width, false, s(2.0), s(0.9));
        assert!(1.0 <= f(width) && f(width) <= last);
        last = f(width);
    }
    assert_eq!(last, 1.0);
    assert_eq!(q.model(QAction::Buy).a_inv, wide);
    assert_eq!(f(decision::steer(&mut q, s(1.5), false, s(2.0), s(0.5))), 1.25);
}

#[test]
fn test_noise_weighs_more_in_a_wild_market() {
    assert_eq!(f(compute_dynamic_k(s(0.1), s(0.0), s(1.0))), 0.1);
    assert_eq!(
        f(compute_dynamic_k(s(0.1), s(0.02), s(0.75))),
        0.1 * (1.0 + 10.0 * 0.02) * 1.0
    );
    assert_eq!(
        f(compute_dynamic_k(s(0.1), s(0.02), s(0.25))),
        0.1 * (1.0 + 10.0 * 0.02) * (1.0 + 2.0 * 0.75)
    );
    for volatility in [0.0, 1e-4, 0.5, 1e10, 1e308] {
        for stability in [0.0, 0.3, 0.5, 1.0] {
            assert!(f(compute_dynamic_k(s(0.1), s(volatility), s(stability))) >= 0.1);
        }
    }
}

#[test]
fn test_policy_weighs_noise_by_the_market() {
    let dim = FeatureVector::DIM;
    let mut policy =
        ThompsonSamplingPolicy::new(q_function(dim, 0.1), ThompsonSamplingConfig::default());
    let base_k = f(policy.config().non_model_uncertainty_k);
    let mut features = FeatureVector::zero();
    features.realized_volatility = s(0.05);
    features.volatility_ratio = s(0.8);
    let draws = draws_of(dim, 0.0, 0.0, 0.0);
    let noise = f(policy.q_function().model(QAction::Buy).noise_variance()).sqrt();
    let raw = policy
        .q_function()
        .sample_q_values(&features.flattened(), &draws);
    let decision = policy.decide(&features, &state(), StrategyId::A, s(0.0), &draws);
    let stability = (1.0_f64 - 0.8).max(0.0);
    let k = base_k * (1.0 + 10.0 * 0.05) * (1.0 + 2.0 * (1.0 - stability));
    let cost = 0.0 + 0.0 + k * noise + 0.0;
    assert_eq!(f(decision.all_sampled_q.buy), f(raw.buy) - cost);
    assert_eq!(f(decision.all_sampled_q.hold), f(raw.hold));
}

// Episodes.

fn triggered_a() -> FeatureVector {
    let mut features = FeatureVector::zero();
    features.spread_zscore = s(4.0);
    features.depth_change_rate = s(-0.5);
    features.volatility_ratio = s(4.0);
    features
}

const NOW_NS: u64 = 1_000_000_000_000;

#[test]
fn test_episode_begins_with_a_trade_and_ends() {
    let config = StrategyAConfig::default();
    let mut strategy = StrategyA::new(config, kept(config.halflife));
    let dim = strategy.q_function().dim();
    let features = triggered_a();
    let buys = draws_of(dim, 3.0, -3.0, 0.0);
    let holds = draws_of(dim, -3.0, -3.0, 3.0);
    assert!(strategy.wants_draws(&features, &state(), s(0.5), NOW_NS));
    let d = strategy.decide(&features, &state(), s(0.5), s(0.0), NOW_NS, s(1.0), &holds);
    assert_eq!(d.action, Action::Hold);
    assert!(!d.episode_active);
    assert_eq!(strategy.episode_state(), &EpisodeState::Idle);

    let d = strategy.decide(&features, &state(), s(0.5), s(0.0), NOW_NS, s(1.0), &buys);
    assert_eq!(d.action, Action::Buy(100_000));
    assert!(d.episode_active && d.triggered);
    assert_eq!(d.remaining_hold_time_ms, 30_000);
    assert_eq!(
        strategy.episode_state(),
        &EpisodeState::Active {
            entry_timestamp_ns: NOW_NS
        }
    );

    let held = StateSnapshot {
        position_a: Some(position(100_000.0)),
        ..state()
    };
    let later = NOW_NS + 10_000_000_000;
    let d = strategy.decide(&FeatureVector::zero(), &held, s(0.5), s(0.0), later, s(1.0), &holds);
    assert!(d.episode_active && !d.triggered && !d.should_close);
    assert_eq!(d.remaining_hold_time_ms, 20_000);

    let end = NOW_NS + 30_000_000_000;
    assert!(!strategy.wants_draws(&features, &held, s(0.5), end));
    let none = draws_of(0, 0.0, 0.0, 0.0);
    let d = strategy.decide(&features, &held, s(0.5), s(0.0), end, s(1.0), &none);
    assert!(d.should_close && !d.episode_active);
    assert_eq!(d.action, Action::Sell(100_000));
    assert_eq!(d.skip_reason.as_deref(), Some("MAX_HOLD_TIME exceeded"));
    assert_eq!(strategy.episode_state(), &EpisodeState::Idle);
}

#[test]
fn test_nothing_is_sampled_without_a_trigger() {
    let config = StrategyBConfig::default();
    let mut one = StrategyB::new(config, kept(config.halflife));
    let mut other = one.clone();
    let features = FeatureVector::zero();
    assert!(!one.wants_draws(&features, &state(), s(0.5), NOW_NS));
    let d1 = one.decide(
        &features, &state(), s(0.5), s(0.0), NOW_NS, s(1.0), &draws_of(0, 0.0, 0.0, 0.0),
    );
    let d2 = other.decide(
        &features, &state(), s(0.5), s(0.0), NOW_NS, s(1.0), &draws_of(43, 9.0, -9.0, 3.0),
    );
    assert_eq!(d1, d2);
    assert_eq!(one, other);
    assert_eq!(d1.skip_reason.as_deref(), Some("trigger conditions not met"));
}

#[test]
fn test_opposite_trade_closes_the_session_strategy() {
    let config = StrategyCConfig::default();
    let mut strategy = StrategyC::new(config, kept(config.halflife));
    let dim = strategy.q_function().dim();
    strategy.start_episode(NOW_NS);
    let held = StateSnapshot {
        position_c: Some(position(1000.0)),
        ..state()
    };
    let features = FeatureVector::zero();
    let later = NOW_NS + 1_000_000;
    let sells = draws_of(dim, -3.0, 3.0, 0.0);
    let d = strategy.decide(
        &features, &held, s(0.5), s(0.0), later, s(1.0), s(1.0), &sells,
    );
    assert!(matches!(d.action, Action::Sell(_)));
    assert!(d.should_close);
    assert_eq!(d.skip_reason.as_deref(), Some("TRIGGER_EXIT close"));
    let buys = draws_of(dim, 3.0, -3.0, 0.0);
    let d = strategy.decide(
        &features, &held, s(0.5), s(0.0), later, s(1.0), s(1.0), &buys,
    );
    assert!(matches!(d.action, Action::Buy(_)));
    assert!(!d.should_close);
    assert_eq!(
        strategy.episode_state(),
        &EpisodeStateC::Active {
            entry_timestamp_ns: NOW_NS
        }
    );
}

#[test]
fn test_closing_actions() {
    assert_eq!(decision::closing_action(s(500.75)), Action::Sell(500));
    assert_eq!(decision::closing_action(s(-20.0)), Action::Buy(20));
    assert_eq!(decision::closing_action(s(0.0)), Action::Hold);
    assert_eq!(decision::closing_action(s(1e-17)), Action::Hold);
}

// Features.

#[test]
fn test_probabilities_stay_probabilities() {
    let config = StrategyAConfig::default();
    let a = StrategyA::new(config, kept(config.halflife));
    let config = StrategyBConfig::default();
    let b = StrategyB::new(config, kept(config.halflife));
    let config = StrategyCConfig::default();
    let c = StrategyC::new(config, kept(config.halflife));
    let e = FeatureExtractor::new(FeatureExtractorConfig::default());
    let extremes = [0.0, -0.0, 1.0, -1.0, 0.3, 1e300, -1e300, f64::INFINITY, f64::NEG_INFINITY, f64::NAN];
    let within = |p: Scalar| (0.0..=1.0).contains(&f(p));
    for &x in &extremes {
        for &y in &extremes {
            let mut base = FeatureVector::zero();
            base.spread_zscore = s(x);
            base.depth_change_rate = s(y);
            base.volatility_ratio = s(x);
            base.volatility_decay_rate = s(y);
            base.trade_intensity = s(x);
            base.obi = s(y);
            assert!(within(a.compute_p_revert_a(&base)));
            assert!(within(b.compute_p_continue_b(&base)));
            assert!(within(c.compute_p_trend_c(&base, s(0.5))));
            assert!(within(e.compute_p_revert(s(x), s(y), s(x))));
            assert!(within(e.compute_p_continue(s(x), s(y))));
            if !y.is_nan() {
                assert!(within(e.compute_p_trend(Session::London, s(y))));
            }
        }
    }
}

#[test]
fn test_probability_formulas() {
    let config = StrategyAConfig::default();
    let a = StrategyA::new(config, kept(config.halflife));
    let mut base = FeatureVector::zero();
    base.spread_zscore = s(-1.2);
    base.depth_change_rate = s(-0.7);
    base.volatility_ratio = s(1.9);
    let expected = 1.2 / 3.0 * 0.4 + (0.7 - 0.2) / 0.8 * 0.35 + (1.9 - 1.0) / 2.0 * 0.25;
    assert_eq!(f(a.compute_p_revert_a(&base)), expected);
    let config = StrategyBConfig::default();
    let b = StrategyB::new(config, kept(config.halflife));
    base.volatility_decay_rate = s(-0.35);
    base.obi = s(-0.6);
    base.trade_intensity = s(4.0);
    let expected = 0.35 * 0.4 + 0.6 * 0.35 + 4.0 / 10.0 * 0.25;
    assert_eq!(f(b.compute_p_continue_b(&base)), expected);
    let config = StrategyCConfig::default();
    let c = StrategyC::new(config, kept(config.halflife));
    base.session_ny = s(0.8);
    base.time_since_open_ms = s(1_800_000.0);
    let weight = f(c.time_weight_exponent(base.time_since_open_ms)).exp();
    assert_eq!(weight, (-1_800_000.0_f64 / 3_600_000.0).exp());
    let expected = 0.6 * 0.4 + 0.8 * 0.35 + weight * 0.25;
    assert_eq!(f(c.compute_p_trend_c(&base, s(weight))), expected);
    let e = FeatureExtractor::new(FeatureExtractorConfig::default());
    assert_eq!(
        f(e.compute_p_revert(s(1.5), s(0.2), s(-0.3))),
        1.5 / 3.0 * 0.4 + 0.2 * 2.0 * 0.3 + 1.0 * 0.3
    );
    assert_eq!(
        f(e.compute_p_continue(s(1.25), s(7.0))),
        (1.25 - 1.0) * 2.0 * 0.6 + 7.0 / 20.0 * 0.4
    );
    assert_eq!(
        f(e.compute_p_trend(Session::NewYork, s(-0.3))),
        0.5 + 0.15 + -0.3 * 0.3
    );
    assert_eq!(
        f(e.compute_dynamic_cost(s(0.005), s(0.001), s(-0.4))),
        0.005 + 0.4 * 0.005 * 0.5 + 0.001 * 0.005 * 10.0
    );
    assert_eq!(
        f(e.compute_self_impact(s(-250_000.0), s(0.002))),
        250_000.0 / f(e.config.typical_lot_size) * 0.002
    );
}

#[test]
fn test_own_features_follow_the_base() {
    let mut base = FeatureVector::zero();
    base.spread_zscore = s(1.5);
    base.obi = s(-0.4);
    base.self_impact = s(0.7);
    base.depth_change_rate = s(-0.9);
    base.realized_volatility = s(0.03);
    base.volatility_decay_rate = s(-0.2);
    base.trade_intensity = s(6.0);
    base.signed_volume = s(300.0);
    base.queue_position = s(0.25);
    base.session_london = s(1.0);
    base.time_since_open_ms = s(90_000_000.0);
    base.holding_time_ms = s(2000.0);
    let flat = floats(&base.flattened());
    let config = StrategyAConfig::default();
    let a = StrategyA::new(config, kept(config.halflife));
    let decayed = f(a.time_decay_exponent(s(2000.0))).exp();
    assert_eq!(decayed, (-0.001_f64 * 2000.0).exp());
    let phi = floats(&a.extract_features(&base, s(decayed)));
    assert_eq!(phi.len(), 43);
    assert_eq!(phi[..38], flat[..]);
    assert_eq!(phi[38], 1.5 * -0.4);
    assert_eq!(phi[39], 0.7 * (1.0 + 0.9));
    assert_eq!(phi[41], decayed);
    assert_eq!(phi[42], -0.9 * 0.03);
    let config = StrategyCConfig::default();
    let c = StrategyC::new(config, kept(config.halflife));
    let phi = floats(&c.extract_features(&base, s(0.5), s(0.25)));
    assert_eq!(phi[..38], flat[..]);
    assert_eq!(phi[38], -0.4 * 1.0);
    assert_eq!(phi[39], -0.9 * 0.25);
    assert_eq!(phi[41], 0.25);
    assert_eq!(phi[42], -0.4 * 60.0);
    base.holding_time_ms = s(0.0);
    let phi = floats(&c.extract_features(&base, s(0.5), s(0.25)));
    assert_eq!(phi[41], 1.0);
}

#[test]
fn test_flat_form_is_faithful() {
    let flat: Vec<f64> = (0..38).map(|i| i as f64 * 0.5 - 3.0).collect();
    let features = FeatureVector::from_flattened(&scalars(&flat)).unwrap();
    assert_eq!(floats(&features.flattened()), flat);
    assert_eq!(f(features.spread), -3.0);
    assert_eq!(f(features.spread_z_x_self_impact), 15.5);
    let names = FeatureVector::header_names();
    assert_eq!(names.len(), flat.len());
    for i in 0..names.len() {
        for j in 0..i {
            assert_ne!(names[i], names[j]);
        }
    }
}

#[test]
fn test_regime_input_is_fit() {
    let mut flat = vec![f64::NAN; 38];
    flat[13] = f64::NEG_INFINITY;
    flat[14] = 1e300;
    flat[15] = f64::INFINITY;
    let features = FeatureVector::from_flattened(&scalars(&flat)).unwrap();
    for x in floats(&features.flattened_for_regime_model()) {
        assert!(x.is_finite());
    }
}

fn quote(offset_ms: u64, bid: f64, ask: f64, bid_size: f64, ask_size: f64) -> MarketQuote {
    MarketQuote {
        bid: s(bid),
        ask: s(ask),
        bid_size: s(bid_size),
        ask_size: s(ask_size),
        timestamp_ns: NOW_NS + offset_ms * 1_000_000,
    }
}

fn report(status: FillStatus, size: f64) -> ExecutionReport {
    ExecutionReport {
        fill_status: status,
        slippage: s(-0.002),
        fill_size: s(size),
        execution_drift_trend: s(0.004),
        header_timestamp_ns: None,
    }
}

fn feed(extractor: &mut FeatureExtractor, q: MarketQuote) {
    let log_ratio = extractor
        .mid_ratio(&q)
        .map_or(s(0.0), |ratio| s(f(ratio).ln()));
    extractor.process_market_event(Some(q), log_ratio);
}

#[test]
fn test_features_do_not_tell_of_unseen_executions() {
    let config = FeatureExtractorConfig {
        execution_lag_ns: 100_000_000,
        ..FeatureExtractorConfig::default()
    };
    let mut without = FeatureExtractor::new(config);
    let mut with = FeatureExtractor::new(config);
    let q = quote(0, 110.0, 110.01, 3e6, 1e6);
    feed(&mut without, q);
    feed(&mut with, q);
    for e in [&mut without, &mut with] {
        e.process_execution_event(Some(report(FillStatus::Filled, 500.0)), NOW_NS);
    }
    let late = NOW_NS + 50_000_000;
    with.process_execution_event(Some(report(FillStatus::Rejected, 900.0)), late);
    let at = |e: &mut FeatureExtractor, now: u64| {
        e.extract(Some(q), &state(), StrategyId::A, now, 0, s(1.0))
    };
    let now = NOW_NS + 149_000_000;
    assert_eq!(at(&mut without, now), at(&mut with, now));
    assert_eq!(f(at(&mut with, now).recent_fill_rate), 0.05);
    assert_eq!(f(at(&mut with, now).trade_intensity), 1.0);
    let now = NOW_NS + 150_000_000;
    let seen = at(&mut with, now);
    assert_ne!(at(&mut without, now), seen);
    assert_eq!(f(seen.recent_fill_rate), 0.05 + 0.05 * (0.0 - 0.05));
    assert_eq!(f(seen.recent_reject_rate), 0.05);
    assert_eq!(f(seen.trade_intensity), 1.0);
    assert_eq!(f(seen.signed_volume), 500.0);
    assert_eq!(f(seen.recent_slippage), 0.05 * 0.002 + 0.05 * (0.002 - 0.05 * 0.002));
}

#[test]
fn test_report_says_itself_when_it_was() {
    let config = FeatureExtractorConfig {
        execution_lag_ns: 100_000_000,
        ..FeatureExtractorConfig::default()
    };
    let mut e = FeatureExtractor::new(config);
    let early = ExecutionReport {
        header_timestamp_ns: Some(NOW_NS),
        ..report(FillStatus::PartialFill, 200.0)
    };
    e.process_execution_event(Some(early), NOW_NS + 90_000_000);
    let q = quote(0, 110.0, 110.01, 1e6, 1e6);
    let fv = e.extract(Some(q), &state(), StrategyId::A, NOW_NS + 100_000_000, 0, s(1.0));
    assert_eq!(f(fv.signed_volume), 200.0);
}

#[test]
fn test_held_features_come_again() {
    let mut e = FeatureExtractor::new(FeatureExtractorConfig::default());
    let first = quote(0, 110.0, 110.01, 3e6, 1e6);
    feed(&mut e, first);
    let fv = e.extract(Some(first), &state(), StrategyId::A, NOW_NS, 0, s(1.0));
    e.set_gap_hold(true);
    let second = quote(500, 111.0, 111.05, 1e6, 4e6);
    feed(&mut e, second);
    assert_eq!(e.extract(Some(second), &state(), StrategyId::A, NOW_NS, 0, s(1.0)), fv);
    let b = e.extract(Some(second), &state(), StrategyId::B, NOW_NS, 0, s(1.0));
    assert_ne!(b, fv);
    e.set_gap_hold(false);
    assert_ne!(e.extract(Some(second), &state(), StrategyId::A, NOW_NS, 0, s(1.0)), fv);
}

#[test]
fn test_quote_features() {
    let mut e = FeatureExtractor::new(FeatureExtractorConfig::default());
    let first = quote(0, 110.0, 110.01, 3e6, 1e6);
    let second = quote(250, 110.02, 110.03, 1e6, 2e6);
    feed(&mut e, first);
    feed(&mut e, second);
    let held = StateSnapshot {
        position_a: Some(position(-50_000.0)),
        ..state()
    };
    let fv = e.extract(Some(second), &held, StrategyId::A, NOW_NS, 7, s(0.9));
    let spread = 110.03 - 110.02;
    assert_eq!(f(fv.spread), spread);
    let obi = (2e6 - 1e6) / 3e6;
    assert_eq!(f(fv.obi), obi);
    assert_eq!(f(fv.delta_obi), obi - (1e6 - 3e6) / 4e6);
    assert_eq!(f(fv.depth_change_rate), (3e6 - 4e6) / 4e6);
    let lot = f(e.config.typical_lot_size);
    assert_eq!(f(fv.queue_position), (50_000.0 / lot / (1e6 / lot)).min(1.0));
    assert_eq!(f(fv.position_direction), -1.0);
    assert_eq!(f(fv.position_size), -50_000.0);
    assert_eq!(f(fv.holding_time_ms), 7.0);
    assert_eq!(f(fv.time_decay), 0.9);
    assert_eq!(f(fv.time_since_open_ms), 250.0);
    assert_eq!(f(e.current_obi()), obi);
    assert!((f(fv.realized_volatility) - f(e.current_realized_vol())).abs() == 0.0);
    e.reset_session_open(NOW_NS + 200_000_000);
    let fv = e.extract(Some(second), &held, StrategyId::A, NOW_NS, 7, s(0.9));
    assert_eq!(f(fv.time_since_open_ms), 50.0);
}

#[test]
fn test_imbalance_is_within_one() {
    for (bid, ask) in [(0.0, 0.0), (1.0, 0.0), (0.0, 1.0), (1e308, 1e-300), (1e308, 1e308), (3.0, 7.0)] {
        let mut e = FeatureExtractor::new(FeatureExtractorConfig::default());
        feed(&mut e, quote(0, 110.0, 110.01, bid, ask));
        assert!(f(e.current_obi()).abs() <= 1.0);
    }
}

#[test]
fn test_one_session_is_marked() {
    let hours = [0, 8, 13, 22];
    for hour in 0..24 {
        let session = Session::from_utc_hour(hour, &hours);
        let (a, b, c, d) = session.one_hot();
        assert_eq!(f(a) + f(b) + f(c) + f(d), 1.0);
    }
    assert_eq!(Session::from_utc_hour(7, &hours), Session::Tokyo);
    assert_eq!(Session::from_utc_hour(8, &hours), Session::London);
    assert_eq!(Session::from_utc_hour(13, &hours), Session::NewYork);
    assert_eq!(Session::from_utc_hour(22, &hours), Session::Sydney);
}

#[test]
fn test_window_keeps_to_its_capacity() {
    let mut w = RollingWindow::new(3);
    for i in 0..20 {
        w.push(s(i as f64));
        assert!(w.len() <= 3);
    }
    assert_eq!(f(w.mean()), 18.0);
    assert_eq!(f(w.variance()), 1.0);
    assert_eq!(f(w.z_score(s(20.5))), 2.5);
}

#[test]
fn test_rates_are_shares() {
    let mut stats = LaggedExecutionStats::new();
    for i in 0..300_u64 {
        let fill_status = if i % 7 < 5 {
            FillStatus::Filled
        } else {
            FillStatus::Rejected
        };
        stats.update(Execution {
            fill_status,
            slippage: s(0.0),
            fill_size: s(1.0),
            execution_drift_trend: s(0.0),
            timestamp_ns: i,
        });
        let averages = stats.averages(i, 0);
        assert!((0.0..=1.0).contains(&f(averages.fill_rate_ema)));
        assert!((0.0..=1.0).contains(&f(averages.reject_rate_ema)));
    }
}

#[test]
fn test_every_execution_that_is_due_is_seen() {
    let mut stats = LaggedExecutionStats::new();
    for (timestamp_ns, drift) in [(50, 1.0), (10, 2.0), (40, 4.0)] {
        stats.update(Execution {
            fill_status: FillStatus::Filled,
            slippage: s(0.0),
            fill_size: s(10.0),
            execution_drift_trend: s(drift),
            timestamp_ns,
        });
    }
    // The first that came is not due yet, the second is.
    assert_eq!(f(stats.averages(35, 20).drift_ema), 0.05 * 2.0);
    assert_eq!(f(stats.averages(35, 20).fill_rate_ema), 0.05);
    assert_eq!(f(stats.trade_intensity(35, 20)), 1.0);
    assert_eq!(f(stats.averages(60, 20).drift_ema), 0.1 + 0.05 * (4.0 - 0.1));
    assert_eq!(f(stats.averages(70, 20).drift_ema), {
        let first: f64 = 0.05;
        let second = first + 0.05 * (2.0 - first);
        second + 0.05 * (4.0 - second)
    });
    // What may be seen later does not show when an earlier time is asked for again.
    assert_eq!(f(stats.averages(29, 20).fill_rate_ema), 0.0);
}

#[test]
fn test_quotes_do_not_uncover_executions() {
    let config = FeatureExtractorConfig {
        execution_lag_ns: 100_000_000,
        ..FeatureExtractorConfig::default()
    };
    let mut e = FeatureExtractor::new(config);
    feed(&mut e, quote(0, 110.0, 110.01, 3e6, 1e6));
    e.process_execution_event(Some(report(FillStatus::Filled, 500.0)), NOW_NS);
    let late = quote(200, 110.0, 110.01, 3e6, 1e6);
    feed(&mut e, late);
    let fv = e.extract(Some(late), &state(), StrategyId::A, NOW_NS + 50_000_000, 0, s(1.0));
    assert_eq!(f(fv.recent_fill_rate), 0.0);
    assert_eq!(f(fv.trade_intensity), 0.0);
    let fv = e.extract(Some(late), &state(), StrategyId::A, NOW_NS + 200_000_000, 0, s(1.0));
    assert_eq!(f(fv.recent_fill_rate), 0.05);
    let fv = e.extract(Some(late), &state(), StrategyId::A, NOW_NS + 99_000_000, 0, s(1.0));
    assert_eq!(f(fv.recent_fill_rate), 0.0);
}

#[test]
fn test_extraction_defaults() {
    let config = FeatureExtractorConfig::default();
    assert_eq!(config.spread_window, 200);
    assert_eq!(config.obi_window, 200);
    assert_eq!(config.vol_window, 100);
    assert_eq!(config.vol_long_window, 500);
    assert_eq!(config.trade_intensity_window_ns, 60_000_000_000);
    assert_eq!(config.execution_lag_ns, 0);
    assert_eq!(f(config.default_decay_rate), 0.001);
    assert_eq!(f(config.typical_lot_size), 100_000.0);
    assert_eq!(f(config.max_hold_time_ms), 30_000.0);
    assert_eq!(config.session_hours_utc, [0, 8, 13, 22]);
}

#[test]
fn test_reversion_defaults() {
    let config = StrategyAConfig::default();
    assert_eq!(f(config.lambda_reg), 0.1);
    assert_eq!(config.halflife, 100);
    assert_eq!(f(config.initial_sigma2), 0.01);
    assert_eq!(f(config.optimistic_bias), 0.01);
    assert_eq!(f(config.non_model_uncertainty_k), 1.0);
    assert_eq!(f(config.latency_penalty_k), 0.01);
}

#[test]
fn test_features_are_in_range() {
    let mut e = FeatureExtractor::new(FeatureExtractorConfig::default());
    for i in 0..40_u64 {
        let mid = 110.0 + 0.01 * ((i * 7) % 5) as f64;
        let q = quote(i * 100, mid, mid + 0.01, 1e3 * (1 + i % 3) as f64, 2e3);
        feed(&mut e, q);
        let size = (i as f64 - 20.0) * 700.0;
        let held = StateSnapshot {
            position_a: Some(position(size)),
            ..state()
        };
        let fv = e.extract(Some(q), &held, StrategyId::A, NOW_NS, i, s(0.25));
        for x in [fv.queue_position, fv.p_revert, fv.p_continue, fv.p_trend, fv.time_decay] {
            assert!((0.0..=1.0).contains(&f(x)));
        }
        assert!((-1.0..=1.0).contains(&f(fv.obi)));
        assert!(f(fv.realized_volatility) >= 0.0);
        let direction = if size == 0.0 { 0.0 } else { size.signum() };
        assert_eq!(f(fv.position_direction), direction);
        let marks = [fv.session_tokyo, fv.session_london, fv.session_ny, fv.session_sydney];
        assert_eq!(floats(&marks).iter().sum::<f64>(), 1.0);
        assert_eq!(f(fv.obi_x_vol), f(fv.obi) * f(fv.realized_volatility));
        assert_eq!(f(fv.spread_z_x_vol), f(fv.spread_zscore) * f(fv.realized_volatility));
    }
}

// Learning.

#[test]
fn test_noise_has_a_floor_and_variance_is_not_negative() {
    let mut q = q_function(2, 0.0);
    let zero = scalars(&[0.0, 0.0]);
    for _ in 0..30_000 {
        q.update(QAction::Hold, &zero, s(0.0));
    }
    assert_eq!(f(q.model(QAction::Hold).noise_variance()), 1e-10);
    assert!(f(q.model(QAction::Hold).posterior_variance(&scalars(&[1e150, -1e150]))) >= 0.0);
}

#[test]
fn test_start_is_unique_and_unlearnt() {
    let phi = scalars(&[0.3, -4.0, 2.0]);
    let mut q = q_function(3, 0.1);
    let fresh = q.clone();
    assert_eq!(f(q.q_value(QAction::Hold, &phi)), 0.0);
    for i in 0..5 {
        for &action in QAction::all() {
            q.update(action, &phi, s(i as f64));
        }
    }
    assert_ne!(q, fresh);
    q.reset_all_full();
    for &action in QAction::all() {
        assert_eq!(q.model(action).a_inv, fresh.model(action).a_inv);
        assert_eq!(q.model(action).weights(), fresh.model(action).weights());
        assert_eq!(
            f(q.model(action).noise_variance()),
            f(fresh.model(action).noise_variance())
        );
    }
}

#[test]
fn test_inflating_keeps_estimates() {
    let phi = scalars(&[0.3, -4.0, 2.0]);
    let mut q = q_function(3, 0.1);
    q.update(QAction::Buy, &phi, s(1.0));
    let before = q.clone();
    q.inflate_covariance(s(1.0));
    assert_eq!(q, before);
    q.inflate_covariance(s(3.0));
    for &action in QAction::all() {
        assert_eq!(f(q.q_value(action, &phi)), f(before.q_value(action, &phi)));
    }
    let variance = f(q.model(QAction::Buy).posterior_variance(&phi));
    let was = f(before.model(QAction::Buy).posterior_variance(&phi));
    assert!((variance / was - 3.0).abs() < 1e-12);
}

#[test]
fn test_untaken_actions_learn_nothing() {
    let mut q = q_function(2, 0.1);
    let before = q.clone();
    let mut evaluator = McEvaluator::new(McEvalConfig::default());
    evaluator.start_episode(StrategyId::B, 0, s(0.0));
    for i in 0..4_u64 {
        let action = if i % 2 == 0 { QAction::Buy } else { QAction::Hold };
        let state = StateSnapshot {
            position_b: Some(Position {
                realized_pnl: s(i as f64),
                ..position(0.0)
            }),
            ..state()
        };
        evaluator.record_transition(StrategyId::B, i, action, scalars(&[1.0, 0.5]), &state, s(0.0));
    }
    let (result, updates) = evaluator.end_episode_and_update(
        StrategyId::B,
        TerminalReason::WeekendHalt,
        9,
        &mut q,
    );
    assert_eq!(result.returns.len(), 4);
    assert_eq!(updates.len(), 4);
    assert_eq!(f(result.return_g0), f(result.returns[0]));
    assert_eq!(q.model(QAction::Sell), before.model(QAction::Sell));
    assert_eq!(q.model(QAction::Buy).n_observations(), 2);
    assert_eq!(q.model(QAction::Hold).n_observations(), 2);
}

#[test]
fn test_equity_peak_and_capped_drawdown() {
    let config = RewardConfig {
        lambda_risk: s(0.0),
        lambda_dd: s(1.0),
        dd_cap: s(3.0),
        gamma: s(0.9),
    };
    let mut buffer = EpisodeBuffer::new(StrategyId::A, 0, s(5.0));
    let mut peak: f64 = 5.0;
    for (i, equity) in [6.0, 2.0, 9.0, -50.0, 8.5].into_iter().enumerate() {
        let last = f(buffer.prev_equity());
        let drawdown = (peak - equity).max(0.0).min(3.0);
        buffer.record(i as u64, QAction::Hold, vec![], s(equity), s(10.0), s(2.0), &config);
        assert_eq!(f(buffer.transitions[i].reward), equity - last - drawdown);
        peak = peak.max(equity);
        assert_eq!(f(buffer.equity_peak()), peak);
    }
}

#[test]
fn test_discounting_lowers_returns() {
    let rewards = scalars(&[1.0, 0.0, 2.5, 0.75]);
    let mut last = McEvaluator::compute_returns(&rewards, s(0.0));
    for gamma in [0.1, 0.5, 0.9, 0.99, 1.0] {
        let next = McEvaluator::compute_returns(&rewards, s(gamma));
        assert_eq!(next.len(), rewards.len());
        for (x, y) in last.iter().zip(next.iter()) {
            assert!(f(*x) <= f(*y));
        }
        last = next;
    }
}

#[test]
fn test_terminal_reasons_have_names() {
    assert_eq!(TerminalReason::WeeklyHardLimit.name(), "WeeklyHardLimit");
    assert_eq!(TerminalReason::MonthlyHardLimit.name(), "MonthlyHardLimit");
    assert_eq!(TerminalReason::WeekendHalt.name(), "WeekendHalt");
}

// Regimes.

#[test]
fn test_entropy_is_not_negative_and_nothing_diverges_from_itself() {
    let p = [0.5, 0.25, 0.125, 0.125];
    let logs: Vec<f64> = p.iter().map(|x: &f64| x.ln()).collect();
    assert!(f(regime::compute_entropy(&scalars(&p), &scalars(&logs))) >= 0.0);
    let ratios = regime::divergence_ratios(&scalars(&p), Some(&scalars(&p)));
    assert_eq!(floats(&ratios), vec![1.0; 4]);
    let none = scalars(&[0.0; 4]);
    let kl = regime::compute_kl_divergence(&scalars(&p), Some(&scalars(&p)), &none);
    assert_eq!(f(kl), 0.0);
}

#[test]
fn test_nothing_drifts_from_rest() {
    let drift = regime::compute_drift(&scalars(&[0.7, 0.3]), &scalars(&[0.0; 5]), &scalars(&[3.0; 5]), s(0.9));
    assert_eq!(floats(&drift), vec![0.0; 5]);
    let drift = regime::compute_drift(
        &scalars(&[0.75, 0.25]),
        &scalars(&[2.0, -1.0]),
        &scalars(&[1.0, 1.0]),
        s(0.5),
    );
    assert_eq!(floats(&drift), vec![1.0, -0.5]);
}

#[test]
fn test_shares_are_probabilities() {
    let parts = scalars(&[1e-300, 0.0, 5.0, 1e300]);
    for p in floats(&regime::compute_posterior_from_weights(&parts)) {
        assert!((0.0..=1.0).contains(&p));
    }
}

// Change points.

fn detector(grace_period: usize, minor_threshold: f64) -> ChangePointDetector {
    ChangePointDetector::new(
        1,
        ChangePointConfig {
            delta: s(0.01),
            min_window_size: 4,
            max_window_size: 40,
            grace_period,
            minor_threshold: s(minor_threshold),
            major_threshold: s(1e9),
            retraining_trigger_threshold: 2,
            ..ChangePointConfig::default()
        },
    )
}

fn observe(d: &mut ChangePointDetector, x: f64, t: u64) -> Option<fx_strategy::change_point::ChangePoint> {
    let log = s(f(d.bound_argument(0)).ln());
    d.observe(&scalars(&[x]), t, &[log])
}

#[test]
fn test_change_is_found_at_the_best_split() {
    let mut d = detector(10, 1.0);
    let mut found = None;
    for t in 0..12_u64 {
        let x = if t < 6 { 0.0 } else { 8.0 };
        let change = observe(&mut d, x, t);
        if change.is_some() && found.is_none() {
            found = change;
        }
    }
    let change = found.unwrap();
    assert_eq!(change.timestamp_ns, 10);
    assert_eq!(change.total_observations, 11);
    assert_eq!(change.severity, ChangeSeverity::Minor);
    let epsilon = ((4.0 * 1.0 / 0.01_f64).ln() / (2.0 * 4.0)).sqrt();
    assert_eq!(f(change.epsilon), epsilon);
    assert_eq!(f(change.mean_diff), (3.0 * 0.0 + 8.0 / 4.0 - 8.0_f64).abs());
    assert_eq!(d.last_change(), Some(&change));
    assert_eq!(d.change_count(), 1);
}

#[test]
fn test_grace_period_holds_and_retraining_is_asked_for() {
    let mut d = detector(5, 1.0);
    let mut times = Vec::new();
    for t in 0..120_u64 {
        let x = if (t / 12) % 2 == 0 { 0.0 } else { 50.0 };
        if observe(&mut d, x, t).is_some() {
            times.push(t);
        }
    }
    assert!(times.len() >= 2);
    for pair in times.windows(2) {
        assert!(pair[1] - pair[0] > 4);
    }
    assert_eq!(d.change_count(), times.len());
    assert!(d.is_retraining_triggered());
    d.clear_retraining_trigger();
    assert!(!d.is_retraining_triggered());
}

#[test]
fn test_small_ratio_is_no_change() {
    let mut d = detector(5, 1e6);
    for t in 0..60_u64 {
        let x = if t < 30 { 0.0 } else { 50.0 };
        assert!(observe(&mut d, x, t).is_none());
    }
    assert_eq!(d.change_count(), 0);
}

#[test]
fn test_no_change_without_enough_observations() {
    let mut d = detector(5, 1.0);
    for t in 0..10_u64 {
        let x = if t < 5 { 0.0 } else { 1e6 };
        let change = observe(&mut d, x, t);
        if t < 10 {
            assert!(change.is_none());
        }
    }
    assert!(observe(&mut d, 1e6, 10).is_some());
}

#[test]
fn test_responses_widen_or_reset() {
    let mut q = q_function(1, 0.1);
    q.update(QAction::Buy, &scalars(&[1.0]), s(1.0));
    let before = q.clone();
    let config = ChangePointConfig {
        major_full_reset: true,
        ..ChangePointConfig::default()
    };
    let d = ChangePointDetector::new(1, config);
    let mut change = fx_strategy::change_point::ChangePoint {
        feature_index: 0,
        severity: ChangeSeverity::Minor,
        epsilon: s(1.0),
        mean_diff: s(2.0),
        timestamp_ns: 0,
        total_observations: 1,
    };
    d.apply_change_response(&mut q, &change);
    assert_eq!(f(q.buy.a_inv[0]), 2.0 * f(before.buy.a_inv[0]));
    assert_eq!(q.model(QAction::Buy).n_observations(), 1);
    change.severity = ChangeSeverity::Major;
    d.apply_change_response(&mut q, &change);
    assert_eq!(q.model(QAction::Buy).n_observations(), 0);
    let d = ChangePointDetector::new(
        1,
        ChangePointConfig {
            major_full_reset: false,
            ..config
        },
    );
    let mut q = before.clone();
    d.apply_change_response(&mut q, &change);
    assert_eq!(f(q.buy.a_inv[0]), 5.0 * f(before.buy.a_inv[0]));
}

#[test]
fn test_start_favours_trading() {
    for dim in [1, 5, 8, 19] {
        let q = q_function(dim, 0.1);
        let phi: Vec<f64> = (0..dim).map(|i| i as f64 * 0.25).collect();
        let hold = f(q.q_value(QAction::Hold, &scalars(&phi)));
        assert_eq!(hold, 0.0);
        for action in [QAction::Buy, QAction::Sell] {
            assert!(f(q.q_value(action, &scalars(&phi))) >= hold);
            for &w in q.model(action).weights() {
                assert_eq!(f(w), 0.1);
            }
        }
    }
}

#[test]
fn test_strategies_are_rewarded_apart() {
    let run = |other: f64| {
        let mut evaluator = McEvaluator::new(McEvalConfig::default());
        evaluator.start_episode(StrategyId::A, 0, s(0.0));
        evaluator.start_episode(StrategyId::B, 0, s(0.0));
        let state = StateSnapshot {
            position_a: Some(position(2.0)),
            position_b: Some(position(other)),
            ..state()
        };
        evaluator.record_transition(StrategyId::A, 1, QAction::Buy, vec![], &state, s(0.5));
        assert!(evaluator.active_episode(StrategyId::B).unwrap().is_empty());
        evaluator.end_episode(StrategyId::A, TerminalReason::PositionClosed, 2)
    };
    let result = run(0.0);
    assert_eq!(f(result.total_reward), 5.0 - 0.1 * (2.0 * 2.0 * 0.5) - 0.5 * 0.0);
    assert_eq!(f(run(1e6).total_reward), f(result.total_reward));
}

#[test]
fn test_arithmetic_keeps_order() {
    let xs = [-1e300, -2.5, -1e-300, 0.0, 1e-310, 0.1, 1.0, 7.25, 1e300];
    for pair in xs.windows(2) {
        let (a, b) = (s(pair[0]), s(pair[1]));
        for &c in &xs {
            assert!(a.add(s(c)).le(b.add(s(c))));
            assert!(s(c).sub(b).le(s(c).sub(a)));
            if c >= 0.0 {
                assert!(a.mul(s(c)).le(b.mul(s(c))));
            }
        }
    }
}

#[test]
fn test_noise_never_weighs_less_in_rougher_markets() {
    let volatilities = [0.0, 1e-300, 0.001, 0.2, 3.0, 1e300];
    let stabilities = [0.0, 0.1, 0.4999, 0.5, 0.9, 1.0];
    for base in [1e-3, 0.1, 2.0] {
        let weight = |v: f64, r: f64| f(compute_dynamic_k(s(base), s(v), s(r)));
        for v in volatilities.windows(2) {
            for r in stabilities.windows(2) {
                assert!(weight(v[0], r[1]) <= weight(v[1], r[0]));
                assert!(weight(v[0], r[1]) >= base);
            }
        }
        assert_eq!(weight(0.0, 1.0), base);
    }
    assert_eq!(f(compute_dynamic_k(s(0.1), s(0.2), s(0.25))), 0.1 * (1.0 + 10.0 * 0.2) * 2.5);
}

#[test]
fn test_shares_keep_order_and_sum_to_one() {
    for parts in [
        vec![1.0, 0.5, 0.5, 0.001],
        vec![3.0; 7],
        vec![5e-324, 5e-324, 1e-323],
        vec![1e300, 2.0, 1e-300, 0.0],
        (1..=16).map(|i| 1.0 / i as f64).collect(),
    ] {
        let shares = floats(&regime::compute_posterior_from_weights(&scalars(&parts)));
        assert!((shares.iter().sum::<f64>() - 1.0).abs() < 1e-10);
        for i in 0..parts.len() {
            for j in 0..parts.len() {
                if parts[i] <= parts[j] {
                    assert!(shares[i] <= shares[j]);
                }
            }
        }
        let p = regime::normalized(&scalars(&parts));
        assert!((floats(&p).iter().sum::<f64>() - 1.0).abs() < 1e-6);
        assert_eq!(regime::normalized(&p), p);
    }
    let even = regime::compute_posterior_from_weights(&scalars(&[0.25; 4]));
    assert_eq!(floats(&even), vec![0.25; 4]);
}

#[test]
fn test_greater_scores_give_greater_exponents() {
    let weights = vec![scalars(&[1.0, 0.0]), scalars(&[0.0, 2.0]), scalars(&[1.0, 0.0])];
    let exponents = floats(&regime::posterior_exponents(
        &scalars(&[3.0, 1.0]),
        &weights,
        &scalars(&[0.5, 0.0, 0.5]),
    ));
    assert_eq!(exponents, vec![0.0, -1.5, 0.0]);
}

#[test]
fn test_steps_without_a_return_teach_nothing() {
    let mut q = q_function(1, 0.1);
    let mut evaluator = McEvaluator::new(McEvalConfig::default());
    evaluator.start_episode(StrategyId::A, 0, s(0.0));
    for i in 0..3_u64 {
        evaluator.record_transition(StrategyId::A, i, QAction::Sell, scalars(&[1.0]), &state(), s(0.0));
    }
    let mut result = evaluator.end_episode(StrategyId::A, TerminalReason::WeekendHalt, 9);
    result.returns.pop();
    let updates = McEvaluator::update_from_result(&mut q, &result);
    assert_eq!(updates.len(), 2);
    assert_eq!(q.model(QAction::Sell).n_observations(), 2);
}

#[test]
fn test_response_uses_the_factor_of_its_severity() {
    let config = ChangePointConfig {
        minor_inflation_factor: s(0.5),
        major_full_reset: false,
        ..ChangePointConfig::default()
    };
    let d = ChangePointDetector::new(1, config);
    let change = fx_strategy::change_point::ChangePoint {
        feature_index: 0,
        severity: ChangeSeverity::Major,
        epsilon: s(1.0),
        mean_diff: s(2.0),
        timestamp_ns: 0,
        total_observations: 1,
    };
    let mut q = q_function(1, 0.1);
    let before = f(q.buy.a_inv[0]);
    d.apply_change_response(&mut q, &change);
    assert_eq!(f(q.buy.a_inv[0]), 5.0 * before);
}

#[test]
fn test_widening_is_foretold() {
    let config = StrategyBConfig {
        trade_frequency_window: 3,
        min_trade_frequency: s(0.9),
        ..StrategyBConfig::default()
    };
    let mut b = StrategyB::new(config, kept(config.halflife));
    let mut features = FeatureVector::zero();
    features.volatility_ratio = s(10.0);
    features.volatility_decay_rate = s(-10.0);
    features.obi = s(0.9);
    features.dynamic_cost = s(1e6);
    let draws = draws_of(b.q_function().dim(), 0.0, 0.0, 0.0);
    let mut seen = Vec::new();
    for i in 0..5_u64 {
        let now = NOW_NS + i;
        let foretold = b.will_widen(&features, &state(), s(0.0), s(0.0), now, s(1.0), &draws);
        let d = b.decide(&features, &state(), s(0.0), s(0.0), now, s(1.0), &draws);
        assert_eq!(foretold, d.hold_degeneration_detected);
        seen.push(foretold);
    }
    assert_eq!(seen, vec![false, false, true, true, true]);
    assert!(!b.will_widen(&FeatureVector::zero(), &state(), s(9.0), s(0.0), NOW_NS, s(1.0), &draws));
}

#[test]
fn test_snapshot_restores_a_model_that_has_not_learnt() {
    let q = q_function(3, 0.1);
    let restored = QFunction::from_snapshot(&q.snapshot()).unwrap();
    assert_eq!(restored, q);
}

#[test]
fn test_online_learning_is_batch_learning() {
    let observations = [([1.0, 0.0], 3.0), ([0.0, 1.0], -1.0), ([0.0, 1.0], 5.0), ([0.0, 1.0], 0.5)];
    let learn = |order: &[usize]| {
        let mut m = BayesianLinearRegression::new(2, s(1.0), kept(500), s(0.01));
        for &i in order {
            let (phi, y) = observations[i];
            m.update(&scalars(&phi), s(y));
        }
        m
    };
    // Nothing is rounded here, so the weights are those of the batch to the last bit.
    for order in [[0, 1], [1, 0]] {
        let m = learn(&order);
        assert_eq!(m.n_observations(), 2);
        assert_eq!(floats(m.weights()), vec![3.0 / 2.0, -1.0 / 2.0]);
    }
    for order in [[0, 1, 2, 3], [3, 2, 1, 0], [1, 3, 0, 2]] {
        let m = learn(&order);
        assert_eq!(m.n_observations(), 4);
        for (a, b) in floats(m.weights()).iter().zip([3.0 / 2.0, 4.5 / 4.0]) {
            assert!((a - b).abs() < 1e-12);
        }
    }
}

#[test]
fn test_shifted_scores_give_the_same_posterior() {
    let weights = vec![scalars(&[1.0]), scalars(&[-2.0]), scalars(&[0.5])];
    let features = scalars(&[0.75]);
    let at = |shift: f64| {
        let bias = scalars(&[0.25 + shift, 1.5 + shift, shift]);
        floats(&regime::posterior_exponents(&features, &weights, &bias))
    };
    assert_eq!(at(0.0), vec![0.0, -1.0, -0.625]);
    for shift in [1.0, -8.0, 1024.5] {
        assert_eq!(at(shift), at(0.0));
    }
}

#[test]
fn test_entropy_and_divergence_add_up() {
    for parts in [
        vec![0.7, 0.2, 0.05, 0.05],
        vec![1.0, 0.0, 0.0, 0.0],
        vec![0.25; 4],
        vec![0.3, 0.7],
        (1..=16).map(|i| i as f64 / 136.0).collect(),
    ] {
        let p = scalars(&parts);
        let ln = |v: &[Scalar]| -> Vec<Scalar> { v.iter().map(|&x| s(f(x).ln().max(-60.0))).collect() };
        let h = regime::compute_entropy(&p, &ln(&p));
        let d = regime::compute_kl_divergence(&p, None, &ln(&regime::divergence_ratios(&p, None)));
        assert!((f(h) + f(d) - (parts.len() as f64).ln()).abs() < 1e-5);
    }
}
