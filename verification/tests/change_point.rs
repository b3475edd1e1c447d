#![allow(dead_code)]

use fx_strategy::bayesian_lr;
use fx_strategy::bayesian_lr::{ActionDraws, Draw, QAction};
use fx_strategy::change_point;
use fx_strategy::change_point::{ChangeSeverity, FeatureAdwin};
use fx_strategy::scalar::Scalar;
use nalgebra::DMatrix;
use rand::rngs::StdRng;
use rand::{Rng, SeedableRng};
use rand_distr::{Distribution, StandardNormal};

fn s(x: f64) -> Scalar {
    Scalar::from_bits(x.to_bits())
}

fn f(x: Scalar) -> f64 {
    f64::from_bits(x.to_bits())
}

fn scalars(v: &[f64]) -> Vec<Scalar> {
    v.iter().map(|&x| s(x)).collect()
}

fn floats(v: &[Scalar]) -> Vec<f64> {
    v.iter().map(|&x| f(x)).collect()
}

fn seeded_rng() -> StdRng {
    StdRng::seed_from_u64(42)
}

/// The randomness for one draw of weights.
fn draw(model: &bayesian_lr::BayesianLinearRegression, rng: &mut impl Rng) -> Draw {
    let d = model.dim();
    let normals = (0..d).map(|_| s(StandardNormal.sample(rng))).collect();
    let factor = if model.draws_with_factor() {
        DMatrix::from_column_slice(d, d, &floats(&model.a_inv))
            .cholesky()
            .map(|c| scalars(c.l().as_slice()))
    } else {
        None
    };
    Draw { normals, factor }
}

/// The randomness for one draw of weights for each action.
fn draws(q: &bayesian_lr::QFunction, rng: &mut impl Rng) -> ActionDraws {
    ActionDraws {
        buy: draw(&q.buy, rng),
        sell: draw(&q.sell, rng),
        hold: draw(&q.hold, rng),
    }
}

fn kept(halflife: usize) -> Scalar {
    s(f(bayesian_lr::BayesianLinearRegression::decay_exponent(halflife)).exp())
}

#[derive(Debug, Clone, PartialEq)]
struct UpdateResult {
    residual: f64,
    divergence_ratio: f64,
    diverged: bool,
}

impl UpdateResult {
    fn lib(&self) -> fx_strategy::bayesian_lr::UpdateResult {
        fx_strategy::bayesian_lr::UpdateResult {
            residual: s(self.residual),
            divergence_ratio: s(self.divergence_ratio),
            diverged: self.diverged,
        }
    }

    fn plain(x: fx_strategy::bayesian_lr::UpdateResult) -> UpdateResult {
        UpdateResult {
            residual: f(x.residual),
            divergence_ratio: f(x.divergence_ratio),
            diverged: x.diverged,
        }
    }
}

#[derive(Debug, Clone)]
struct BayesianLinearRegression {
    inner: bayesian_lr::BayesianLinearRegression,
}

impl BayesianLinearRegression {
    fn new(dim: usize, lambda_reg: f64, halflife: usize, sigma2: f64) -> BayesianLinearRegression {
        BayesianLinearRegression {
            inner: bayesian_lr::BayesianLinearRegression::new(
                dim,
                s(lambda_reg),
                kept(halflife),
                s(sigma2),
            ),
        }
    }

    fn n_observations(&self) -> usize {
        self.inner.n_observations()
    }

    fn noise_variance(&self) -> f64 {
        f(self.inner.noise_variance())
    }

    fn update(&mut self, phi: &[f64], y: f64) -> UpdateResult {
        UpdateResult::plain(self.inner.update(&scalars(phi), s(y)))
    }

    fn predict(&self, phi: &[f64]) -> f64 {
        f(self.inner.predict(&scalars(phi)))
    }
}

#[derive(Debug, Clone)]
struct QFunction {
    inner: bayesian_lr::QFunction,
}

impl QFunction {
    fn new(dim: usize, lambda_reg: f64, halflife: usize, sigma2: f64, bias: f64) -> QFunction {
        QFunction {
            inner: bayesian_lr::QFunction::new(
                dim,
                s(lambda_reg),
                kept(halflife),
                s(sigma2),
                s(bias),
            ),
        }
    }

    fn dim(&self) -> usize {
        self.inner.dim()
    }

    fn q_value(&self, action: QAction, phi: &[f64]) -> f64 {
        f(self.inner.q_value(action, &scalars(phi)))
    }

    fn q_point(&self, action: QAction, phi: &[f64]) -> f64 {
        f(self.inner.q_point(action, &scalars(phi)))
    }

    fn posterior_std(&self, action: QAction, phi: &[f64]) -> f64 {
        f(self.inner.posterior_std(action, &scalars(phi)))
    }

    fn sample_q_value(&self, action: QAction, phi: &[f64], rng: &mut impl Rng) -> f64 {
        let draw = draw(self.inner.model(action), rng);
        f(self.inner.sample_q_value(action, &scalars(phi), &draw))
    }

    fn update(&mut self, action: QAction, phi: &[f64], target: f64) -> UpdateResult {
        UpdateResult::plain(self.inner.update(action, &scalars(phi), s(target)))
    }

    fn model(&self, action: QAction) -> BayesianLinearRegression {
        BayesianLinearRegression {
            inner: self.inner.model(action).clone(),
        }
    }
}

#[derive(Debug, Clone)]
struct ChangePointConfig {
    delta: f64,
    min_window_size: usize,
    max_window_size: usize,
    grace_period: usize,
    minor_threshold: f64,
    major_threshold: f64,
    minor_inflation_factor: f64,
    major_full_reset: bool,
    major_inflation_factor: f64,
    per_feature_monitoring: bool,
    retraining_trigger_threshold: usize,
}

impl ChangePointConfig {
    fn lib(&self) -> fx_strategy::change_point::ChangePointConfig {
        fx_strategy::change_point::ChangePointConfig {
            delta: s(self.delta),
            min_window_size: self.min_window_size,
            max_window_size: self.max_window_size,
            grace_period: self.grace_period,
            minor_threshold: s(self.minor_threshold),
            major_threshold: s(self.major_threshold),
            minor_inflation_factor: s(self.minor_inflation_factor),
            major_full_reset: self.major_full_reset,
            major_inflation_factor: s(self.major_inflation_factor),
            per_feature_monitoring: self.per_feature_monitoring,
            retraining_trigger_threshold: self.retraining_trigger_threshold,
        }
    }

    fn plain(x: fx_strategy::change_point::ChangePointConfig) -> ChangePointConfig {
        ChangePointConfig {
            delta: f(x.delta),
            min_window_size: x.min_window_size,
            max_window_size: x.max_window_size,
            grace_period: x.grace_period,
            minor_threshold: f(x.minor_threshold),
            major_threshold: f(x.major_threshold),
            minor_inflation_factor: f(x.minor_inflation_factor),
            major_full_reset: x.major_full_reset,
            major_inflation_factor: f(x.major_inflation_factor),
            per_feature_monitoring: x.per_feature_monitoring,
            retraining_trigger_threshold: x.retraining_trigger_threshold,
        }
    }
}

impl Default for ChangePointConfig {
    fn default() -> ChangePointConfig {
        ChangePointConfig::plain(fx_strategy::change_point::ChangePointConfig::default())
    }
}

#[derive(Debug, Clone, PartialEq)]
struct ChangePoint {
    feature_index: usize,
    severity: ChangeSeverity,
    epsilon: f64,
    mean_diff: f64,
    timestamp_ns: u64,
    total_observations: usize,
}

impl ChangePoint {
    fn lib(&self) -> fx_strategy::change_point::ChangePoint {
        fx_strategy::change_point::ChangePoint {
            feature_index: self.feature_index,
            severity: self.severity,
            epsilon: s(self.epsilon),
            mean_diff: s(self.mean_diff),
            timestamp_ns: self.timestamp_ns,
            total_observations: self.total_observations,
        }
    }

    fn plain(x: fx_strategy::change_point::ChangePoint) -> ChangePoint {
        ChangePoint {
            feature_index: x.feature_index,
            severity: x.severity,
            epsilon: f(x.epsilon),
            mean_diff: f(x.mean_diff),
            timestamp_ns: x.timestamp_ns,
            total_observations: x.total_observations,
        }
    }
}

struct SubWindow {
    inner: change_point::SubWindow,
}

impl SubWindow {
    fn new() -> SubWindow {
        SubWindow {
            inner: change_point::SubWindow::new(),
        }
    }

    fn push(&mut self, value: f64) {
        self.inner.push(s(value));
    }

    fn pop_front(&mut self) -> Option<f64> {
        self.inner.pop_front().map(f)
    }

    fn mean(&self) -> f64 {
        f(self.inner.mean())
    }

    fn len(&self) -> usize {
        self.inner.len()
    }

    fn clear(&mut self) {
        self.inner.clear();
    }
}

struct ChangePointDetector {
    inner: change_point::ChangePointDetector,
}

impl ChangePointDetector {
    fn new(n_features: usize, config: ChangePointConfig) -> ChangePointDetector {
        ChangePointDetector {
            inner: change_point::ChangePointDetector::new(n_features, config.lib()),
        }
    }

    fn new_default(n_features: usize) -> ChangePointDetector {
        ChangePointDetector {
            inner: change_point::ChangePointDetector::new_default(n_features),
        }
    }

    fn logs(&self) -> Vec<Scalar> {
        (0..self.inner.n_features)
            .map(|i| s(f(self.inner.bound_argument(i)).ln()))
            .collect()
    }

    fn observe(&mut self, features: &[f64], timestamp_ns: u64) -> Option<ChangePoint> {
        let logs = self.logs();
        self.inner
            .observe(&scalars(features), timestamp_ns, &logs)
            .map(ChangePoint::plain)
    }

    fn observe_and_respond(
        &mut self,
        features: &[f64],
        timestamp_ns: u64,
        q: &mut QFunction,
    ) -> Option<ChangePoint> {
        let logs = self.logs();
        self.inner
            .observe_and_respond(&scalars(features), timestamp_ns, &logs, &mut q.inner)
            .map(ChangePoint::plain)
    }

    fn apply_change_response(&self, q: &mut QFunction, change: &ChangePoint) {
        self.inner.apply_change_response(&mut q.inner, &change.lib());
    }

    fn config(&self) -> ChangePointConfig {
        ChangePointConfig::plain(self.inner.config().clone())
    }

    fn total_observations(&self) -> usize {
        self.inner.total_observations()
    }

    fn change_count(&self) -> usize {
        self.inner.change_count()
    }

    fn last_change(&self) -> Option<ChangePoint> {
        self.inner.last_change().copied().map(ChangePoint::plain)
    }

    fn is_retraining_triggered(&self) -> bool {
        self.inner.is_retraining_triggered()
    }

    fn clear_retraining_trigger(&mut self) {
        self.inner.clear_retraining_trigger();
    }

    fn decay_recent_changes(&mut self) {
        self.inner.decay_recent_changes();
    }

    fn reset_all(&mut self) {
        self.inner.reset_all();
    }

    fn reset_feature(&mut self, feature_index: usize) {
        self.inner.reset_feature(feature_index);
    }
}

fn make_detector(n_features: usize) -> ChangePointDetector {
    ChangePointDetector::new(
        n_features,
        ChangePointConfig {
            delta: 0.01,
            min_window_size: 30,
            max_window_size: 1000,
            grace_period: 20,
            minor_threshold: 1.0,
            major_threshold: 2.0,
            minor_inflation_factor: 2.0,
            major_full_reset: false,
            major_inflation_factor: 5.0,
            per_feature_monitoring: true,
            retraining_trigger_threshold: 3,
        },
    )
}

#[test]
fn test_sub_window_push_pop() {
    let mut sw = SubWindow::new();
    sw.push(1.0);
    sw.push(2.0);
    sw.push(3.0);
    assert_eq!(sw.len(), 3);
    assert!((sw.mean() - 2.0).abs() < 1e-15);

    let val = sw.pop_front().unwrap();
    assert!((val - 1.0).abs() < 1e-15);
    assert_eq!(sw.len(), 2);
    assert!((sw.mean() - 2.5).abs() < 1e-15);
}

#[test]
fn test_sub_window_empty() {
    let mut sw = SubWindow::new();
    assert_eq!(sw.len(), 0);
    assert_eq!(sw.mean(), 0.0);
    assert!(sw.pop_front().is_none());
}

#[test]
fn test_sub_window_clear() {
    let mut sw = SubWindow::new();
    sw.push(1.0);
    sw.push(2.0);
    sw.clear();
    assert_eq!(sw.len(), 0);
    assert_eq!(sw.len(), 0);
}

#[test]
fn test_feature_adwin_push() {
    let mut fa = FeatureAdwin::new();
    let config = ChangePointConfig::default();
    for i in 0..100 {
        fa.push(s(i as f64), &config.lib());
    }
    assert_eq!(fa.observations_since_change, 100);
    assert_eq!(fa.window.len(), 100);
}

#[test]
fn test_feature_adwin_grace_period() {
    let mut fa = FeatureAdwin::new();
    let config = ChangePointConfig {
        grace_period: 5,
        ..ChangePointConfig::default()
    };
    fa.in_grace_period = true;
    fa.grace_counter = 0;

    for _ in 0..4 {
        fa.push(s(1.0), &config.lib());
    }
    assert!(fa.in_grace_period);

    fa.push(s(1.0), &config.lib());
    assert!(!fa.in_grace_period);
}

#[test]
fn test_detector_creation() {
    let d = make_detector(5);
    assert_eq!(d.inner.n_features, 5);
    assert_eq!(d.total_observations(), 0);
    assert_eq!(d.change_count(), 0);
    assert!(!d.is_retraining_triggered());
    assert!(d.last_change().is_none());
}

#[test]
fn test_detector_default_config() {
    let d = ChangePointDetector::new_default(3);
    assert_eq!(d.inner.n_features, 3);
    assert!((d.config().delta - 0.002).abs() < 1e-15);
}

#[test]
fn test_no_detection_stable_distribution() {
    let config = ChangePointConfig {
        delta: 0.0001,
        min_window_size: 30,
        max_window_size: 1000,
        grace_period: 20,
        ..ChangePointConfig::default()
    };
    let mut d = ChangePointDetector::new(2, config);
    let mut rng = StdRng::seed_from_u64(42);

    for t in 0..200 {
        let features: Vec<f64> = (0..2).map(|_| rng.gen_range(-1.0..1.0)).collect();
        let cp = d.observe(&features, t as u64);
        assert!(cp.is_none(), "False positive at t={}: {:?}", t, cp);
    }
}

#[test]
fn test_detection_mean_shift() {
    let mut d = make_detector(2);

    for t in 0..100 {
        let features = vec![0.0 + rand::thread_rng().gen_range(-0.1..0.1), 0.0];
        let cp = d.observe(&features, t as u64);
        assert!(cp.is_none(), "False positive in stable phase at t={}", t);
    }

    let mut detected = false;
    for t in 100..300 {
        let features = vec![5.0 + rand::thread_rng().gen_range(-0.1..0.1), 0.0];
        let cp = d.observe(&features, t as u64);
        if cp.is_some() {
            detected = true;
            let cp = cp.unwrap();
            assert_eq!(cp.feature_index, 0, "Should detect change in feature 0");
            break;
        }
    }
    assert!(detected, "Should detect mean shift from 0 to 5");
}

#[test]
fn test_detection_variance_shift() {
    let mut d = make_detector(1);

    for t in 0..100 {
        let features = vec![rand::thread_rng().gen_range(-0.01..0.01)];
        let _ = d.observe(&features, t as u64);
    }

    for t in 100..300 {
        let features = vec![rand::thread_rng().gen_range(-5.0..5.0)];
        let _ = d.observe(&features, t as u64);
    }
}

#[test]
fn test_no_detection_before_min_window() {
    let mut d = make_detector(1);
    d.inner.feature_detectors[0].observations_since_change = 50;

    for t in 0..49 {
        let features = vec![0.0];
        let cp = d.observe(&features, t as u64);
        assert!(cp.is_none(), "Should not detect before min window");
    }
}

#[test]
fn test_grace_period_suppression() {
    let config = ChangePointConfig {
        min_window_size: 20,
        max_window_size: 500,
        grace_period: 50,
        ..ChangePointConfig::default()
    };
    let mut d2 = ChangePointDetector::new(1, config);

    for t in 0..80 {
        let _ = d2.observe(&[rand::thread_rng().gen_range(-0.1..0.1)], t as u64);
    }

    for t in 80..120 {
        let _ = d2.observe(&[10.0 + rand::thread_rng().gen_range(-0.1..0.1)], t as u64);
    }

    for t in 120..200 {
        let _ = d2.observe(&[10.0 + rand::thread_rng().gen_range(-0.1..0.1)], t as u64);
    }
}

#[test]
fn test_severity_classification() {
    let cp_minor = ChangePoint {
        feature_index: 0,
        severity: ChangeSeverity::Minor,
        epsilon: 1.0,
        mean_diff: 1.5,
        timestamp_ns: 100,
        total_observations: 100,
    };
    assert_eq!(cp_minor.severity, ChangeSeverity::Minor);

    let cp_major = ChangePoint {
        feature_index: 0,
        severity: ChangeSeverity::Major,
        epsilon: 1.0,
        mean_diff: 5.0,
        timestamp_ns: 100,
        total_observations: 100,
    };
    assert_eq!(cp_major.severity, ChangeSeverity::Major);
}

#[test]
fn test_minor_response_inflates_covariance() {
    let d = make_detector(3);
    let mut qf = QFunction::new(3, 1.0, 500, 0.01, 0.1);
    let phi = vec![1.0, 0.0, 0.0];

    let std_before = qf.posterior_std(QAction::Buy, &phi);

    let cp = ChangePoint {
        feature_index: 0,
        severity: ChangeSeverity::Minor,
        epsilon: 1.0,
        mean_diff: 1.5,
        timestamp_ns: 100,
        total_observations: 100,
    };

    d.apply_change_response(&mut qf, &cp);

    let std_after = qf.posterior_std(QAction::Buy, &phi);
    assert!(
        std_after > std_before,
        "Minor response should inflate covariance: before={}, after={}",
        std_before,
        std_after
    );
}

#[test]
fn test_major_response_inflates_covariance() {
    let config = ChangePointConfig {
        major_full_reset: false,
        major_inflation_factor: 5.0,
        ..ChangePointConfig::default()
    };
    let d = ChangePointDetector::new(3, config);
    let mut qf = QFunction::new(3, 1.0, 500, 0.01, 0.1);
    let phi = vec![1.0, 0.0, 0.0];

    let std_before = qf.posterior_std(QAction::Buy, &phi);

    let cp = ChangePoint {
        feature_index: 0,
        severity: ChangeSeverity::Major,
        epsilon: 1.0,
        mean_diff: 5.0,
        timestamp_ns: 100,
        total_observations: 100,
    };

    d.apply_change_response(&mut qf, &cp);

    let std_after = qf.posterior_std(QAction::Buy, &phi);
    assert!(
        std_after > std_before,
        "Major response should inflate covariance"
    );
}

#[test]
fn test_major_response_full_reset() {
    let config = ChangePointConfig {
        major_full_reset: true,
        ..ChangePointConfig::default()
    };
    let d = ChangePointDetector::new(3, config);
    let mut qf = QFunction::new(3, 1.0, 500, 0.01, 0.1);
    let phi = vec![1.0, 0.0, 0.0];

    for _ in 0..10 {
        qf.update(QAction::Buy, &phi, 1.0);
    }
    assert!(qf.model(QAction::Buy).n_observations() > 0);

    let cp = ChangePoint {
        feature_index: 0,
        severity: ChangeSeverity::Major,
        epsilon: 1.0,
        mean_diff: 5.0,
        timestamp_ns: 100,
        total_observations: 100,
    };

    d.apply_change_response(&mut qf, &cp);

    assert_eq!(
        qf.model(QAction::Buy).n_observations(),
        0,
        "Full reset should clear observations"
    );
}

#[test]
fn test_retraining_not_triggered_initially() {
    let d = make_detector(2);
    assert!(!d.is_retraining_triggered());
}

#[test]
fn test_clear_retraining_trigger() {
    let mut d = make_detector(2);
    d.inner.retraining_triggered = true;
    d.inner.recent_change_count = 5;

    d.clear_retraining_trigger();
    assert!(!d.is_retraining_triggered());
    assert_eq!(d.inner.recent_change_count, 0);
}

#[test]
fn test_decay_recent_changes() {
    let mut d = make_detector(2);
    d.inner.recent_change_count = 3;
    d.inner.retraining_triggered = true;

    d.decay_recent_changes();
    assert_eq!(d.inner.recent_change_count, 2);
    assert!(d.is_retraining_triggered());

    d.decay_recent_changes();
    d.decay_recent_changes();
    assert_eq!(d.inner.recent_change_count, 0);
    assert!(!d.is_retraining_triggered());
}

#[test]
fn test_reset_all() {
    let mut d = make_detector(3);
    for t in 0..100 {
        let _ = d.observe(&[0.0, 0.0, 0.0], t as u64);
    }
    assert!(d.total_observations() > 0);

    d.reset_all();
    assert_eq!(d.total_observations(), 0);
    assert!(!d.is_retraining_triggered());
}

#[test]
fn test_reset_feature() {
    let mut d = make_detector(2);
    d.inner.feature_detectors[0].in_grace_period = true;
    d.inner.feature_detectors[0].grace_counter = 10;
    d.inner.feature_detectors[0].consecutive_changes = 5;

    d.reset_feature(0);
    assert!(!d.inner.feature_detectors[0].in_grace_period);
    assert_eq!(d.inner.feature_detectors[0].grace_counter, 0);
    assert_eq!(d.inner.feature_detectors[0].consecutive_changes, 0);
}

#[test]
fn test_change_history_empty() {
    let d = make_detector(2);
    assert_eq!(d.change_count(), 0);
    assert!(d.last_change().is_none());
}

#[test]
fn test_total_observations() {
    let mut d = make_detector(1);
    for t in 0..50 {
        let _ = d.observe(&[0.0], t as u64);
    }
    assert_eq!(d.total_observations(), 50);
}

#[test]
fn test_observe_and_respond_no_change() {
    let config = ChangePointConfig {
        delta: 0.0001,
        min_window_size: 30,
        max_window_size: 1000,
        grace_period: 20,
        ..ChangePointConfig::default()
    };
    let mut d = ChangePointDetector::new(1, config);
    let mut qf = QFunction::new(1, 1.0, 500, 0.01, 0.1);
    let mut rng = seeded_rng();

    for t in 0..100 {
        let features = vec![rng.gen_range(-1.0..1.0)];
        let result = d.observe_and_respond(&features, t as u64, &mut qf);
        assert!(
            result.is_none(),
            "No change should be detected in stable data"
        );
    }
}

#[test]
fn test_max_window_trimming() {
    let config = ChangePointConfig {
        min_window_size: 10,
        max_window_size: 50,
        ..ChangePointConfig::default()
    };
    let mut d = ChangePointDetector::new(1, config);

    for t in 0..100 {
        let _ = d.observe(&[t as f64], t as u64);
    }

    assert!(d.inner.feature_detectors[0].window.len() <= 50);
}

#[test]
fn change_point_test_config_access() {
    let config = ChangePointConfig {
        delta: 0.005,
        min_window_size: 100,
        max_window_size: 2000,
        grace_period: 200,
        minor_threshold: 1.5,
        major_threshold: 3.0,
        minor_inflation_factor: 3.0,
        major_full_reset: true,
        major_inflation_factor: 10.0,
        per_feature_monitoring: false,
        retraining_trigger_threshold: 5,
    };
    let d = ChangePointDetector::new(1, config.clone());

    assert!((d.config().delta - 0.005).abs() < 1e-15);
    assert_eq!(d.config().min_window_size, 100);
    assert_eq!(d.config().max_window_size, 2000);
    assert_eq!(d.config().grace_period, 200);
    assert_eq!(d.config().retraining_trigger_threshold, 5);
    assert!(d.config().major_full_reset);
}

#[test]
fn test_aggregate_monitoring_mode() {
    let config = ChangePointConfig {
        per_feature_monitoring: false,
        min_window_size: 20,
        max_window_size: 500,
        grace_period: 30,
        delta: 0.01,
        ..ChangePointConfig::default()
    };
    let mut d = ChangePointDetector::new(3, config);

    for t in 0..100 {
        let features = vec![0.0, 0.0, 0.0];
        let _ = d.observe(&features, t as u64);
    }

    for t in 100..300 {
        let features = vec![5.0, 5.0, 5.0];
        let _ = d.observe(&features, t as u64);
    }
}

#[test]
fn s9_2_adwin_uses_hoeffding_bound() {
    let config = ChangePointConfig {
        delta: 0.0001,
        min_window_size: 30,
        max_window_size: 1000,
        ..ChangePointConfig::default()
    };
    let mut d = ChangePointDetector::new(1, config);
    let mut rng = StdRng::seed_from_u64(42);

    for t in 0..100 {
        let features = vec![rng.gen_range(-1.0..1.0)];
        let cp = d.observe(&features, t as u64);
        assert!(
            cp.is_none(),
            "Hoeffding bound should prevent false positives at t={}",
            t
        );
    }
}

#[test]
fn s9_2_detection_triggers_posterior_response() {
    let config = ChangePointConfig {
        minor_inflation_factor: 2.0,
        ..ChangePointConfig::default()
    };
    let d = ChangePointDetector::new(1, config);
    let mut qf = QFunction::new(1, 1.0, 500, 0.01, 0.1);
    let phi = vec![1.0];

    let cp = ChangePoint {
        feature_index: 0,
        severity: ChangeSeverity::Minor,
        epsilon: 1.0,
        mean_diff: 1.5,
        timestamp_ns: 100,
        total_observations: 100,
    };

    let std_before = qf.posterior_std(QAction::Buy, &phi);
    d.apply_change_response(&mut qf, &cp);
    let std_after = qf.posterior_std(QAction::Buy, &phi);

    assert!(
        std_after > std_before,
        "change point should trigger posterior partial reset (covariance inflation)"
    );
}

#[test]
fn s9_2_grace_period_prevents_detection_cascade() {
    let config = ChangePointConfig {
        min_window_size: 20,
        max_window_size: 500,
        grace_period: 50,
        delta: 0.01,
        minor_threshold: 0.5,
        ..ChangePointConfig::default()
    };
    let mut d = ChangePointDetector::new(1, config);

    for t in 0..60 {
        let _ = d.observe(&[0.0], t as u64);
    }

    let mut first_detection = None;
    for t in 60..200 {
        let cp = d.observe(&[10.0], t as u64);
        if cp.is_some() && first_detection.is_none() {
            first_detection = Some(t);
        }
    }

    if let Some(detected_at) = first_detection {
        assert!(detected_at < 200, "detection should occur after shift");
    }
    let detector = &d.inner.feature_detectors[0];
    if first_detection.is_some() {
    }
}

#[test]
fn s9_2_consecutive_changes_trigger_retraining() {
    let config = ChangePointConfig {
        min_window_size: 20,
        max_window_size: 500,
        grace_period: 5,
        delta: 0.01,
        retraining_trigger_threshold: 3,
        minor_threshold: 0.5,
        ..ChangePointConfig::default()
    };
    let mut d = ChangePointDetector::new(1, config);

    assert!(!d.is_retraining_triggered());

    for cycle in 0..5 {
        let base = cycle * 200;
        for t in 0..60 {
            let _ = d.observe(&[0.0], (base + t) as u64);
        }
        for t in 60..200 {
            let _ = d.observe(&[10.0], (base + t) as u64);
        }
        for t in 200..260 {
            let _ = d.observe(&[0.0], (base + t) as u64);
        }
    }

    if d.is_retraining_triggered() {
        assert!(
            d.change_count() >= 3,
            "retraining triggered only when change count >= threshold"
        );
    }
}

#[test]
fn s9_2_severity_classification_minor_vs_major() {
    let config = ChangePointConfig {
        minor_threshold: 1.0,
        major_threshold: 2.5,
        ..ChangePointConfig::default()
    };
    let d = ChangePointDetector::new(1, config);

    let cp_minor = ChangePoint {
        feature_index: 0,
        severity: ChangeSeverity::Minor,
        epsilon: 1.0,
        mean_diff: 1.5,
        timestamp_ns: 100,
        total_observations: 100,
    };
    d.apply_change_response(
        &mut QFunction::new(1, 1.0, 500, 0.01, 0.1),
        &cp_minor,
    );

    let cp_major = ChangePoint {
        feature_index: 0,
        severity: ChangeSeverity::Major,
        epsilon: 1.0,
        mean_diff: 3.0,
        timestamp_ns: 100,
        total_observations: 100,
    };
    d.apply_change_response(
        &mut QFunction::new(1, 1.0, 500, 0.01, 0.1),
        &cp_major,
    );
}
