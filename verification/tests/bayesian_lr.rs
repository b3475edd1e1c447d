#![allow(dead_code)]

use fx_strategy::bayesian_lr;
use fx_strategy::bayesian_lr::{ActionDraws, Draw, QAction, SnapshotError};
use fx_strategy::features::FeatureVector;
use fx_strategy::q_state::{BayesianLinearRegressionSnapshot, QFunctionSnapshot};
use fx_strategy::scalar::Scalar;
use nalgebra::{DMatrix, DVector};
use rand::rngs::StdRng;
use rand::{Rng, SeedableRng};
use rand_distr::{Distribution, StandardNormal};
use std::collections::HashMap;

fn s(x: f64) -> Scalar {
    Scalar::from_bits(x.to_bits())
}

fn f(x: Scalar) -> f64 {
    f64::from_bits(x.to_bits())
}

fn scalars(v: &[f64]) -> Vec<Scalar> {
    v.iter().map(|&x| s(x)).collect()
}

fn floats(v: &[Scalar]) -> Vec<f64> {
    v.iter().map(|&x| f(x)).collect()
}

fn seeded_rng() -> StdRng {
    StdRng::seed_from_u64(42)
}

/// The randomness for one draw of weights.
fn draw(model: &bayesian_lr::BayesianLinearRegression, rng: &mut impl Rng) -> Draw {
    let d = model.dim();
    let normals = (0..d).map(|_| s(StandardNormal.sample(rng))).collect();
    let factor = if model.draws_with_factor() {
        DMatrix::from_column_slice(d, d, &floats(&model.a_inv))
            .cholesky()
            .map(|c| scalars(c.l().as_slice()))
    } else {
        None
    };
    Draw { normals, factor }
}

/// The randomness for one draw of weights for each action.
fn draws(q: &bayesian_lr::QFunction, rng: &mut impl Rng) -> ActionDraws {
    ActionDraws {
        buy: draw(&q.buy, rng),
        sell: draw(&q.sell, rng),
        hold: draw(&q.hold, rng),
    }
}

fn kept(halflife: usize) -> Scalar {
    s(f(bayesian_lr::BayesianLinearRegression::decay_exponent(halflife)).exp())
}

#[derive(Debug, Clone, PartialEq)]
struct UpdateResult {
    residual: f64,
    divergence_ratio: f64,
    diverged: bool,
}

impl UpdateResult {
    fn lib(&self) -> fx_strategy::bayesian_lr::UpdateResult {
        fx_strategy::bayesian_lr::UpdateResult {
            residual: s(self.residual),
            divergence_ratio: s(self.divergence_ratio),
            diverged: self.diverged,
        }
    }

    fn plain(x: fx_strategy::bayesian_lr::UpdateResult) -> UpdateResult {
        UpdateResult {
            residual: f(x.residual),
            divergence_ratio: f(x.divergence_ratio),
            diverged: x.diverged,
        }
    }
}

#[derive(Debug, Clone)]
struct BayesianLinearRegression {
    inner: bayesian_lr::BayesianLinearRegression,
}

impl BayesianLinearRegression {
    fn new(dim: usize, lambda_reg: f64, halflife: usize, sigma2: f64) -> BayesianLinearRegression {
        BayesianLinearRegression {
            inner: bayesian_lr::BayesianLinearRegression::new(
                dim,
                s(lambda_reg),
                kept(halflife),
                s(sigma2),
            ),
        }
    }

    fn n_observations(&self) -> usize {
        self.inner.n_observations()
    }

    fn noise_variance(&self) -> f64 {
        f(self.inner.noise_variance())
    }

    fn update(&mut self, phi: &[f64], y: f64) -> UpdateResult {
        UpdateResult::plain(self.inner.update(&scalars(phi), s(y)))
    }

    fn predict(&self, phi: &[f64]) -> f64 {
        f(self.inner.predict(&scalars(phi)))
    }

    fn dim(&self) -> usize {
        self.inner.dim()
    }

    fn weights(&self) -> DVector<f64> {
        DVector::from_vec(floats(self.inner.weights()))
    }

    fn posterior_variance(&self, phi: &[f64]) -> f64 {
        f(self.inner.posterior_variance(&scalars(phi)))
    }

    fn posterior_std(&self, phi: &[f64]) -> f64 {
        f(self.inner.posterior_std(&scalars(phi)))
    }

    fn sample_weights(&self, rng: &mut impl Rng) -> DVector<f64> {
        DVector::from_vec(floats(&self.inner.sample_weights(&draw(&self.inner, rng))))
    }

    fn sample_predict(&self, phi: &[f64], rng: &mut impl Rng) -> f64 {
        f(self.inner.sample_predict(&scalars(phi), &draw(&self.inner, rng)))
    }

    fn reset(&mut self) {
        self.inner.reset();
    }

    fn reset_full(&mut self, initial_sigma2: f64) {
        self.inner.reset_full(s(initial_sigma2));
    }

    fn inflate_covariance(&mut self, factor: f64) {
        self.inner.inflate_covariance(s(factor));
    }

    fn apply_optimistic_bias(&mut self, bias: f64) {
        self.inner.apply_optimistic_bias(s(bias));
    }

    fn snapshot(&self) -> BayesianLinearRegressionSnapshot {
        self.inner.snapshot()
    }

    fn from_snapshot(
        snapshot: &BayesianLinearRegressionSnapshot,
    ) -> Result<BayesianLinearRegression, SnapshotError> {
        bayesian_lr::BayesianLinearRegression::from_snapshot(snapshot)
            .map(|inner| BayesianLinearRegression { inner })
    }
}

#[derive(Debug, Clone)]
struct QFunction {
    inner: bayesian_lr::QFunction,
}

impl QFunction {
    fn new(dim: usize, lambda_reg: f64, halflife: usize, sigma2: f64, bias: f64) -> QFunction {
        QFunction {
            inner: bayesian_lr::QFunction::new(
                dim,
                s(lambda_reg),
                kept(halflife),
                s(sigma2),
                s(bias),
            ),
        }
    }

    fn dim(&self) -> usize {
        self.inner.dim()
    }

    fn q_value(&self, action: QAction, phi: &[f64]) -> f64 {
        f(self.inner.q_value(action, &scalars(phi)))
    }

    fn q_point(&self, action: QAction, phi: &[f64]) -> f64 {
        f(self.inner.q_point(action, &scalars(phi)))
    }

    fn posterior_std(&self, action: QAction, phi: &[f64]) -> f64 {
        f(self.inner.posterior_std(action, &scalars(phi)))
    }

    fn sample_q_value(&self, action: QAction, phi: &[f64], rng: &mut impl Rng) -> f64 {
        let draw = draw(self.inner.model(action), rng);
        f(self.inner.sample_q_value(action, &scalars(phi), &draw))
    }

    fn update(&mut self, action: QAction, phi: &[f64], target: f64) -> UpdateResult {
        UpdateResult::plain(self.inner.update(action, &scalars(phi), s(target)))
    }

    fn model(&self, action: QAction) -> BayesianLinearRegression {
        BayesianLinearRegression {
            inner: self.inner.model(action).clone(),
        }
    }

    fn q_values(&self, phi: &[f64]) -> HashMap<QAction, f64> {
        let values = self.inner.q_values(&scalars(phi));
        QAction::all().iter().map(|&a| (a, f(values.get(a)))).collect()
    }

    fn posterior_stds(&self, phi: &[f64]) -> HashMap<QAction, f64> {
        let values = self.inner.posterior_stds(&scalars(phi));
        QAction::all().iter().map(|&a| (a, f(values.get(a)))).collect()
    }

    fn reset_action(&mut self, action: QAction) {
        self.inner.reset_action(action);
    }

    fn reset_all(&mut self) {
        self.inner.reset_all();
    }

    fn reset_all_full(&mut self) {
        self.inner.reset_all_full();
    }

    fn inflate_covariance(&mut self, factor: f64) {
        self.inner.inflate_covariance(s(factor));
    }

    fn snapshot(&self) -> QFunctionSnapshot {
        self.inner.snapshot()
    }

    fn from_snapshot(snapshot: &QFunctionSnapshot) -> Result<QFunction, SnapshotError> {
        bayesian_lr::QFunction::from_snapshot(snapshot).map(|inner| QFunction { inner })
    }
}

const DIM: usize = 5;

const LAMBDA_REG: f64 = 1.0;

const HALFLIFE: usize = 500;

const INITIAL_SIGMA2: f64 = 0.01;

fn make_model() -> BayesianLinearRegression {
    BayesianLinearRegression::new(DIM, LAMBDA_REG, HALFLIFE, INITIAL_SIGMA2)
}

fn phi_ones() -> Vec<f64> {
    vec![1.0; DIM]
}

#[test]
fn test_creation() {
    let m = make_model();
    assert_eq!(m.dim(), DIM);
    assert_eq!(m.n_observations(), 0);
    assert!((m.noise_variance() - INITIAL_SIGMA2).abs() < 1e-15);
    assert_eq!(m.weights().len(), DIM);
    for i in 0..DIM {
        assert!((m.weights()[i] - 0.0).abs() < 1e-15);
    }
}

#[test]
fn test_predict_zero_initial() {
    let m = make_model();
    let phi = vec![0.5, -0.3, 1.0, 0.0, 2.0];
    assert!((m.predict(&phi) - 0.0).abs() < 1e-15);
}

#[test]
fn test_single_update() {
    let mut m = make_model();
    let phi = phi_ones();
    let result = m.update(&phi, 1.0);

    assert_eq!(m.n_observations(), 1);
    assert!(!result.diverged);

    let q = m.predict(&phi);
    assert!(
        q > 0.0,
        "Q-value should be positive after positive update: {}",
        q
    );
}

#[test]
fn test_convergence_to_known_weights() {
    let true_w = vec![2.0, 3.0, -1.0, 0.0, 1.0];
    let mut rng = seeded_rng();
    let mut m = BayesianLinearRegression::new(DIM, 0.01, HALFLIFE, 0.1);

    for _ in 0..500 {
        let phi: Vec<f64> = (0..DIM).map(|_| rng.gen_range(-1.0..1.0)).collect();
        let y = true_w
            .iter()
            .zip(phi.iter())
            .map(|(w, x)| w * x)
            .sum::<f64>()
            + rng.gen_range(-0.01..0.01);
        m.update(&phi, y);
    }

    for i in 0..DIM {
        assert!(
            (m.weights()[i] - true_w[i]).abs() < 0.5,
            "w[{}] = {}, expected ~{}",
            i,
            m.weights()[i],
            true_w[i]
        );
    }
}

#[test]
fn test_posterior_std_decreases_with_data() {
    let mut m = make_model();
    let phi = phi_ones();

    let std_before = m.posterior_std(&phi);

    for i in 0..50 {
        m.update(&phi, 1.0 + (i as f64) * 0.01);
    }

    let std_after = m.posterior_std(&phi);
    assert!(
        std_after < std_before,
        "Posterior std should decrease: before={}, after={}",
        std_before,
        std_after
    );
}

#[test]
fn test_posterior_std_non_negative() {
    let mut m = make_model();
    let phi = vec![100.0, -50.0, 0.0, 1.0, -1.0];

    for _ in 0..10 {
        m.update(&phi, 1.0);
    }

    let var = m.posterior_variance(&phi);
    assert!(
        var >= 0.0,
        "Posterior variance must be non-negative: {}",
        var
    );
    assert!(!var.is_nan(), "Posterior variance must not be NaN");
}

#[test]
fn test_adaptive_noise_variance() {
    let mut m = BayesianLinearRegression::new(DIM, 0.01, HALFLIFE, 0.1);

    let mut rng = seeded_rng();
    for _ in 0..2000 {
        let phi: Vec<f64> = (0..DIM).map(|_| rng.gen_range(-1.0..1.0)).collect();
        let y = 2.0 * phi[0] + 1.0 * phi[1] + rng.gen_range(-0.1..0.1);
        m.update(&phi, y);
    }

    let noise_var = m.noise_variance();
    assert!(
        noise_var > 0.001 && noise_var < 0.1,
        "Adaptive noise should be near 0.01, got {}",
        noise_var
    );
}

#[test]
fn test_divergence_detection() {
    let mut m = make_model();

    let phi_small = vec![0.001; DIM];
    m.update(&phi_small, 0.0);

    let phi = phi_ones();
    let result = m.update(&phi, 1e6);

    if result.diverged {
        assert!(result.divergence_ratio > 2.0);
    }
}

#[test]
fn test_divergence_ratio_no_false_positive() {
    let mut m = make_model();
    let mut rng = seeded_rng();

    for _ in 0..100 {
        let phi: Vec<f64> = (0..DIM).map(|_| rng.gen_range(-1.0..1.0)).collect();
        let y: f64 = rng.gen_range(-1.0..1.0);
        let result = m.update(&phi, y);
        if m.n_observations() > 1 {
            assert!(
                !result.diverged,
                "False positive divergence: ratio={}",
                result.divergence_ratio
            );
        }
    }
}

#[test]
fn test_reset() {
    let mut m = make_model();
    let phi = phi_ones();
    m.update(&phi, 1.0);
    assert!(m.n_observations() > 0);

    m.reset();
    assert_eq!(m.n_observations(), 0);
    assert!((m.predict(&phi) - 0.0).abs() < 1e-15);
    assert!(m.noise_variance() > 0.0);
}

#[test]
fn test_reset_full() {
    let mut m = make_model();
    let phi = phi_ones();
    for _ in 0..10 {
        m.update(&phi, 5.0);
    }
    let noise_after_updates = m.noise_variance();

    m.reset_full(INITIAL_SIGMA2);
    assert_eq!(m.n_observations(), 0);
    assert!((m.noise_variance() - INITIAL_SIGMA2).abs() < 1e-15);
    assert_ne!(noise_after_updates, INITIAL_SIGMA2);
}

#[test]
fn test_covariance_inflation() {
    let mut m = make_model();
    let phi = phi_ones();

    for _ in 0..10 {
        m.update(&phi, 1.0);
    }
    let std_before = m.posterior_std(&phi);

    m.inflate_covariance(2.0);
    let std_after = m.posterior_std(&phi);

    let ratio = std_after / std_before;
    assert!(
        (ratio - 2.0_f64.sqrt()).abs() < 0.01,
        "Inflation by 2.0 should increase std by sqrt2: ratio={}",
        ratio
    );
}

#[test]
fn test_covariance_inflation_factor_validation() {
    let mut m = make_model();
    m.inflate_covariance(1.5);
    m.inflate_covariance(1.0);
}

#[test]
fn test_sample_weights_distribution() {
    let mut m = make_model();
    let phi = phi_ones();

    for _ in 0..10 {
        m.update(&phi, 1.0);
    }

    let w_hat = m.weights().clone();
    let mut rng = seeded_rng();

    let n_samples = 2000;
    let mut sum = DVector::zeros(DIM);
    let mut sum_sq = DVector::zeros(DIM);

    for _ in 0..n_samples {
        let w_sampled = m.sample_weights(&mut rng);
        sum += &w_sampled;
        sum_sq += w_sampled.component_mul(&w_sampled);
    }

    let mean = sum / n_samples as f64;
    let variance = sum_sq / n_samples as f64 - mean.component_mul(&mean);

    for i in 0..DIM {
        assert!(
            (mean[i] - w_hat[i]).abs() < 0.1,
            "Sample mean[{}] = {}, expected ~{}",
            i,
            mean[i],
            w_hat[i]
        );
    }

    for i in 0..DIM {
        assert!(
            variance[i] > 0.0,
            "Sample variance[{}] should be positive",
            i
        );
    }
}

#[test]
fn test_sample_predict_differs_from_point() {
    let mut m = make_model();
    let phi = phi_ones();
    for _ in 0..5 {
        m.update(&phi, 1.0);
    }

    let point_q = m.predict(&phi);
    let mut rng = seeded_rng();
    let mut any_different = false;

    for _ in 0..50 {
        let sampled_q = m.sample_predict(&phi, &mut rng);
        if (sampled_q - point_q).abs() > 1e-10 {
            any_different = true;
            break;
        }
    }
    assert!(any_different, "Sampled Q should differ from point estimate");
}

#[test]
fn test_optimistic_initialization() {
    let mut m = make_model();
    let bias = 0.1;
    m.apply_optimistic_bias(bias);

    let phi = phi_ones();
    let q = m.predict(&phi);
    assert!(
        (q - bias * DIM as f64).abs() < 1e-10,
        "Optimistic bias: Q = {}, expected {}",
        q,
        bias * DIM as f64
    );
}

#[test]
fn test_optimistic_bias_diluted_after_updates() {
    let mut m = make_model();
    m.apply_optimistic_bias(1.0);
    let biased_q = m.predict(&phi_ones());

    let mut rng = seeded_rng();
    for _ in 0..100 {
        let phi: Vec<f64> = (0..DIM).map(|_| rng.gen_range(-1.0..1.0)).collect();
        m.update(&phi, 0.0);
    }

    let current_q = m.predict(&phi_ones());
    assert!(
        current_q < biased_q,
        "Optimistic bias should dilute: biased={}, current={}",
        biased_q,
        current_q
    );
}

#[test]
fn test_sherman_morrison_equivalence() {
    let mut m_online = make_model();
    let mut rng = seeded_rng();

    let observations: Vec<(Vec<f64>, f64)> = (0..20)
        .map(|_| {
            let phi: Vec<f64> = (0..DIM).map(|_| rng.gen_range(-1.0..1.0)).collect();
            let y: f64 = rng.gen_range(-1.0..1.0);
            (phi, y)
        })
        .collect();

    for (phi, y) in &observations {
        m_online.update(phi, *y);
    }

    let n = observations.len();
    let mut phi_matrix = DMatrix::zeros(DIM, n);
    let mut y_vec = DVector::zeros(n);
    for (j, (phi, y)) in observations.iter().enumerate() {
        for (i, v) in phi.iter().enumerate() {
            phi_matrix[(i, j)] = *v;
        }
        y_vec[j] = *y;
    }
    let a_batch =
        &phi_matrix * phi_matrix.transpose() + LAMBDA_REG * DMatrix::identity(DIM, DIM);
    let b_batch = &phi_matrix * &y_vec;
    let w_batch = a_batch.lu().solve(&b_batch).unwrap();

    for i in 0..DIM {
        assert!(
            (m_online.weights()[i] - w_batch[i]).abs() < 1e-8,
            "Online vs batch w[{}]: online={}, batch={}",
            i,
            m_online.weights()[i],
            w_batch[i]
        );
    }
}

#[test]
fn test_update_result_residual() {
    let mut m = make_model();
    let phi = phi_ones();

    let result = m.update(&phi, 2.5);
    assert!((result.residual - 2.5).abs() < 1e-10);
}

fn make_qfunction() -> QFunction {
    QFunction::new(DIM, LAMBDA_REG, HALFLIFE, INITIAL_SIGMA2, 0.1)
}

#[test]
fn test_qfunction_creation() {
    let qf = make_qfunction();
    assert_eq!(qf.dim(), DIM);

    let phi = phi_ones();
    let q_buy = qf.q_value(QAction::Buy, &phi);
    let q_sell = qf.q_value(QAction::Sell, &phi);
    let q_hold = qf.q_value(QAction::Hold, &phi);

    assert!(
        q_buy > q_hold,
        "Buy Q={} should be > Hold Q={}",
        q_buy,
        q_hold
    );
    assert!(
        q_sell > q_hold,
        "Sell Q={} should be > Hold Q={}",
        q_sell,
        q_hold
    );
    assert!((q_hold - 0.0).abs() < 1e-10, "Hold Q should be 0");
}

#[test]
fn test_qfunction_update_single_action() {
    let mut qf = make_qfunction();
    let phi = phi_ones();

    qf.update(QAction::Buy, &phi, 1.0);

    assert!(qf.model(QAction::Buy).n_observations() == 1);
    assert!(qf.model(QAction::Sell).n_observations() == 0);
    assert!(qf.model(QAction::Hold).n_observations() == 0);
}

#[test]
fn test_qfunction_q_values_all() {
    let mut qf = make_qfunction();
    let phi = phi_ones();

    qf.update(QAction::Buy, &phi, 5.0);

    let q_map = qf.q_values(&phi);
    assert_eq!(q_map.len(), 3);
    assert!(q_map.contains_key(&QAction::Buy));
    assert!(q_map.contains_key(&QAction::Sell));
    assert!(q_map.contains_key(&QAction::Hold));
}

#[test]
fn test_qfunction_sample_q_value_varies() {
    let qf = make_qfunction();
    let phi = phi_ones();
    let mut rng = seeded_rng();

    let mut values = std::collections::HashSet::new();
    for _ in 0..20 {
        let q = qf.sample_q_value(QAction::Buy, &phi, &mut rng);
        values.insert((q * 1e6) as i64);
    }
    assert!(values.len() > 1, "Sampled Q-values should vary");
}

#[test]
fn test_qfunction_posterior_stds() {
    let qf = make_qfunction();
    let phi = phi_ones();

    let stds = qf.posterior_stds(&phi);
    assert_eq!(stds.len(), 3);
    for (_, std_val) in &stds {
        assert!(*std_val >= 0.0);
    }
}

#[test]
fn test_qfunction_reset_action() {
    let mut qf = make_qfunction();
    let phi = phi_ones();

    qf.update(QAction::Buy, &phi, 1.0);
    assert!(qf.model(QAction::Buy).n_observations() == 1);

    qf.reset_action(QAction::Buy);
    assert!(qf.model(QAction::Buy).n_observations() == 0);

    let q_buy = qf.q_value(QAction::Buy, &phi);
    let q_hold = qf.q_value(QAction::Hold, &phi);
    assert!(
        q_buy > q_hold,
        "Optimistic bias should be restored after reset"
    );
}

#[test]
fn test_qfunction_reset_all() {
    let mut qf = make_qfunction();
    let phi = phi_ones();

    qf.update(QAction::Buy, &phi, 1.0);
    qf.update(QAction::Sell, &phi, 2.0);
    qf.update(QAction::Hold, &phi, 3.0);

    qf.reset_all();

    for &action in QAction::all() {
        assert_eq!(qf.model(action).n_observations(), 0);
    }

    assert!(qf.q_value(QAction::Buy, &phi) > qf.q_value(QAction::Hold, &phi));
    assert!(qf.q_value(QAction::Sell, &phi) > qf.q_value(QAction::Hold, &phi));
}

#[test]
fn test_qfunction_reset_all_full() {
    let mut qf = make_qfunction();
    let phi = phi_ones();

    for _ in 0..50 {
        qf.update(QAction::Buy, &phi, 10.0);
    }
    let noise_after = qf.model(QAction::Buy).noise_variance();

    qf.reset_all_full();
    let noise_after_reset = qf.model(QAction::Buy).noise_variance();

    assert!((noise_after_reset - INITIAL_SIGMA2).abs() < 1e-15);
    assert!((noise_after - INITIAL_SIGMA2).abs() > 1e-6);
}

#[test]
fn test_qfunction_inflate_covariance() {
    let mut qf = make_qfunction();
    let phi = phi_ones();

    for _ in 0..10 {
        qf.update(QAction::Buy, &phi, 1.0);
    }

    let std_before = qf.posterior_std(QAction::Buy, &phi);
    qf.inflate_covariance(3.0);
    let std_after = qf.posterior_std(QAction::Buy, &phi);

    let ratio = std_after / std_before;
    assert!(
        (ratio - 3.0_f64.sqrt()).abs() < 0.01,
        "Ratio should be sqrt3: {}",
        ratio
    );
}

#[test]
fn test_qfunction_point_equals_q_value() {
    let qf = make_qfunction();
    let phi = phi_ones();

    for &action in QAction::all() {
        assert!(
            (qf.q_value(action, &phi) - qf.q_point(action, &phi)).abs() < 1e-15,
            "q_value should equal q_point"
        );
    }
}

#[test]
fn test_qfunction_with_feature_vector_dim() {
    let qf = QFunction::new(
        FeatureVector::DIM,
        LAMBDA_REG,
        HALFLIFE,
        INITIAL_SIGMA2,
        0.1,
    );
    assert_eq!(qf.dim(), FeatureVector::DIM);

    let fv = FeatureVector::zero();
    let phi = floats(&fv.flattened());

    let _ = qf.q_value(QAction::Buy, &phi);
    let _ = qf.posterior_std(QAction::Hold, &phi);
    let _ = qf.q_values(&phi);
}

#[test]
fn test_noise_variance_floor() {
    let mut m = BayesianLinearRegression::new(DIM, LAMBDA_REG, HALFLIFE, 0.001);

    let phi_zero = vec![0.0; DIM];
    for _ in 0..5000 {
        m.update(&phi_zero, 0.0);
    }

    assert!(m.noise_variance() >= 1e-10);
}

#[test]
fn test_sample_weights_diagonal_approximation_no_panic() {
    let m = BayesianLinearRegression::new(DIM, LAMBDA_REG, HALFLIFE, INITIAL_SIGMA2);
    assert_eq!(m.n_observations(), 0);

    let mut rng = StdRng::seed_from_u64(42);
    let w = m.sample_weights(&mut rng);

    assert_eq!(w.len(), DIM);
    for i in 0..DIM {
        assert!(
            w[i].is_finite(),
            "sampled weight[{}] = {} is not finite",
            i,
            w[i]
        );
    }
    let w_hat = m.weights();
    let all_same = (0..DIM).all(|i| (w[i] - w_hat[i]).abs() < 1e-15);
    assert!(
        !all_same,
        "diagonal approximation should add variance, not just return point estimate"
    );
}

#[test]
fn test_sample_weights_diagonal_then_cholesky_transition() {
    let mut m = BayesianLinearRegression::new(DIM, LAMBDA_REG, HALFLIFE, INITIAL_SIGMA2);
    let mut rng = StdRng::seed_from_u64(42);

    for i in 0..(DIM - 1) {
        let phi = vec![1.0; DIM];
        m.update(&phi, (i as f64) * 0.1);
    }
    assert!(m.n_observations() < DIM);
    let w_diag = m.sample_weights(&mut rng);
    assert_eq!(w_diag.len(), DIM);

    let phi = vec![1.0; DIM];
    m.update(&phi, 1.0);
    assert!(m.n_observations() >= DIM);
    let w_chol = m.sample_weights(&mut rng);
    assert_eq!(w_chol.len(), DIM);

    for i in 0..DIM {
        assert!(w_diag[i].is_finite());
        assert!(w_chol[i].is_finite());
    }
}

#[test]
fn test_bayesian_lr_snapshot_roundtrip() {
    let mut model = make_model();
    let phi = vec![1.0, -0.5, 0.25, 0.75, -1.25];
    for target in [0.5, -0.25, 1.5, 0.8] {
        model.update(&phi, target);
    }

    let snapshot = model.snapshot();
    let restored = BayesianLinearRegression::from_snapshot(&snapshot).unwrap();

    assert_eq!(restored.dim(), model.dim());
    assert_eq!(restored.n_observations(), model.n_observations());
    assert!((restored.noise_variance() - model.noise_variance()).abs() < 1e-12);
    for (restored_weight, original_weight) in
        restored.weights().iter().zip(model.weights().iter())
    {
        assert!((restored_weight - original_weight).abs() < 1e-12);
    }
    assert!((restored.predict(&phi) - model.predict(&phi)).abs() < 1e-12);
    assert!((restored.posterior_std(&phi) - model.posterior_std(&phi)).abs() < 1e-12);
}

#[test]
fn test_qfunction_snapshot_roundtrip() {
    let mut q_function = make_qfunction();
    let phi = vec![0.5, -1.0, 0.25, 0.75, 1.25];

    q_function.update(QAction::Buy, &phi, 1.0);
    q_function.update(QAction::Sell, &phi, -0.7);
    q_function.update(QAction::Hold, &phi, 0.1);

    let snapshot = q_function.snapshot();
    let restored = QFunction::from_snapshot(&snapshot).unwrap();

    assert_eq!(restored.dim(), q_function.dim());
    for &action in QAction::all() {
        assert_eq!(
            restored.model(action).n_observations(),
            q_function.model(action).n_observations()
        );
        assert!(
            (restored.q_value(action, &phi) - q_function.q_value(action, &phi)).abs() < 1e-12
        );
    }
}

#[test]
fn test_qfunction_snapshot_rejects_missing_action() {
    let mut snapshot = make_qfunction().snapshot();
    snapshot.actions.pop();

    let err = QFunction::from_snapshot(&snapshot).unwrap_err().message("");
    assert!(err.contains("must contain"));
}
