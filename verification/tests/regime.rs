#![allow(dead_code)]

use fx_strategy::features::FeatureVector;
use fx_strategy::regime;
use fx_strategy::regime::{ModelShape, PosteriorLogs, ShapeError};
use fx_strategy::scalar::Scalar;

fn s(x: f64) -> Scalar {
    Scalar::from_bits(x.to_bits())
}

fn f(x: Scalar) -> f64 {
    f64::from_bits(x.to_bits())
}

fn scalars(v: &[f64]) -> Vec<Scalar> {
    v.iter().map(|&x| s(x)).collect()
}

fn floats(v: &[Scalar]) -> Vec<f64> {
    v.iter().map(|&x| f(x)).collect()
}

fn compute_entropy(p: &[f64]) -> f64 {
    let logs: Vec<f64> = p.iter().map(|x| x.ln()).collect();
    f(regime::compute_entropy(&scalars(p), &scalars(&logs)))
}

fn logs_of(v: &[Scalar]) -> Vec<Scalar> {
    v.iter().map(|&x| s(f(x).ln())).collect()
}

fn compute_kl_divergence(p: &[f64], q: Option<&[f64]>) -> f64 {
    let p = scalars(p);
    let q = q.map(scalars);
    let ratios = regime::divergence_ratios(&p, q.as_deref());
    f(regime::compute_kl_divergence(&p, q.as_deref(), &logs_of(&ratios)))
}

fn exponentials(features: &[f64], weights: &[Vec<f64>], bias: &[f64]) -> Vec<Scalar> {
    let weights: Vec<Vec<Scalar>> = weights.iter().map(|row| scalars(row)).collect();
    regime::posterior_exponents(&scalars(features), &weights, &scalars(bias))
        .iter()
        .map(|&x| s(f(x).exp()))
        .collect()
}

fn compute_posterior_from_weights(features: &[f64], weights: &[Vec<f64>], bias: &[f64]) -> Vec<f64> {
    floats(&regime::compute_posterior_from_weights(&exponentials(features, weights, bias)))
}

fn compute_drift(posterior: &[f64], prev_drift: &[f64], features: &[f64], coeff: f64) -> Vec<f64> {
    floats(&regime::compute_drift(
        &scalars(posterior),
        &scalars(prev_drift),
        &scalars(features),
        s(coeff),
    ))
}

#[derive(Debug, Clone)]
struct RegimeConfig {
    n_regimes: usize,
    unknown_regime_entropy_threshold: f64,
    regime_ar_coeff: f64,
    feature_dim: usize,
    model_path: Option<String>,
}

impl RegimeConfig {
    fn lib(&self) -> fx_strategy::regime::RegimeConfig {
        fx_strategy::regime::RegimeConfig {
            n_regimes: self.n_regimes,
            unknown_regime_entropy_threshold: s(self.unknown_regime_entropy_threshold),
            regime_ar_coeff: s(self.regime_ar_coeff),
            feature_dim: self.feature_dim,
            model_path: self.model_path.clone(),
        }
    }

    fn max_entropy(&self) -> f64 {
        (self.n_regimes as f64).ln()
    }

    fn plain(x: fx_strategy::regime::RegimeConfig) -> RegimeConfig {
        RegimeConfig {
            n_regimes: x.n_regimes,
            unknown_regime_entropy_threshold: f(x.unknown_regime_entropy_threshold),
            regime_ar_coeff: f(x.regime_ar_coeff),
            feature_dim: x.feature_dim,
            model_path: x.model_path,
        }
    }
}

impl Default for RegimeConfig {
    fn default() -> RegimeConfig {
        RegimeConfig::plain(fx_strategy::regime::RegimeConfig::default())
    }
}

struct RegimeState<'a> {
    inner: &'a regime::RegimeState,
    posterior: Vec<f64>,
    drift: Vec<f64>,
}

impl RegimeState<'_> {
    fn posterior(&self) -> &[f64] {
        &self.posterior
    }

    fn drift(&self) -> &[f64] {
        &self.drift
    }

    fn entropy(&self) -> f64 {
        f(self.inner.entropy())
    }

    fn kl_divergence(&self) -> f64 {
        f(self.inner.kl_divergence())
    }

    fn is_unknown(&self) -> bool {
        self.inner.is_unknown()
    }

    fn last_update_ns(&self) -> u64 {
        self.inner.last_update_ns()
    }

    fn is_initialized(&self) -> bool {
        self.inner.is_initialized()
    }
}

struct RegimeCache {
    inner: regime::RegimeCache,
}

fn posterior_logs(posterior: &[Scalar]) -> PosteriorLogs {
    let normalized = regime::normalized(posterior);
    PosteriorLogs {
        entropy: logs_of(&normalized),
        divergence: logs_of(&regime::divergence_ratios(&normalized, None)),
    }
}

impl RegimeCache {
    fn new(config: RegimeConfig) -> RegimeCache {
        let max_entropy = s(config.max_entropy());
        RegimeCache {
            inner: regime::RegimeCache::new(config.lib(), None, max_entropy),
        }
    }

    fn with_defaults() -> RegimeCache {
        RegimeCache {
            inner: regime::RegimeCache::with_defaults(s(4.0_f64.ln())),
        }
    }

    fn state(&self) -> RegimeState<'_> {
        let inner = self.inner.state();
        RegimeState {
            inner,
            posterior: floats(inner.posterior()),
            drift: floats(inner.drift()),
        }
    }

    fn config(&self) -> RegimeConfig {
        RegimeConfig::plain(self.inner.config().clone())
    }

    fn has_onnx_model(&self) -> bool {
        self.inner.has_onnx_model()
    }

    /// Without a model there is nothing to predict with.
    fn predict_onnx(&self, _features: &[f64]) -> Option<Vec<f64>> {
        self.inner.model.map(|shape| vec![0.0; shape.n_regimes])
    }

    fn update(&mut self, posterior: Vec<f64>, now_ns: u64) {
        let posterior = scalars(&posterior);
        let logs = posterior_logs(&posterior);
        self.inner.update(posterior, now_ns, &logs);
    }

    fn update_drift(&mut self, features: &[f64]) {
        self.inner.update_drift(&scalars(features));
    }

    fn update_from_weights(
        &mut self,
        features: &[f64],
        weights: &[Vec<f64>],
        bias: &[f64],
        now_ns: u64,
    ) {
        let exponentials = exponentials(features, weights, bias);
        let posterior = regime::compute_posterior_from_weights(&exponentials);
        let logs = posterior_logs(&posterior);
        self.inner.update_from_weights(&exponentials, now_ns, &logs);
    }

    fn reset(&mut self) {
        let max_entropy = s(self.config().max_entropy());
        self.inner.reset(max_entropy);
    }
}

#[test]
fn test_entropy_uniform() {
    let p = vec![0.25, 0.25, 0.25, 0.25];
    let h = compute_entropy(&p);
    assert!((h - 4.0_f64.ln()).abs() < 1e-10);
}

#[test]
fn test_entropy_deterministic() {
    let p = vec![1.0, 0.0, 0.0];
    let h = compute_entropy(&p);
    assert!(h.abs() < 1e-10);
}

#[test]
fn test_entropy_skewed() {
    let p = vec![0.9, 0.1];
    let h = compute_entropy(&p);
    assert!(h > 0.0);
    assert!(h < 2.0_f64.ln());
}

#[test]
fn test_entropy_single_regime() {
    let p = vec![1.0];
    let h = compute_entropy(&p);
    assert!(h.abs() < 1e-10);
}

#[test]
fn test_entropy_zero_prob_ignored() {
    let p = vec![0.5, 0.5, 0.0];
    let h = compute_entropy(&p);
    let expected = -(0.5_f64 * 0.5_f64.ln() + 0.5 * 0.5_f64.ln());
    assert!((h - expected).abs() < 1e-10);
}

#[test]
fn test_kl_identical() {
    let p = vec![0.5, 0.3, 0.2];
    let kl = compute_kl_divergence(&p, Some(&p));
    assert!(kl.abs() < 1e-10);
}

#[test]
fn test_kl_from_uniform_positive() {
    let p = vec![0.9, 0.05, 0.05];
    let kl = compute_kl_divergence(&p, None);
    assert!(kl > 0.0);
}

#[test]
fn test_kl_with_reference() {
    let p = vec![0.8, 0.1, 0.1];
    let q = vec![1.0 / 3.0; 3];
    let kl = compute_kl_divergence(&p, Some(&q));
    assert!(kl > 0.0);
}

#[test]
fn test_kl_non_negative() {
    let p = vec![0.7, 0.2, 0.1];
    let q = vec![0.4, 0.3, 0.3];
    let kl = compute_kl_divergence(&p, Some(&q));
    assert!(kl >= 0.0);
}

#[test]
fn test_posterior_sums_to_one() {
    let features = vec![0.1, -0.2, 0.3];
    let weights = vec![vec![1.0, 0.0, 0.0], vec![0.0, 1.0, 0.0]];
    let bias = vec![0.0, 0.0];
    let posterior = compute_posterior_from_weights(&features, &weights, &bias);
    let sum: f64 = posterior.iter().sum();
    assert!((sum - 1.0).abs() < 1e-10);
}

#[test]
fn test_posterior_non_negative() {
    let features = vec![0.5, 0.5];
    let weights = vec![vec![1.0, 0.0], vec![0.0, 1.0]];
    let bias = vec![0.0, 0.0];
    let posterior = compute_posterior_from_weights(&features, &weights, &bias);
    for &p in &posterior {
        assert!(p >= 0.0);
    }
}

#[test]
fn test_posterior_dominant_regime() {
    let features = vec![10.0, 0.0];
    let weights = vec![vec![1.0, 0.0], vec![0.0, 1.0]];
    let bias = vec![0.0, -100.0];
    let posterior = compute_posterior_from_weights(&features, &weights, &bias);
    assert!(posterior[0] > 0.99);
}

#[test]
fn test_posterior_equal_weights() {
    let features = vec![0.0, 0.0];
    let weights = vec![vec![0.0, 0.0], vec![0.0, 0.0]];
    let bias = vec![0.0, 0.0];
    let posterior = compute_posterior_from_weights(&features, &weights, &bias);
    assert!((posterior[0] - 0.5).abs() < 1e-10);
    assert!((posterior[1] - 0.5).abs() < 1e-10);
}

#[test]
fn test_posterior_shape() {
    let features = vec![1.0, 2.0, 3.0];
    let weights = vec![
        vec![0.1, 0.2, 0.3],
        vec![0.4, 0.5, 0.6],
        vec![0.7, 0.8, 0.9],
    ];
    let bias = vec![0.1, 0.2, 0.3];
    let posterior = compute_posterior_from_weights(&features, &weights, &bias);
    assert_eq!(posterior.len(), 3);
}

#[test]
fn test_posterior_four_regimes() {
    let features = vec![1.0];
    let weights = vec![vec![1.0], vec![-1.0], vec![0.0], vec![0.0]];
    let bias = vec![0.0, 0.0, 0.0, 0.0];
    let posterior = compute_posterior_from_weights(&features, &weights, &bias);
    assert_eq!(posterior.len(), 4);
    assert!(posterior[0] > posterior[1]);
}

#[test]
fn test_drift_zero_prev() {
    let posterior = vec![0.5, 0.5];
    let prev_drift = vec![0.0, 0.0, 0.0];
    let features = vec![1.0, 1.0, 1.0];
    let drift = compute_drift(&posterior, &prev_drift, &features, 0.9);
    for &d in &drift {
        assert!(d.abs() < 1e-10);
    }
}

#[test]
fn test_drift_decay() {
    let posterior = vec![1.0, 0.0];
    let prev_drift = vec![1.0, 1.0];
    let features = vec![0.0, 0.0];
    let drift = compute_drift(&posterior, &prev_drift, &features, 0.9);
    assert!((drift[0] - 0.9).abs() < 1e-10);
    assert!((drift[1] - 0.9).abs() < 1e-10);
}

#[test]
fn test_drift_weighted() {
    let posterior = vec![0.3, 0.7];
    let prev_drift = vec![1.0, 0.0];
    let features = vec![0.0, 0.0];
    let drift = compute_drift(&posterior, &prev_drift, &features, 1.0);
    assert!((drift[0] - 1.0).abs() < 1e-10);
    assert!(drift[1].abs() < 1e-10);
}

#[test]
fn test_drift_shape() {
    let posterior = vec![0.5, 0.5];
    let prev_drift = vec![0.0; 10];
    let features = vec![0.0; 10];
    let drift = compute_drift(&posterior, &prev_drift, &features, 0.9);
    assert_eq!(drift.len(), 10);
}

#[test]
fn test_drift_multi_regime() {
    let posterior = vec![0.25, 0.25, 0.25, 0.25];
    let prev_drift = vec![4.0];
    let features = vec![0.0];
    let drift = compute_drift(&posterior, &prev_drift, &features, 0.8);
    assert!((drift[0] - 3.2).abs() < 1e-10);
}

#[test]
fn test_regime_cache_new() {
    let cache = RegimeCache::with_defaults();
    assert!(!cache.state().is_initialized());
    assert!(!cache.state().is_unknown());
    assert_eq!(cache.state().posterior().len(), 4);
    assert_eq!(cache.state().drift().len(), FeatureVector::DIM);
}

#[test]
fn test_regime_cache_update() {
    let mut cache = RegimeCache::with_defaults();
    let posterior = vec![0.9, 0.05, 0.03, 0.02];
    cache.update(posterior, 1000);

    assert!(cache.state().is_initialized());
    assert!(!cache.state().is_unknown());
    assert_eq!(cache.state().last_update_ns(), 1000);
    assert!((cache.state().posterior()[0] - 0.9).abs() < 1e-10);
    assert!(cache.state().entropy() < cache.config().max_entropy());
}

#[test]
fn test_regime_cache_unknown_detection() {
    let mut cache = RegimeCache::new(RegimeConfig {
        n_regimes: 4,
        unknown_regime_entropy_threshold: 1.0,
        regime_ar_coeff: 0.9,
        feature_dim: 34,
        model_path: None,
    });
    let uniform = vec![0.25, 0.25, 0.25, 0.25];
    cache.update(uniform, 1000);

    assert!(cache.state().is_unknown());
    assert!(cache.state().entropy() > 1.0);
}

#[test]
fn test_regime_cache_normalization() {
    let mut cache = RegimeCache::with_defaults();
    let unnormalized = vec![2.0, 1.0, 0.5, 0.5];
    cache.update(unnormalized, 1000);

    let sum: f64 = cache.state().posterior().iter().sum();
    assert!((sum - 1.0).abs() < 1e-10);
}

#[test]
fn test_regime_cache_update_drift() {
    let mut cache = RegimeCache::with_defaults();
    let posterior = vec![1.0, 0.0, 0.0, 0.0];
    cache.update(posterior, 1000);

    let features = vec![0.0; FeatureVector::DIM];
    cache.update_drift(&features);
    assert!(cache.state().drift().iter().all(|d| d.abs() < 1e-10));
}

#[test]
fn test_regime_cache_drift_accumulation() {
    let mut cache = RegimeCache::with_defaults();
    let posterior = vec![1.0, 0.0, 0.0, 0.0];
    cache.update(posterior, 1000);

    let features = vec![0.0; FeatureVector::DIM];
    cache.update_drift(&features);
    assert!(cache.state().drift().iter().all(|d| d.abs() < 1e-10));

    cache.update_drift(&features);
    assert!(cache.state().drift().iter().all(|d| d.abs() < 1e-10));
}

#[test]
fn test_regime_cache_update_from_weights() {
    let mut cache = RegimeCache::new(RegimeConfig {
        n_regimes: 2,
        unknown_regime_entropy_threshold: 1.8,
        regime_ar_coeff: 0.9,
        feature_dim: 3,
        model_path: None,
    });

    let features = vec![10.0, 0.0, 0.0];
    let weights = vec![vec![1.0, 0.0, 0.0], vec![0.0, 1.0, 0.0]];
    let bias = vec![0.0, -100.0];
    cache.update_from_weights(&features, &weights, &bias, 2000);

    assert!(cache.state().is_initialized());
    assert!(cache.state().posterior()[0] > 0.99);
    assert_eq!(cache.state().last_update_ns(), 2000);
}

#[test]
fn test_regime_cache_reset() {
    let mut cache = RegimeCache::with_defaults();
    let posterior = vec![0.9, 0.05, 0.03, 0.02];
    cache.update(posterior, 1000);

    cache.reset();
    assert!(!cache.state().is_initialized());
    assert!(!cache.state().is_unknown());
    assert_eq!(cache.state().last_update_ns(), 0);
    let uniform = 1.0 / 4.0;
    for &p in cache.state().posterior() {
        assert!((p - uniform).abs() < 1e-10);
    }
}

#[test]
fn test_regime_config_max_entropy() {
    let config = RegimeConfig::default();
    assert!((config.max_entropy() - 4.0_f64.ln()).abs() < 1e-10);
}

#[test]
fn test_regime_config_custom() {
    let config = RegimeConfig {
        n_regimes: 3,
        unknown_regime_entropy_threshold: 0.5,
        regime_ar_coeff: 0.8,
        feature_dim: 10,
        model_path: None,
    };
    assert!((config.max_entropy() - 3.0_f64.ln()).abs() < 1e-10);
    let cache = RegimeCache::new(config);
    assert_eq!(cache.state().posterior().len(), 3);
    assert_eq!(cache.state().drift().len(), 10);
}

#[test]
fn test_regime_cache_kl_stored() {
    let mut cache = RegimeCache::with_defaults();
    let posterior = vec![0.9, 0.05, 0.03, 0.02];
    cache.update(posterior, 1000);
    assert!(cache.state().kl_divergence() > 0.0);
}

#[test]
fn test_regime_cache_kl_uniform_is_zero() {
    let mut cache = RegimeCache::with_defaults();
    let posterior = vec![0.25, 0.25, 0.25, 0.25];
    cache.update(posterior, 1000);
    assert!(cache.state().kl_divergence().abs() < 1e-10);
}

#[test]
fn test_regime_cache_multiple_updates() {
    let mut cache = RegimeCache::with_defaults();
    cache.update(vec![0.8, 0.1, 0.05, 0.05], 1000);
    cache.update(vec![0.6, 0.2, 0.1, 0.1], 2000);
    cache.update(vec![0.9, 0.05, 0.03, 0.02], 3000);

    assert_eq!(cache.state().last_update_ns(), 3000);
    assert!((cache.state().posterior()[0] - 0.9).abs() < 1e-10);
}

#[test]
fn test_entropy_boundary_threshold() {
    let config = RegimeConfig {
        n_regimes: 4,
        unknown_regime_entropy_threshold: 4.0_f64.ln() - 0.01,
        regime_ar_coeff: 0.9,
        feature_dim: 34,
        model_path: None,
    };
    let mut cache = RegimeCache::new(config);
    let uniform = vec![0.25, 0.25, 0.25, 0.25];
    cache.update(uniform, 1000);

    assert!(cache.state().is_unknown());
}

#[test]
fn test_entropy_just_below_threshold() {
    let config = RegimeConfig {
        n_regimes: 4,
        unknown_regime_entropy_threshold: 2.0,
        regime_ar_coeff: 0.9,
        feature_dim: 34,
        model_path: None,
    };
    let mut cache = RegimeCache::new(config);
    let posterior = vec![0.9, 0.05, 0.03, 0.02];
    cache.update(posterior, 1000);

    assert!(!cache.state().is_unknown());
}

#[test]
fn test_regime_cache_no_onnx_model_by_default() {
    let cache = RegimeCache::with_defaults();
    assert!(!cache.has_onnx_model());
    assert!(cache.predict_onnx(&vec![0.0; FeatureVector::DIM]).is_none());
}

#[test]
fn test_onnx_regime_model_debug() {
    assert!(format!("{:?}", "OnnxRegimeModel").contains("OnnxRegimeModel"));
}

#[test]
fn test_regime_config_model_path_field() {
    let config = RegimeConfig {
        model_path: Some("/path/to/model.onnx".to_string()),
        ..RegimeConfig::default()
    };
    assert_eq!(config.model_path.as_deref(), Some("/path/to/model.onnx"));

    let default = RegimeConfig::default();
    assert!(default.model_path.is_none());
}

#[test]
fn test_regime_cache_invalid_model_path_falls_back() {
    let config = RegimeConfig {
        model_path: Some("/nonexistent/path/model.onnx".to_string()),
        ..RegimeConfig::default()
    };
    assert_eq!(
        config.model_path.as_deref(),
        Some("/nonexistent/path/model.onnx")
    );
    let cache = RegimeCache::new(config);
    assert!(!cache.has_onnx_model());
    assert!(cache.predict_onnx(&vec![0.0; FeatureVector::DIM]).is_none());
    let posterior = vec![0.9, 0.05, 0.03, 0.02];
    let mut cache = cache;
    cache.update(posterior, 1000);
    assert!(cache.state().is_initialized());
    assert!(!cache.state().is_unknown());
}

#[test]
fn test_model_shape() {
    let shape = ModelShape::from_last_dims(Some(38), Some(4));
    assert_eq!(shape.feature_dim, 38);
    assert_eq!(shape.n_regimes, 4);
    let open = ModelShape::from_last_dims(None, Some(-1));
    assert_eq!(open.feature_dim, FeatureVector::DIM);
    assert_eq!(open.n_regimes, 4);
    assert_eq!(shape.check_input(38), Ok(()));
    assert_eq!(
        shape.check_input(34),
        Err(ShapeError::Input {
            found: 34,
            expected: 38
        })
    );
    assert_eq!(shape.check_output(4), Ok(()));
    assert_eq!(
        shape.check_output(3),
        Err(ShapeError::Output {
            found: 3,
            expected: 4
        })
    );
}

#[test]
fn test_cache_with_model() {
    let shape = ModelShape::from_last_dims(Some(38), Some(4));
    let config = RegimeConfig {
        model_path: Some("regime.onnx".to_string()),
        ..RegimeConfig::default()
    };
    let cache = regime::RegimeCache::new(config.lib(), Some(shape), s(4.0_f64.ln()));
    assert!(cache.has_onnx_model());
    assert_eq!(cache.model, Some(shape));
}

#[test]
fn test_start_favours_no_regime() {
    let cache = RegimeCache::with_defaults();
    assert_eq!(cache.state().posterior(), &[0.25, 0.25, 0.25, 0.25]);
    assert_eq!(cache.state().entropy(), 4.0_f64.ln());
    assert_eq!(cache.state().kl_divergence(), 0.0);
}

#[test]
fn test_shares_of_exponentials() {
    let shares = regime::compute_posterior_from_weights(&scalars(&[1.0, 2.0, 5.0]));
    assert_eq!(floats(&shares), vec![0.125, 0.25, 0.625]);
    let normalized = regime::normalized(&scalars(&[2.0, 1.0, 0.5, 0.5]));
    assert_eq!(floats(&normalized), vec![0.5, 0.25, 0.125, 0.125]);
}

#[test]
fn test_entropy_and_divergence_values() {
    let p = [0.5, 0.25, 0.25];
    assert!((compute_entropy(&p) - 1.5 * 2.0_f64.ln()).abs() < 1e-15);
    let q = [0.25, 0.25, 0.5];
    let expected = 0.5 * 2.0_f64.ln() + 0.25 * 0.5_f64.ln();
    assert!((compute_kl_divergence(&p, Some(&q)) - expected).abs() < 1e-15);
}
