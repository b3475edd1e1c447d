//! The library's arithmetic against the machine's and against nalgebra, bit for bit.

use fx_strategy::bayesian_lr::{BayesianLinearRegression, Draw, QAction, QFunction};
use fx_strategy::scalar::Scalar;
use nalgebra::{DMatrix, DVector};
use rand::rngs::StdRng;
use rand::{Rng, SeedableRng};
use rand_distr::{Distribution, StandardNormal};

fn s(x: f64) -> Scalar {
    Scalar::from_bits(x.to_bits())
}

fn f(x: Scalar) -> f64 {
    f64::from_bits(x.to_bits())
}

fn scalars(v: &[f64]) -> Vec<Scalar> {
    v.iter().map(|&x| s(x)).collect()
}

fn bits(v: &[Scalar]) -> Vec<u64> {
    v.iter().map(|x| x.to_bits()).collect()
}

fn float_bits(v: &[f64]) -> Vec<u64> {
    v.iter().map(|x| x.to_bits()).collect()
}

/// The recursive least squares of the regression, on the machine's floats.
struct Machine {
    a_inv: DMatrix<f64>,
    b: DVector<f64>,
    w_hat: DVector<f64>,
    sigma2_noise: f64,
    residual_var_ema: f64,
    ema_alpha: f64,
}

impl Machine {
    fn new(dim: usize, lambda_reg: f64, halflife: usize, sigma2: f64) -> Machine {
        let ema_alpha = 1.0 - (-2.0_f64.ln() / halflife as f64).exp();
        Machine {
            a_inv: DMatrix::identity(dim, dim) / lambda_reg,
            b: DVector::zeros(dim),
            w_hat: DVector::zeros(dim),
            sigma2_noise: sigma2,
            residual_var_ema: sigma2,
            ema_alpha,
        }
    }

    fn update(&mut self, phi: &[f64], y: f64) -> f64 {
        let x = DVector::from_column_slice(phi);
        let residual = y - self.w_hat.dot(&x);
        self.residual_var_ema = self.ema_alpha * (residual * residual)
            + (1.0 - self.ema_alpha) * self.residual_var_ema;
        self.sigma2_noise = self.residual_var_ema.max(1e-10);
        let a_inv_x = &self.a_inv * &x;
        let denom = 1.0 + x.dot(&a_inv_x);
        self.a_inv -= (&a_inv_x * a_inv_x.transpose()) / denom;
        self.b += &x * y;
        self.w_hat = &self.a_inv * &self.b;
        residual
    }
}

fn pair(dim: usize, lambda_reg: f64, halflife: usize, sigma2: f64) -> (BayesianLinearRegression, Machine) {
    let kept = s(f(BayesianLinearRegression::decay_exponent(halflife)).exp());
    (
        BayesianLinearRegression::new(dim, s(lambda_reg), kept, s(sigma2)),
        Machine::new(dim, lambda_reg, halflife, sigma2),
    )
}

fn same_state(model: &BayesianLinearRegression, machine: &Machine) {
    assert_eq!(bits(&model.a_inv), float_bits(machine.a_inv.as_slice()));
    assert_eq!(bits(&model.b), float_bits(machine.b.as_slice()));
    assert_eq!(bits(model.weights()), float_bits(machine.w_hat.as_slice()));
    assert_eq!(f(model.noise_variance()), machine.sigma2_noise);
}

#[test]
fn test_updates_agree_with_nalgebra() {
    for dim in [1, 2, 3, 5, 8, 9, 13, 38, 43] {
        let (mut model, mut machine) = pair(dim, 0.01, 500, 0.01);
        let mut rng = StdRng::seed_from_u64(dim as u64);
        for _ in 0..15 {
            let phi: Vec<f64> = (0..dim).map(|_| rng.gen_range(-3.0..3.0)).collect();
            let y = rng.gen_range(-2.0..2.0);
            let residual = machine.update(&phi, y);
            let result = model.update(&scalars(&phi), s(y));
            assert_eq!(f(result.residual), residual);
            same_state(&model, &machine);
        }
    }
}

#[test]
fn test_estimates_agree_with_nalgebra() {
    let dim = 11;
    let (mut model, mut machine) = pair(dim, 1.0, 100, 0.05);
    let mut rng = StdRng::seed_from_u64(3);
    for _ in 0..12 {
        let phi: Vec<f64> = (0..dim).map(|_| rng.gen_range(-1.0..1.0)).collect();
        let y = rng.gen_range(-1.0..1.0);
        machine.update(&phi, y);
        model.update(&scalars(&phi), s(y));
    }
    for _ in 0..20 {
        let phi: Vec<f64> = (0..dim).map(|_| rng.gen_range(-1.0..1.0)).collect();
        let x = DVector::from_column_slice(&phi);
        assert_eq!(f(model.predict(&scalars(&phi))), machine.w_hat.dot(&x));
        let variance = (machine.sigma2_noise * x.dot(&(&machine.a_inv * &x))).max(0.0);
        assert_eq!(f(model.posterior_variance(&scalars(&phi))), variance);
        assert_eq!(f(model.posterior_std(&scalars(&phi))), variance.sqrt());
    }
}

#[test]
fn test_samples_agree_with_nalgebra() {
    let dim = 6;
    let (mut model, mut machine) = pair(dim, 1.0, 100, 0.05);
    let mut rng = StdRng::seed_from_u64(4);
    for n in 0..10 {
        let normals: Vec<f64> = (0..dim).map(|_| StandardNormal.sample(&mut rng)).collect();
        let sigma = machine.sigma2_noise.sqrt();
        let (expected, factor) = if n < dim {
            assert!(!model.draws_with_factor());
            let w: Vec<f64> = (0..dim)
                .map(|i| {
                    machine.w_hat[i] + sigma * machine.a_inv[(i, i)].sqrt().max(0.0) * normals[i]
                })
                .collect();
            (w, None)
        } else {
            assert!(model.draws_with_factor());
            let l = machine.a_inv.clone().cholesky().unwrap().l();
            let z = DVector::from_column_slice(&normals);
            let w = &machine.w_hat + &(&l * sigma) * &z;
            (w.as_slice().to_vec(), Some(scalars(l.as_slice())))
        };
        let draw = Draw {
            normals: scalars(&normals),
            factor,
        };
        assert_eq!(bits(&model.sample_weights(&draw)), float_bits(&expected));
        let phi: Vec<f64> = (0..dim).map(|_| rng.gen_range(-1.0..1.0)).collect();
        let y = rng.gen_range(-1.0..1.0);
        machine.update(&phi, y);
        model.update(&scalars(&phi), s(y));
    }
}

#[test]
fn test_sample_without_factor_is_the_mean() {
    let dim = 3;
    let (mut model, _) = pair(dim, 1.0, 100, 0.05);
    for i in 0..4 {
        model.update(&scalars(&[1.0, 0.5, i as f64]), s(0.7));
    }
    let draw = Draw {
        normals: scalars(&[1.0, -1.0, 2.0]),
        factor: None,
    };
    assert_eq!(bits(&model.sample_weights(&draw)), bits(model.weights()));
}

#[test]
fn test_inflation_agrees_with_nalgebra() {
    let dim = 7;
    let (mut model, mut machine) = pair(dim, 0.5, 100, 0.05);
    let mut rng = StdRng::seed_from_u64(5);
    for _ in 0..9 {
        let phi: Vec<f64> = (0..dim).map(|_| rng.gen_range(-1.0..1.0)).collect();
        machine.update(&phi, 0.3);
        model.update(&scalars(&phi), s(0.3));
    }
    machine.a_inv *= 1.7;
    model.inflate_covariance(s(1.7));
    same_state(&model, &machine);
}

#[test]
fn test_bias_agrees_with_nalgebra() {
    let kept = s(f(BayesianLinearRegression::decay_exponent(500)).exp());
    let q = QFunction::new(4, s(0.01), kept, s(0.01), s(0.1));
    let phi = [0.3, -0.2, 1.5, 0.7];
    let w = DVector::from_element(4, 0.1);
    let x = DVector::from_column_slice(&phi);
    assert_eq!(f(q.q_value(QAction::Buy, &scalars(&phi))), w.dot(&x));
    assert_eq!(f(q.q_value(QAction::Sell, &scalars(&phi))), w.dot(&x));
    assert_eq!(f(q.q_value(QAction::Hold, &scalars(&phi))), 0.0);
}

#[test]
fn test_decay_exponent_halves_at_the_halflife() {
    let exponent = f(BayesianLinearRegression::decay_exponent(500));
    assert_eq!(exponent, -2.0_f64.ln() / 500.0);
    assert!(((exponent * 500.0).exp() - 0.5).abs() < 1e-15);
}
