use fx_strategy::bayesian_lr::{
    BayesianLinearRegression, QAction, QFunction, SnapshotError, SnapshotField,
};
use fx_strategy::q_state::{
    BayesianLinearRegressionSnapshot, MatrixSnapshot, QStateFileFormat, StrategyQStateSnapshot,
    StrategySetQStateSnapshot, VectorSnapshot, Q_STATE_SCHEMA_VERSION,
};
use fx_strategy::scalar::Scalar;
use fx_strategy::state::StrategyId;

fn s(x: f64) -> Scalar {
    Scalar::from_bits(x.to_bits())
}

fn f(x: Scalar) -> f64 {
    f64::from_bits(x.to_bits())
}

fn scalars(v: &[f64]) -> Vec<Scalar> {
    v.iter().map(|&x| s(x)).collect()
}

fn floats(v: &[Scalar]) -> Vec<f64> {
    v.iter().map(|&x| f(x)).collect()
}

fn q_function() -> QFunction {
    let kept = s(f(BayesianLinearRegression::decay_exponent(100)).exp());
    let mut q = QFunction::new(3, s(1.0), kept, s(0.05), s(0.1));
    let phi = scalars(&[1.0, 0.5, -0.25]);
    q.update(QAction::Buy, &phi, s(1.0));
    q.update(QAction::Sell, &phi, s(-0.5));
    q
}

fn regression() -> BayesianLinearRegressionSnapshot {
    q_function().model(QAction::Buy).snapshot()
}

fn refusal(snapshot: &BayesianLinearRegressionSnapshot) -> SnapshotError {
    BayesianLinearRegression::from_snapshot(snapshot).unwrap_err()
}

#[test]
fn test_snapshot_set_keeps_what_it_is_made_of() {
    let q = q_function();
    let set = StrategySetQStateSnapshot::new(vec![
        StrategyQStateSnapshot {
            strategy_id: StrategyId::A,
            q_function: q.snapshot(),
        },
        StrategyQStateSnapshot {
            strategy_id: StrategyId::C,
            q_function: q.snapshot(),
        },
    ]);
    assert_eq!(set.schema_version, Q_STATE_SCHEMA_VERSION);
    assert_eq!(set.strategies.len(), 2);
    let a = set.strategy(StrategyId::A).unwrap();
    assert_eq!(a.strategy_id, StrategyId::A);
    assert!(set.strategy(StrategyId::B).is_none());
    let restored = QFunction::from_snapshot(&a.q_function).unwrap();
    assert_eq!(restored, q);
}

#[test]
fn test_snapshot_restores_the_q_function() {
    let q = q_function();
    let restored = QFunction::from_snapshot(&q.snapshot()).unwrap();
    assert_eq!(restored, q);
    for &action in QAction::all() {
        assert_eq!(
            restored.model(action).n_observations(),
            q.model(action).n_observations()
        );
    }
}

#[test]
fn test_snapshot_holds_the_posterior() {
    let q = q_function();
    let model = q.model(QAction::Buy);
    let snapshot = model.snapshot();
    assert_eq!(snapshot.dim, 3);
    assert_eq!(snapshot.n_observations, 1);
    assert_eq!(floats(&snapshot.posterior_mean.data), floats(model.weights()));
    assert_eq!(snapshot.posterior_covariance.rows, 3);
    assert_eq!(snapshot.posterior_covariance.cols, 3);
    for i in 0..9 {
        assert_eq!(
            f(snapshot.posterior_covariance.data[i]),
            f(snapshot.precision_inverse.data[i]) * f(model.noise_variance())
        );
    }
}

#[test]
fn test_widened_q_function_is_refused() {
    let mut q = q_function();
    q.inflate_covariance(s(2.0));
    let snapshot = q.model(QAction::Buy).snapshot();
    assert!(matches!(
        refusal(&snapshot),
        SnapshotError::MeanMismatch { .. }
    ));
}

#[test]
fn test_sanitize_clears_what_is_not_finite() {
    let vector = VectorSnapshot::from_vec(scalars(&[1.0, f64::NAN, f64::INFINITY, -2.5]));
    assert_eq!(vector.len, 4);
    assert_eq!(floats(&vector.data), vec![1.0, 0.0, 0.0, -2.5]);
    let matrix =
        MatrixSnapshot::from_column_major(2, 1, scalars(&[f64::NEG_INFINITY, f64::MIN_POSITIVE]));
    assert_eq!((matrix.rows, matrix.cols), (2, 1));
    assert_eq!(floats(&matrix.data), vec![0.0, f64::MIN_POSITIVE]);

    let mut set = StrategySetQStateSnapshot::new(vec![StrategyQStateSnapshot {
        strategy_id: StrategyId::B,
        q_function: q_function().snapshot(),
    }]);
    let clean = set.clone();
    set.sanitize();
    assert_eq!(set, clean);
    let mut dirty = regression();
    dirty.sigma2_noise = s(f64::NAN);
    dirty.ema_alpha = s(f64::INFINITY);
    dirty.residual_var_ema = s(-1.0);
    dirty.lambda_reg = s(f64::NEG_INFINITY);
    dirty.prev_w_norm = s(f64::NAN);
    dirty.divergence_threshold = s(f64::NAN);
    dirty.b_vector.data[2] = s(f64::INFINITY);
    set.strategies[0].q_function.actions[1].model = dirty;
    set.strategies[0].q_function.optimistic_bias = s(f64::INFINITY);
    set.sanitize();
    let model = &set.strategies[0].q_function.actions[1].model;
    assert_eq!(f(model.sigma2_noise), 1e-10);
    assert_eq!(f(model.ema_alpha), 0.0);
    assert_eq!(f(model.residual_var_ema), 1e-10);
    assert_eq!(f(model.lambda_reg), 1e-10);
    assert_eq!(f(model.prev_w_norm), 0.0);
    assert_eq!(f(model.divergence_threshold), 0.0);
    assert_eq!(f(model.b_vector.data[2]), f64::INFINITY);
    assert_eq!(f(set.strategies[0].q_function.optimistic_bias), f64::INFINITY);
}

#[test]
fn test_file_formats() {
    assert_eq!(
        QStateFileFormat::from_extension(None),
        Ok(QStateFileFormat::Json)
    );
    for name in ["json", "JSON", "Json"] {
        assert_eq!(
            QStateFileFormat::from_extension(Some(name)),
            Ok(QStateFileFormat::Json)
        );
    }
    for name in ["bin", "BIN", "bincode", "BinCode"] {
        assert_eq!(
            QStateFileFormat::from_extension(Some(name)),
            Ok(QStateFileFormat::Binary)
        );
    }
    for name in ["", "txt", "jso", "jsonl", "toml"] {
        assert_eq!(
            QStateFileFormat::from_extension(Some(name)),
            Err(format!(
                "Unsupported q-state file extension '.{name}'. Use .json, .bin, or .bincode."
            ))
        );
    }
    assert_eq!(
        QStateFileFormat::from_extension(Some("TxT9Zä")),
        Err("Unsupported q-state file extension '.txt9zä'. Use .json, .bin, or .bincode.".to_string())
    );
}

#[test]
fn test_scalars_out_of_range_are_refused() {
    let mut x = regression();
    x.dim = 0;
    assert_eq!(refusal(&x), SnapshotError::ZeroDimension);
    assert_eq!(
        refusal(&x).message(""),
        "BayesianLinearRegression snapshot dimension must be positive"
    );
    let mut x = regression();
    x.lambda_reg = s(0.0);
    assert_eq!(refusal(&x), SnapshotError::LambdaReg);
    assert_eq!(
        refusal(&x).message(""),
        "BayesianLinearRegression snapshot lambda_reg must be positive"
    );
    let mut x = regression();
    x.sigma2_noise = s(-1.0);
    assert_eq!(refusal(&x), SnapshotError::Sigma2Noise);
    let mut x = regression();
    x.residual_var_ema = s(0.0);
    assert_eq!(refusal(&x), SnapshotError::ResidualVarEma);
    for alpha in [0.0, -0.1, 1.5] {
        let mut x = regression();
        x.ema_alpha = s(alpha);
        assert_eq!(refusal(&x), SnapshotError::EmaAlpha);
    }
    let mut x = regression();
    x.divergence_threshold = s(0.0);
    assert_eq!(refusal(&x), SnapshotError::DivergenceThreshold);
    assert_eq!(
        refusal(&x).message(""),
        "BayesianLinearRegression snapshot divergence_threshold must be positive"
    );
}

#[test]
fn test_wrong_shapes_are_refused() {
    let mut x = regression();
    x.posterior_mean.len = 4;
    assert_eq!(
        refusal(&x),
        SnapshotError::VectorLength {
            field: SnapshotField::PosteriorMean,
            found: 4,
            expected: 3
        }
    );
    assert_eq!(
        refusal(&x).message(""),
        "Snapshot field 'posterior_mean' has length 4, expected 3"
    );
    let mut x = regression();
    x.b_vector.data.pop();
    assert_eq!(
        refusal(&x),
        SnapshotError::VectorValues {
            field: SnapshotField::BVector,
            found: 2,
            expected: 3
        }
    );
    assert_eq!(
        refusal(&x).message(""),
        "Snapshot field 'b_vector' stores 2 values, expected 3"
    );
    let mut x = regression();
    x.precision_inverse.cols = 12;
    assert_eq!(
        refusal(&x),
        SnapshotError::MatrixShape {
            field: SnapshotField::PrecisionInverse,
            rows: 3,
            cols: 12,
            expected: 3
        }
    );
    assert_eq!(
        refusal(&x).message(""),
        "Snapshot field 'precision_inverse' has shape 3x12, expected 3x3"
    );
    let mut x = regression();
    x.posterior_covariance.data.push(s(0.0));
    assert_eq!(
        refusal(&x),
        SnapshotError::MatrixValues {
            field: SnapshotField::PosteriorCovariance,
            found: 10,
            expected: 9
        }
    );
    assert_eq!(
        refusal(&x).message(""),
        "Snapshot field 'posterior_covariance' stores 10 values, expected 9"
    );
}

#[test]
fn test_inconsistent_posterior_is_refused() {
    let mut x = regression();
    x.posterior_covariance.data[4] = s(f(x.posterior_covariance.data[4]) + 0.5);
    match refusal(&x) {
        SnapshotError::CovarianceMismatch { max_diff } => {
            assert!((f(max_diff) - 0.5).abs() < 1e-12)
        }
        other => panic!("{:?}", other),
    }
    assert_eq!(
        refusal(&x).message("0.5"),
        "BayesianLinearRegression snapshot posterior_covariance does not match precision_inverse * sigma2_noise (max diff: 0.5)"
    );
    let mut x = regression();
    x.posterior_mean.data[0] = s(f(x.posterior_mean.data[0]) - 0.25);
    match refusal(&x) {
        SnapshotError::MeanMismatch { max_diff } => {
            assert!((f(max_diff) - 0.25).abs() < 1e-12)
        }
        other => panic!("{:?}", other),
    }
    let shown = format!("{}", f(refusal(&x).difference().unwrap()));
    assert_eq!(
        refusal(&x).message(&shown),
        format!(
            "BayesianLinearRegression snapshot posterior_mean does not match precision_inverse * b_vector (max diff: {shown})"
        )
    );
    x.dim = 0;
    assert_eq!(refusal(&x).difference(), None);
}

#[test]
fn test_enormous_dimensions_are_refused() {
    let mut x = regression();
    x.dim = usize::MAX;
    assert_eq!(
        refusal(&x),
        SnapshotError::VectorLength {
            field: SnapshotField::PosteriorMean,
            found: 3,
            expected: usize::MAX
        }
    );
    x.posterior_mean.len = usize::MAX;
    assert_eq!(
        refusal(&x).message(""),
        format!("Snapshot field 'posterior_mean' stores 3 values, expected {}", usize::MAX)
    );
    let mut q = q_function().snapshot();
    q.actions[1].model.dim = usize::MAX / 2;
    assert_eq!(
        QFunction::from_snapshot(&q).unwrap_err(),
        SnapshotError::VectorLength {
            field: SnapshotField::PosteriorMean,
            found: 3,
            expected: usize::MAX / 2
        }
    );
}

#[test]
fn test_faulty_q_functions_are_refused() {
    let snapshot = q_function().snapshot();
    let mut x = snapshot.clone();
    x.dim = 0;
    assert_eq!(
        QFunction::from_snapshot(&x).unwrap_err(),
        SnapshotError::QFunctionZeroDimension
    );
    let mut x = snapshot.clone();
    x.initial_sigma2 = s(0.0);
    assert_eq!(
        QFunction::from_snapshot(&x).unwrap_err(),
        SnapshotError::InitialSigma2
    );
    let mut x = snapshot.clone();
    x.actions.pop();
    let error = QFunction::from_snapshot(&x).unwrap_err();
    assert_eq!(error, SnapshotError::ActionCount { found: 2 });
    assert_eq!(
        error.message(""),
        "QFunction snapshot must contain 3 actions, found 2"
    );
    let mut x = snapshot.clone();
    x.actions[2] = x.actions[0].clone();
    let error = QFunction::from_snapshot(&x).unwrap_err();
    assert_eq!(
        error,
        SnapshotError::DuplicateAction {
            action: x.actions[0].action
        }
    );
    assert!(error
        .message("")
        .starts_with("QFunction snapshot contains duplicate action "));
    let mut x = snapshot.clone();
    x.dim = 4;
    let error = QFunction::from_snapshot(&x).unwrap_err();
    assert_eq!(
        error,
        SnapshotError::ActionDimension {
            action: x.actions[0].action,
            found: 3,
            expected: 4
        }
    );
    assert!(error.message("").ends_with(" has dimension 3, expected 4"));
}

#[test]
fn test_actions_come_in_any_order() {
    let q = q_function();
    let mut snapshot = q.snapshot();
    snapshot.actions.reverse();
    assert_eq!(QFunction::from_snapshot(&snapshot).unwrap(), q);
}
