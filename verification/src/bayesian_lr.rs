//! Bayesian linear regression for the weights of the Q-function.
//!
//! The posterior of the weights is normal: its mean is `w_hat`, its covariance
//! `sigma2_noise * a_inv`. The noise variance follows the squared residuals. The covariance
//! shows only in sampled weights, never in a point estimate.

use crate::linalg;
use crate::order;
use crate::q_state;
use crate::q_state::{
    ActionQStateSnapshot, BayesianLinearRegressionSnapshot, MatrixSnapshot, QFunctionSnapshot,
    VectorSnapshot,
};
use crate::scalar::Scalar;
use crate::text;
use vstd::prelude::*;
use vstd::string::*;

verus! {

/// The natural logarithm of two.
pub const LN_2_BITS: u64 = 0x3fe6_2e42_fefa_39ef;

/// What one update did.
#[derive(Debug, Clone, Copy, PartialEq, Eq, Structural)]
pub struct UpdateResult {
    /// Observed minus predicted, before the update.
    pub residual: Scalar,
    /// Norm of the weights after the update over the norm before.
    pub divergence_ratio: Scalar,
    /// Whether the ratio is beyond the threshold.
    pub diverged: bool,
}

/// The randomness for one draw of weights: standard normal numbers, one for each weight, and
/// the lower Cholesky factor of `a_inv` in column-major order, if it has one.
#[derive(Debug, Clone, PartialEq)]
pub struct Draw {
    pub normals: Vec<Scalar>,
    pub factor: Option<Vec<Scalar>>,
}

/// The regression of one action.
#[derive(Debug, Clone, PartialEq)]
pub struct BayesianLinearRegression {
    pub dim: usize,
    /// Inverse of the regularized precision, in column-major order.
    pub a_inv: Vec<Scalar>,
    /// Sum of features times targets.
    pub b: Vec<Scalar>,
    /// Mean of the weights: `a_inv` times `b`.
    pub w_hat: Vec<Scalar>,
    /// Noise variance.
    pub sigma2_noise: Scalar,
    /// How much a new squared residual weighs in the noise variance.
    pub ema_alpha: Scalar,
    /// Running mean of squared residuals.
    pub residual_var_ema: Scalar,
    /// Regularization strength.
    pub lambda_reg: Scalar,
    /// Norm of the weights before the last update.
    pub prev_w_norm: Scalar,
    /// How many observations went in.
    pub n_observations: usize,
    /// The ratio of norms beyond which an update counts as divergent.
    pub divergence_threshold: Scalar,
}

/// The exponent whose exponential is the share of the noise variance that one observation keeps,
/// so that `halflife` observations keep half.
pub open spec fn halflife_exponent(halflife: nat) -> Scalar {
    (Scalar { bits: LN_2_BITS }).negated().over(Scalar::of_int(halflife))
}

/// A running mean after one more sample.
pub open spec fn running_mean(alpha: Scalar, sample: Scalar, before: Scalar) -> Scalar {
    alpha.times(sample).plus(Scalar::of_int(1).minus(alpha).times(before))
}

/// `a_inv` after an observation: the Sherman-Morrison formula, with `ax` the product of `a_inv`
/// and the features.
pub open spec fn sherman_morrison(a_inv: Seq<Scalar>, ax: Seq<Scalar>, x: Seq<Scalar>) -> Seq<Scalar> {
    let denom = Scalar::of_int(1).plus(linalg::dot_product(x, ax));
    let n = x.len() as int;
    Seq::new(a_inv.len(), |p: int| a_inv[p].minus(ax[p % n].times(ax[p / n]).over(denom)))
}

/// `b` after an observation.
pub open spec fn evidence_after(b: Seq<Scalar>, x: Seq<Scalar>, y: Scalar) -> Seq<Scalar> {
    Seq::new(b.len(), |i: int| b[i].plus(x[i].times(y)))
}

/// `b` with a bias towards weights of `bias` each.
pub open spec fn evidence_biased(b: Seq<Scalar>, lambda_reg: Scalar, bias: Scalar) -> Seq<Scalar> {
    Seq::new(b.len(), |i: int| b[i].plus(lambda_reg.times(bias)))
}

/// The ratio of two norms of weights, and whether it is beyond the threshold. The first four
/// observations, and weights that were almost zero, count as steady.
pub open spec fn divergence(
    n_observations: nat,
    before: Scalar,
    after: Scalar,
    threshold: Scalar,
) -> (Scalar, bool) {
    if n_observations < 5 || !Scalar::of_ratio(1, 10_000_000_000).below(before) {
        (Scalar::of_int(1), false)
    } else {
        (after.over(before), threshold.below(after.over(before)))
    }
}

impl BayesianLinearRegression {
    /// The vectors and the matrix have the dimension.
    pub open spec fn valid(self) -> bool {
        &&& self.a_inv@.len() == self.dim * self.dim
        &&& self.b@.len() == self.dim
        &&& self.w_hat@.len() == self.dim
    }

    /// Nothing has been observed: weights of zero, and the covariance that regularization gives.
    pub open spec fn at_prior(self) -> bool {
        &&& self.a_inv@ == linalg::identity_over(self.dim as nat, self.lambda_reg)
        &&& self.b@ == linalg::zeros(self.dim as nat)
        &&& self.w_hat@ == linalg::zeros(self.dim as nat)
        &&& self.prev_w_norm == Scalar::of_int(0)
        &&& self.n_observations == 0
    }

    /// Nothing has been observed, and the weights are biased.
    pub open spec fn at_biased_prior(self, bias: Scalar) -> bool {
        &&& self.a_inv@ == linalg::identity_over(self.dim as nat, self.lambda_reg)
        &&& self.b@ == evidence_biased(linalg::zeros(self.dim as nat), self.lambda_reg, bias)
        &&& self.w_hat@ == linalg::product(self.a_inv@, self.b@)
        &&& self.prev_w_norm == Scalar::of_int(0)
        &&& self.n_observations == 0
    }

    /// The mean of the weights is `a_inv` times `b`.
    pub open spec fn settled(self) -> bool {
        self.w_hat@ == linalg::product(self.a_inv@, self.b@)
    }

    /// The parameters that only a snapshot or a constructor sets.
    pub open spec fn same_parameters(self, other: BayesianLinearRegression) -> bool {
        &&& self.dim == other.dim
        &&& self.ema_alpha == other.ema_alpha
        &&& self.lambda_reg == other.lambda_reg
        &&& self.divergence_threshold == other.divergence_threshold
    }

    /// The same noise estimate.
    pub open spec fn same_noise(self, other: BayesianLinearRegression) -> bool {
        &&& self.sigma2_noise == other.sigma2_noise
        &&& self.residual_var_ema == other.residual_var_ema
    }

    /// The point estimate of the Q-value.
    pub open spec fn estimate(self, phi: Seq<Scalar>) -> Scalar {
        linalg::dot_product(self.w_hat@, phi)
    }

    /// The posterior variance of the Q-value.
    pub open spec fn variance(self, phi: Seq<Scalar>) -> Scalar {
        self.sigma2_noise.times(
            linalg::dot_product(phi, linalg::product(self.a_inv@, phi)),
        ).greater(Scalar::of_int(0))
    }

    /// Entry `i` of the diagonal of `a_inv`.
    pub open spec fn diagonal(self, i: int) -> Scalar {
        self.a_inv@[i * self.dim + i]
    }

    /// Sampled weights. Before there are as many observations as weights, each weight is drawn on
    /// its own; after that the factor makes them vary together, and without one the mean stands.
    pub open spec fn sampled(self, draw: Draw) -> Seq<Scalar> {
        let sigma = self.sigma2_noise.root();
        if self.n_observations < self.dim {
            Seq::new(
                self.dim as nat,
                |i: int|
                    self.w_hat@[i].plus(
                        sigma.times(self.diagonal(i).root().greater(Scalar::of_int(0))).times(
                            draw.normals@[i],
                        ),
                    ),
            )
        } else {
            match draw.factor {
                Some(factor) => {
                    let spread = linalg::product(linalg::scaled(factor@, sigma), draw.normals@);
                    Seq::new(self.dim as nat, |i: int| self.w_hat@[i].plus(spread[i]))
                },
                None => self.w_hat@,
            }
        }
    }

    /// The draw has a normal number for each weight, and its factor the shape of `a_inv`.
    pub open spec fn fits(self, draw: Draw) -> bool {
        &&& draw.normals@.len() == self.dim
        &&& draw.factor matches Some(factor) ==> factor@.len() == self.dim * self.dim
    }

    /// `self` is `before` after an observation of features `phi` and target `y`, with result `r`.
    pub open spec fn observed(
        self,
        before: BayesianLinearRegression,
        phi: Seq<Scalar>,
        y: Scalar,
        r: UpdateResult,
    ) -> bool {
        &&& self.same_parameters(before)
        &&& self.a_inv@ == sherman_morrison(before.a_inv@, linalg::product(before.a_inv@, phi), phi)
        &&& self.b@ == evidence_after(before.b@, phi, y)
        &&& self.settled()
        &&& self.prev_w_norm == linalg::length(before.w_hat@)
        &&& self.n_observations == before.n_observations + 1
        &&& r.residual == y.minus(before.estimate(phi))
        &&& self.residual_var_ema == running_mean(
            before.ema_alpha,
            r.residual.times(r.residual),
            before.residual_var_ema,
        )
        &&& self.sigma2_noise == self.residual_var_ema.greater(
            Scalar::of_ratio(1, 10_000_000_000),
        )
        &&& (r.divergence_ratio, r.diverged) == divergence(
            self.n_observations as nat,
            self.prev_w_norm,
            linalg::length(self.w_hat@),
            before.divergence_threshold,
        )
    }

    /// `self` is `before` with the covariance widened by `factor`.
    pub open spec fn inflated(self, before: BayesianLinearRegression, factor: Scalar) -> bool {
        &&& self.same_parameters(before)
        &&& self.same_noise(before)
        &&& self.a_inv@ == linalg::scaled(before.a_inv@, factor)
        &&& self.b == before.b
        &&& self.w_hat == before.w_hat
        &&& self.prev_w_norm == before.prev_w_norm
        &&& self.n_observations == before.n_observations
    }

    /// The exponent whose exponential `new` takes.
    pub fn decay_exponent(halflife: usize) -> (r: Scalar)
        requires
            halflife > 0,
        ensures
            r == halflife_exponent(halflife as nat),
    {
        Scalar::from_bits(LN_2_BITS).neg_of().div(Scalar::from_u64(halflife as u64))
    }

    /// A regression that has observed nothing. `kept` is the share of the noise variance that an
    /// observation keeps: the exponential of `decay_exponent`.
    pub fn new(dim: usize, lambda_reg: Scalar, kept: Scalar, initial_sigma2: Scalar) -> (r:
        BayesianLinearRegression)
        requires
            Scalar::of_int(0).below(lambda_reg),
            Scalar::of_int(0).below(initial_sigma2),
            dim * dim <= usize::MAX,
        ensures
            r.valid(),
            r.dim == dim,
            r.at_prior(),
            r.lambda_reg == lambda_reg,
            r.ema_alpha == Scalar::of_int(1).minus(kept),
            r.sigma2_noise == initial_sigma2,
            r.residual_var_ema == initial_sigma2,
            r.divergence_threshold == Scalar::of_int(2),
    {
        BayesianLinearRegression {
            dim,
            a_inv: linalg::scaled_identity(dim, lambda_reg),
            b: linalg::zero_vector(dim),
            w_hat: linalg::zero_vector(dim),
            sigma2_noise: initial_sigma2,
            ema_alpha: Scalar::from_u64(1).sub(kept),
            residual_var_ema: initial_sigma2,
            lambda_reg,
            prev_w_norm: Scalar::from_u64(0),
            n_observations: 0,
            divergence_threshold: Scalar::from_u64(2),
        }
    }

    /// `a_inv` after an observation.
    fn a_inv_after(&self, ax: &[Scalar], phi: &[Scalar]) -> (r: Vec<Scalar>)
        requires
            self.valid(),
            ax@.len() == self.dim,
            phi@.len() == self.dim,
        ensures
            r@ == sherman_morrison(self.a_inv@, ax@, phi@),
    {
        let n = self.dim;
        let denom = Scalar::from_u64(1).add(linalg::dot(phi, ax));
        let mut r: Vec<Scalar> = Vec::new();
        let mut p: usize = 0;
        while p < self.a_inv.len()
            invariant
                self.valid(),
                n == self.dim,
                ax@.len() == n,
                phi@.len() == n,
                denom == Scalar::of_int(1).plus(linalg::dot_product(phi@, ax@)),
                p <= self.a_inv@.len(),
                r@ == sherman_morrison(self.a_inv@, ax@, phi@).take(p as int),
            decreases self.a_inv@.len() - p,
        {
            proof {
                place_in_square(n as int, p as int);
            }
            r.push(self.a_inv[p].sub(ax[p % n].mul(ax[p / n]).div(denom)));
            p = p + 1;
            assert(r@ =~= sherman_morrison(self.a_inv@, ax@, phi@).take(p as int));
        }
        assert(r@ =~= sherman_morrison(self.a_inv@, ax@, phi@));
        r
    }

    /// `b` after an observation.
    fn b_after(&self, phi: &[Scalar], y: Scalar) -> (r: Vec<Scalar>)
        requires
            self.valid(),
            phi@.len() == self.dim,
        ensures
            r@ == evidence_after(self.b@, phi@, y),
    {
        let mut r: Vec<Scalar> = Vec::new();
        let mut i: usize = 0;
        while i < self.b.len()
            invariant
                self.valid(),
                phi@.len() == self.dim,
                i <= self.b@.len(),
                r@ == evidence_after(self.b@, phi@, y).take(i as int),
            decreases self.b@.len() - i,
        {
            r.push(self.b[i].add(phi[i].mul(y)));
            i = i + 1;
            assert(r@ =~= evidence_after(self.b@, phi@, y).take(i as int));
        }
        assert(r@ =~= evidence_after(self.b@, phi@, y));
        r
    }

    /// Takes in an observation: features `phi`, target `y`.
    pub fn update(&mut self, phi: &[Scalar], y: Scalar) -> (r: UpdateResult)
        requires
            old(self).valid(),
            phi@.len() == old(self).dim,
            old(self).n_observations < usize::MAX,
        ensures
            final(self).valid(),
            final(self).observed(*old(self), phi@, y, r),
    {
        let residual = y.sub(linalg::dot(&self.w_hat, phi));
        let sq_residual = residual.mul(residual);
        self.residual_var_ema = self.ema_alpha.mul(sq_residual).add(
            Scalar::from_u64(1).sub(self.ema_alpha).mul(self.residual_var_ema),
        );
        self.sigma2_noise = self.residual_var_ema.max(Scalar::ratio(1, 10_000_000_000));
        self.prev_w_norm = linalg::norm(&self.w_hat);

        let ax = linalg::mat_vec(&self.a_inv, phi);
        self.a_inv = self.a_inv_after(&ax, phi);
        self.b = self.b_after(phi, y);
        self.w_hat = linalg::mat_vec(&self.a_inv, &self.b);
        self.n_observations = self.n_observations + 1;

        let new_w_norm = linalg::norm(&self.w_hat);
        let (divergence_ratio, diverged) = if self.n_observations < 5 {
            (Scalar::from_u64(1), false)
        } else if self.prev_w_norm.gt(Scalar::ratio(1, 10_000_000_000)) {
            let ratio = new_w_norm.div(self.prev_w_norm);
            (ratio, ratio.gt(self.divergence_threshold))
        } else {
            (Scalar::from_u64(1), false)
        };
        UpdateResult { residual, divergence_ratio, diverged }
    }

    /// The point estimate of the Q-value; the posterior covariance has no part in it.
    pub fn predict(&self, phi: &[Scalar]) -> (r: Scalar)
        requires
            self.valid(),
            phi@.len() == self.dim,
        ensures
            r == self.estimate(phi@),
    {
        linalg::dot(&self.w_hat, phi)
    }

    /// The posterior variance of the Q-value.
    pub fn posterior_variance(&self, phi: &[Scalar]) -> (r: Scalar)
        requires
            self.valid(),
            phi@.len() == self.dim,
        ensures
            r == self.variance(phi@),
    {
        let ax = linalg::mat_vec(&self.a_inv, phi);
        self.sigma2_noise.mul(linalg::dot(phi, &ax)).max(Scalar::from_u64(0))
    }

    /// The posterior standard deviation of the Q-value.
    pub fn posterior_std(&self, phi: &[Scalar]) -> (r: Scalar)
        requires
            self.valid(),
            phi@.len() == self.dim,
        ensures
            r == self.variance(phi@).root(),
    {
        self.posterior_variance(phi).sqrt()
    }

    /// Whether the next draw of weights takes a Cholesky factor of `a_inv`.
    pub fn draws_with_factor(&self) -> (r: bool)
        ensures
            r == (self.n_observations >= self.dim),
    {
        self.n_observations >= self.dim
    }

    /// Samples the weights.
    pub fn sample_weights(&self, draw: &Draw) -> (r: Vec<Scalar>)
        requires
            self.valid(),
            self.fits(*draw),
        ensures
            r@ == self.sampled(*draw),
    {
        let sigma = self.sigma2_noise.sqrt();
        let mut r: Vec<Scalar> = Vec::new();
        let mut i: usize = 0;
        let size = self.a_inv.len();
        if self.n_observations < self.dim {
            while i < self.dim
                invariant
                    self.valid(),
                    self.fits(*draw),
                    size == self.a_inv@.len(),
                    self.n_observations < self.dim,
                    sigma == self.sigma2_noise.root(),
                    i <= self.dim,
                    r@ == self.sampled(*draw).take(i as int),
                decreases self.dim - i,
            {
                assert(i * self.dim + i < self.dim * self.dim && 0 <= i * self.dim)
                    by (nonlinear_arith)
                    requires
                        0 <= i < self.dim,
                ;
                let std_i = sigma.mul(
                    self.a_inv[i * self.dim + i].sqrt().max(Scalar::from_u64(0)),
                );
                r.push(self.w_hat[i].add(std_i.mul(draw.normals[i])));
                i = i + 1;
                assert(r@ =~= self.sampled(*draw).take(i as int));
            }
            assert(r@ =~= self.sampled(*draw));
            return r;
        }
        match &draw.factor {
            Some(factor) => {
                let spread = linalg::mat_vec(&linalg::scale(factor, sigma), &draw.normals);
                while i < self.dim
                    invariant
                        self.valid(),
                        self.n_observations >= self.dim,
                        draw.factor == Some(*factor),
                        draw.normals@.len() == self.dim,
                        spread@ == linalg::product(
                            linalg::scaled(factor@, self.sigma2_noise.root()),
                            draw.normals@,
                        ),
                        i <= self.dim,
                        r@ == self.sampled(*draw).take(i as int),
                    decreases self.dim - i,
                {
                    r.push(self.w_hat[i].add(spread[i]));
                    i = i + 1;
                    assert(r@ =~= self.sampled(*draw).take(i as int));
                }
                assert(r@ =~= self.sampled(*draw));
                r
            },
            None => copied(&self.w_hat),
        }
    }

    /// A sampled Q-value.
    pub fn sample_predict(&self, phi: &[Scalar], draw: &Draw) -> (r: Scalar)
        requires
            self.valid(),
            self.fits(*draw),
            phi@.len() == self.dim,
        ensures
            r == linalg::dot_product(self.sampled(*draw), phi@),
    {
        let w = self.sample_weights(draw);
        linalg::dot(&w, phi)
    }

    /// Forgets every observation, but keeps the noise estimate.
    pub fn reset(&mut self)
        requires
            old(self).valid(),
        ensures
            final(self).valid(),
            final(self).same_parameters(*old(self)),
            final(self).same_noise(*old(self)),
            final(self).at_prior(),
    {
        let _entries = self.a_inv.len();
        self.a_inv = linalg::scaled_identity(self.dim, self.lambda_reg);
        self.b = linalg::zero_vector(self.dim);
        self.w_hat = linalg::zero_vector(self.dim);
        self.prev_w_norm = Scalar::from_u64(0);
        self.n_observations = 0;
    }

    /// Forgets every observation and the noise estimate.
    pub fn reset_full(&mut self, initial_sigma2: Scalar)
        requires
            old(self).valid(),
        ensures
            final(self).valid(),
            final(self).same_parameters(*old(self)),
            final(self).at_prior(),
            final(self).sigma2_noise == initial_sigma2,
            final(self).residual_var_ema == initial_sigma2,
    {
        self.reset();
        self.sigma2_noise = initial_sigma2;
        self.residual_var_ema = initial_sigma2;
    }

    /// Widens the posterior covariance.
    pub fn inflate_covariance(&mut self, factor: Scalar)
        requires
            old(self).valid(),
            Scalar::of_int(1).at_most(factor),
        ensures
            final(self).valid(),
            final(self).inflated(*old(self), factor),
    {
        self.a_inv = linalg::scale(&self.a_inv, factor);
    }

    /// Biases the weights: on a regression that has observed nothing, towards `bias` each.
    pub fn apply_optimistic_bias(&mut self, bias: Scalar)
        requires
            old(self).valid(),
        ensures
            final(self).valid(),
            final(self).same_parameters(*old(self)),
            final(self).same_noise(*old(self)),
            final(self).settled(),
            final(self).a_inv == old(self).a_inv,
            final(self).b@ == evidence_biased(old(self).b@, old(self).lambda_reg, bias),
            final(self).prev_w_norm == old(self).prev_w_norm,
            final(self).n_observations == old(self).n_observations,
    {
        let mut b: Vec<Scalar> = Vec::new();
        let mut i: usize = 0;
        while i < self.dim
            invariant
                self.valid(),
                i <= self.dim,
                b@ == evidence_biased(self.b@, self.lambda_reg, bias).take(i as int),
            decreases self.dim - i,
        {
            b.push(self.b[i].add(self.lambda_reg.mul(bias)));
            i = i + 1;
            assert(b@ =~= evidence_biased(self.b@, self.lambda_reg, bias).take(i as int));
        }
        assert(b@ =~= evidence_biased(self.b@, self.lambda_reg, bias));
        self.b = b;
        self.w_hat = linalg::mat_vec(&self.a_inv, &self.b);
    }

    /// The mean of the weights.
    pub fn weights(&self) -> (r: &Vec<Scalar>)
        ensures
            *r == self.w_hat,
    {
        &self.w_hat
    }

    pub fn noise_variance(&self) -> (r: Scalar)
        ensures
            r == self.sigma2_noise,
    {
        self.sigma2_noise
    }

    pub fn n_observations(&self) -> (r: usize)
        ensures
            r == self.n_observations,
    {
        self.n_observations
    }

    pub fn dim(&self) -> (r: usize)
        ensures
            r == self.dim,
    {
        self.dim
    }
}

/// The rows and columns of a place in a square matrix.
pub(crate) proof fn place_in_square(n: int, p: int)
    requires
        0 <= p < n * n,
        0 <= n,
    ensures
        n > 0,
        0 <= p % n < n,
        0 <= p / n < n,
{
    assert(n > 0) by (nonlinear_arith)
        requires
            0 <= p < n * n,
            0 <= n,
    ;
    vstd::arithmetic::div_mod::lemma_mod_bound(p, n);
    vstd::arithmetic::div_mod::lemma_div_pos_is_pos(p, n);
    vstd::arithmetic::div_mod::lemma_fundamental_div_mod(p, n);
    assert(p / n < n) by (nonlinear_arith)
        requires
            p == n * (p / n) + p % n,
            0 <= p % n,
            p < n * n,
            n > 0,
    ;
}

/// The same numbers in a vector of their own.
fn copied(a: &Vec<Scalar>) -> (r: Vec<Scalar>)
    ensures
        r@ == a@,
{
    let r = a.clone();
    assert(r@ =~= a@);
    r
}

// ---------------------------------------------------------------------------------------------
// Snapshots of a regression.
// ---------------------------------------------------------------------------------------------

/// A vector or matrix of a snapshot.
#[derive(Debug, Clone, Copy, PartialEq, Eq, Structural)]
pub enum SnapshotField {
    PosteriorMean,
    PosteriorCovariance,
    PrecisionInverse,
    BVector,
}

/// Why a snapshot is refused.
#[derive(Debug, Clone, Copy, PartialEq, Eq, Structural)]
pub enum SnapshotError {
    ZeroDimension,
    LambdaReg,
    Sigma2Noise,
    ResidualVarEma,
    EmaAlpha,
    DivergenceThreshold,
    VectorLength { field: SnapshotField, found: usize, expected: usize },
    VectorValues { field: SnapshotField, found: usize, expected: usize },
    MatrixShape { field: SnapshotField, rows: usize, cols: usize, expected: usize },
    MatrixValues { field: SnapshotField, found: usize, expected: u128 },
    CovarianceMismatch { max_diff: Scalar },
    MeanMismatch { max_diff: Scalar },
    QFunctionZeroDimension,
    InitialSigma2,
    ActionCount { found: usize },
    DuplicateAction { action: QAction },
    ActionDimension { action: QAction, found: usize, expected: usize },
}

impl SnapshotField {
    /// The name of the field.
    pub open spec fn label(self) -> Seq<char> {
        match self {
            SnapshotField::PosteriorMean => "posterior_mean"@,
            SnapshotField::PosteriorCovariance => "posterior_covariance"@,
            SnapshotField::PrecisionInverse => "precision_inverse"@,
            SnapshotField::BVector => "b_vector"@,
        }
    }

    /// The name of the field.
    pub fn name(&self) -> (r: &'static str)
        ensures
            r@ == self.label(),
    {
        match self {
            SnapshotField::PosteriorMean => "posterior_mean",
            SnapshotField::PosteriorCovariance => "posterior_covariance",
            SnapshotField::PrecisionInverse => "precision_inverse",
            SnapshotField::BVector => "b_vector",
        }
    }
}

impl SnapshotError {
    /// What the message says. `difference` is the text of the largest difference, where the error
    /// is a mismatch.
    pub open spec fn words(self, difference: Seq<char>) -> Seq<char> {
        match self {
            SnapshotError::ZeroDimension => {
                "BayesianLinearRegression snapshot dimension must be positive"@
            },
            SnapshotError::LambdaReg => {
                "BayesianLinearRegression snapshot lambda_reg must be positive"@
            },
            SnapshotError::Sigma2Noise => {
                "BayesianLinearRegression snapshot sigma2_noise must be positive"@
            },
            SnapshotError::ResidualVarEma => {
                "BayesianLinearRegression snapshot residual_var_ema must be positive"@
            },
            SnapshotError::EmaAlpha => {
                "BayesianLinearRegression snapshot ema_alpha must be in (0, 1]"@
            },
            SnapshotError::DivergenceThreshold => {
                "BayesianLinearRegression snapshot divergence_threshold must be positive"@
            },
            SnapshotError::CovarianceMismatch { .. } => {
                "BayesianLinearRegression snapshot posterior_covariance does not match precision_inverse * sigma2_noise (max diff: "@
                    + difference + ")"@
            },
            SnapshotError::MeanMismatch { .. } => {
                "BayesianLinearRegression snapshot posterior_mean does not match precision_inverse * b_vector (max diff: "@
                    + difference + ")"@
            },
            SnapshotError::QFunctionZeroDimension => {
                "QFunction snapshot dimension must be positive"@
            },
            SnapshotError::InitialSigma2 => "QFunction snapshot initial_sigma2 must be positive"@,
            SnapshotError::VectorLength { field, found, expected } => {
                "Snapshot field '"@ + field.label() + "' has length "@
                    + text::decimal_text(found as nat) + ", expected "@
                    + text::decimal_text(expected as nat)
            },
            SnapshotError::VectorValues { field, found, expected } => {
                "Snapshot field '"@ + field.label() + "' stores "@
                    + text::decimal_text(found as nat) + " values, expected "@
                    + text::decimal_text(expected as nat)
            },
            SnapshotError::MatrixShape { field, rows, cols, expected } => {
                "Snapshot field '"@ + field.label() + "' has shape "@
                    + text::decimal_text(rows as nat) + "x"@ + text::decimal_text(cols as nat)
                    + ", expected "@ + text::decimal_text(expected as nat) + "x"@
                    + text::decimal_text(expected as nat)
            },
            SnapshotError::MatrixValues { field, found, expected } => {
                "Snapshot field '"@ + field.label() + "' stores "@
                    + text::decimal_text(found as nat) + " values, expected "@
                    + text::decimal_text(expected as nat)
            },
            SnapshotError::ActionCount { found } => {
                "QFunction snapshot must contain 3 actions, found "@
                    + text::decimal_text(found as nat)
            },
            SnapshotError::DuplicateAction { action } => {
                "QFunction snapshot contains duplicate action "@ + action.label()
            },
            SnapshotError::ActionDimension { action, found, expected } => {
                "QFunction snapshot action "@ + action.label() + " has dimension "@
                    + text::decimal_text(found as nat) + ", expected "@
                    + text::decimal_text(expected as nat)
            },
        }
    }

    /// The largest difference, where the error is a mismatch.
    pub fn difference(&self) -> (r: Option<Scalar>)
        ensures
            r == match *self {
                SnapshotError::CovarianceMismatch { max_diff } => Some(max_diff),
                SnapshotError::MeanMismatch { max_diff } => Some(max_diff),
                _ => None,
            },
    {
        match *self {
            SnapshotError::CovarianceMismatch { max_diff } => Some(max_diff),
            SnapshotError::MeanMismatch { max_diff } => Some(max_diff),
            _ => None,
        }
    }

    /// The message. `difference` is `difference()` in decimal, where there is one; else it is not
    /// used.
    pub fn message(&self, difference: &str) -> (r: String)
        ensures
            r@ == self.words(difference@),
    {
        let r = match *self {
            SnapshotError::ZeroDimension => {
                String::from_str(
                    "BayesianLinearRegression snapshot dimension must be positive",
                )
            },
            SnapshotError::LambdaReg => {
                String::from_str(
                    "BayesianLinearRegression snapshot lambda_reg must be positive",
                )
            },
            SnapshotError::Sigma2Noise => {
                String::from_str(
                    "BayesianLinearRegression snapshot sigma2_noise must be positive",
                )
            },
            SnapshotError::ResidualVarEma => {
                String::from_str(
                    "BayesianLinearRegression snapshot residual_var_ema must be positive",
                )
            },
            SnapshotError::EmaAlpha => {
                String::from_str(
                    "BayesianLinearRegression snapshot ema_alpha must be in (0, 1]",
                )
            },
            SnapshotError::DivergenceThreshold => {
                String::from_str(
                    "BayesianLinearRegression snapshot divergence_threshold must be positive",
                )
            },
            SnapshotError::CovarianceMismatch { .. } => {
                let mut r = String::new();
                r.append(
                    "BayesianLinearRegression snapshot posterior_covariance does not match precision_inverse * sigma2_noise (max diff: ",
                );
                r.append(difference);
                r.append(")");
                r
            },
            SnapshotError::MeanMismatch { .. } => {
                let mut r = String::new();
                r.append(
                    "BayesianLinearRegression snapshot posterior_mean does not match precision_inverse * b_vector (max diff: ",
                );
                r.append(difference);
                r.append(")");
                r
            },
            SnapshotError::QFunctionZeroDimension => {
                String::from_str(
                    "QFunction snapshot dimension must be positive",
                )
            },
            SnapshotError::InitialSigma2 => {
                String::from_str(
                    "QFunction snapshot initial_sigma2 must be positive",
                )
            },
            SnapshotError::VectorLength { field, found, expected } => {
                let mut r = String::new();
                r.append("Snapshot field '");
                r.append(field.name());
                r.append("' has length ");
                r.append(text::decimal(found as u128).as_str());
                r.append(", expected ");
                r.append(text::decimal(expected as u128).as_str());
                r
            },
            SnapshotError::VectorValues { field, found, expected } => {
                let mut r = String::new();
                r.append("Snapshot field '");
                r.append(field.name());
                r.append("' stores ");
                r.append(text::decimal(found as u128).as_str());
                r.append(" values, expected ");
                r.append(text::decimal(expected as u128).as_str());
                r
            },
            SnapshotError::MatrixShape { field, rows, cols, expected } => {
                let mut r = String::new();
                r.append("Snapshot field '");
                r.append(field.name());
                r.append("' has shape ");
                r.append(text::decimal(rows as u128).as_str());
                r.append("x");
                r.append(text::decimal(cols as u128).as_str());
                r.append(", expected ");
                r.append(text::decimal(expected as u128).as_str());
                r.append("x");
                r.append(text::decimal(expected as u128).as_str());
                r
            },
            SnapshotError::MatrixValues { field, found, expected } => {
                let mut r = String::new();
                r.append("Snapshot field '");
                r.append(field.name());
                r.append("' stores ");
                r.append(text::decimal(found as u128).as_str());
                r.append(" values, expected ");
                r.append(text::decimal(expected as u128).as_str());
                r
            },
            SnapshotError::ActionCount { found } => {
                let mut r = String::new();
                r.append("QFunction snapshot must contain 3 actions, found ");
                r.append(text::decimal(found as u128).as_str());
                r
            },
            SnapshotError::DuplicateAction { action } => {
                let mut r = String::new();
                r.append("QFunction snapshot contains duplicate action ");
                r.append(action.name());
                r
            },
            SnapshotError::ActionDimension { action, found, expected } => {
                let mut r = String::new();
                r.append("QFunction snapshot action ");
                r.append(action.name());
                r.append(" has dimension ");
                r.append(text::decimal(found as u128).as_str());
                r.append(", expected ");
                r.append(text::decimal(expected as u128).as_str());
                r
            },
        };
        assert(r@ =~= self.words(difference@));
        r
    }
}

/// What is wrong with the shape of a vector, if anything is.
pub open spec fn vector_fault(v: VectorSnapshot, expected: usize, field: SnapshotField) -> Option<
    SnapshotError,
> {
    if v.len != expected {
        Some(SnapshotError::VectorLength { field, found: v.len, expected })
    } else if v.data@.len() != expected {
        Some(SnapshotError::VectorValues { field, found: v.data@.len() as usize, expected })
    } else {
        None
    }
}

/// What is wrong with the shape of a square matrix, if anything is.
pub open spec fn matrix_fault(m: MatrixSnapshot, expected: usize, field: SnapshotField) -> Option<
    SnapshotError,
> {
    if m.rows != expected || m.cols != expected {
        Some(SnapshotError::MatrixShape { field, rows: m.rows, cols: m.cols, expected })
    } else if m.data@.len() != expected * expected {
        Some(
            SnapshotError::MatrixValues {
                field,
                found: m.data@.len() as usize,
                expected: (expected * expected) as u128,
            },
        )
    } else {
        None
    }
}

/// How far the stored covariance is from what the stored precision and noise give.
pub open spec fn covariance_gap(s: BayesianLinearRegressionSnapshot) -> Scalar {
    linalg::greatest_distance(
        linalg::scaled(s.precision_inverse.data@, s.sigma2_noise),
        s.posterior_covariance.data@,
        s.posterior_covariance.data@.len() as int,
    )
}

/// How far the stored mean is from what the stored precision and evidence give.
pub open spec fn mean_gap(s: BayesianLinearRegressionSnapshot) -> Scalar {
    linalg::greatest_distance(
        linalg::product(s.precision_inverse.data@, s.b_vector.data@),
        s.posterior_mean.data@,
        s.posterior_mean.data@.len() as int,
    )
}

/// What is wrong with the shapes in a snapshot, if anything is: the first fault in the order of
/// the fields.
pub open spec fn shape_fault(s: BayesianLinearRegressionSnapshot) -> Option<SnapshotError> {
    let mean = vector_fault(s.posterior_mean, s.dim, SnapshotField::PosteriorMean);
    let covariance = matrix_fault(s.posterior_covariance, s.dim, SnapshotField::PosteriorCovariance);
    let precision = matrix_fault(s.precision_inverse, s.dim, SnapshotField::PrecisionInverse);
    if mean is Some {
        mean
    } else if covariance is Some {
        covariance
    } else if precision is Some {
        precision
    } else {
        vector_fault(s.b_vector, s.dim, SnapshotField::BVector)
    }
}

/// What is wrong with the single numbers in a snapshot, if anything is.
pub open spec fn number_fault(s: BayesianLinearRegressionSnapshot) -> Option<SnapshotError> {
    let zero = Scalar::of_int(0);
    if s.dim == 0 {
        Some(SnapshotError::ZeroDimension)
    } else if s.lambda_reg.at_most(zero) {
        Some(SnapshotError::LambdaReg)
    } else if s.sigma2_noise.at_most(zero) {
        Some(SnapshotError::Sigma2Noise)
    } else if s.residual_var_ema.at_most(zero) {
        Some(SnapshotError::ResidualVarEma)
    } else if !(zero.below(s.ema_alpha) && s.ema_alpha.at_most(Scalar::of_int(1))) {
        Some(SnapshotError::EmaAlpha)
    } else if s.divergence_threshold.at_most(zero) {
        Some(SnapshotError::DivergenceThreshold)
    } else {
        None
    }
}

/// The largest gap that counts as rounding.
pub open spec fn tolerance() -> Scalar {
    Scalar::of_ratio(1, 1_000_000_000)
}

/// What is wrong with a snapshot, if anything is: its numbers, then its shapes, then whether its
/// parts agree.
pub open spec fn fault(s: BayesianLinearRegressionSnapshot) -> Option<SnapshotError> {
    if number_fault(s) is Some {
        number_fault(s)
    } else if shape_fault(s) is Some {
        shape_fault(s)
    } else if tolerance().below(covariance_gap(s)) {
        Some(SnapshotError::CovarianceMismatch { max_diff: covariance_gap(s) })
    } else if tolerance().below(mean_gap(s)) {
        Some(SnapshotError::MeanMismatch { max_diff: mean_gap(s) })
    } else {
        None
    }
}

/// The shape of a vector.
fn vector_from_snapshot(v: &VectorSnapshot, expected: usize, field: SnapshotField) -> (r: Option<
    SnapshotError,
>)
    ensures
        r == vector_fault(*v, expected, field),
{
    if v.len != expected {
        Some(SnapshotError::VectorLength { field, found: v.len, expected })
    } else if v.data.len() != expected {
        Some(SnapshotError::VectorValues { field, found: v.data.len(), expected })
    } else {
        None
    }
}

/// The shape of a matrix.
fn matrix_from_snapshot(m: &MatrixSnapshot, expected: usize, field: SnapshotField) -> (r: Option<
    SnapshotError,
>)
    ensures
        r == matrix_fault(*m, expected, field),
{
    assert(0 <= expected * expected <= u64::MAX * u64::MAX) by (nonlinear_arith)
        requires
            0 <= expected <= u64::MAX,
    ;
    let values = expected as u128 * expected as u128;
    if m.rows != expected || m.cols != expected {
        Some(SnapshotError::MatrixShape { field, rows: m.rows, cols: m.cols, expected })
    } else if m.data.len() as u128 != values {
        Some(SnapshotError::MatrixValues { field, found: m.data.len(), expected: values })
    } else {
        None
    }
}

/// The single numbers of a snapshot.
fn check_numbers(s: &BayesianLinearRegressionSnapshot) -> (r: Option<SnapshotError>)
    ensures
        r == number_fault(*s),
{
    let zero = Scalar::from_u64(0);
    if s.dim == 0 {
        Some(SnapshotError::ZeroDimension)
    } else if s.lambda_reg.le(zero) {
        Some(SnapshotError::LambdaReg)
    } else if s.sigma2_noise.le(zero) {
        Some(SnapshotError::Sigma2Noise)
    } else if s.residual_var_ema.le(zero) {
        Some(SnapshotError::ResidualVarEma)
    } else if !(zero.lt(s.ema_alpha) && s.ema_alpha.le(Scalar::from_u64(1))) {
        Some(SnapshotError::EmaAlpha)
    } else if s.divergence_threshold.le(zero) {
        Some(SnapshotError::DivergenceThreshold)
    } else {
        None
    }
}

/// The shapes of a snapshot.
fn check_shapes(s: &BayesianLinearRegressionSnapshot) -> (r: Option<SnapshotError>)
    ensures
        r == shape_fault(*s),
{
    let mean = vector_from_snapshot(&s.posterior_mean, s.dim, SnapshotField::PosteriorMean);
    if mean.is_some() {
        return mean;
    }
    let covariance = matrix_from_snapshot(
        &s.posterior_covariance,
        s.dim,
        SnapshotField::PosteriorCovariance,
    );
    if covariance.is_some() {
        return covariance;
    }
    let precision = matrix_from_snapshot(
        &s.precision_inverse,
        s.dim,
        SnapshotField::PrecisionInverse,
    );
    if precision.is_some() {
        return precision;
    }
    vector_from_snapshot(&s.b_vector, s.dim, SnapshotField::BVector)
}

impl BayesianLinearRegression {
    /// `s` is a snapshot of this regression.
    pub open spec fn stored_in(self, s: BayesianLinearRegressionSnapshot) -> bool {
        &&& s.dim == self.dim
        &&& s.posterior_mean.len == self.dim
        &&& s.posterior_mean.data@ == q_state::all_cleaned(self.w_hat@)
        &&& s.posterior_covariance.rows == self.dim
        &&& s.posterior_covariance.cols == self.dim
        &&& s.posterior_covariance.data@ == q_state::all_cleaned(
            linalg::scaled(self.a_inv@, self.sigma2_noise),
        )
        &&& s.precision_inverse.rows == self.dim
        &&& s.precision_inverse.cols == self.dim
        &&& s.precision_inverse.data@ == q_state::all_cleaned(self.a_inv@)
        &&& s.b_vector.len == self.dim
        &&& s.b_vector.data@ == q_state::all_cleaned(self.b@)
        &&& s.sigma2_noise == self.sigma2_noise
        &&& s.ema_alpha == self.ema_alpha
        &&& s.residual_var_ema == self.residual_var_ema
        &&& s.lambda_reg == self.lambda_reg
        &&& s.prev_w_norm == self.prev_w_norm
        &&& s.n_observations == self.n_observations
        &&& s.divergence_threshold == self.divergence_threshold
    }

    /// This regression is what a snapshot holds.
    pub open spec fn restored_from(self, s: BayesianLinearRegressionSnapshot) -> bool {
        &&& self.dim == s.dim
        &&& self.w_hat@ == s.posterior_mean.data@
        &&& self.a_inv@ == s.precision_inverse.data@
        &&& self.b@ == s.b_vector.data@
        &&& self.sigma2_noise == s.sigma2_noise
        &&& self.ema_alpha == s.ema_alpha
        &&& self.residual_var_ema == s.residual_var_ema
        &&& self.lambda_reg == s.lambda_reg
        &&& self.prev_w_norm == s.prev_w_norm
        &&& self.n_observations == s.n_observations
        &&& self.divergence_threshold == s.divergence_threshold
    }

    /// A snapshot of the regression.
    pub fn snapshot(&self) -> (r: BayesianLinearRegressionSnapshot)
        requires
            self.valid(),
        ensures
            self.stored_in(r),
    {
        BayesianLinearRegressionSnapshot {
            dim: self.dim,
            posterior_mean: VectorSnapshot::from_vec(copied(&self.w_hat)),
            posterior_covariance: MatrixSnapshot::from_column_major(
                self.dim,
                self.dim,
                linalg::scale(&self.a_inv, self.sigma2_noise),
            ),
            precision_inverse: MatrixSnapshot::from_column_major(
                self.dim,
                self.dim,
                copied(&self.a_inv),
            ),
            b_vector: VectorSnapshot::from_vec(copied(&self.b)),
            sigma2_noise: self.sigma2_noise,
            ema_alpha: self.ema_alpha,
            residual_var_ema: self.residual_var_ema,
            lambda_reg: self.lambda_reg,
            prev_w_norm: self.prev_w_norm,
            n_observations: self.n_observations,
            divergence_threshold: self.divergence_threshold,
        }
    }

    /// The regression that a snapshot holds, unless the snapshot is at fault.
    pub fn from_snapshot(s: &BayesianLinearRegressionSnapshot) -> (r: Result<
        BayesianLinearRegression,
        SnapshotError,
    >)
        ensures
            match r {
                Ok(model) => fault(*s) is None && model.valid() && model.restored_from(*s),
                Err(error) => fault(*s) == Some(error),
            },
    {
        if let Some(error) = check_numbers(s) {
            return Err(error);
        }
        if let Some(error) = check_shapes(s) {
            return Err(error);
        }
        let expected_covariance = linalg::scale(&s.precision_inverse.data, s.sigma2_noise);
        let covariance_diff = linalg::max_abs_diff(
            &expected_covariance,
            &s.posterior_covariance.data,
        );
        let limit = Scalar::ratio(1, 1_000_000_000);
        if covariance_diff.gt(limit) {
            return Err(SnapshotError::CovarianceMismatch { max_diff: covariance_diff });
        }
        let expected_w_hat = linalg::mat_vec(&s.precision_inverse.data, &s.b_vector.data);
        let mean_diff = linalg::max_abs_diff(&expected_w_hat, &s.posterior_mean.data);
        if mean_diff.gt(limit) {
            return Err(SnapshotError::MeanMismatch { max_diff: mean_diff });
        }
        Ok(
            BayesianLinearRegression {
                dim: s.dim,
                a_inv: copied(&s.precision_inverse.data),
                b: copied(&s.b_vector.data),
                w_hat: copied(&s.posterior_mean.data),
                sigma2_noise: s.sigma2_noise,
                ema_alpha: s.ema_alpha,
                residual_var_ema: s.residual_var_ema,
                lambda_reg: s.lambda_reg,
                prev_w_norm: s.prev_w_norm,
                n_observations: s.n_observations,
                divergence_threshold: s.divergence_threshold,
            },
        )
    }
}

// ---------------------------------------------------------------------------------------------
// The Q-function.
// ---------------------------------------------------------------------------------------------

/// An action of the Q-function; lot sizes are decided later.
#[derive(Debug, Clone, Copy, PartialEq, Eq, Hash, Structural)]
pub enum QAction {
    Buy,
    Sell,
    Hold,
}

impl QAction {
    /// Every action.
    pub fn all() -> (r: &'static [QAction])
        ensures
            r@ == seq![QAction::Buy, QAction::Sell, QAction::Hold],
    {
        let r: &'static [QAction] = &[QAction::Buy, QAction::Sell, QAction::Hold];
        assert(r@ =~= seq![QAction::Buy, QAction::Sell, QAction::Hold]);
        r
    }

    /// The name of the action.
    pub open spec fn label(self) -> Seq<char> {
        match self {
            QAction::Buy => "Buy"@,
            QAction::Sell => "Sell"@,
            QAction::Hold => "Hold"@,
        }
    }

    /// The name of the action.
    pub fn name(&self) -> (r: &'static str)
        ensures
            r@ == self.label(),
    {
        match self {
            QAction::Buy => "Buy",
            QAction::Sell => "Sell",
            QAction::Hold => "Hold",
        }
    }
}

/// One number for each action.
#[derive(Debug, Clone, Copy, PartialEq, Eq, Structural)]
pub struct ActionValues {
    pub buy: Scalar,
    pub sell: Scalar,
    pub hold: Scalar,
}

impl ActionValues {
    /// The number of an action.
    pub open spec fn of(self, action: QAction) -> Scalar {
        match action {
            QAction::Buy => self.buy,
            QAction::Sell => self.sell,
            QAction::Hold => self.hold,
        }
    }

    /// The number of an action.
    pub fn get(&self, action: QAction) -> (r: Scalar)
        ensures
            r == self.of(action),
    {
        match action {
            QAction::Buy => self.buy,
            QAction::Sell => self.sell,
            QAction::Hold => self.hold,
        }
    }
}

/// The randomness for one draw of weights for each action.
#[derive(Debug, Clone, PartialEq)]
pub struct ActionDraws {
    pub buy: Draw,
    pub sell: Draw,
    pub hold: Draw,
}

/// The Q-function: a regression for each action.
#[derive(Debug, Clone, PartialEq)]
pub struct QFunction {
    pub buy: BayesianLinearRegression,
    pub sell: BayesianLinearRegression,
    pub hold: BayesianLinearRegression,
    pub dim: usize,
    pub initial_sigma2: Scalar,
    pub optimistic_bias: Scalar,
}

/// A regression as it starts: biased, unless its action is to hold.
pub open spec fn starts(model: BayesianLinearRegression, action: QAction, bias: Scalar) -> bool {
    if action == QAction::Hold {
        model.at_prior()
    } else {
        model.at_biased_prior(bias)
    }
}

impl QFunction {
    /// The regression of an action.
    pub open spec fn of(self, action: QAction) -> BayesianLinearRegression {
        match action {
            QAction::Buy => self.buy,
            QAction::Sell => self.sell,
            QAction::Hold => self.hold,
        }
    }

    /// The Q-function with another regression for an action.
    pub open spec fn with(self, action: QAction, model: BayesianLinearRegression) -> QFunction {
        match action {
            QAction::Buy => QFunction { buy: model, ..self },
            QAction::Sell => QFunction { sell: model, ..self },
            QAction::Hold => QFunction { hold: model, ..self },
        }
    }

    /// Every regression is valid and has the dimension.
    pub open spec fn valid(self) -> bool {
        &&& self.buy.valid() && self.buy.dim == self.dim
        &&& self.sell.valid() && self.sell.dim == self.dim
        &&& self.hold.valid() && self.hold.dim == self.dim
    }

    /// `self` and `other` differ in their regressions only.
    pub open spec fn same_setup(self, other: QFunction) -> bool {
        &&& self.dim == other.dim
        &&& self.initial_sigma2 == other.initial_sigma2
        &&& self.optimistic_bias == other.optimistic_bias
    }

    /// The draws fit the regressions.
    pub open spec fn fits(self, draws: ActionDraws) -> bool {
        &&& self.buy.fits(draws.buy)
        &&& self.sell.fits(draws.sell)
        &&& self.hold.fits(draws.hold)
    }

    /// `self` is `before` with every covariance widened by `factor`.
    pub open spec fn inflated(self, before: QFunction, factor: Scalar) -> bool {
        &&& self.same_setup(before)
        &&& self.buy.inflated(before.buy, factor)
        &&& self.sell.inflated(before.sell, factor)
        &&& self.hold.inflated(before.hold, factor)
    }

    /// `self` is `before` with everything forgotten, the noise estimates too.
    pub open spec fn fully_reset(self, before: QFunction) -> bool {
        &&& self.same_setup(before)
        &&& forall|action: QAction|
            {
                let model = #[trigger] self.of(action);
                &&& starts(model, action, before.optimistic_bias)
                &&& model.same_parameters(before.of(action))
                &&& model.sigma2_noise == before.initial_sigma2
                &&& model.residual_var_ema == before.initial_sigma2
            }
    }

    /// The point estimates of all actions.
    pub open spec fn estimates(self, phi: Seq<Scalar>) -> ActionValues {
        ActionValues {
            buy: self.buy.estimate(phi),
            sell: self.sell.estimate(phi),
            hold: self.hold.estimate(phi),
        }
    }

    /// The posterior standard deviations of all actions.
    pub open spec fn deviations(self, phi: Seq<Scalar>) -> ActionValues {
        ActionValues {
            buy: self.buy.variance(phi).root(),
            sell: self.sell.variance(phi).root(),
            hold: self.hold.variance(phi).root(),
        }
    }

    /// The sampled Q-values of all actions.
    pub open spec fn samples(self, phi: Seq<Scalar>, draws: ActionDraws) -> ActionValues {
        ActionValues {
            buy: linalg::dot_product(self.buy.sampled(draws.buy), phi),
            sell: linalg::dot_product(self.sell.sampled(draws.sell), phi),
            hold: linalg::dot_product(self.hold.sampled(draws.hold), phi),
        }
    }

    /// A Q-function that has observed nothing; buying and selling start with a bias. `kept` is
    /// the exponential of `BayesianLinearRegression::decay_exponent`.
    pub fn new(
        dim: usize,
        lambda_reg: Scalar,
        kept: Scalar,
        initial_sigma2: Scalar,
        optimistic_bias: Scalar,
    ) -> (r: QFunction)
        requires
            Scalar::of_int(0).below(lambda_reg),
            Scalar::of_int(0).below(initial_sigma2),
            dim * dim <= usize::MAX,
        ensures
            r.valid(),
            r.dim == dim,
            r.initial_sigma2 == initial_sigma2,
            r.optimistic_bias == optimistic_bias,
            forall|action: QAction|
                {
                    let model = #[trigger] r.of(action);
                    &&& starts(model, action, optimistic_bias)
                    &&& model.lambda_reg == lambda_reg
                    &&& model.ema_alpha == Scalar::of_int(1).minus(kept)
                    &&& model.sigma2_noise == initial_sigma2
                    &&& model.residual_var_ema == initial_sigma2
                    &&& model.divergence_threshold == Scalar::of_int(2)
                },
    {
        let mut buy = BayesianLinearRegression::new(dim, lambda_reg, kept, initial_sigma2);
        buy.apply_optimistic_bias(optimistic_bias);
        let mut sell = BayesianLinearRegression::new(dim, lambda_reg, kept, initial_sigma2);
        sell.apply_optimistic_bias(optimistic_bias);
        let hold = BayesianLinearRegression::new(dim, lambda_reg, kept, initial_sigma2);
        QFunction { buy, sell, hold, dim, initial_sigma2, optimistic_bias }
    }

    /// The point estimate of an action; for monitoring, never for choosing an action.
    pub fn q_value(&self, action: QAction, phi: &[Scalar]) -> (r: Scalar)
        requires
            self.valid(),
            phi@.len() == self.dim,
        ensures
            r == self.of(action).estimate(phi@),
            r == self.estimates(phi@).of(action),
    {
        self.model(action).predict(phi)
    }

    /// The point estimate of an action.
    pub fn q_point(&self, action: QAction, phi: &[Scalar]) -> (r: Scalar)
        requires
            self.valid(),
            phi@.len() == self.dim,
        ensures
            r == self.of(action).estimate(phi@),
    {
        self.q_value(action, phi)
    }

    /// The posterior standard deviation of an action.
    pub fn posterior_std(&self, action: QAction, phi: &[Scalar]) -> (r: Scalar)
        requires
            self.valid(),
            phi@.len() == self.dim,
        ensures
            r == self.of(action).variance(phi@).root(),
    {
        self.model(action).posterior_std(phi)
    }

    /// A sampled Q-value of an action.
    pub fn sample_q_value(&self, action: QAction, phi: &[Scalar], draw: &Draw) -> (r: Scalar)
        requires
            self.valid(),
            self.of(action).fits(*draw),
            phi@.len() == self.dim,
        ensures
            r == linalg::dot_product(self.of(action).sampled(*draw), phi@),
    {
        self.model(action).sample_predict(phi, draw)
    }

    /// Sampled weights of an action.
    pub fn sample_weights(&self, action: QAction, draw: &Draw) -> (r: Vec<Scalar>)
        requires
            self.valid(),
            self.of(action).fits(*draw),
        ensures
            r@ == self.of(action).sampled(*draw),
    {
        self.model(action).sample_weights(draw)
    }

    /// The sampled Q-values of all actions.
    pub fn sample_q_values(&self, phi: &[Scalar], draws: &ActionDraws) -> (r: ActionValues)
        requires
            self.valid(),
            self.fits(*draws),
            phi@.len() == self.dim,
        ensures
            r == self.samples(phi@, *draws),
    {
        ActionValues {
            buy: self.buy.sample_predict(phi, &draws.buy),
            sell: self.sell.sample_predict(phi, &draws.sell),
            hold: self.hold.sample_predict(phi, &draws.hold),
        }
    }

    /// Takes in an observation for the action that was taken; the other actions learn nothing.
    pub fn update(&mut self, action: QAction, phi: &[Scalar], target: Scalar) -> (r: UpdateResult)
        requires
            old(self).valid(),
            phi@.len() == old(self).dim,
            old(self).of(action).n_observations < usize::MAX,
        ensures
            final(self).valid(),
            *final(self) == old(self).with(action, final(self).of(action)),
            final(self).of(action).observed(old(self).of(action), phi@, target, r),
    {
        match action {
            QAction::Buy => self.buy.update(phi, target),
            QAction::Sell => self.sell.update(phi, target),
            QAction::Hold => self.hold.update(phi, target),
        }
    }

    /// The point estimates of all actions.
    pub fn q_values(&self, phi: &[Scalar]) -> (r: ActionValues)
        requires
            self.valid(),
            phi@.len() == self.dim,
        ensures
            r == self.estimates(phi@),
    {
        ActionValues {
            buy: self.buy.predict(phi),
            sell: self.sell.predict(phi),
            hold: self.hold.predict(phi),
        }
    }

    /// The posterior standard deviations of all actions.
    pub fn posterior_stds(&self, phi: &[Scalar]) -> (r: ActionValues)
        requires
            self.valid(),
            phi@.len() == self.dim,
        ensures
            r == self.deviations(phi@),
    {
        ActionValues {
            buy: self.buy.posterior_std(phi),
            sell: self.sell.posterior_std(phi),
            hold: self.hold.posterior_std(phi),
        }
    }

    /// Forgets what an action has observed, but keeps its noise estimate.
    pub fn reset_action(&mut self, action: QAction)
        requires
            old(self).valid(),
        ensures
            final(self).valid(),
            *final(self) == old(self).with(action, final(self).of(action)),
            starts(final(self).of(action), action, old(self).optimistic_bias),
            final(self).of(action).same_parameters(old(self).of(action)),
            final(self).of(action).same_noise(old(self).of(action)),
    {
        let bias = self.optimistic_bias;
        match action {
            QAction::Buy => {
                self.buy.reset();
                self.buy.apply_optimistic_bias(bias);
            },
            QAction::Sell => {
                self.sell.reset();
                self.sell.apply_optimistic_bias(bias);
            },
            QAction::Hold => {
                self.hold.reset();
            },
        }
    }

    /// Forgets what every action has observed, but keeps the noise estimates.
    pub fn reset_all(&mut self)
        requires
            old(self).valid(),
        ensures
            final(self).valid(),
            final(self).same_setup(*old(self)),
            forall|action: QAction|
                {
                    let model = #[trigger] final(self).of(action);
                    &&& starts(model, action, old(self).optimistic_bias)
                    &&& model.same_parameters(old(self).of(action))
                    &&& model.same_noise(old(self).of(action))
                },
    {
        self.reset_action(QAction::Buy);
        self.reset_action(QAction::Sell);
        self.reset_action(QAction::Hold);
    }

    /// Forgets what every action has observed and the noise estimates.
    pub fn reset_all_full(&mut self)
        requires
            old(self).valid(),
        ensures
            final(self).valid(),
            final(self).fully_reset(*old(self)),
    {
        let sigma2 = self.initial_sigma2;
        let bias = self.optimistic_bias;
        self.buy.reset_full(sigma2);
        self.buy.apply_optimistic_bias(bias);
        self.sell.reset_full(sigma2);
        self.sell.apply_optimistic_bias(bias);
        self.hold.reset_full(sigma2);
    }

    /// Widens every covariance.
    pub fn inflate_covariance(&mut self, factor: Scalar)
        requires
            old(self).valid(),
            Scalar::of_int(1).at_most(factor),
        ensures
            final(self).valid(),
            final(self).inflated(*old(self), factor),
    {
        self.buy.inflate_covariance(factor);
        self.sell.inflate_covariance(factor);
        self.hold.inflate_covariance(factor);
    }

    /// The regression of an action.
    pub fn model(&self, action: QAction) -> (r: &BayesianLinearRegression)
        ensures
            *r == self.of(action),
    {
        match action {
            QAction::Buy => &self.buy,
            QAction::Sell => &self.sell,
            QAction::Hold => &self.hold,
        }
    }

    /// The regression of an action, to change.
    pub fn model_mut(&mut self, action: QAction) -> (r: &mut BayesianLinearRegression)
        ensures
            *r == old(self).of(action),
            *final(self) == old(self).with(action, *final(r)),
    {
        match action {
            QAction::Buy => &mut self.buy,
            QAction::Sell => &mut self.sell,
            QAction::Hold => &mut self.hold,
        }
    }

    pub fn dim(&self) -> (r: usize)
        ensures
            r == self.dim,
    {
        self.dim
    }

    /// `s` is a snapshot of this Q-function.
    pub open spec fn stored_in(self, s: QFunctionSnapshot) -> bool {
        &&& s.dim == self.dim
        &&& s.initial_sigma2 == self.initial_sigma2
        &&& s.optimistic_bias == self.optimistic_bias
        &&& s.actions@.len() == 3
        &&& s.actions@[0].action == QAction::Buy && self.buy.stored_in(s.actions@[0].model)
        &&& s.actions@[1].action == QAction::Sell && self.sell.stored_in(s.actions@[1].model)
        &&& s.actions@[2].action == QAction::Hold && self.hold.stored_in(s.actions@[2].model)
    }

    /// This Q-function is what a snapshot holds.
    pub open spec fn restored_from(self, s: QFunctionSnapshot) -> bool {
        &&& self.dim == s.dim
        &&& self.initial_sigma2 == s.initial_sigma2
        &&& self.optimistic_bias == s.optimistic_bias
        &&& forall|i: int|
            #![trigger s.actions@[i]]
            0 <= i < s.actions@.len() ==> self.of(s.actions@[i].action).restored_from(
                s.actions@[i].model,
            )
    }

    /// A snapshot of the Q-function.
    pub fn snapshot(&self) -> (r: QFunctionSnapshot)
        requires
            self.valid(),
        ensures
            self.stored_in(r),
    {
        let mut actions: Vec<ActionQStateSnapshot> = Vec::new();
        actions.push(ActionQStateSnapshot { action: QAction::Buy, model: self.buy.snapshot() });
        actions.push(ActionQStateSnapshot { action: QAction::Sell, model: self.sell.snapshot() });
        actions.push(ActionQStateSnapshot { action: QAction::Hold, model: self.hold.snapshot() });
        QFunctionSnapshot {
            dim: self.dim,
            initial_sigma2: self.initial_sigma2,
            optimistic_bias: self.optimistic_bias,
            actions,
        }
    }

    /// The Q-function that a snapshot holds, unless the snapshot is at fault.
    pub fn from_snapshot(s: &QFunctionSnapshot) -> (r: Result<QFunction, SnapshotError>)
        ensures
            match r {
                Ok(q) => q_function_fault(*s) is None && q.valid() && q.restored_from(*s),
                Err(error) => q_function_fault(*s) == Some(error),
            },
    {
        if s.dim == 0 {
            return Err(SnapshotError::QFunctionZeroDimension);
        }
        if s.initial_sigma2.le(Scalar::from_u64(0)) {
            return Err(SnapshotError::InitialSigma2);
        }
        if s.actions.len() != 3 {
            return Err(SnapshotError::ActionCount { found: s.actions.len() });
        }
        let mut buy: Option<BayesianLinearRegression> = None;
        let mut sell: Option<BayesianLinearRegression> = None;
        let mut hold: Option<BayesianLinearRegression> = None;
        let mut i: usize = 0;
        while i < s.actions.len()
            invariant
                s.dim > 0,
                !s.initial_sigma2.at_most(Scalar::of_int(0)),
                s.actions@.len() == 3,
                i <= 3,
                action_fault(s.actions@, s.dim, 0) == action_fault(s.actions@, s.dim, i as int),
                buy is Some <==> taken(s.actions@, i as int, QAction::Buy),
                sell is Some <==> taken(s.actions@, i as int, QAction::Sell),
                hold is Some <==> taken(s.actions@, i as int, QAction::Hold),
                (if buy is Some {
                    1int
                } else {
                    0
                }) + (if sell is Some {
                    1int
                } else {
                    0
                }) + (if hold is Some {
                    1int
                } else {
                    0
                }) == i,
                forall|j: int|
                    #![trigger s.actions@[j]]
                    0 <= j < i ==> {
                        let slot = match s.actions@[j].action {
                            QAction::Buy => buy,
                            QAction::Sell => sell,
                            QAction::Hold => hold,
                        };
                        &&& slot is Some
                        &&& slot->0.valid()
                        &&& slot->0.dim == s.dim
                        &&& slot->0.restored_from(s.actions@[j].model)
                    },
            decreases 3 - i,
        {
            let entry = &s.actions[i];
            let present = match entry.action {
                QAction::Buy => buy.is_some(),
                QAction::Sell => sell.is_some(),
                QAction::Hold => hold.is_some(),
            };
            if present {
                return Err(SnapshotError::DuplicateAction { action: entry.action });
            }
            let model = match BayesianLinearRegression::from_snapshot(&entry.model) {
                Ok(model) => model,
                Err(error) => return Err(error),
            };
            if model.dim != s.dim {
                return Err(
                    SnapshotError::ActionDimension {
                        action: entry.action,
                        found: model.dim,
                        expected: s.dim,
                    },
                );
            }
            proof {
                assert forall|a: QAction|
                    taken(s.actions@, i + 1, a) <==> (taken(s.actions@, i as int, a) || a
                        == s.actions@[i as int].action) by {
                    if taken(s.actions@, i as int, a) {
                        let j = choose|j: int| 0 <= j < i && #[trigger] s.actions@[j].action == a;
                        assert(s.actions@[j].action == a);
                    }
                }
            }
            match entry.action {
                QAction::Buy => {
                    buy = Some(model);
                },
                QAction::Sell => {
                    sell = Some(model);
                },
                QAction::Hold => {
                    hold = Some(model);
                },
            }
            i = i + 1;
        }
        match (buy, sell, hold) {
            (Some(buy), Some(sell), Some(hold)) => {
                assert(exists|j: int| 0 <= j < 3 && #[trigger] s.actions@[j].action == QAction::Buy);
                assert(exists|j: int| 0 <= j < 3 && #[trigger] s.actions@[j].action == QAction::Sell);
                assert(exists|j: int| 0 <= j < 3 && #[trigger] s.actions@[j].action == QAction::Hold);
                Ok(
                    QFunction {
                        buy,
                        sell,
                        hold,
                        dim: s.dim,
                        initial_sigma2: s.initial_sigma2,
                        optimistic_bias: s.optimistic_bias,
                    },
                )
            },
            _ => {
                assert(false);
                Err(SnapshotError::ActionCount { found: s.actions.len() })
            },
        }
    }
}

/// One of the first `n` entries is for `action`.
pub open spec fn taken(actions: Seq<ActionQStateSnapshot>, n: int, action: QAction) -> bool {
    exists|j: int| 0 <= j < n && #[trigger] actions[j].action == action
}

/// What is wrong with the entries from `i` on, if anything is: the first fault in their order.
pub open spec fn action_fault(actions: Seq<ActionQStateSnapshot>, dim: usize, i: int) -> Option<
    SnapshotError,
>
    decreases actions.len() - i,
{
    if i < 0 || i >= actions.len() {
        None
    } else if taken(actions, i, actions[i].action) {
        Some(SnapshotError::DuplicateAction { action: actions[i].action })
    } else if fault(actions[i].model) is Some {
        fault(actions[i].model)
    } else if actions[i].model.dim != dim {
        Some(
            SnapshotError::ActionDimension {
                action: actions[i].action,
                found: actions[i].model.dim,
                expected: dim,
            },
        )
    } else {
        action_fault(actions, dim, i + 1)
    }
}

/// What is wrong with a snapshot of a Q-function, if anything is.
pub open spec fn q_function_fault(s: QFunctionSnapshot) -> Option<SnapshotError> {
    if s.dim == 0 {
        Some(SnapshotError::QFunctionZeroDimension)
    } else if s.initial_sigma2.at_most(Scalar::of_int(0)) {
        Some(SnapshotError::InitialSigma2)
    } else if s.actions@.len() != 3 {
        Some(SnapshotError::ActionCount { found: s.actions@.len() as usize })
    } else {
        action_fault(s.actions@, s.dim, 0)
    }
}

} // verus!
