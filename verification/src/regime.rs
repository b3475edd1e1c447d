//! Which regime the market is in.
//!
//! A posterior over a few regimes comes from a model or from weights. When it is spread too evenly
//! the regime counts as unknown.

use crate::features::FeatureVector;
use crate::linalg;
use crate::order;
use crate::rounding::EXACT;
use crate::scalar;
use crate::scalar::Scalar;
use vstd::prelude::*;

verus! {

/// The most regimes there can be.
pub const MAX_REGIMES: usize = 16;

/// Minus infinity.
pub const LOWEST_BITS: u64 = 0xfff0_0000_0000_0000;

/// The least probability that counts.
pub open spec fn least_probability() -> Scalar {
    Scalar::of_ratio(1, 1_000_000_000_000)
}

/// Parameters of the regimes.
#[derive(Debug, Clone)]
pub struct RegimeConfig {
    pub n_regimes: usize,
    /// The entropy above which the regime is unknown.
    pub unknown_regime_entropy_threshold: Scalar,
    /// How much of the drift stays from one step to the next.
    pub regime_ar_coeff: Scalar,
    pub feature_dim: usize,
    /// Where a model is stored, if there is one.
    pub model_path: Option<String>,
}

impl Default for RegimeConfig {
    fn default() -> (r: RegimeConfig)
        ensures
            r.n_regimes == 4,
            r.unknown_regime_entropy_threshold == Scalar::of_ratio(9, 5),
            r.regime_ar_coeff == Scalar::of_ratio(9, 10),
            r.feature_dim == FeatureVector::DIM,
            r.model_path is None,
    {
        RegimeConfig {
            n_regimes: 4,
            unknown_regime_entropy_threshold: Scalar::ratio(9, 5),
            regime_ar_coeff: Scalar::ratio(9, 10),
            feature_dim: FeatureVector::DIM,
            model_path: None,
        }
    }
}

/// What a model takes and gives.
#[derive(Debug, Clone, Copy, PartialEq, Eq, Structural)]
pub struct ModelShape {
    pub feature_dim: usize,
    pub n_regimes: usize,
}

/// Numbers that do not fit the shape of a model.
#[derive(Debug, Clone, Copy, PartialEq, Eq, Structural)]
pub enum ShapeError {
    Input { found: usize, expected: usize },
    Output { found: usize, expected: usize },
}

impl ModelShape {
    /// The shape of a model from the last dimensions of its input and output; a dimension that is
    /// missing or not positive is open, and taken to be that of the feature vector, or four
    /// regimes.
    pub fn from_last_dims(input: Option<i64>, output: Option<i64>) -> (r: ModelShape)
        requires
            input matches Some(d) ==> d <= usize::MAX,
            output matches Some(d) ==> d <= usize::MAX,
        ensures
            r.feature_dim == match input {
                Some(d) => if d > 0 {
                    d as int
                } else {
                    FeatureVector::DIM as int
                },
                None => FeatureVector::DIM as int,
            },
            r.n_regimes == match output {
                Some(d) => if d > 0 {
                    d as int
                } else {
                    4
                },
                None => 4,
            },
            input matches Some(d) ==> (d > 0 ==> r.feature_dim == d),
            output matches Some(d) ==> (d > 0 ==> r.n_regimes == d),
            input is None ==> r.feature_dim == FeatureVector::DIM,
            output is None ==> r.n_regimes == 4,
            r.feature_dim > 0,
            r.n_regimes > 0,
    {
        let feature_dim: usize = match input {
            Some(d) => if d > 0 {
                d as usize
            } else {
                FeatureVector::DIM
            },
            None => FeatureVector::DIM,
        };
        let n_regimes: usize = match output {
            Some(d) => if d > 0 {
                d as usize
            } else {
                4
            },
            None => 4,
        };
        ModelShape { feature_dim, n_regimes }
    }

    /// Checks how many features a model is given.
    pub fn check_input(&self, found: usize) -> (r: Result<(), ShapeError>)
        ensures
            r == if found == self.feature_dim {
                Ok::<(), ShapeError>(())
            } else {
                Err(ShapeError::Input { found, expected: self.feature_dim })
            },
            r is Ok <==> found == self.feature_dim,
    {
        if found != self.feature_dim {
            Err(ShapeError::Input { found, expected: self.feature_dim })
        } else {
            Ok(())
        }
    }

    /// Checks how many probabilities a model has given.
    pub fn check_output(&self, found: usize) -> (r: Result<(), ShapeError>)
        ensures
            r == if found == self.n_regimes {
                Ok::<(), ShapeError>(())
            } else {
                Err(ShapeError::Output { found, expected: self.n_regimes })
            },
            r is Ok <==> found == self.n_regimes,
    {
        if found != self.n_regimes {
            Err(ShapeError::Output { found, expected: self.n_regimes })
        } else {
            Ok(())
        }
    }
}

/// What is known of the regime.
pub ghost struct RegimeModel {
    pub posterior: Seq<Scalar>,
    pub entropy: Scalar,
    pub kl_divergence: Scalar,
    pub drift: Seq<Scalar>,
    pub is_unknown: bool,
    pub last_update_ns: u64,
    pub initialized: bool,
}

impl RegimeModel {
    /// Every regime as likely as any other; `max_entropy` is the logarithm of their number.
    pub open spec fn start(n_regimes: nat, feature_dim: nat, max_entropy: Scalar) -> RegimeModel {
        RegimeModel {
            posterior: Seq::new(
                n_regimes,
                |i: int| Scalar::of_int(1).over(Scalar::of_int(n_regimes)),
            ),
            entropy: max_entropy,
            kl_divergence: Scalar::of_int(0),
            drift: linalg::zeros(feature_dim),
            is_unknown: false,
            last_update_ns: 0,
            initialized: false,
        }
    }
    /// After a posterior was taken in; the regime is unknown where its entropy is above
    /// `threshold`.
    pub open spec fn updated(
        self,
        posterior: Seq<Scalar>,
        now_ns: u64,
        entropy_logs: Seq<Scalar>,
        divergence_logs: Seq<Scalar>,
        threshold: Scalar,
    ) -> RegimeModel {
        let p = normal(posterior);
        let n = posterior.len() as int;
        let entropy = entropy_of(p, entropy_logs, n);
        RegimeModel {
            posterior: p,
            entropy,
            kl_divergence: divergence_of(p, None, divergence_logs, n),
            is_unknown: threshold.below(entropy),
            last_update_ns: now_ns,
            initialized: true,
            ..self
        }
    }

    /// After the drift has moved one step on.
    pub open spec fn drifted(self, coeff: Scalar) -> RegimeModel {
        RegimeModel { drift: next_drift(self.posterior, self.drift, coeff), ..self }
    }
}

/// What is known of the regime.
#[derive(Debug, Clone)]
pub struct RegimeState {
    pub posterior: Vec<Scalar>,
    pub entropy: Scalar,
    pub kl_divergence: Scalar,
    pub drift: Vec<Scalar>,
    pub is_unknown: bool,
    pub last_update_ns: u64,
    pub initialized: bool,
}

impl View for RegimeState {
    type V = RegimeModel;

    open spec fn view(&self) -> RegimeModel {
        RegimeModel {
            posterior: self.posterior@,
            entropy: self.entropy,
            kl_divergence: self.kl_divergence,
            drift: self.drift@,
            is_unknown: self.is_unknown,
            last_update_ns: self.last_update_ns,
            initialized: self.initialized,
        }
    }
}

impl RegimeState {
    /// Every regime as likely as any other. `max_entropy` is the logarithm of their number.
    pub fn new(n_regimes: usize, feature_dim: usize, max_entropy: Scalar) -> (r: RegimeState)
        ensures
            r@ == RegimeModel::start(n_regimes as nat, feature_dim as nat, max_entropy),
    {
        let uniform = Scalar::from_u64(1).div(Scalar::from_u64(n_regimes as u64));
        let mut posterior: Vec<Scalar> = Vec::new();
        let mut i: usize = 0;
        while i < n_regimes
            invariant
                i <= n_regimes,
                posterior@ == Seq::new(i as nat, |k: int| uniform),
            decreases n_regimes - i,
        {
            posterior.push(uniform);
            i = i + 1;
            assert(posterior@ =~= Seq::new(i as nat, |k: int| uniform));
        }
        let r = RegimeState {
            posterior,
            entropy: max_entropy,
            kl_divergence: Scalar::from_u64(0),
            drift: linalg::zero_vector(feature_dim),
            is_unknown: false,
            last_update_ns: 0,
            initialized: false,
        };
        assert(r@.posterior =~= RegimeModel::start(
            n_regimes as nat,
            feature_dim as nat,
            max_entropy,
        ).posterior);
        r
    }

    pub fn posterior(&self) -> (r: &[Scalar])
        ensures
            r@ == self@.posterior,
    {
        self.posterior.as_slice()
    }

    pub fn entropy(&self) -> (r: Scalar)
        ensures
            r == self@.entropy,
    {
        self.entropy
    }

    pub fn kl_divergence(&self) -> (r: Scalar)
        ensures
            r == self@.kl_divergence,
    {
        self.kl_divergence
    }

    pub fn drift(&self) -> (r: &[Scalar])
        ensures
            r@ == self@.drift,
    {
        self.drift.as_slice()
    }

    pub fn is_unknown(&self) -> (r: bool)
        ensures
            r == self@.is_unknown,
    {
        self.is_unknown
    }

    pub fn last_update_ns(&self) -> (r: u64)
        ensures
            r == self@.last_update_ns,
    {
        self.last_update_ns
    }

    pub fn is_initialized(&self) -> (r: bool)
        ensures
            r == self@.initialized,
    {
        self.initialized
    }
}

/// The posterior scaled to a sum of one; one that is within a millionth of that stays as it is.
pub open spec fn normal(posterior: Seq<Scalar>) -> Seq<Scalar> {
    let sum = linalg::running_sum(posterior, posterior.len() as int);
    if sum.minus(Scalar::of_int(1)).magnitude().below(Scalar::of_ratio(1, 1_000_000)) {
        posterior
    } else {
        shares(posterior, sum)
    }
}

/// Every number over `whole`.
pub open spec fn shares(parts: Seq<Scalar>, whole: Scalar) -> Seq<Scalar> {
    Seq::new(parts.len(), |i: int| parts[i].over(whole))
}

/// The entropy of the first `k` probabilities; `logs` holds their logarithms.
pub open spec fn entropy_of(p: Seq<Scalar>, logs: Seq<Scalar>, k: int) -> Scalar
    decreases k,
{
    if k <= 0 {
        Scalar::of_int(0)
    } else {
        let before = entropy_of(p, logs, k - 1);
        if least_probability().below(p[k - 1]) {
            before.minus(p[k - 1].times(logs[k - 1]))
        } else {
            before
        }
    }
}

/// How many probabilities two posteriors share; without a second one, all of the first.
pub open spec fn shared_len(p: Seq<Scalar>, q: Option<Seq<Scalar>>) -> int {
    match q {
        Some(q) => if q.len() < p.len() {
            q.len() as int
        } else {
            p.len() as int
        },
        None => p.len() as int,
    }
}

/// What probability `i` is held against: that of the other posterior, or an even one.
pub open spec fn reference_at(p: Seq<Scalar>, q: Option<Seq<Scalar>>, i: int) -> Scalar {
    match q {
        Some(q) => q[i],
        None => Scalar::of_int(1).over(Scalar::of_int(p.len())),
    }
}

/// Probability `i` counts in the divergence.
pub open spec fn counts(p: Seq<Scalar>, q: Option<Seq<Scalar>>, i: int) -> bool {
    least_probability().below(p[i]) && (q matches Some(q) ==> least_probability().below(q[i]))
}

/// The divergence of the first `k` probabilities; `logs` holds the logarithms of their ratios.
pub open spec fn divergence_of(
    p: Seq<Scalar>,
    q: Option<Seq<Scalar>>,
    logs: Seq<Scalar>,
    k: int,
) -> Scalar
    decreases k,
{
    if k <= 0 {
        Scalar::of_int(0)
    } else {
        let before = divergence_of(p, q, logs, k - 1);
        if counts(p, q, k - 1) {
            before.plus(p[k - 1].times(logs[k - 1]))
        } else {
            before
        }
    }
}

/// The view of a posterior that may be absent.
pub open spec fn view_of(q: Option<&[Scalar]>) -> Option<Seq<Scalar>> {
    match q {
        Some(q) => Some(q@),
        None => None,
    }
}

/// The entropy of a posterior; `logs` holds the logarithms of its probabilities.
pub fn compute_entropy(p: &[Scalar], logs: &[Scalar]) -> (r: Scalar)
    requires
        logs@.len() == p@.len(),
    ensures
        r == entropy_of(p@, logs@, p@.len() as int),
{
    let least = Scalar::ratio(1, 1_000_000_000_000);
    let mut h = Scalar::from_u64(0);
    let mut i: usize = 0;
    while i < p.len()
        invariant
            logs@.len() == p@.len(),
            least == least_probability(),
            i <= p@.len(),
            h == entropy_of(p@, logs@, i as int),
        decreases p@.len() - i,
    {
        if p[i].gt(least) {
            h = h.sub(p[i].mul(logs[i]));
        }
        i = i + 1;
    }
    h
}

/// The ratios whose logarithms `compute_kl_divergence` takes.
pub fn divergence_ratios(p: &[Scalar], q: Option<&[Scalar]>) -> (r: Vec<Scalar>)
    ensures
        r@.len() == shared_len(p@, view_of(q)),
        forall|i: int|
            0 <= i < r@.len() ==> #[trigger] r@[i] == p@[i].over(
                reference_at(p@, view_of(q), i),
            ),
{
    let uniform = Scalar::from_u64(1).div(Scalar::from_u64(p.len() as u64));
    let n = match q {
        Some(q) => if q.len() < p.len() {
            q.len()
        } else {
            p.len()
        },
        None => p.len(),
    };
    let mut r: Vec<Scalar> = Vec::new();
    let mut i: usize = 0;
    while i < n
        invariant
            uniform == Scalar::of_int(1).over(Scalar::of_int(p@.len())),
            n == shared_len(p@, view_of(q)),
            i <= n,
            r@.len() == i,
            forall|j: int|
                0 <= j < i ==> #[trigger] r@[j] == p@[j].over(reference_at(p@, view_of(q), j)),
        decreases n - i,
    {
        let reference = match q {
            Some(q) => q[i],
            None => uniform,
        };
        r.push(p[i].div(reference));
        i = i + 1;
    }
    r
}

/// The Kullback-Leibler divergence of a posterior from another, or from an even one. `logs` holds
/// the logarithms of `divergence_ratios`.
pub fn compute_kl_divergence(p: &[Scalar], q: Option<&[Scalar]>, logs: &[Scalar]) -> (r: Scalar)
    requires
        logs@.len() == shared_len(p@, view_of(q)),
    ensures
        r == divergence_of(p@, view_of(q), logs@, logs@.len() as int),
{
    let least = Scalar::ratio(1, 1_000_000_000_000);
    let mut kl = Scalar::from_u64(0);
    let mut i: usize = 0;
    while i < logs.len()
        invariant
            logs@.len() == shared_len(p@, view_of(q)),
            least == least_probability(),
            i <= logs@.len(),
            kl == divergence_of(p@, view_of(q), logs@, i as int),
        decreases logs@.len() - i,
    {
        let other = match q {
            Some(q) => q[i].gt(least),
            None => true,
        };
        if p[i].gt(least) && other {
            kl = kl.add(p[i].mul(logs[i]));
        }
        i = i + 1;
    }
    kl
}

/// The products of weights and features, as far as both go.
pub open spec fn weighted_features(weights: Seq<Scalar>, features: Seq<Scalar>) -> Seq<Scalar> {
    Seq::new(
        (if weights.len() < features.len() {
            weights.len()
        } else {
            features.len()
        }),
        |i: int| weights[i].times(features[i]),
    )
}

/// How well a regime fits the features.
pub open spec fn score_of(weights: Seq<Scalar>, features: Seq<Scalar>, bias: Scalar) -> Scalar {
    let products = weighted_features(weights, features);
    linalg::running_sum(products, products.len() as int).plus(bias)
}

/// The greatest of the first `k` scores.
pub open spec fn greatest_of(scores: Seq<Scalar>, k: int) -> Scalar
    decreases k,
{
    if k <= 0 {
        Scalar { bits: LOWEST_BITS }
    } else {
        greatest_of(scores, k - 1).greater(scores[k - 1])
    }
}

/// The scores of all regimes.
pub open spec fn scores_of(features: Seq<Scalar>, weights: Seq<Vec<Scalar>>, bias: Seq<Scalar>) -> Seq<
    Scalar,
> {
    Seq::new(weights.len(), |k: int| score_of(weights[k]@, features, bias[k]))
}

/// How far each score is below the greatest.
pub open spec fn exponents_of(scores: Seq<Scalar>) -> Seq<Scalar> {
    Seq::new(
        scores.len(),
        |k: int| scores[k].minus(greatest_of(scores, scores.len() as int)),
    )
}

/// How well one regime fits the features.
fn regime_score(weights: &[Scalar], features: &[Scalar], bias: Scalar) -> (r: Scalar)
    ensures
        r == score_of(weights@, features@, bias),
{
    let n = if weights.len() < features.len() {
        weights.len()
    } else {
        features.len()
    };
    let mut sum = Scalar::from_u64(0);
    let mut i: usize = 0;
    while i < n
        invariant
            n == weighted_features(weights@, features@).len(),
            n <= weights@.len(),
            n <= features@.len(),
            i <= n,
            sum == linalg::running_sum(weighted_features(weights@, features@), i as int),
        decreases n - i,
    {
        sum = sum.add(weights[i].mul(features[i]));
        i = i + 1;
    }
    sum.add(bias)
}

/// The exponents whose exponentials `compute_posterior_from_weights` takes: how far the score of
/// each regime is below the greatest.
pub fn posterior_exponents(features: &[Scalar], weights: &[Vec<Scalar>], bias: &[Scalar]) -> (r: Vec<
    Scalar,
>)
    requires
        weights@.len() <= MAX_REGIMES,
        bias@.len() >= weights@.len(),
    ensures
        r@ == exponents_of(scores_of(features@, weights@, bias@)),
{
    let ghost all = scores_of(features@, weights@, bias@);
    let n = weights.len();
    let mut scores: Vec<Scalar> = Vec::new();
    let mut max_score = Scalar::from_bits(LOWEST_BITS);
    let mut k: usize = 0;
    while k < n
        invariant
            n == weights@.len(),
            bias@.len() >= n,
            all == scores_of(features@, weights@, bias@),
            k <= n,
            scores@ == all.take(k as int),
            max_score == greatest_of(all, k as int),
        decreases n - k,
    {
        let score = regime_score(&weights[k], features, bias[k]);
        scores.push(score);
        max_score = max_score.max(score);
        k = k + 1;
        assert(scores@ =~= all.take(k as int));
    }
    assert(all.take(n as int) =~= all);
    let mut r: Vec<Scalar> = Vec::new();
    let mut i: usize = 0;
    while i < n
        invariant
            n == all.len(),
            scores@ == all,
            max_score == greatest_of(all, n as int),
            i <= n,
            r@ == Seq::new(i as nat, |j: int| all[j].minus(greatest_of(all, n as int))),
        decreases n - i,
    {
        r.push(scores[i].sub(max_score));
        i = i + 1;
        assert(r@ =~= Seq::new(i as nat, |j: int| all[j].minus(greatest_of(all, n as int))));
    }
    r
}

/// The posterior from the exponentials of `posterior_exponents`: their shares of their sum.
pub fn compute_posterior_from_weights(exponentials: &[Scalar]) -> (r: Vec<Scalar>)
    ensures
        r@ == shares(
            exponentials@,
            linalg::running_sum(exponentials@, exponentials@.len() as int),
        ),
{
    let sum = total(exponentials);
    divided(exponentials, sum)
}

fn total(parts: &[Scalar]) -> (r: Scalar)
    ensures
        r == linalg::running_sum(parts@, parts@.len() as int),
{
    let mut sum = Scalar::from_u64(0);
    let mut i: usize = 0;
    while i < parts.len()
        invariant
            i <= parts@.len(),
            sum == linalg::running_sum(parts@, i as int),
        decreases parts@.len() - i,
    {
        sum = sum.add(parts[i]);
        i = i + 1;
    }
    sum
}

fn divided(parts: &[Scalar], whole: Scalar) -> (r: Vec<Scalar>)
    ensures
        r@ == shares(parts@, whole),
{
    let mut r: Vec<Scalar> = Vec::new();
    let mut i: usize = 0;
    while i < parts.len()
        invariant
            i <= parts@.len(),
            r@ == shares(parts@, whole).take(i as int),
        decreases parts@.len() - i,
    {
        r.push(parts[i].div(whole));
        i = i + 1;
        assert(r@ =~= shares(parts@, whole).take(i as int));
    }
    assert(r@ =~= shares(parts@, whole));
    r
}

/// The posterior scaled to a sum of one.
pub fn normalized(posterior: &[Scalar]) -> (r: Vec<Scalar>)
    ensures
        r@ == normal(posterior@),
{
    let sum = total(posterior);
    if sum.sub(Scalar::from_u64(1)).abs().lt(Scalar::ratio(1, 1_000_000)) {
        let mut r: Vec<Scalar> = Vec::new();
        let mut i: usize = 0;
        while i < posterior.len()
            invariant
                i <= posterior@.len(),
                r@ == posterior@.take(i as int),
            decreases posterior@.len() - i,
        {
            r.push(posterior[i]);
            i = i + 1;
            assert(r@ =~= posterior@.take(i as int));
        }
        assert(r@ =~= posterior@);
        r
    } else {
        divided(posterior, sum)
    }
}

/// The shares of a drift in the regimes.
pub open spec fn drift_parts(posterior: Seq<Scalar>, decayed: Scalar) -> Seq<Scalar> {
    Seq::new(posterior.len(), |k: int| posterior[k].times(decayed))
}

/// The next drift: what is left of the last, weighed by the regimes.
pub open spec fn next_drift(posterior: Seq<Scalar>, drift: Seq<Scalar>, coeff: Scalar) -> Seq<Scalar> {
    Seq::new(
        drift.len(),
        |d: int|
            linalg::running_sum(
                drift_parts(posterior, coeff.times(drift[d])),
                posterior.len() as int,
            ),
    )
}

/// The next drift.
///
/// It does not depend on the features: nothing new drives the drift.
pub fn compute_drift(
    posterior: &[Scalar],
    prev_drift: &[Scalar],
    _features: &[Scalar],
    regime_ar_coeff: Scalar,
) -> (r: Vec<Scalar>)
    ensures
        r@ == next_drift(posterior@, prev_drift@, regime_ar_coeff),
{
    let mut r: Vec<Scalar> = Vec::new();
    let mut d: usize = 0;
    while d < prev_drift.len()
        invariant
            d <= prev_drift@.len(),
            r@ == next_drift(posterior@, prev_drift@, regime_ar_coeff).take(d as int),
        decreases prev_drift@.len() - d,
    {
        let decayed = regime_ar_coeff.mul(prev_drift[d]);
        let mut weighted = Scalar::from_u64(0);
        let mut k: usize = 0;
        while k < posterior.len()
            invariant
                k <= posterior@.len(),
                weighted == linalg::running_sum(drift_parts(posterior@, decayed), k as int),
            decreases posterior@.len() - k,
        {
            weighted = weighted.add(posterior[k].mul(decayed));
            k = k + 1;
        }
        r.push(weighted);
        d = d + 1;
        assert(r@ =~= next_drift(posterior@, prev_drift@, regime_ar_coeff).take(d as int));
    }
    assert(r@ =~= next_drift(posterior@, prev_drift@, regime_ar_coeff));
    r
}

/// Logarithms for one update: of the normalized probabilities, and of the ratios of these to an
/// even posterior.
#[derive(Debug, Clone)]
pub struct PosteriorLogs {
    pub entropy: Vec<Scalar>,
    pub divergence: Vec<Scalar>,
}

/// The regime, kept from one step to the next.
#[derive(Debug, Clone)]
pub struct RegimeCache {
    pub config: RegimeConfig,
    pub state: RegimeState,
    /// The shape of the model in use.
    pub model: Option<ModelShape>,
}

impl RegimeCache {
    /// The posterior and the drift have their lengths.
    pub open spec fn valid(self) -> bool {
        &&& self.state.posterior@.len() == self.config.n_regimes
        &&& self.state.drift@.len() == self.config.feature_dim
    }

    /// A cache that has seen nothing. `max_entropy` is the logarithm of the number of regimes.
    /// `loaded` is the shape of the model that was found where the configuration says; a model
    /// of another shape than the configuration's is not used.
    pub fn new(config: RegimeConfig, loaded: Option<ModelShape>, max_entropy: Scalar) -> (r:
        RegimeCache)
        ensures
            r.valid(),
            r.config == config,
            r.state@ == RegimeModel::start(
                config.n_regimes as nat,
                config.feature_dim as nat,
                max_entropy,
            ),
            r.model == match loaded {
                Some(shape) => if shape.feature_dim == config.feature_dim && shape.n_regimes
                    == config.n_regimes {
                    loaded
                } else {
                    None
                },
                None => None,
            },
            r.model matches Some(shape) ==> loaded == Some(shape) && shape.feature_dim
                == config.feature_dim && shape.n_regimes == config.n_regimes,
            loaded matches Some(shape) ==> (shape.feature_dim == config.feature_dim
                && shape.n_regimes == config.n_regimes ==> r.model is Some),
    {
        let state = RegimeState::new(config.n_regimes, config.feature_dim, max_entropy);
        let model = match loaded {
            Some(shape) => if shape.feature_dim != config.feature_dim || shape.n_regimes
                != config.n_regimes {
                None
            } else {
                Some(shape)
            },
            None => None,
        };
        RegimeCache { config, state, model }
    }

    /// A cache with the default parameters and no model. `max_entropy` is the logarithm of four.
    pub fn with_defaults(max_entropy: Scalar) -> (r: RegimeCache)
        ensures
            r.valid(),
            r.config.n_regimes == 4,
            r.config.feature_dim == FeatureVector::DIM,
            r.config.unknown_regime_entropy_threshold == Scalar::of_ratio(9, 5),
            r.config.regime_ar_coeff == Scalar::of_ratio(9, 10),
            r.config.model_path is None,
            r.state@ == RegimeModel::start(4, FeatureVector::DIM as nat, max_entropy),
            r.model is None,
    {
        Self::new(RegimeConfig::default(), None, max_entropy)
    }

    /// Whether a model is in use.
    pub fn has_onnx_model(&self) -> (r: bool)
        ensures
            r == (self.model is Some),
    {
        self.model.is_some()
    }

    pub fn state(&self) -> (r: &RegimeState)
        ensures
            *r == self.state,
    {
        &self.state
    }

    pub fn config(&self) -> (r: &RegimeConfig)
        ensures
            *r == self.config,
    {
        &self.config
    }

    /// Takes in a posterior. `logs` holds the logarithms of the `normalized` posterior and of its
    /// `divergence_ratios` to an even one.
    pub fn update(&mut self, posterior: Vec<Scalar>, now_ns: u64, logs: &PosteriorLogs)
        requires
            old(self).valid(),
            posterior@.len() == old(self).config.n_regimes,
            logs.entropy@.len() == posterior@.len(),
            logs.divergence@.len() == posterior@.len(),
        ensures
            final(self).valid(),
            final(self).config == old(self).config,
            final(self).model == old(self).model,
            ({
                let p = normal(posterior@);
                let n = posterior@.len() as int;
                let entropy = entropy_of(p, logs.entropy@, n);
                final(self).state@ == RegimeModel {
                    posterior: p,
                    entropy,
                    kl_divergence: divergence_of(p, None, logs.divergence@, n),
                    drift: old(self).state@.drift,
                    is_unknown: old(self).config.unknown_regime_entropy_threshold.below(entropy),
                    last_update_ns: now_ns,
                    initialized: true,
                }
            }),
            final(self).state@ == old(self).state@.updated(
                posterior@,
                now_ns,
                logs.entropy@,
                logs.divergence@,
                old(self).config.unknown_regime_entropy_threshold,
            ),
    {
        let normal_posterior = normalized(&posterior);
        let entropy = compute_entropy(&normal_posterior, &logs.entropy);
        let kl = compute_kl_divergence(&normal_posterior, None, &logs.divergence);
        let is_unknown = entropy.gt(self.config.unknown_regime_entropy_threshold);
        self.state.posterior = normal_posterior;
        self.state.entropy = entropy;
        self.state.kl_divergence = kl;
        self.state.is_unknown = is_unknown;
        self.state.last_update_ns = now_ns;
        self.state.initialized = true;
    }

    /// Moves the drift one step on. It depends on the number of features only.
    pub fn update_drift(&mut self, features: &[Scalar])
        requires
            old(self).valid(),
            features@.len() == old(self).config.feature_dim,
        ensures
            final(self).valid(),
            final(self).config == old(self).config,
            final(self).model == old(self).model,
            final(self).state@ == (RegimeModel {
                drift: next_drift(
                    old(self).state@.posterior,
                    old(self).state@.drift,
                    old(self).config.regime_ar_coeff,
                ),
                ..old(self).state@
            }),
            final(self).state@ == old(self).state@.drifted(old(self).config.regime_ar_coeff),
    {
        self.state.drift = compute_drift(
            &self.state.posterior,
            &self.state.drift,
            features,
            self.config.regime_ar_coeff,
        );
    }

    /// Takes in the posterior that the exponentials of `posterior_exponents` give. `logs` is as
    /// for `update`.
    pub fn update_from_weights(
        &mut self,
        exponentials: &[Scalar],
        now_ns: u64,
        logs: &PosteriorLogs,
    )
        requires
            old(self).valid(),
            exponentials@.len() == old(self).config.n_regimes,
            logs.entropy@.len() == exponentials@.len(),
            logs.divergence@.len() == exponentials@.len(),
        ensures
            final(self).valid(),
            final(self).config == old(self).config,
            final(self).model == old(self).model,
            ({
                let n = exponentials@.len() as int;
                let p = normal(shares(exponentials@, linalg::running_sum(exponentials@, n)));
                let entropy = entropy_of(p, logs.entropy@, n);
                final(self).state@ == RegimeModel {
                    posterior: p,
                    entropy,
                    kl_divergence: divergence_of(p, None, logs.divergence@, n),
                    drift: old(self).state@.drift,
                    is_unknown: old(self).config.unknown_regime_entropy_threshold.below(entropy),
                    last_update_ns: now_ns,
                    initialized: true,
                }
            }),
            final(self).state@ == old(self).state@.updated(
                shares(
                    exponentials@,
                    linalg::running_sum(exponentials@, exponentials@.len() as int),
                ),
                now_ns,
                logs.entropy@,
                logs.divergence@,
                old(self).config.unknown_regime_entropy_threshold,
            ),
    {
        let posterior = compute_posterior_from_weights(exponentials);
        self.update(posterior, now_ns, logs);
    }

    /// Forgets everything. `max_entropy` is the logarithm of the number of regimes.
    pub fn reset(&mut self, max_entropy: Scalar)
        requires
            old(self).valid(),
        ensures
            final(self).valid(),
            final(self).config == old(self).config,
            final(self).model == old(self).model,
            final(self).state@ == RegimeModel::start(
                old(self).config.n_regimes as nat,
                old(self).config.feature_dim as nat,
                max_entropy,
            ),
    {
        self.state = RegimeState::new(self.config.n_regimes, self.config.feature_dim, max_entropy);
    }
}

// ---------------------------------------------------------------------------------------------
// Laws.
// ---------------------------------------------------------------------------------------------

/// Finite numbers that are not negative.
pub open spec fn all_nonnegative(parts: Seq<Scalar>) -> bool {
    forall|i: int| 0 <= i < parts.len() ==> order::nonnegative(#[trigger] parts[i])
}

/// A sum of numbers that are not negative is a number, and at least each of them.
pub(crate) proof fn sum_is_at_least_each(parts: Seq<Scalar>, k: int, i: int)
    requires
        all_nonnegative(parts),
        0 <= i < k <= parts.len(),
    ensures
        !linalg::running_sum(parts, k).nan(),
        parts[i].rank() <= linalg::running_sum(parts, k).rank(),
        linalg::running_sum(parts, k).rank() >= 0,
    decreases k,
{
    let before = linalg::running_sum(parts, k - 1);
    let x = parts[k - 1];
    order::int_is_exact(0);
    let zero = Scalar::of_int(0);
    order::order_is_order_of_values(zero, x);
    order::near_itself(zero, 1);
    if k > 1 {
        let j = if i < k - 1 {
            i
        } else {
            k - 2
        };
        sum_is_at_least_each(parts, k - 1, j);
    }
    if before.finite() {
        order::order_is_order_of_values(zero, before);
        order::plus_is_near(before, x);
        order::near_itself(before, 1);
        order::near_itself(x, 1);
        order::near_keeps_order(before.value(), 1, before.value() + x.value(), 1);
        order::near_keeps_order(x.value(), 1, before.value() + x.value(), 1);
    } else {
        reveal(Scalar::plus);
    }
}

/// Shares of numbers that are not negative are probabilities, as long as one of the numbers is
/// positive.
pub proof fn shares_are_probabilities(parts: Seq<Scalar>, positive: int, i: int)
    requires
        all_nonnegative(parts),
        0 <= positive < parts.len(),
        parts[positive].value() > 0,
        0 <= i < parts.len(),
    ensures
        ({
            let share = shares(parts, linalg::running_sum(parts, parts.len() as int))[i];
            Scalar::of_int(0).at_most(share) && share.at_most(Scalar::of_int(1))
        }),
{
    let n = parts.len() as int;
    let whole = linalg::running_sum(parts, n);
    let x = parts[i];
    sum_is_at_least_each(parts, n, i);
    sum_is_at_least_each(parts, n, positive);
    order::int_is_exact(0);
    order::int_is_exact(1);
    let zero = Scalar::of_int(0);
    let full = Scalar::of_int(1);
    let one = scalar::one_unit() as int;
    order::near_itself(zero, 1);
    order::near_itself(full, 1);
    order::order_is_order_of_values(zero, full);
    if whole.finite() {
        order::order_is_order_of_values(parts[positive], whole);
        order::order_is_order_of_values(x, whole);
        order::over_is_near(x, whole);
        assert(x.value() * one * 1 <= one * whole.value() && 0 <= x.value() * one)
            by (nonlinear_arith)
            requires
                0 <= x.value() <= whole.value(),
                one > 0,
        ;
        order::near_keeps_order(x.value() * one, whole.value() as nat, one, 1);
        order::near_keeps_order(0, 1, x.value() * one, whole.value() as nat);
    } else {
        reveal(Scalar::over);
    }
}

/// At the start no regime is favoured: all have the same probability, nothing drifts, and the
/// regime does not count as unknown.
pub proof fn a_start_favours_no_regime(n_regimes: nat, feature_dim: nat, max_entropy: Scalar, i: int, j: int)
    requires
        0 <= i < n_regimes,
        0 <= j < n_regimes,
        n_regimes < EXACT,
    ensures
        ({
            let start = RegimeModel::start(n_regimes, feature_dim, max_entropy);
            &&& start.posterior.len() == n_regimes
            &&& start.posterior[i] == start.posterior[j]
            &&& Scalar::of_int(0).at_most(start.posterior[i])
            &&& start.posterior[i].at_most(Scalar::of_int(1))
            &&& start.drift == linalg::zeros(feature_dim)
            &&& !start.is_unknown
            &&& !start.initialized
        }),
{
    crate::extractor_laws::fraction(1, n_regimes);
    order::int_is_exact(0);
    order::int_is_exact(1);
    order::order_is_order_of_values(Scalar::of_int(0), Scalar::of_ratio(1, n_regimes));
}

} // verus!
