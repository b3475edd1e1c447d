//! Snapshots of what the strategies have learnt.

use crate::bayesian_lr::QAction;
use crate::features::FeatureVector;
use crate::scalar::Scalar;
use crate::state::StrategyId;
use vstd::prelude::*;
use vstd::string::*;

verus! {

/// Version of the snapshot layout.
pub const Q_STATE_SCHEMA_VERSION: u32 = 1;

/// The number itself if it is finite, else zero.
pub open spec fn cleaned(v: Scalar) -> Scalar {
    if v.finite() {
        v
    } else {
        Scalar::of_int(0)
    }
}

/// Every number cleaned.
pub open spec fn all_cleaned(data: Seq<Scalar>) -> Seq<Scalar> {
    Seq::new(data.len(), |i: int| cleaned(data[i]))
}

fn sanitize_scalar(v: Scalar) -> (r: Scalar)
    ensures
        r == cleaned(v),
{
    if v.is_nan() || v.is_infinite() {
        Scalar::from_u64(0)
    } else {
        v
    }
}

fn sanitize_vec(data: &[Scalar]) -> (r: Vec<Scalar>)
    ensures
        r@ == all_cleaned(data@),
{
    let mut r: Vec<Scalar> = Vec::new();
    let mut i: usize = 0;
    while i < data.len()
        invariant
            i <= data@.len(),
            r@ == all_cleaned(data@.take(i as int)),
        decreases data@.len() - i,
    {
        r.push(sanitize_scalar(data[i]));
        i = i + 1;
        assert(r@ =~= all_cleaned(data@.take(i as int)));
    }
    assert(data@.take(i as int) =~= data@);
    r
}

/// A vector, with its length.
#[derive(Debug, Clone, PartialEq)]
pub struct VectorSnapshot {
    pub len: usize,
    pub data: Vec<Scalar>,
}

impl VectorSnapshot {
    /// A snapshot of a vector; what is not finite becomes zero.
    pub fn from_vec(data: Vec<Scalar>) -> (r: VectorSnapshot)
        ensures
            r.len == data@.len(),
            r.data@ == all_cleaned(data@),
    {
        VectorSnapshot { len: data.len(), data: sanitize_vec(&data) }
    }
}

/// A matrix in column-major order, with its shape.
#[derive(Debug, Clone, PartialEq)]
pub struct MatrixSnapshot {
    pub rows: usize,
    pub cols: usize,
    pub data: Vec<Scalar>,
}

impl MatrixSnapshot {
    /// A snapshot of a matrix; what is not finite becomes zero.
    pub fn from_column_major(rows: usize, cols: usize, data: Vec<Scalar>) -> (r: MatrixSnapshot)
        ensures
            r.rows == rows,
            r.cols == cols,
            r.data@ == all_cleaned(data@),
    {
        MatrixSnapshot { rows, cols, data: sanitize_vec(&data) }
    }
}

/// The state of one regression.
#[derive(Debug, Clone, PartialEq)]
pub struct BayesianLinearRegressionSnapshot {
    pub dim: usize,
    pub posterior_mean: VectorSnapshot,
    pub posterior_covariance: MatrixSnapshot,
    pub precision_inverse: MatrixSnapshot,
    pub b_vector: VectorSnapshot,
    pub sigma2_noise: Scalar,
    pub ema_alpha: Scalar,
    pub residual_var_ema: Scalar,
    pub lambda_reg: Scalar,
    pub prev_w_norm: Scalar,
    pub n_observations: usize,
    pub divergence_threshold: Scalar,
}

/// The least value that a variance or a regularization strength is cleaned to.
pub open spec fn least_positive() -> Scalar {
    Scalar::of_ratio(1, 10_000_000_000)
}

impl BayesianLinearRegressionSnapshot {
    /// The snapshot with its single numbers cleaned; the variances and the regularization
    /// strength also get a least value.
    pub open spec fn sanitized(self) -> BayesianLinearRegressionSnapshot {
        BayesianLinearRegressionSnapshot {
            sigma2_noise: cleaned(self.sigma2_noise).greater(least_positive()),
            ema_alpha: cleaned(self.ema_alpha),
            residual_var_ema: cleaned(self.residual_var_ema).greater(least_positive()),
            lambda_reg: cleaned(self.lambda_reg).greater(least_positive()),
            prev_w_norm: cleaned(self.prev_w_norm),
            divergence_threshold: cleaned(self.divergence_threshold),
            ..self
        }
    }

    /// Cleans the single numbers.
    pub fn sanitize(&mut self)
        ensures
            *final(self) == old(self).sanitized(),
    {
        let least = Scalar::ratio(1, 10_000_000_000);
        self.sigma2_noise = sanitize_scalar(self.sigma2_noise).max(least);
        self.ema_alpha = sanitize_scalar(self.ema_alpha);
        self.residual_var_ema = sanitize_scalar(self.residual_var_ema).max(least);
        self.lambda_reg = sanitize_scalar(self.lambda_reg).max(least);
        self.prev_w_norm = sanitize_scalar(self.prev_w_norm);
        self.divergence_threshold = sanitize_scalar(self.divergence_threshold);
    }
}

/// The state of the regression of one action.
#[derive(Debug, Clone, PartialEq)]
pub struct ActionQStateSnapshot {
    pub action: QAction,
    pub model: BayesianLinearRegressionSnapshot,
}

/// The state of a Q-function.
#[derive(Debug, Clone, PartialEq)]
pub struct QFunctionSnapshot {
    pub dim: usize,
    pub initial_sigma2: Scalar,
    pub optimistic_bias: Scalar,
    pub actions: Vec<ActionQStateSnapshot>,
}

/// Every action with its model sanitized.
pub open spec fn actions_sanitized(actions: Seq<ActionQStateSnapshot>) -> Seq<ActionQStateSnapshot> {
    Seq::new(
        actions.len(),
        |i: int|
            ActionQStateSnapshot { action: actions[i].action, model: actions[i].model.sanitized() },
    )
}

impl QFunctionSnapshot {
    /// `self` is `before` with every model sanitized.
    pub open spec fn sanitized_from(self, before: QFunctionSnapshot) -> bool {
        &&& self.dim == before.dim
        &&& self.initial_sigma2 == before.initial_sigma2
        &&& self.optimistic_bias == before.optimistic_bias
        &&& self.actions@ == actions_sanitized(before.actions@)
    }

    /// Cleans the single numbers of every model.
    fn sanitize(&mut self)
        ensures
            final(self).sanitized_from(*old(self)),
    {
        let ghost before = *self;
        let mut i: usize = 0;
        while i < self.actions.len()
            invariant
                i <= self.actions@.len(),
                self.actions@.len() == before.actions@.len(),
                self.dim == before.dim,
                self.initial_sigma2 == before.initial_sigma2,
                self.optimistic_bias == before.optimistic_bias,
                forall|j: int|
                    0 <= j < i ==> self.actions@[j] == actions_sanitized(before.actions@)[j],
                forall|j: int| i <= j < self.actions@.len() ==> self.actions@[j]
                    == before.actions@[j],
            decreases self.actions@.len() - i,
        {
            self.actions[i].model.sanitize();
            i = i + 1;
        }
        assert(self.actions@ =~= actions_sanitized(before.actions@));
    }
}

/// The state of one strategy.
#[derive(Debug, Clone, PartialEq)]
pub struct StrategyQStateSnapshot {
    pub strategy_id: StrategyId,
    pub q_function: QFunctionSnapshot,
}

/// The state of a set of strategies.
#[derive(Debug, Clone, PartialEq)]
pub struct StrategySetQStateSnapshot {
    pub schema_version: u32,
    pub feature_schema_version: String,
    pub strategies: Vec<StrategyQStateSnapshot>,
}

/// The snapshots of one strategy, in their order.
pub open spec fn only(
    strategies: Seq<StrategyQStateSnapshot>,
    strategy_id: StrategyId,
) -> Seq<StrategyQStateSnapshot> {
    strategies.filter(|snapshot: StrategyQStateSnapshot| snapshot.strategy_id == strategy_id)
}

impl StrategySetQStateSnapshot {
    /// A set of snapshots: those of strategy A first, then B, then C, each in their given order.
    pub fn new(strategies: Vec<StrategyQStateSnapshot>) -> (r: StrategySetQStateSnapshot)
        ensures
            r.schema_version == Q_STATE_SCHEMA_VERSION,
            r.feature_schema_version@ == FeatureVector::SCHEMA_VERSION@,
            r.strategies@ == only(strategies@, StrategyId::A) + only(strategies@, StrategyId::B)
                + only(strategies@, StrategyId::C),
    {
        let mut rest = strategies;
        let ghost all = rest@;
        let mut of_a: Vec<StrategyQStateSnapshot> = Vec::new();
        let mut of_b: Vec<StrategyQStateSnapshot> = Vec::new();
        let mut of_c: Vec<StrategyQStateSnapshot> = Vec::new();
        let ghost mut seen: int = 0;
        assert(all.take(0) =~= Seq::empty());
        proof {
            reveal(Seq::filter);
        }
        while rest.len() > 0
            invariant
                0 <= seen <= all.len(),
                rest@ == all.skip(seen),
                of_a@ == only(all.take(seen), StrategyId::A),
                of_b@ == only(all.take(seen), StrategyId::B),
                of_c@ == only(all.take(seen), StrategyId::C),
            decreases rest@.len(),
        {
            let snapshot = rest.remove(0);
            proof {
                reveal(Seq::filter);
                assert(all.take(seen + 1).drop_last() =~= all.take(seen));
                assert(all.take(seen + 1).last() == snapshot);
                seen = seen + 1;
                assert(rest@ =~= all.skip(seen));
            }
            match snapshot.strategy_id {
                StrategyId::A => of_a.push(snapshot),
                StrategyId::B => of_b.push(snapshot),
                StrategyId::C => of_c.push(snapshot),
            }
        }
        proof {
            assert(all.take(seen) =~= all);
        }
        of_a.append(&mut of_b);
        of_a.append(&mut of_c);
        StrategySetQStateSnapshot {
            schema_version: Q_STATE_SCHEMA_VERSION,
            feature_schema_version: String::from_str(FeatureVector::SCHEMA_VERSION),
            strategies: of_a,
        }
    }

    /// Cleans the single numbers of every model.
    pub fn sanitize(&mut self)
        ensures
            final(self).schema_version == old(self).schema_version,
            final(self).feature_schema_version == old(self).feature_schema_version,
            final(self).strategies@.len() == old(self).strategies@.len(),
            forall|i: int|
                #![trigger final(self).strategies@[i]]
                0 <= i < old(self).strategies@.len() ==> final(self).strategies@[i].strategy_id
                    == old(self).strategies@[i].strategy_id
                    && final(self).strategies@[i].q_function.sanitized_from(
                    old(self).strategies@[i].q_function,
                ),
    {
        let ghost before = *self;
        let mut i: usize = 0;
        while i < self.strategies.len()
            invariant
                i <= self.strategies@.len(),
                self.strategies@.len() == before.strategies@.len(),
                self.schema_version == before.schema_version,
                self.feature_schema_version == before.feature_schema_version,
                forall|j: int|
                    #![trigger self.strategies@[j]]
                    0 <= j < i ==> self.strategies@[j].strategy_id
                        == before.strategies@[j].strategy_id
                        && self.strategies@[j].q_function.sanitized_from(
                        before.strategies@[j].q_function,
                    ),
                forall|j: int|
                    i <= j < self.strategies@.len() ==> self.strategies@[j]
                        == before.strategies@[j],
            decreases self.strategies@.len() - i,
        {
            self.strategies[i].q_function.sanitize();
            i = i + 1;
        }
    }

    /// The first snapshot of a strategy.
    pub fn strategy(&self, strategy_id: StrategyId) -> (r: Option<&StrategyQStateSnapshot>)
        ensures
            r is None <==> forall|i: int|
                0 <= i < self.strategies@.len() ==> self.strategies@[i].strategy_id != strategy_id,
            r matches Some(snapshot) ==> snapshot.strategy_id == strategy_id && exists|i: int|
                0 <= i < self.strategies@.len() && *snapshot == #[trigger] self.strategies@[i]
                    && forall|j: int|
                    0 <= j < i ==> self.strategies@[j].strategy_id != strategy_id,
    {
        let mut i: usize = 0;
        while i < self.strategies.len()
            invariant
                i <= self.strategies@.len(),
                forall|j: int| 0 <= j < i ==> self.strategies@[j].strategy_id != strategy_id,
            decreases self.strategies@.len() - i,
        {
            if self.strategies[i].strategy_id == strategy_id {
                assert(self.strategies@[i as int].strategy_id == strategy_id);
                return Some(&self.strategies[i]);
            }
            i = i + 1;
        }
        None
    }
}

/// How a snapshot is stored in a file.
#[derive(Debug, Clone, Copy, PartialEq, Eq, Structural)]
pub enum QStateFileFormat {
    Json,
    Binary,
}

/// A letter between `A` and `Z` in lower case; any other character as it is.
pub open spec fn lower(c: char) -> char {
    if 'A' <= c <= 'Z' {
        (c as int + 32) as char
    } else {
        c
    }
}

/// The text with its letters between `A` and `Z` in lower case.
pub open spec fn lowered(text: Seq<char>) -> Seq<char> {
    Seq::new(text.len(), |i: int| lower(text[i]))
}

/// Whether `text` is `word`, a word in lower case, in whatever case.
fn is_word(text: &str, word: &str) -> (r: bool)
    ensures
        r <==> lowered(text@) == word@,
{
    let n = text.unicode_len();
    if n != word.unicode_len() {
        return false;
    }
    let mut i: usize = 0;
    while i < n
        invariant
            n == text@.len(),
            n == word@.len(),
            i <= n,
            forall|j: int| 0 <= j < i ==> lower(text@[j]) == word@[j],
        decreases n - i,
    {
        let c = text.get_char(i);
        let w = word.get_char(i);
        let same = if c >= 'A' && c <= 'Z' {
            w as u32 == c as u32 + 32
        } else {
            w == c
        };
        if !same {
            assert(lowered(text@)[i as int] != word@[i as int]);
            return false;
        }
        i = i + 1;
    }
    assert(lowered(text@) =~= word@);
    true
}

/// The letters in lower case stand in their order.
proof fn the_alphabet(k: int)
    requires
        0 <= k < 26,
    ensures
        "abcdefghijklmnopqrstuvwxyz"@.len() == 26,
        "abcdefghijklmnopqrstuvwxyz"@[k] == (97 + k) as char,
{
    reveal_strlit("abcdefghijklmnopqrstuvwxyz");
}

/// The text with its letters between `A` and `Z` in lower case.
fn in_lower_case(text: &str) -> (r: String)
    ensures
        r@ == lowered(text@),
{
    let n = text.unicode_len();
    let mut r = String::new();
    let mut i: usize = 0;
    while i < n
        invariant
            n == text@.len(),
            i <= n,
            r@ == lowered(text@).take(i as int),
        decreases n - i,
    {
        let c = text.get_char(i);
        let letters = "abcdefghijklmnopqrstuvwxyz";
        if c >= 'A' && c <= 'Z' {
            let k = (c as u32 - 65) as usize;
            proof {
                the_alphabet(k as int);
            }
            r.append(letters.substring_char(k, k + 1));
        } else {
            r.append(text.substring_char(i, i + 1));
        }
        assert(r@ =~= lowered(text@).take(i + 1));
        i = i + 1;
    }
    assert(r@ =~= lowered(text@));
    r
}

impl QStateFileFormat {
    /// What is said of an extension that is refused. It names the extension in lower case.
    pub open spec fn refusal_text(extension: Seq<char>) -> Seq<char> {
        "Unsupported q-state file extension '."@ + lowered(extension)
            + "'. Use .json, .bin, or .bincode."@
    }

    fn refusal(extension: &str) -> (r: String)
        ensures
            r@ == QStateFileFormat::refusal_text(extension@),
    {
        let mut r = String::from_str("Unsupported q-state file extension '.");
        r.append(in_lower_case(extension).as_str());
        r.append("'. Use .json, .bin, or .bincode.");
        r
    }

    /// The format that a file extension stands for, in whatever case: `json`, or no extension,
    /// for JSON, `bin` and `bincode` for binary. Any other is refused, with a message.
    pub fn from_extension(extension: Option<&str>) -> (r: Result<QStateFileFormat, String>)
        ensures
            match extension {
                None => r == Ok::<QStateFileFormat, String>(QStateFileFormat::Json),
                Some(text) => if lowered(text@) == "json"@ {
                    r == Ok::<QStateFileFormat, String>(QStateFileFormat::Json)
                } else if lowered(text@) == "bin"@ || lowered(text@) == "bincode"@ {
                    r == Ok::<QStateFileFormat, String>(QStateFileFormat::Binary)
                } else {
                    r matches Err(message) && message@ == QStateFileFormat::refusal_text(text@)
                },
            },
    {
        match extension {
            None => Ok(QStateFileFormat::Json),
            Some(text) => if is_word(text, "json") {
                Ok(QStateFileFormat::Json)
            } else if is_word(text, "bin") || is_word(text, "bincode") {
                Ok(QStateFileFormat::Binary)
            } else {
                Err(QStateFileFormat::refusal(text))
            },
        }
    }
}

} // verus!
