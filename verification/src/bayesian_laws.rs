//! Laws of the regression and the Q-function.

use crate::bayesian_lr;
use crate::bayesian_lr::{BayesianLinearRegression, QAction, QFunction, UpdateResult};
use crate::linalg;
use crate::order;
use crate::q_state;
use crate::q_state::{BayesianLinearRegressionSnapshot, QFunctionSnapshot};
use crate::scalar;
use crate::scalar::Scalar;
use vstd::arithmetic::mul::*;
use vstd::prelude::*;

verus! {

/// Every entry is a finite number.
pub open spec fn all_finite(a: Seq<Scalar>) -> bool {
    forall|i: int| 0 <= i < a.len() ==> (#[trigger] a[i]).finite()
}

/// The parameters are in the ranges that a constructor gives them.
pub open spec fn sound_numbers(m: BayesianLinearRegression) -> bool {
    let zero = Scalar::of_int(0);
    &&& zero.below(m.lambda_reg)
    &&& zero.below(m.sigma2_noise)
    &&& zero.below(m.residual_var_ema)
    &&& zero.below(m.ema_alpha)
    &&& m.ema_alpha.at_most(Scalar::of_int(1))
    &&& zero.below(m.divergence_threshold)
}

/// Nothing has overflowed, here or in the covariance that a snapshot stores.
pub open spec fn no_overflow(m: BayesianLinearRegression) -> bool {
    &&& all_finite(m.a_inv@)
    &&& all_finite(m.b@)
    &&& all_finite(m.w_hat@)
    &&& all_finite(linalg::scaled(m.a_inv@, m.sigma2_noise))
}

/// Two regressions hold the same.
pub open spec fn same_model(a: BayesianLinearRegression, b: BayesianLinearRegression) -> bool {
    &&& a.same_parameters(b)
    &&& a.same_noise(b)
    &&& a.a_inv@ == b.a_inv@
    &&& a.b@ == b.b@
    &&& a.w_hat@ == b.w_hat@
    &&& a.prev_w_norm == b.prev_w_norm
    &&& a.n_observations == b.n_observations
}

proof fn zero_is_zero()
    ensures
        Scalar::of_int(0) == (Scalar { bits: 0 }),
{
    order::int_is_exact(0);
    let z = Scalar::of_int(0);
    if z.mag() > 0 {
        crate::rounding::units_increase(0, z.mag());
    }
}

/// A quotient of positive integers is not below zero.
proof fn ratio_is_not_negative(x: nat, y: nat)
    requires
        x < crate::rounding::EXACT,
        0 < y < crate::rounding::EXACT,
    ensures
        !Scalar::of_ratio(x, y).nan(),
        Scalar::of_ratio(x, y).rank() >= 0,
{
    order::int_is_exact(x);
    order::int_is_exact(y);
    let a = Scalar::of_int(x);
    let b = Scalar::of_int(y);
    vstd::arithmetic::mul::lemma_mul_strictly_positive(y as int, scalar::one_unit() as int);
    vstd::arithmetic::mul::lemma_mul_nonnegative(x as int, scalar::one_unit() as int);
    vstd::arithmetic::mul::lemma_mul_nonnegative(a.value(), scalar::one_unit() as int);
    order::over_is_near(a, b);
}

/// A finite number minus itself is zero.
proof fn minus_itself(a: Scalar)
    requires
        a.finite(),
    ensures
        a.minus(a) == Scalar::of_int(0),
{
    reveal(Scalar::plus);
    zero_is_zero();
    order::negated_value(a);
}

/// Numbers are at no distance from themselves.
proof fn no_distance(a: Seq<Scalar>, n: int)
    requires
        0 <= n <= a.len(),
        all_finite(a),
    ensures
        linalg::greatest_distance(a, a, n) == Scalar::of_int(0),
    decreases n,
{
    zero_is_zero();
    if n > 0 {
        no_distance(a, n - 1);
        minus_itself(a[n - 1]);
    }
}

/// A snapshot of a regression is accepted, and what is restored from it holds the same.
pub proof fn snapshot_restores_the_regression(
    m: BayesianLinearRegression,
    s: BayesianLinearRegressionSnapshot,
    restored: BayesianLinearRegression,
)
    requires
        m.valid(),
        m.dim > 0,
        m.settled(),
        sound_numbers(m),
        no_overflow(m),
        m.stored_in(s),
    ensures
        bayesian_lr::fault(s) is None,
        restored.restored_from(s) ==> same_model(restored, m),
{
    assert(q_state::all_cleaned(m.w_hat@) =~= m.w_hat@);
    assert(q_state::all_cleaned(m.a_inv@) =~= m.a_inv@);
    assert(q_state::all_cleaned(m.b@) =~= m.b@);
    let covariance = linalg::scaled(m.a_inv@, m.sigma2_noise);
    assert(q_state::all_cleaned(covariance) =~= covariance);
    no_distance(covariance, covariance.len() as int);
    no_distance(m.w_hat@, m.w_hat@.len() as int);
    ratio_is_not_negative(1, 1_000_000_000);
    zero_is_zero();
}

/// A row of numbers that are not negative, times zeros, is zero.
proof fn zero_row(m: Seq<Scalar>, rows: int, i: int, columns: int)
    requires
        0 <= i < rows,
        0 <= columns <= rows,
        m.len() == rows * rows,
        forall|p: int| 0 <= p < m.len() ==> (#[trigger] m[p]).finite() && !m[p].neg(),
    ensures
        linalg::row_product(m, rows, linalg::zeros(rows as nat), i, columns) == Scalar::of_int(0),
    decreases columns,
{
    zero_is_zero();
    let zero = Scalar::of_int(0);
    if columns > 0 {
        let p = (columns - 1) * rows + i;
        assert(0 <= p < rows * rows) by (nonlinear_arith)
            requires
                p == (columns - 1) * rows + i,
                0 <= i < rows,
                1 <= columns <= rows,
        ;
        let x = m[p];
        assert(x.times(zero) == zero) by {
            reveal(Scalar::times);
            lemma_mul_basics(x.count() as int);
            vstd::arithmetic::power2::lemma_pow2_pos(scalar::UNIT_EXPONENT as nat);
            lemma_mul_basics(scalar::one_unit() as int);
            crate::rounding::round_mag_exact(0, scalar::one_unit());
        }
        if columns > 1 {
            zero_row(m, rows, i, columns - 1);
            assert(zero.plus(zero) == zero) by {
                reveal(Scalar::plus);
            }
        } else {
            lemma_mul_basics(rows);
        }
    }
}

/// A regression that has observed nothing is settled, with a bias or without one, and so is one
/// after an observation.
pub proof fn starts_and_observations_are_settled(
    m: BayesianLinearRegression,
    before: BayesianLinearRegression,
    action: QAction,
    bias: Scalar,
    phi: Seq<Scalar>,
    y: Scalar,
    r: UpdateResult,
)
    requires
        m.valid(),
        Scalar::of_int(0).below(m.lambda_reg),
        all_finite(m.a_inv@),
        m.at_prior() || bayesian_lr::starts(m, action, bias) || m.observed(before, phi, y, r),
    ensures
        m.settled(),
{
    if m.at_prior() {
        zero_is_zero();
        order::int_is_exact(1);
        let dim = m.dim as int;
        let product = linalg::product(m.a_inv@, m.b@);
        assert forall|p: int| 0 <= p < m.a_inv@.len() implies (#[trigger] m.a_inv@[p]).finite()
            && !m.a_inv@[p].neg() by {
            reveal(Scalar::over);
        }
        assert forall|i: int| 0 <= i < dim implies product[i] == Scalar::of_int(0) by {
            zero_row(m.a_inv@, dim, i, dim);
        }
        assert(product =~= m.w_hat@);
    }
}

/// A snapshot of a Q-function is accepted, and what is restored from it holds the same for every
/// action.
pub proof fn snapshot_restores_the_q_function(q: QFunction, s: QFunctionSnapshot, restored: QFunction)
    requires
        q.valid(),
        q.dim > 0,
        !q.initial_sigma2.at_most(Scalar::of_int(0)),
        forall|action: QAction|
            {
                let m = #[trigger] q.of(action);
                m.settled() && sound_numbers(m) && no_overflow(m)
            },
        q.stored_in(s),
    ensures
        bayesian_lr::q_function_fault(s) is None,
        restored.restored_from(s) ==> restored.same_setup(q) && forall|action: QAction|
            same_model(#[trigger] restored.of(action), q.of(action)),
{
    let actions = s.actions@;
    assert(q.of(QAction::Buy).settled());
    assert(q.of(QAction::Sell).settled());
    assert(q.of(QAction::Hold).settled());
    snapshot_restores_the_regression(q.buy, actions[0].model, restored.buy);
    snapshot_restores_the_regression(q.sell, actions[1].model, restored.sell);
    snapshot_restores_the_regression(q.hold, actions[2].model, restored.hold);
    reveal_with_fuel(bayesian_lr::action_fault, 4);
    if restored.restored_from(s) {
        assert(restored.of(actions[0].action).restored_from(actions[0].model));
        assert(restored.of(actions[1].action).restored_from(actions[1].model));
        assert(restored.of(actions[2].action).restored_from(actions[2].model));
    }
}

/// After an observation the noise variance is at least 1e-10, whatever was observed.
pub proof fn noise_variance_has_a_floor(
    after: BayesianLinearRegression,
    before: BayesianLinearRegression,
    phi: Seq<Scalar>,
    y: Scalar,
    r: UpdateResult,
)
    requires
        after.observed(before, phi, y, r),
    ensures
        Scalar::of_ratio(1, 10_000_000_000).at_most(after.sigma2_noise),
{
    ratio_is_not_negative(1, 10_000_000_000);
}

/// A posterior variance is never negative, and neither is the deviation.
pub proof fn posterior_variance_is_not_negative(m: BayesianLinearRegression, phi: Seq<Scalar>)
    ensures
        Scalar::of_int(0).at_most(m.variance(phi)),
        Scalar::of_int(0).at_most(m.variance(phi).root()),
{
    zero_is_zero();
    reveal(Scalar::root);
}

/// Two regressions that start alike hold the same: a reset undoes every observation.
pub proof fn a_start_is_unique(
    a: BayesianLinearRegression,
    b: BayesianLinearRegression,
    action: QAction,
    bias: Scalar,
)
    requires
        bayesian_lr::starts(a, action, bias),
        bayesian_lr::starts(b, action, bias),
        a.same_parameters(b),
        a.same_noise(b),
    ensures
        same_model(a, b),
{
}

/// Two numbers that are zero have a sum that is zero.
proof fn zeros_add(a: Scalar, b: Scalar)
    requires
        a.zero(),
        b.zero(),
    ensures
        a.plus(b).zero(),
{
    reveal(Scalar::plus);
}

/// A finite number times zero is zero.
proof fn zero_times(a: Scalar, b: Scalar)
    requires
        a.zero(),
        b.finite(),
    ensures
        a.times(b).zero(),
{
    reveal(Scalar::times);
    vstd::arithmetic::power2::lemma_pow2_pos(scalar::UNIT_EXPONENT as nat);
    vstd::arithmetic::mul::lemma_mul_basics(b.count() as int);
    crate::rounding::round_mag_exact(0, scalar::one_unit());
    vstd::arithmetic::mul::lemma_mul_basics(scalar::one_unit() as int);
}

proof fn zero_lane(a: Seq<Scalar>, b: Seq<Scalar>, k: int, blocks: int)
    requires
        0 <= k < 8,
        blocks <= a.len() / 8,
        a.len() == b.len(),
        forall|i: int| 0 <= i < a.len() ==> (#[trigger] a[i]).zero(),
        all_finite(b),
    ensures
        linalg::lane(a, b, k, blocks).zero(),
    decreases blocks,
{
    zero_is_zero();
    if blocks > 0 {
        zero_lane(a, b, k, blocks - 1);
        let i = 8 * (blocks - 1) + k;
        zero_times(a[i], b[i]);
        zeros_add(linalg::lane(a, b, k, blocks - 1), a[i].times(b[i]));
    }
}

proof fn zero_trailing(start: Scalar, a: Seq<Scalar>, b: Seq<Scalar>, from: int, to: int)
    requires
        start.zero(),
        0 <= from,
        to <= a.len(),
        a.len() == b.len(),
        forall|i: int| 0 <= i < a.len() ==> (#[trigger] a[i]).zero(),
        all_finite(b),
    ensures
        linalg::trailing(start, a, b, from, to).zero(),
    decreases to - from,
{
    if to > from {
        zero_trailing(start, a, b, from, to - 1);
        zero_times(a[to - 1], b[to - 1]);
        zeros_add(linalg::trailing(start, a, b, from, to - 1), a[to - 1].times(b[to - 1]));
    }
}

/// A regression without a bias that has observed nothing estimates zero.
pub proof fn unlearnt_estimate_is_zero(m: BayesianLinearRegression, phi: Seq<Scalar>)
    requires
        m.valid(),
        m.at_prior(),
        phi.len() == m.dim,
        all_finite(phi),
    ensures
        m.estimate(phi).zero(),
{
    zero_is_zero();
    let w = m.w_hat@;
    let n = w.len() as int;
    let blocks = n / 8;
    zero_lane(w, phi, 0, blocks);
    zero_lane(w, phi, 1, blocks);
    zero_lane(w, phi, 2, blocks);
    zero_lane(w, phi, 3, blocks);
    zero_lane(w, phi, 4, blocks);
    zero_lane(w, phi, 5, blocks);
    zero_lane(w, phi, 6, blocks);
    zero_lane(w, phi, 7, blocks);
    let l0 = linalg::lane(w, phi, 0, blocks).plus(linalg::lane(w, phi, 4, blocks));
    let l1 = linalg::lane(w, phi, 1, blocks).plus(linalg::lane(w, phi, 5, blocks));
    let l2 = linalg::lane(w, phi, 2, blocks).plus(linalg::lane(w, phi, 6, blocks));
    let l3 = linalg::lane(w, phi, 3, blocks).plus(linalg::lane(w, phi, 7, blocks));
    zeros_add(linalg::lane(w, phi, 0, blocks), linalg::lane(w, phi, 4, blocks));
    zeros_add(linalg::lane(w, phi, 1, blocks), linalg::lane(w, phi, 5, blocks));
    zeros_add(linalg::lane(w, phi, 2, blocks), linalg::lane(w, phi, 6, blocks));
    zeros_add(linalg::lane(w, phi, 3, blocks), linalg::lane(w, phi, 7, blocks));
    let zero = Scalar::of_int(0);
    zeros_add(zero, l0);
    zeros_add(zero.plus(l0), l1);
    zeros_add(zero.plus(l0).plus(l1), l2);
    zeros_add(zero.plus(l0).plus(l1).plus(l2), l3);
    zero_trailing(zero.plus(l0).plus(l1).plus(l2).plus(l3), w, phi, 8 * blocks, n);
}

/// A finite number times one is itself.
pub proof fn times_one(a: Scalar)
    requires
        a.finite(),
    ensures
        a.times(Scalar::of_int(1)) == a,
{
    reveal(Scalar::times);
    order::int_is_exact(1);
    vstd::arithmetic::mul::lemma_mul_basics(scalar::one_unit() as int);
    crate::rounding::round_mag_exact(a.mag(), scalar::one_unit());
}

/// Widening the covariances by one changes nothing that has not overflowed.
pub proof fn inflating_by_one_changes_nothing(
    after: BayesianLinearRegression,
    before: BayesianLinearRegression,
)
    requires
        all_finite(before.a_inv@),
        after.inflated(before, Scalar::of_int(1)),
    ensures
        same_model(after, before),
{
    assert forall|i: int| 0 <= i < before.a_inv@.len() implies before.a_inv@[i].times(
        Scalar::of_int(1),
    ) == before.a_inv@[i] by {
        times_one(before.a_inv@[i]);
    }
    assert(after.a_inv@ =~= before.a_inv@);
}

/// Widening the covariances leaves every point estimate as it was.
pub proof fn inflating_keeps_estimates(
    after: BayesianLinearRegression,
    before: BayesianLinearRegression,
    factor: Scalar,
    phi: Seq<Scalar>,
)
    requires
        after.inflated(before, factor),
    ensures
        after.estimate(phi) == before.estimate(phi),
{
}

// ---------------------------------------------------------------------------------------------
// The start favours trading.
// ---------------------------------------------------------------------------------------------

/// At least zero, perhaps infinite.
spec fn at_least_zero(x: Scalar) -> bool {
    !x.nan() && x.rank() >= 0
}

/// A product of finite numbers that are not negative is at least zero.
proof fn product_at_least_zero(a: Scalar, b: Scalar)
    requires
        order::nonnegative(a),
        order::nonnegative(b),
    ensures
        at_least_zero(a.times(b)),
{
    order::int_is_exact(0);
    let zero = Scalar::of_int(0);
    order::no_negative_rank(zero);
    let one = scalar::one_unit();
    order::times_is_near(a, b);
    order::near_itself(zero, one);
    lemma_mul_nonnegative(a.value(), b.value());
    lemma_mul_nonnegative(a.value() * b.value(), one as int);
    order::near_keeps_order(0, one, a.value() * b.value(), one);
}

/// A sum of numbers that are at least zero is at least zero.
proof fn sum_at_least_zero(a: Scalar, b: Scalar)
    requires
        at_least_zero(a),
        at_least_zero(b),
    ensures
        at_least_zero(a.plus(b)),
{
    order::int_is_exact(0);
    let zero = Scalar::of_int(0);
    order::no_negative_rank(zero);
    if a.finite() && b.finite() {
        order::order_is_order_of_values(zero, a);
        order::order_is_order_of_values(zero, b);
        order::plus_is_near(a, b);
        order::near_itself(zero, 1);
        order::near_keeps_order(0, 1, a.value() + b.value(), 1);
    } else {
        reveal(Scalar::plus);
    }
}

/// Every entry is finite and not negative.
pub open spec fn all_at_least_zero(a: Seq<Scalar>) -> bool {
    forall|i: int| 0 <= i < a.len() ==> order::nonnegative(#[trigger] a[i])
}

proof fn lane_at_least_zero(a: Seq<Scalar>, b: Seq<Scalar>, k: int, blocks: int)
    requires
        all_at_least_zero(a),
        all_at_least_zero(b),
        a.len() == b.len(),
        0 <= k < 8,
        8 * blocks <= a.len(),
    ensures
        at_least_zero(linalg::lane(a, b, k, blocks)),
    decreases blocks,
{
    order::int_is_exact(0);
    order::no_negative_rank(Scalar::of_int(0));
    if blocks > 0 {
        let i = 8 * (blocks - 1) + k;
        lane_at_least_zero(a, b, k, blocks - 1);
        assert(order::nonnegative(a[i]) && order::nonnegative(b[i]));
        product_at_least_zero(a[i], b[i]);
        sum_at_least_zero(linalg::lane(a, b, k, blocks - 1), a[i].times(b[i]));
    }
}

proof fn trailing_at_least_zero(
    start: Scalar,
    a: Seq<Scalar>,
    b: Seq<Scalar>,
    from: int,
    to: int,
)
    requires
        at_least_zero(start),
        all_at_least_zero(a),
        all_at_least_zero(b),
        a.len() == b.len(),
        0 <= from,
        to <= a.len(),
    ensures
        at_least_zero(linalg::trailing(start, a, b, from, to)),
    decreases to - from,
{
    if from < to {
        trailing_at_least_zero(start, a, b, from, to - 1);
        assert(order::nonnegative(a[to - 1]) && order::nonnegative(b[to - 1]));
        product_at_least_zero(a[to - 1], b[to - 1]);
        sum_at_least_zero(
            linalg::trailing(start, a, b, from, to - 1),
            a[to - 1].times(b[to - 1]),
        );
    }
}

/// The dot product of vectors without a negative entry is at least zero.
proof fn dot_at_least_zero(a: Seq<Scalar>, b: Seq<Scalar>)
    requires
        all_at_least_zero(a),
        all_at_least_zero(b),
        a.len() == b.len(),
    ensures
        at_least_zero(linalg::dot_product(a, b)),
{
    order::int_is_exact(0);
    let zero = Scalar::of_int(0);
    order::no_negative_rank(zero);
    let n = a.len() as int;
    let blocks = n / 8;
    lane_at_least_zero(a, b, 0, blocks);
    lane_at_least_zero(a, b, 1, blocks);
    lane_at_least_zero(a, b, 2, blocks);
    lane_at_least_zero(a, b, 3, blocks);
    lane_at_least_zero(a, b, 4, blocks);
    lane_at_least_zero(a, b, 5, blocks);
    lane_at_least_zero(a, b, 6, blocks);
    lane_at_least_zero(a, b, 7, blocks);
    let l0 = linalg::lane(a, b, 0, blocks).plus(linalg::lane(a, b, 4, blocks));
    let l1 = linalg::lane(a, b, 1, blocks).plus(linalg::lane(a, b, 5, blocks));
    let l2 = linalg::lane(a, b, 2, blocks).plus(linalg::lane(a, b, 6, blocks));
    let l3 = linalg::lane(a, b, 3, blocks).plus(linalg::lane(a, b, 7, blocks));
    sum_at_least_zero(linalg::lane(a, b, 0, blocks), linalg::lane(a, b, 4, blocks));
    sum_at_least_zero(linalg::lane(a, b, 1, blocks), linalg::lane(a, b, 5, blocks));
    sum_at_least_zero(linalg::lane(a, b, 2, blocks), linalg::lane(a, b, 6, blocks));
    sum_at_least_zero(linalg::lane(a, b, 3, blocks), linalg::lane(a, b, 7, blocks));
    sum_at_least_zero(zero, l0);
    sum_at_least_zero(zero.plus(l0), l1);
    sum_at_least_zero(zero.plus(l0).plus(l1), l2);
    sum_at_least_zero(zero.plus(l0).plus(l1).plus(l2), l3);
    trailing_at_least_zero(zero.plus(l0).plus(l1).plus(l2).plus(l3), a, b, 8 * blocks, n);
}

proof fn row_at_least_zero(m: Seq<Scalar>, rows: int, x: Seq<Scalar>, i: int, columns: int)
    requires
        all_at_least_zero(m),
        all_at_least_zero(x),
        0 <= i < rows,
        m.len() == rows * rows,
        x.len() == rows,
        columns <= rows,
    ensures
        at_least_zero(linalg::row_product(m, rows, x, i, columns)),
    decreases columns,
{
    order::int_is_exact(0);
    order::no_negative_rank(Scalar::of_int(0));
    if columns > 0 {
        let p = (columns - 1) * rows + i;
        assert(0 <= p < rows * rows) by (nonlinear_arith)
            requires
                p == (columns - 1) * rows + i,
                0 <= i < rows,
                0 < columns <= rows,
        ;
        assert(order::nonnegative(m[p]) && order::nonnegative(x[columns - 1]));
        product_at_least_zero(m[p], x[columns - 1]);
        if columns == 1 {
            lemma_mul_basics(rows);
            assert(p == i);
        } else {
            row_at_least_zero(m, rows, x, i, columns - 1);
            sum_at_least_zero(
                m[p].times(x[columns - 1]),
                linalg::row_product(m, rows, x, i, columns - 1),
            );
        }
    }
}

/// Before anything is learnt, trading looks at least as good as holding: with a bias that is not
/// negative no weight of a trade is below zero, which every weight of holding is, and on features
/// that are not negative no trade is estimated below holding.
pub proof fn a_start_favours_trading(
    trade: BayesianLinearRegression,
    hold: BayesianLinearRegression,
    bias: Scalar,
    phi: Seq<Scalar>,
)
    requires
        trade.valid(),
        trade.at_biased_prior(bias),
        hold.valid(),
        hold.at_prior(),
        trade.dim == hold.dim,
        phi.len() == trade.dim,
        order::nonnegative(bias),
        order::nonnegative(trade.lambda_reg),
        trade.lambda_reg.value() > 0,
        trade.lambda_reg.times(bias).finite(),
        Scalar::of_int(1).over(trade.lambda_reg).finite(),
        all_finite(trade.w_hat@),
        all_at_least_zero(phi),
    ensures
        forall|i: int|
            0 <= i < trade.dim ==> hold.w_hat@[i] == Scalar::of_int(0) && Scalar::of_int(0).at_most(
                #[trigger] trade.w_hat@[i],
            ),
        hold.estimate(phi).at_most(trade.estimate(phi)),
{
    let zero = Scalar::of_int(0);
    let full = Scalar::of_int(1);
    order::int_is_exact(0);
    order::int_is_exact(1);
    order::no_negative_rank(zero);
    let k = trade.lambda_reg;
    let one = scalar::one_unit();
    order::over_is_near(full, k);
    order::over_is_near(zero, k);
    order::near_itself(zero, 1);
    lemma_mul_nonnegative(full.value(), one as int);
    lemma_mul_basics(one as int);
    order::near_keeps_order(0, 1, full.value() * one, k.value() as nat);
    order::near_itself(zero, k.value() as nat);
    lemma_mul_basics(k.value());
    order::order_is_order_of_values(zero, full.over(k));
    order::order_is_order_of_values(zero, zero.over(k));
    let m = trade.a_inv@;
    let b = trade.b@;
    let dim = trade.dim as int;
    assert(all_at_least_zero(m));
    product_at_least_zero(k, bias);
    order::order_is_order_of_values(zero, k.times(bias));
    order::plus_is_near(zero, k.times(bias));
    order::near_itself(k.times(bias), 1);
    assert(all_at_least_zero(b)) by {
        let evidence = zero.plus(k.times(bias));
        assert(evidence.rank() == k.times(bias).rank());
        order::order_is_order_of_values(zero, evidence);
    }
    assert forall|i: int| 0 <= i < dim implies order::nonnegative(#[trigger] trade.w_hat@[i]) by {
        row_at_least_zero(m, dim, b, i, dim);
        assert(trade.w_hat@[i].finite());
        order::order_is_order_of_values(zero, trade.w_hat@[i]);
    }
    assert forall|i: int| 0 <= i < dim implies zero.at_most(#[trigger] trade.w_hat@[i]) by {
        order::order_is_order_of_values(zero, trade.w_hat@[i]);
    }
    dot_at_least_zero(trade.w_hat@, phi);
    assert(all_finite(phi)) by {
        assert forall|i: int| 0 <= i < phi.len() implies (#[trigger] phi[i]).finite() by {
            assert(order::nonnegative(phi[i]));
        }
    }
    unlearnt_estimate_is_zero(hold, phi);
}

} // verus!
