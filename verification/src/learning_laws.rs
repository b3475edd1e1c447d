//! What a regression learns from an observation, and what it says of the worth of an action.

use crate::bayesian_laws;
use crate::bayesian_lr;
use crate::bayesian_lr::{
    ActionDraws, BayesianLinearRegression, Draw, QAction, QFunction, UpdateResult,
};
use crate::features::FeatureVector;
use crate::linalg;
use crate::order;
use crate::relations;
use crate::rounding::EXACT;
use crate::scalar;
use crate::scalar::Scalar;
use crate::thompson_sampling;
use crate::vector_laws;
use vstd::arithmetic::mul::*;
use vstd::prelude::*;

verus! {

// ---------------------------------------------------------------------------------------------
// Estimates.
// ---------------------------------------------------------------------------------------------

/// Changing the sign of every feature changes the sign of the estimate.
pub proof fn estimates_turn(m: BayesianLinearRegression, phi: Seq<Scalar>, mirrored: Seq<Scalar>)
    requires
        m.valid(),
        phi.len() == m.dim,
        vector_laws::mirrored(phi, mirrored),
    ensures
        relations::turned(m.estimate(phi), m.estimate(mirrored)),
{
    vector_laws::dot_products_turn(phi, m.w_hat@, mirrored);
}

/// A feature alone is worth its product with its weight.
pub proof fn a_feature_alone_is_worth_its_weight(m: BayesianLinearRegression, phi: Seq<Scalar>, j: int)
    requires
        m.valid(),
        phi.len() == m.dim,
        vector_laws::only_at(phi, j),
        phi[j].finite(),
        vector_laws::all_finite(m.w_hat@),
    ensures
        relations::rounds(
            m.estimate(phi),
            m.w_hat@[j].value() * phi[j].value(),
            scalar::one_unit(),
        ),
{
    vector_laws::an_entry_alone_gives_the_dot_product(phi, m.w_hat@, j);
    vector_laws::dot_products_commute(phi, m.w_hat@);
    lemma_mul_is_commutative(m.w_hat@[j].value(), phi[j].value());
}

/// The posterior variance does not depend on the sign of the features.
pub proof fn variances_have_no_sign(m: BayesianLinearRegression, phi: Seq<Scalar>, mirrored: Seq<Scalar>)
    requires
        m.valid(),
        phi.len() == m.dim,
        vector_laws::mirrored(phi, mirrored),
    ensures
        m.variance(phi).level(m.variance(mirrored)),
{
    let (a, b) = (linalg::product(m.a_inv@, phi), linalg::product(m.a_inv@, mirrored));
    vector_laws::matrix_products_turn(m.a_inv@, phi, mirrored);
    vector_laws::dot_products_turn(phi, a, mirrored);
    vector_laws::dot_products_turn(a, mirrored, b);
    let (x, y) = (linalg::dot_product(phi, a), linalg::dot_product(mirrored, b));
    assert(vector_laws::alike(x, y));
    products_alike(m.sigma2_noise, x, y);
    relations::zero_and_one();
}

/// Products of numbers of one value are of one value.
proof fn products_alike(c: Scalar, x: Scalar, y: Scalar)
    requires
        vector_laws::alike(x, y),
    ensures
        vector_laws::alike(c.times(x), c.times(y)),
        vector_laws::alike(x.times(c), y.times(c)),
{
    relations::nan_spreads(c, x);
    relations::nan_spreads(c, y);
    relations::factors_commute(c, x);
    relations::factors_commute(c, y);
    if !x.nan() && !c.nan() {
        relations::level_values(x, y);
        if c.finite() && x.finite() {
            order::times_is_near(c, x);
            order::times_is_near(c, y);
        } else {
            reveal(Scalar::times);
        }
    }
}

/// The posterior variance of a feature alone: its square, times its entry on the diagonal, times
/// the noise, each product rounded, and never negative.
pub proof fn a_feature_alone_varies_by_its_entry(
    m: BayesianLinearRegression,
    phi: Seq<Scalar>,
    j: int,
    image: Scalar,
    form: Scalar,
    variance: Scalar,
)
    requires
        m.valid(),
        phi.len() == m.dim,
        vector_laws::only_at(phi, j),
        phi[j].finite(),
        vector_laws::all_finite(m.a_inv@),
        vector_laws::all_finite(linalg::product(m.a_inv@, phi)),
        m.sigma2_noise.finite(),
        image.finite(),
        form.finite(),
        relations::rounds(image, m.diagonal(j).value() * phi[j].value(), scalar::one_unit()),
        relations::rounds(form, phi[j].value() * image.value(), scalar::one_unit()),
        relations::rounds(
            variance,
            m.sigma2_noise.value() * form.value(),
            scalar::one_unit(),
        ),
    ensures
        Scalar::of_int(0).at_most(variance) ==> m.variance(phi).level(variance),
        variance.at_most(Scalar::of_int(0)) ==> m.variance(phi).zero(),
{
    relations::zero_and_one();
    let ax = linalg::product(m.a_inv@, phi);
    vector_laws::an_entry_alone_picks_its_column(m.a_inv@, phi, j, j);
    relations::level_values(ax[j], image);
    vector_laws::an_entry_alone_gives_the_dot_product(phi, ax, j);
    let d = linalg::dot_product(phi, ax);
    relations::level_values(d, form);
    order::times_is_near(m.sigma2_noise, d);
}

/// More noise never makes an estimate more certain.
pub proof fn noise_widens_the_variance(
    quiet: BayesianLinearRegression,
    noisy: BayesianLinearRegression,
    phi: Seq<Scalar>,
)
    requires
        quiet.a_inv@ == noisy.a_inv@,
        Scalar::of_int(0).at_most(quiet.sigma2_noise),
        quiet.sigma2_noise.at_most(noisy.sigma2_noise),
        noisy.sigma2_noise.finite(),
    ensures
        quiet.variance(phi).at_most(noisy.variance(phi)),
{
    relations::zero_and_one();
    let d = linalg::dot_product(phi, linalg::product(quiet.a_inv@, phi));
    let (s, t) = (quiet.sigma2_noise, noisy.sigma2_noise);
    let zero = Scalar::of_int(0);
    relations::nan_spreads(s, d);
    relations::nan_spreads(t, d);
    if !d.nan() {
        if d.rank() >= 0 {
            if !s.times(d).nan() && !t.times(d).nan() {
                relations::products_keep_order(s, t, d, d);
            } else if !s.times(d).nan() {
                reveal(Scalar::times);
            }
        } else {
            // A negative form counts as none.
            if !s.times(d).nan() {
                relations::factors_commute(s, d);
                relations::nothing_of(s, zero);
                relations::scaling_keeps_order(d, zero, s);
            }
        }
    }
}

// ---------------------------------------------------------------------------------------------
// Observations.
// ---------------------------------------------------------------------------------------------

/// The residual is how far the target is above the estimate; observations are counted.
pub proof fn the_residual_is_target_less_estimate(
    after: BayesianLinearRegression,
    before: BayesianLinearRegression,
    phi: Seq<Scalar>,
    y: Scalar,
    r: UpdateResult,
)
    requires
        after.observed(before, phi, y, r),
        y.finite(),
        before.estimate(phi).finite(),
    ensures
        relations::rounds(r.residual, y.value() - before.estimate(phi).value(), 1),
        after.n_observations == before.n_observations + 1,
{
    order::minus_is_near(y, before.estimate(phi));
}

/// The evidence gains feature times target in every place.
pub proof fn evidence_gains_feature_times_target(
    after: BayesianLinearRegression,
    before: BayesianLinearRegression,
    phi: Seq<Scalar>,
    y: Scalar,
    r: UpdateResult,
    i: int,
    part: Scalar,
)
    requires
        before.valid(),
        after.observed(before, phi, y, r),
        0 <= i < phi.len() == before.dim,
        before.b@[i].finite(),
        phi[i].finite(),
        y.finite(),
        part.finite(),
        relations::rounds(part, phi[i].value() * y.value(), scalar::one_unit()),
    ensures
        after.b@.len() == before.b@.len(),
        relations::rounds(after.b@[i], before.b@[i].value() + part.value(), 1),
{
    order::times_is_near(phi[i], y);
    relations::level_values(phi[i].times(y), part);
    order::plus_is_near(before.b@[i], phi[i].times(y));
}

/// An observation and the one with features and target of opposite sign are the same evidence.
pub proof fn mirrored_observations_are_the_same_evidence(
    b: Seq<Scalar>,
    x: Seq<Scalar>,
    x_mirrored: Seq<Scalar>,
    y: Scalar,
    y_mirrored: Scalar,
    i: int,
)
    requires
        vector_laws::mirrored(x, x_mirrored),
        b.len() == x.len(),
        relations::turned(y, y_mirrored),
        0 <= i < b.len(),
    ensures
        vector_laws::alike(
            bayesian_lr::evidence_after(b, x, y)[i],
            bayesian_lr::evidence_after(b, x_mirrored, y_mirrored)[i],
        ),
{
    assert(relations::turned(x[i], x_mirrored[i]));
    relations::products_turn(x[i], y, x_mirrored[i]);
    relations::products_turn(y, x_mirrored[i], y_mirrored);
    let (p, q) = (x[i].times(y), x_mirrored[i].times(y_mirrored));
    assert(vector_laws::alike(p, q));
    sums_alike(b[i], p, q);
}

/// Sums of numbers of one value are of one value.
proof fn sums_alike(c: Scalar, x: Scalar, y: Scalar)
    requires
        vector_laws::alike(x, y),
    ensures
        vector_laws::alike(c.plus(x), c.plus(y)),
        vector_laws::alike(c.minus(x), c.minus(y)),
{
    relations::nan_spreads(c, x);
    relations::nan_spreads(c, y);
    if !x.nan() && !c.nan() {
        relations::sums_go_by_rank(c, x, c, y);
    }
}

/// An observation lowers every entry of the covariance by the product of two images over one more
/// than the form, rounded step by step.
pub proof fn an_observation_takes_a_rank_one_part_away(
    a_inv: Seq<Scalar>,
    ax: Seq<Scalar>,
    x: Seq<Scalar>,
    column: int,
    row: int,
    denom: Scalar,
    both: Scalar,
    part: Scalar,
)
    requires
        ax.len() == x.len(),
        a_inv.len() == x.len() * x.len(),
        0 <= column < x.len(),
        0 <= row < x.len(),
        a_inv[column * x.len() + row].finite(),
        ax[row].finite(),
        ax[column].finite(),
        linalg::dot_product(x, ax).finite(),
        denom.finite(),
        denom.value() > 0,
        both.finite(),
        part.finite(),
        relations::rounds(denom, scalar::one_unit() + linalg::dot_product(x, ax).value(), 1),
        relations::rounds(both, ax[row].value() * ax[column].value(), scalar::one_unit()),
        relations::rounds(part, both.value() * scalar::one_unit(), denom.value() as nat),
    ensures
        relations::rounds(
            bayesian_lr::sherman_morrison(a_inv, ax, x)[column * x.len() + row],
            a_inv[column * x.len() + row].value() - part.value(),
            1,
        ),
        bayesian_lr::sherman_morrison(a_inv, ax, x).len() == a_inv.len(),
{
    let n = x.len() as int;
    let p = column * n + row;
    vector_laws::place(n, column, row);
    vstd::arithmetic::div_mod::lemma_fundamental_div_mod_converse(p, n, column, row);
    relations::zero_and_one();
    let d = Scalar::of_int(1).plus(linalg::dot_product(x, ax));
    order::plus_is_near(Scalar::of_int(1), linalg::dot_product(x, ax));
    relations::level_values(d, denom);
    let b = ax[row].times(ax[column]);
    order::times_is_near(ax[row], ax[column]);
    relations::level_values(b, both);
    order::over_is_near(b, d);
    relations::level_values(b.over(d), part);
    order::minus_is_near(a_inv[p], b.over(d));
}

/// An observation never widens the covariance: no entry of the diagonal grows.
pub proof fn observations_never_widen(a_inv: Seq<Scalar>, ax: Seq<Scalar>, x: Seq<Scalar>, i: int)
    requires
        ax.len() == x.len(),
        a_inv.len() == x.len() * x.len(),
        0 <= i < x.len(),
        a_inv[i * x.len() + i].finite(),
        ax[i].finite(),
        Scalar::of_int(0).at_most(linalg::dot_product(x, ax)),
        !bayesian_lr::sherman_morrison(a_inv, ax, x)[i * x.len() + i].nan(),
    ensures
        bayesian_lr::sherman_morrison(a_inv, ax, x)[i * x.len() + i].at_most(
            a_inv[i * x.len() + i],
        ),
{
    let n = x.len() as int;
    let p = i * n + i;
    vector_laws::place(n, i, i);
    vstd::arithmetic::div_mod::lemma_fundamental_div_mod_converse(p, n, i, i);
    relations::zero_and_one();
    let zero = Scalar::of_int(0);
    let one = Scalar::of_int(1);
    let form = linalg::dot_product(x, ax);
    let d = one.plus(form);
    relations::sum_is_a_number(one, form);
    relations::adding_nothing(one, zero);
    relations::sums_keep_order(one, one, zero, form);
    let b = ax[i].times(ax[i]);
    order::times_is_near(ax[i], ax[i]);
    reveal(Scalar::times);
    assert(!b.neg());
    assert(b.rank() >= 0);
    relations::nan_spreads(a_inv[p], b.over(d));
    relations::greater_divisors_give_less(b, d, d);
    relations::adding_nothing(a_inv[p], zero);
    relations::differences_keep_order(a_inv[p], a_inv[p], b.over(d), zero);
}

/// Features that are all zero teach nothing: the covariance and the evidence stay.
pub proof fn nothing_is_learnt_from_nothing(
    a_inv: Seq<Scalar>,
    b: Seq<Scalar>,
    x: Seq<Scalar>,
    y: Scalar,
    p: int,
    i: int,
)
    requires
        x.len() > 0,
        a_inv.len() == x.len() * x.len(),
        b.len() == x.len(),
        vector_laws::all_finite(a_inv),
        vector_laws::all_finite(b),
        forall|k: int| 0 <= k < x.len() ==> (#[trigger] x[k]).zero(),
        y.finite(),
        0 <= p < a_inv.len(),
        0 <= i < b.len(),
    ensures
        bayesian_lr::sherman_morrison(a_inv, linalg::product(a_inv, x), x)[p].level(a_inv[p]),
        bayesian_lr::evidence_after(b, x, y)[i].level(b[i]),
{
    let n = x.len() as int;
    relations::zero_and_one();
    let ax = linalg::product(a_inv, x);
    assert(vector_laws::only_at(x, 0));
    assert forall|k: int| 0 <= k < n implies (#[trigger] ax[k]).zero() by {
        vector_laws::place(n, 0, k);
        vector_laws::an_entry_alone_picks_its_column(a_inv, x, k, 0);
        assert(a_inv[0 * n + k].finite());
        assert(x[0].zero());
        relations::nothing_of(a_inv[0 * n + k], x[0]);
    }
    assert(x[0].zero());
    vector_laws::an_entry_alone_gives_the_dot_product(x, ax, 0);
    relations::nothing_of(ax[0], x[0]);
    let form = linalg::dot_product(x, ax);
    let d = Scalar::of_int(1).plus(form);
    relations::adding_nothing(Scalar::of_int(1), form);
    relations::level_values(d, Scalar::of_int(1));
    vstd::arithmetic::div_mod::lemma_fundamental_div_mod(p, n);
    let (r, c) = (p % n, p / n);
    bayesian_lr::place_in_square(n, p);
    assert(ax[r].zero() && ax[c].zero());
    relations::nothing_of(ax[r], ax[c]);
    let both = ax[r].times(ax[c]);
    assert(both.over(d).zero()) by {
        assert(crate::rounding::units(0) == 0);
        order::over_is_near(both, d);
        lemma_mul_basics(scalar::one_unit() as int);
        lemma_mul_basics(d.value());
        order::near_itself(both, d.value() as nat);
    }
    assert(a_inv[p].finite());
    relations::adding_nothing(a_inv[p], both.over(d));
    assert(x[i].zero());
    assert(b[i].finite());
    relations::nothing_of(y, x[i]);
    relations::adding_nothing(b[i], x[i].times(y));
}

/// A running mean weighs the sample with its weight and what was there with the rest: with a weight
/// of one the sample is all that counts, with none it does not count.
pub proof fn a_running_mean_weighs_the_sample(
    alpha: Scalar,
    sample: Scalar,
    before: Scalar,
    fresh: Scalar,
    rest: Scalar,
    kept: Scalar,
)
    requires
        alpha.finite(),
        sample.finite(),
        before.finite(),
        fresh.finite(),
        rest.finite(),
        kept.finite(),
        relations::rounds(fresh, alpha.value() * sample.value(), scalar::one_unit()),
        relations::rounds(rest, scalar::one_unit() - alpha.value(), 1),
        relations::rounds(kept, rest.value() * before.value(), scalar::one_unit()),
    ensures
        relations::rounds(
            bayesian_lr::running_mean(alpha, sample, before),
            fresh.value() + kept.value(),
            1,
        ),
{
    relations::zero_and_one();
    let one = Scalar::of_int(1);
    order::times_is_near(alpha, sample);
    relations::level_values(alpha.times(sample), fresh);
    order::minus_is_near(one, alpha);
    relations::level_values(one.minus(alpha), rest);
    order::times_is_near(one.minus(alpha), before);
    relations::level_values(one.minus(alpha).times(before), kept);
    order::plus_is_near(alpha.times(sample), one.minus(alpha).times(before));
}

/// A running mean grows with the sample and with what was there.
pub proof fn running_means_keep_order(
    alpha: Scalar,
    sample1: Scalar,
    sample2: Scalar,
    before1: Scalar,
    before2: Scalar,
)
    requires
        Scalar::of_int(0).at_most(alpha),
        alpha.at_most(Scalar::of_int(1)),
        sample1.at_most(sample2),
        before1.at_most(before2),
        !bayesian_lr::running_mean(alpha, sample1, before1).nan(),
        !bayesian_lr::running_mean(alpha, sample2, before2).nan(),
    ensures
        bayesian_lr::running_mean(alpha, sample1, before1).at_most(
            bayesian_lr::running_mean(alpha, sample2, before2),
        ),
{
    relations::zero_and_one();
    let one = Scalar::of_int(1);
    let zero = Scalar::of_int(0);
    let rest = one.minus(alpha);
    assert(alpha.finite());
    order::minus_is_near(one, alpha);
    order::order_is_order_of_values(alpha, one);
    order::near_itself(zero, 1);
    order::near_keeps_order(0, 1, one.value() - alpha.value(), 1);
    let (a, b) = (alpha.times(sample1), alpha.times(sample2));
    let (c, d) = (rest.times(before1), rest.times(before2));
    relations::nan_spreads(a, c);
    relations::nan_spreads(b, d);
    relations::factors_commute(alpha, sample1);
    relations::factors_commute(alpha, sample2);
    relations::factors_commute(rest, before1);
    relations::factors_commute(rest, before2);
    relations::scaling_keeps_order(sample1, sample2, alpha);
    relations::scaling_keeps_order(before1, before2, rest);
    relations::sums_keep_order(a, b, c, d);
}

/// A residual counts by its square: one of opposite sign moves the noise by the same.
pub proof fn residuals_count_by_their_square(alpha: Scalar, residual: Scalar, other: Scalar, before: Scalar)
    requires
        relations::opposite(residual, other),
    ensures
        bayesian_lr::running_mean(alpha, residual.times(residual), before)
            == bayesian_lr::running_mean(alpha, other.times(other), before),
{
    relations::opposite_values(residual, other);
    reveal(Scalar::times);
}

/// The noise is the running mean of squared residuals, but never below its floor.
pub proof fn noise_is_the_mean_squared_residual(
    after: BayesianLinearRegression,
    before: BayesianLinearRegression,
    phi: Seq<Scalar>,
    y: Scalar,
    r: UpdateResult,
)
    requires
        after.observed(before, phi, y, r),
        Scalar::of_ratio(1, 10_000_000_000).at_most(after.residual_var_ema),
    ensures
        after.sigma2_noise == after.residual_var_ema,
{
}

/// An observation diverges exactly if the weights have grown by more than the threshold; the first
/// four, and those from weights that were almost zero, count as steady.
pub proof fn growth_beyond_the_threshold_diverges(
    n_observations: nat,
    before: Scalar,
    after: Scalar,
    threshold: Scalar,
)
    requires
        before.finite(),
        after.finite(),
        !threshold.nan(),
    ensures
        ({
            let (ratio, diverged) = bayesian_lr::divergence(
                n_observations,
                before,
                after,
                threshold,
            );
            let steady = n_observations < 5 || before.at_most(
                Scalar::of_ratio(1, 10_000_000_000),
            );
            &&& steady ==> ratio == Scalar::of_int(1) && !diverged
            &&& !steady ==> relations::rounds(
                ratio,
                after.value() * scalar::one_unit(),
                before.value() as nat,
            ) && (diverged <==> threshold.below(ratio))
        }),
{
    relations::zero_and_one();
    order::proper_ratio(1, 10_000_000_000);
    if Scalar::of_ratio(1, 10_000_000_000).below(before) {
        order::order_is_order_of_values(Scalar::of_int(0), before);
        order::over_is_near(after, before);
    }
}

/// An observation reports by how much the weights have grown: their length after it over their
/// length before it, from the fifth observation on.
pub proof fn growth_is_length_over_length(
    after: BayesianLinearRegression,
    before: BayesianLinearRegression,
    phi: Seq<Scalar>,
    y: Scalar,
    r: UpdateResult,
)
    requires
        after.observed(before, phi, y, r),
        after.n_observations >= 5,
        Scalar::of_ratio(1, 10_000_000_000).below(linalg::length(before.w_hat@)),
        linalg::length(before.w_hat@).finite(),
        linalg::length(after.w_hat@).finite(),
        !before.divergence_threshold.nan(),
    ensures
        relations::rounds(
            r.divergence_ratio,
            linalg::length(after.w_hat@).value() * scalar::one_unit(),
            linalg::length(before.w_hat@).value() as nat,
        ),
        r.diverged <==> before.divergence_threshold.below(r.divergence_ratio),
{
    growth_beyond_the_threshold_diverges(
        after.n_observations as nat,
        linalg::length(before.w_hat@),
        linalg::length(after.w_hat@),
        before.divergence_threshold,
    );
}

/// A residual that is further off, to either side, never lowers the noise more.
pub proof fn greater_residuals_leave_more_noise(
    after1: BayesianLinearRegression,
    after2: BayesianLinearRegression,
    before: BayesianLinearRegression,
    phi1: Seq<Scalar>,
    phi2: Seq<Scalar>,
    y1: Scalar,
    y2: Scalar,
    r1: UpdateResult,
    r2: UpdateResult,
)
    requires
        after1.observed(before, phi1, y1, r1),
        after2.observed(before, phi2, y2, r2),
        r1.residual.magnitude().at_most(r2.residual.magnitude()),
        Scalar::of_int(0).at_most(before.ema_alpha),
        before.ema_alpha.at_most(Scalar::of_int(1)),
        !after1.residual_var_ema.nan(),
        !after2.residual_var_ema.nan(),
        !before.residual_var_ema.nan(),
    ensures
        after1.residual_var_ema.at_most(after2.residual_var_ema),
        after1.sigma2_noise.at_most(after2.sigma2_noise),
{
    relations::zero_and_one();
    order::proper_ratio(1, 10_000_000_000);
    let (a, b) = (r1.residual, r2.residual);
    let (s, t) = (a.times(a), b.times(b));
    let alpha = before.ema_alpha;
    let rest = Scalar::of_int(1).minus(alpha).times(before.residual_var_ema);
    relations::nan_spreads(alpha.times(s), rest);
    relations::nan_spreads(alpha.times(t), rest);
    relations::nan_spreads(alpha, s);
    relations::nan_spreads(alpha, t);
    assert(s == a.magnitude().times(a.magnitude()) && t == b.magnitude().times(b.magnitude())) by {
        reveal(Scalar::times);
    }
    relations::products_keep_order(a.magnitude(), b.magnitude(), a.magnitude(), b.magnitude());
    running_means_keep_order(alpha, s, t, before.residual_var_ema, before.residual_var_ema);
}

/// The exponent of a halflife is minus the logarithm of two over its length: negative, and closer
/// to zero for a longer one.
pub proof fn longer_halflives_forget_less(shorter: nat, longer: nat)
    requires
        0 < shorter <= longer < EXACT,
    ensures
        ({
            let log = (Scalar { bits: bayesian_lr::LN_2_BITS }).value();
            &&& relations::rounds(bayesian_lr::halflife_exponent(shorter), -log, shorter)
            &&& bayesian_lr::halflife_exponent(shorter).at_most(
                bayesian_lr::halflife_exponent(longer),
            )
            &&& bayesian_lr::halflife_exponent(longer).at_most(Scalar::of_int(0))
        }),
{
    let log = Scalar { bits: bayesian_lr::LN_2_BITS };
    relations::zero_and_one();
    assert(log.finite());
    order::negated_value(log);
    let v = log.value();
    assert(v >= 0);
    relations::part_of(log.negated(), shorter);
    relations::part_of(log.negated(), longer);
    assert((-v) * longer <= (-v) * shorter) by (nonlinear_arith)
        requires
            v >= 0,
            shorter <= longer,
    ;
    order::near_keeps_order(-v, shorter, -v, longer);
    order::near_itself(Scalar::of_int(0), 1);
    order::near_keeps_order(-v, longer, 0, 1);
}

/// A bias adds the regularization times the bias to the evidence, in every place.
pub proof fn a_bias_is_evidence(b: Seq<Scalar>, lambda_reg: Scalar, bias: Scalar, i: int, part: Scalar)
    requires
        0 <= i < b.len(),
        b[i].finite(),
        lambda_reg.finite(),
        bias.finite(),
        part.finite(),
        relations::rounds(part, lambda_reg.value() * bias.value(), scalar::one_unit()),
    ensures
        bayesian_lr::evidence_biased(b, lambda_reg, bias).len() == b.len(),
        relations::rounds(
            bayesian_lr::evidence_biased(b, lambda_reg, bias)[i],
            b[i].value() + part.value(),
            1,
        ),
{
    order::times_is_near(lambda_reg, bias);
    relations::level_values(lambda_reg.times(bias), part);
    order::plus_is_near(b[i], lambda_reg.times(bias));
}

/// Widening multiplies every entry of the covariance by the factor, and keeps everything else: a
/// factor of at least one never narrows the diagonal.
pub proof fn widening_never_narrows(
    after: BayesianLinearRegression,
    before: BayesianLinearRegression,
    factor: Scalar,
    i: int,
)
    requires
        before.valid(),
        after.inflated(before, factor),
        0 <= i < before.dim,
        order::nonnegative(before.diagonal(i)),
        Scalar::of_int(1).at_most(factor),
        factor.finite(),
    ensures
        before.diagonal(i).at_most(after.diagonal(i)),
        relations::rounds(
            after.diagonal(i),
            before.diagonal(i).value() * factor.value(),
            scalar::one_unit(),
        ),
        after.n_observations == before.n_observations,
        after.w_hat == before.w_hat,
        after.sigma2_noise == before.sigma2_noise,
{
    relations::zero_and_one();
    let n = before.dim as int;
    vector_laws::place(n, i, i);
    let d = before.diagonal(i);
    let one = scalar::one_unit() as int;
    order::times_is_near(d, factor);
    order::order_is_order_of_values(Scalar::of_int(1), factor);
    order::near_itself(d, one as nat);
    let v = d.value();
    lemma_mul_inequality(one, factor.value(), v);
    lemma_mul_is_commutative(v, one);
    lemma_mul_is_commutative(v, factor.value());
    lemma_mul_inequality(v * one, v * factor.value(), one);
    order::near_keeps_order(v * one, one as nat, v * factor.value(), one as nat);
}

// ---------------------------------------------------------------------------------------------
// Samples.
// ---------------------------------------------------------------------------------------------

/// Before there are as many observations as weights, a sampled weight is its mean and its own
/// deviation times its own normal number: the root of the noise times that of its entry on the
/// diagonal.
pub proof fn early_weights_vary_on_their_own(
    m: BayesianLinearRegression,
    draw: Draw,
    i: int,
    deviation: Scalar,
    part: Scalar,
)
    requires
        m.valid(),
        m.fits(draw),
        m.n_observations < m.dim,
        0 <= i < m.dim,
        m.w_hat@[i].finite(),
        draw.normals@[i].finite(),
        m.sigma2_noise.root().finite(),
        m.diagonal(i).root().finite(),
        Scalar::of_int(0).at_most(m.diagonal(i)),
        deviation.finite(),
        part.finite(),
        relations::rounds(
            deviation,
            m.sigma2_noise.root().value() * m.diagonal(i).root().value(),
            scalar::one_unit(),
        ),
        relations::rounds(
            part,
            deviation.value() * draw.normals@[i].value(),
            scalar::one_unit(),
        ),
    ensures
        m.sampled(draw).len() == m.dim,
        relations::rounds(m.sampled(draw)[i], m.w_hat@[i].value() + part.value(), 1),
{
    relations::zero_and_one();
    let sigma = m.sigma2_noise.root();
    let root = m.diagonal(i).root();
    relations::roots_keep_order(m.diagonal(i), m.diagonal(i));
    let s = root.greater(Scalar::of_int(0));
    relations::level_values(s, root);
    order::times_is_near(sigma, s);
    relations::level_values(sigma.times(s), deviation);
    order::times_is_near(sigma.times(s), draw.normals@[i]);
    relations::level_values(sigma.times(s).times(draw.normals@[i]), part);
    order::plus_is_near(m.w_hat@[i], sigma.times(s).times(draw.normals@[i]));
}

/// Without chance the weights are their means: normal numbers of zero, or no factor where one is
/// needed, change nothing.
pub proof fn without_chance_the_means_stand(m: BayesianLinearRegression, draw: Draw, i: int)
    requires
        m.valid(),
        m.fits(draw),
        0 <= i < m.dim,
        !m.w_hat@[i].nan(),
        m.sigma2_noise.root().finite(),
        m.n_observations < m.dim ==> m.sigma2_noise.root().times(
            m.diagonal(i).root().greater(Scalar::of_int(0)),
        ).finite(),
        draw.factor matches Some(factor) ==> vector_laws::all_finite(
            linalg::scaled(factor@, m.sigma2_noise.root()),
        ),
        forall|k: int| 0 <= k < m.dim ==> (#[trigger] draw.normals@[k]).zero(),
    ensures
        m.sampled(draw)[i].level(m.w_hat@[i]),
        m.n_observations >= m.dim && draw.factor is None ==> m.sampled(draw) == m.w_hat@,
{
    relations::zero_and_one();
    assert(draw.normals@[i].zero());
    if m.n_observations < m.dim {
        let dev = m.sigma2_noise.root().times(m.diagonal(i).root().greater(Scalar::of_int(0)));
        relations::nothing_of(dev, draw.normals@[i]);
        relations::adding_nothing(m.w_hat@[i], dev.times(draw.normals@[i]));
    } else if let Some(factor) = draw.factor {
        let l = linalg::scaled(factor@, m.sigma2_noise.root());
        let z = draw.normals@;
        assert(z[0].zero());
        assert(vector_laws::only_at(z, 0));
        vector_laws::an_entry_alone_picks_its_column(l, z, i, 0);
        vector_laws::place(m.dim as int, 0, i);
        assert(l[0 * m.dim + i].finite());
        relations::nothing_of(l[0 * m.dim + i], z[0]);
        relations::adding_nothing(m.w_hat@[i], linalg::product(l, z)[i]);
    }
}

/// With as many observations as weights, a normal number moves the weights along its column of the
/// factor, scaled by the root of the noise.
pub proof fn a_normal_number_moves_along_its_column(
    m: BayesianLinearRegression,
    draw: Draw,
    i: int,
    j: int,
    entry: Scalar,
    part: Scalar,
)
    requires
        m.valid(),
        m.fits(draw),
        m.n_observations >= m.dim,
        draw.factor is Some,
        0 <= i < m.dim,
        vector_laws::only_at(draw.normals@, j),
        draw.normals@[j].finite(),
        m.w_hat@[i].finite(),
        m.sigma2_noise.root().finite(),
        vector_laws::all_finite(draw.factor->0@),
        vector_laws::all_finite(linalg::scaled(draw.factor->0@, m.sigma2_noise.root())),
        entry.finite(),
        part.finite(),
        relations::rounds(
            entry,
            draw.factor->0@[j * m.dim + i].value() * m.sigma2_noise.root().value(),
            scalar::one_unit(),
        ),
        relations::rounds(
            part,
            entry.value() * draw.normals@[j].value(),
            scalar::one_unit(),
        ),
    ensures
        relations::rounds(m.sampled(draw)[i], m.w_hat@[i].value() + part.value(), 1),
{
    let n = m.dim as int;
    let f = draw.factor->0@;
    let sigma = m.sigma2_noise.root();
    let l = linalg::scaled(f, sigma);
    let z = draw.normals@;
    vector_laws::place(n, j, i);
    vector_laws::an_entry_alone_picks_its_column(l, z, i, j);
    assert(f[j * n + i].finite());
    order::times_is_near(f[j * n + i], sigma);
    relations::level_values(l[j * n + i], entry);
    let s = linalg::product(l, z)[i];
    relations::level_values(s, part);
    order::plus_is_near(m.w_hat@[i], s);
}

/// What an action is worth goes by its own regression and its own draw, and no other's.
pub proof fn actions_are_valued_apart(
    q1: QFunction,
    q2: QFunction,
    phi: Seq<Scalar>,
    draws1: ActionDraws,
    draws2: ActionDraws,
    action: QAction,
)
    requires
        q1.of(action) == q2.of(action),
        match action {
            QAction::Buy => draws1.buy == draws2.buy,
            QAction::Sell => draws1.sell == draws2.sell,
            QAction::Hold => draws1.hold == draws2.hold,
        },
    ensures
        q1.estimates(phi).of(action) == q2.estimates(phi).of(action),
        q1.deviations(phi).of(action) == q2.deviations(phi).of(action),
        q1.samples(phi, draws1).of(action) == q2.samples(phi, draws2).of(action),
        q1.estimates(phi).of(action) == q1.of(action).estimate(phi),
{
}

/// What one action learns changes nothing for the others.
pub proof fn actions_learn_apart(
    q: QFunction,
    action: QAction,
    other: QAction,
    model: BayesianLinearRegression,
    phi: Seq<Scalar>,
)
    ensures
        q.with(action, model).of(action) == model,
        other != action ==> q.with(action, model).of(other) == q.of(other),
        other != action ==> q.with(action, model).estimates(phi).of(other) == q.estimates(phi).of(
            other,
        ),
        q.with(action, model).same_setup(q),
{
}

/// Actions with the same regression and the same draw are worth the same.
pub proof fn equal_regressions_value_alike(q: QFunction, phi: Seq<Scalar>, draws: ActionDraws)
    requires
        q.buy == q.sell,
        draws.buy == draws.sell,
    ensures
        q.estimates(phi).buy == q.estimates(phi).sell,
        q.deviations(phi).buy == q.deviations(phi).sell,
        q.samples(phi, draws).buy == q.samples(phi, draws).sell,
{
}

/// Without chance, what is sampled of a feature alone is what is estimated of it.
pub proof fn samples_without_chance_are_estimates(
    q: QFunction,
    phi: Seq<Scalar>,
    draws: ActionDraws,
    j: int,
)
    requires
        q.valid(),
        phi.len() == q.dim,
        vector_laws::only_at(phi, j),
        phi[j].finite(),
        q.buy.n_observations >= q.dim,
        draws.buy.factor is None,
        vector_laws::all_finite(q.buy.w_hat@),
    ensures
        q.samples(phi, draws).buy == q.estimates(phi).buy,
        relations::rounds(
            q.samples(phi, draws).buy,
            q.buy.w_hat@[j].value() * phi[j].value(),
            scalar::one_unit(),
        ),
{
    a_feature_alone_is_worth_its_weight(q.buy, phi, j);
}

// ---------------------------------------------------------------------------------------------
// The weight of the noise.
// ---------------------------------------------------------------------------------------------

/// In a calm market and a stable regime the noise weighs its base weight; volatility raises it by
/// ten times itself, and an unstable regime by twice what it lacks of stability.
pub proof fn the_noise_weighs_its_base_in_calm_markets(
    base_k: Scalar,
    calm: Scalar,
    volatility: Scalar,
    stable: Scalar,
    unstable: Scalar,
    ten: Scalar,
    raise: Scalar,
    lack: Scalar,
    twice: Scalar,
    factor: Scalar,
)
    requires
        base_k.finite(),
        calm.zero(),
        volatility.finite(),
        stable.finite(),
        !stable.below(Scalar::of_ratio(1, 2)),
        unstable.finite(),
        unstable.below(Scalar::of_ratio(1, 2)),
        ten.finite(),
        raise.finite(),
        lack.finite(),
        twice.finite(),
        factor.finite(),
        relations::rounds(ten, 10 * volatility.value(), 1),
        relations::rounds(raise, scalar::one_unit() + ten.value(), 1),
        relations::rounds(lack, scalar::one_unit() - unstable.value(), 1),
        relations::rounds(twice, 2 * lack.value(), 1),
        relations::rounds(factor, scalar::one_unit() + twice.value(), 1),
    ensures
        thompson_sampling::noise_weight(base_k, calm, stable).level(base_k),
        base_k.times(raise).finite() ==> relations::rounds(
            thompson_sampling::noise_weight(base_k, volatility, stable),
            base_k.value() * raise.value(),
            scalar::one_unit(),
        ),
        relations::rounds(
            thompson_sampling::noise_weight(base_k, calm, unstable),
            base_k.value() * factor.value(),
            scalar::one_unit(),
        ),
{
    relations::zero_and_one();
    let one = Scalar::of_int(1);
    let unit = scalar::one_unit() as int;
    order::int_is_exact(10);
    order::int_is_exact(2);
    // A calm market leaves the base weight.
    relations::nothing_of(Scalar::of_int(10), calm);
    let c = Scalar::of_int(10).times(calm);
    relations::adding_nothing(one, c);
    relations::level_values(one.plus(c), one);
    bayesian_laws::times_one(base_k);
    assert(one.plus(c) == one);
    // Volatility raises it.
    order::times_is_near(Scalar::of_int(10), volatility);
    let v = volatility.value();
    assert(((10 * unit) * v) * 1 == (10 * v) * unit) by (nonlinear_arith);
    relations::near_of_equal_ratios((10 * unit) * v, unit as nat, 10 * v, 1);
    let t = Scalar::of_int(10).times(volatility);
    relations::level_values(t, ten);
    order::plus_is_near(one, t);
    let r = one.plus(t);
    relations::level_values(r, raise);
    order::times_is_near(base_k, r);
    order::times_is_near(base_k, raise);
    if base_k.times(raise).finite() {
        relations::level_values(base_k.times(r), base_k.times(raise));
        bayesian_laws::times_one(base_k.times(r));
    }
    // So does an unstable regime.
    order::minus_is_near(one, unstable);
    let l = one.minus(unstable);
    relations::level_values(l, lack);
    order::times_is_near(Scalar::of_int(2), l);
    let w = l.value();
    assert(((2 * unit) * w) * 1 == (2 * w) * unit) by (nonlinear_arith);
    relations::near_of_equal_ratios((2 * unit) * w, unit as nat, 2 * w, 1);
    let d = Scalar::of_int(2).times(l);
    relations::level_values(d, twice);
    order::plus_is_near(one, d);
    let f = one.plus(d);
    relations::level_values(f, factor);
    order::times_is_near(base_k, f);
}

/// A regime is the less stable the more volatility exceeds its long level; from that level on it
/// is not stable at all, and without volatility it is fully stable.
pub proof fn stability_falls_with_the_volatility_ratio(calm: FeatureVector, rough: FeatureVector)
    requires
        calm.volatility_ratio.at_most(rough.volatility_ratio),
        Scalar::of_int(0).at_most(calm.volatility_ratio),
    ensures
        thompson_sampling::stability_of(rough).at_most(thompson_sampling::stability_of(calm)),
        Scalar::of_int(1).at_most(rough.volatility_ratio) ==> thompson_sampling::stability_of(
            rough,
        ).zero(),
        calm.volatility_ratio.zero() ==> thompson_sampling::stability_of(calm).level(
            Scalar::of_int(1),
        ),
        calm.volatility_ratio.below(Scalar::of_int(1)) ==> relations::rounds(
            thompson_sampling::stability_of(calm),
            scalar::one_unit() - calm.volatility_ratio.value(),
            1,
        ),
{
    relations::zero_and_one();
    let one = Scalar::of_int(1);
    let zero = Scalar::of_int(0);
    let (x, y) = (calm.volatility_ratio.lesser(one), rough.volatility_ratio.lesser(one));
    assert(x.finite() && y.finite());
    order::minus_is_near(one, x);
    order::minus_is_near(one, y);
    relations::differences_keep_order(one, one, y, x);
    order::near_itself(zero, 1);
    order::order_is_order_of_values(x, one);
    order::order_is_order_of_values(y, one);
    order::near_keeps_order(0, 1, one.value() - x.value(), 1);
    order::near_keeps_order(0, 1, one.value() - y.value(), 1);
    if one.at_most(rough.volatility_ratio) {
        order::order_is_order_of_values(one, y);
    }
    if calm.volatility_ratio.zero() {
        relations::adding_nothing(one, x);
    }
}

} // verus!
