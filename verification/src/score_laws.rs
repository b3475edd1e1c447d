//! How regimes are scored, and what a posterior over them tells.

use crate::linalg;
use crate::order;
use crate::regime;
use crate::regime::RegimeModel;
use crate::relations;
use crate::rounding::EXACT;
use crate::scalar;
use crate::scalar::Scalar;
use vstd::prelude::*;

verus! {

// ---------------------------------------------------------------------------------------------
// Scores.
// ---------------------------------------------------------------------------------------------

/// Changing the sign of every feature, and of the bias, changes the sign of the score. With zero
/// bias it is enough to change the features.
pub proof fn scores_turn_with_the_features(
    weights: Seq<Scalar>,
    features: Seq<Scalar>,
    mirrored: Seq<Scalar>,
    bias: Scalar,
    turned_bias: Scalar,
)
    requires
        features.len() == mirrored.len(),
        forall|i: int|
            0 <= i < features.len() ==> relations::turned(#[trigger] features[i], mirrored[i]),
        relations::turned(bias, turned_bias),
    ensures
        relations::turned(
            regime::score_of(weights, features, bias),
            regime::score_of(weights, mirrored, turned_bias),
        ),
        bias.zero() ==> relations::turned(
            regime::score_of(weights, features, bias),
            regime::score_of(weights, mirrored, bias),
        ),
{
    let a = regime::weighted_features(weights, features);
    let b = regime::weighted_features(weights, mirrored);
    assert forall|i: int| 0 <= i < a.len() implies relations::turned(#[trigger] a[i], b[i]) by {
        assert(relations::turned(features[i], mirrored[i]));
        relations::products_turn(features[i], weights[i], mirrored[i]);
    }
    let n = a.len() as int;
    relations::running_sums_turn(a, b, n);
    relations::sums_turn(
        linalg::running_sum(a, n),
        bias,
        linalg::running_sum(b, n),
        turned_bias,
    );
    if bias.zero() {
        relations::sums_turn(linalg::running_sum(a, n), bias, linalg::running_sum(b, n), bias);
    }
}

/// Changing the sign of every weight, and of the bias, changes the sign of the score.
pub proof fn scores_turn_with_the_weights(
    weights: Seq<Scalar>,
    mirrored: Seq<Scalar>,
    features: Seq<Scalar>,
    bias: Scalar,
    turned_bias: Scalar,
)
    requires
        weights.len() == mirrored.len(),
        forall|i: int|
            0 <= i < weights.len() ==> relations::turned(#[trigger] weights[i], mirrored[i]),
        relations::turned(bias, turned_bias),
    ensures
        relations::turned(
            regime::score_of(weights, features, bias),
            regime::score_of(mirrored, features, turned_bias),
        ),
{
    let a = regime::weighted_features(weights, features);
    let b = regime::weighted_features(mirrored, features);
    assert forall|i: int| 0 <= i < a.len() implies relations::turned(#[trigger] a[i], b[i]) by {
        assert(relations::turned(weights[i], mirrored[i]));
        relations::products_turn(weights[i], features[i], mirrored[i]);
    }
    let n = a.len() as int;
    relations::running_sums_turn(a, b, n);
    relations::sums_turn(
        linalg::running_sum(a, n),
        bias,
        linalg::running_sum(b, n),
        turned_bias,
    );
}

/// A feature alone is scored by its product with its weight, rounded, and the bias: whatever its
/// place, as long as the other features are zero.
pub proof fn a_feature_alone_is_scored_by_its_weight(
    weights: Seq<Scalar>,
    features: Seq<Scalar>,
    bias: Scalar,
    j: int,
    part: Scalar,
)
    requires
        0 <= j < weights.len(),
        j < features.len(),
        forall|i: int| 0 <= i < weights.len() ==> (#[trigger] weights[i]).finite(),
        features[j].finite(),
        forall|i: int| 0 <= i < features.len() && i != j ==> (#[trigger] features[i]).zero(),
        bias.finite(),
        part.finite(),
        relations::rounds(part, weights[j].value() * features[j].value(), scalar::one_unit()),
    ensures
        relations::rounds(
            regime::score_of(weights, features, bias),
            part.value() + bias.value(),
            1,
        ),
{
    let a = regime::weighted_features(weights, features);
    let n = a.len() as int;
    assert(weights[j].finite());
    order::times_is_near(weights[j], features[j]);
    assert(a[j].level(part));
    relations::level_values(a[j], part);
    assert forall|i: int| 0 <= i < n && i != j implies (#[trigger] a[i]).zero() by {
        assert(weights[i].finite());
        assert(features[i].zero());
        relations::nothing_of(weights[i], features[i]);
    }
    relations::a_single_term(a, n, j);
    relations::level_values(linalg::running_sum(a, n), a[j]);
    order::plus_is_near(linalg::running_sum(a, n), bias);
}

/// With one feature, the score is the product of weight and feature, rounded, plus the bias.
pub proof fn one_feature_is_scored_by_its_product(
    weight: Scalar,
    feature: Scalar,
    bias: Scalar,
    part: Scalar,
)
    requires
        weight.finite(),
        feature.finite(),
        bias.finite(),
        part.finite(),
        relations::rounds(part, weight.value() * feature.value(), scalar::one_unit()),
    ensures
        relations::rounds(
            regime::score_of(seq![weight], seq![feature], bias),
            part.value() + bias.value(),
            1,
        ),
{
    a_feature_alone_is_scored_by_its_weight(seq![weight], seq![feature], bias, 0, part);
}

/// Without features that are not zero, the score is the bias.
pub proof fn nothing_is_scored_by_the_bias(weights: Seq<Scalar>, features: Seq<Scalar>, bias: Scalar)
    requires
        forall|i: int| 0 <= i < weights.len() ==> (#[trigger] weights[i]).finite(),
        forall|i: int| 0 <= i < features.len() ==> (#[trigger] features[i]).zero(),
        !bias.nan(),
    ensures
        regime::score_of(weights, features, bias).level(bias),
{
    let a = regime::weighted_features(weights, features);
    let n = a.len() as int;
    relations::zero_and_one();
    assert forall|i: int| 0 <= i < n implies (#[trigger] a[i]).zero() by {
        assert(weights[i].finite());
        assert(features[i].zero());
        relations::nothing_of(weights[i], features[i]);
    }
    if n > 0 {
        relations::a_single_term(a, n, 0);
    }
    relations::adding_nothing(bias, linalg::running_sum(a, n));
}

/// A greater bias, and greater features with weights that are not negative, raise the score.
pub proof fn scores_keep_order(
    weights: Seq<Scalar>,
    lower: Seq<Scalar>,
    higher: Seq<Scalar>,
    bias1: Scalar,
    bias2: Scalar,
)
    requires
        lower.len() == higher.len(),
        forall|i: int| 0 <= i < lower.len() ==> (#[trigger] lower[i]).at_most(higher[i]),
        forall|i: int|
            0 <= i < weights.len() ==> Scalar::of_int(0).at_most(#[trigger] weights[i]),
        bias1.at_most(bias2),
        !regime::score_of(weights, lower, bias1).nan(),
        !regime::score_of(weights, higher, bias2).nan(),
    ensures
        regime::score_of(weights, lower, bias1).at_most(regime::score_of(weights, higher, bias2)),
{
    let a = regime::weighted_features(weights, lower);
    let b = regime::weighted_features(weights, higher);
    let n = a.len() as int;
    relations::nan_spreads(linalg::running_sum(a, n), bias1);
    relations::nan_spreads(linalg::running_sum(b, n), bias2);
    partial_scores_keep_order(weights, lower, higher, n);
    relations::sums_keep_order(
        linalg::running_sum(a, n),
        linalg::running_sum(b, n),
        bias1,
        bias2,
    );
}

proof fn partial_scores_keep_order(
    weights: Seq<Scalar>,
    lower: Seq<Scalar>,
    higher: Seq<Scalar>,
    k: int,
)
    requires
        lower.len() == higher.len(),
        k <= weights.len(),
        k <= lower.len(),
        forall|i: int| 0 <= i < lower.len() ==> (#[trigger] lower[i]).at_most(higher[i]),
        forall|i: int|
            0 <= i < weights.len() ==> Scalar::of_int(0).at_most(#[trigger] weights[i]),
        !linalg::running_sum(regime::weighted_features(weights, lower), k).nan(),
        !linalg::running_sum(regime::weighted_features(weights, higher), k).nan(),
    ensures
        linalg::running_sum(regime::weighted_features(weights, lower), k).at_most(
            linalg::running_sum(regime::weighted_features(weights, higher), k),
        ),
    decreases k,
{
    relations::zero_and_one();
    if k > 0 {
        let a = regime::weighted_features(weights, lower);
        let b = regime::weighted_features(weights, higher);
        let (x, y) = (linalg::running_sum(a, k - 1), linalg::running_sum(b, k - 1));
        let (w, f, g) = (weights[k - 1], lower[k - 1], higher[k - 1]);
        assert(Scalar::of_int(0).at_most(weights[k - 1]));
        assert(lower[k - 1].at_most(higher[k - 1]));
        relations::nan_spreads(x, w.times(f));
        relations::nan_spreads(y, w.times(g));
        partial_scores_keep_order(weights, lower, higher, k - 1);
        relations::factors_commute(w, f);
        relations::factors_commute(w, g);
        relations::scaling_keeps_order(f, g, w);
        relations::sums_keep_order(x, y, w.times(f), w.times(g));
    }
}

/// Features without a weight do not count, and neither do weights without a feature.
pub proof fn only_pairs_are_scored(
    weights: Seq<Scalar>,
    features: Seq<Scalar>,
    more: Seq<Scalar>,
    bias: Scalar,
)
    ensures
        weights.len() <= features.len() ==> regime::score_of(weights, features + more, bias)
            == regime::score_of(weights, features, bias),
        features.len() <= weights.len() ==> regime::score_of(weights + more, features, bias)
            == regime::score_of(weights, features, bias),
{
    if weights.len() <= features.len() {
        assert(regime::weighted_features(weights, features + more) =~= regime::weighted_features(
            weights,
            features,
        ));
    }
    if features.len() <= weights.len() {
        assert(regime::weighted_features(weights + more, features) =~= regime::weighted_features(
            weights,
            features,
        ));
    }
}

/// The greatest score is one of the scores, and no score is above it; its exponent is zero and no
/// exponent is above zero.
pub proof fn the_greatest_score_has_exponent_zero(scores: Seq<Scalar>, i: int)
    requires
        0 <= i < scores.len(),
        forall|j: int| 0 <= j < scores.len() ==> (#[trigger] scores[j]).finite(),
    ensures
        regime::exponents_of(scores).len() == scores.len(),
        regime::exponents_of(scores)[i].at_most(Scalar::of_int(0)),
        exists|j: int|
            0 <= j < scores.len() && (#[trigger] regime::exponents_of(scores)[j]).zero()
                && scores[i].at_most(scores[j]),
{
    let n = scores.len() as int;
    let j = greatest_is_one(scores, n);
    let top = regime::greatest_of(scores, n);
    greatest_is_above(scores, n, i);
    relations::zero_and_one();
    order::minus_is_near(scores[i], top);
    order::minus_is_near(scores[j], top);
    order::order_is_order_of_values(scores[i], top);
    order::near_itself(Scalar::of_int(0), 1);
    order::near_keeps_order(scores[i].value() - top.value(), 1, 0, 1);
    assert(regime::exponents_of(scores)[j].zero());
}

proof fn greatest_is_one(scores: Seq<Scalar>, k: int) -> (j: int)
    requires
        0 < k <= scores.len(),
        forall|j: int| 0 <= j < scores.len() ==> (#[trigger] scores[j]).finite(),
    ensures
        0 <= j < k,
        regime::greatest_of(scores, k) == scores[j],
    decreases k,
{
    assert(scores[k - 1].finite());
    if k == 1 {
        reveal_with_fuel(regime::greatest_of, 2);
        0
    } else {
        let j = greatest_is_one(scores, k - 1);
        if regime::greatest_of(scores, k) == scores[k - 1] {
            k - 1
        } else {
            j
        }
    }
}

proof fn greatest_is_above(scores: Seq<Scalar>, k: int, i: int)
    requires
        0 <= i < k <= scores.len(),
        forall|j: int| 0 <= j < scores.len() ==> (#[trigger] scores[j]).finite(),
    ensures
        scores[i].at_most(regime::greatest_of(scores, k)),
    decreases k,
{
    assert(scores[k - 1].finite());
    assert(scores[i].finite());
    if i < k - 1 {
        greatest_is_above(scores, k - 1, i);
    }
}

// ---------------------------------------------------------------------------------------------
// Entropy and divergence.
// ---------------------------------------------------------------------------------------------

/// With the same logarithms, the entropy of a posterior is its divergence from an even one with
/// the sign changed.
pub proof fn entropy_turns_divergence(p: Seq<Scalar>, logs: Seq<Scalar>, k: int)
    requires
        k <= p.len(),
        p.len() <= logs.len(),
    ensures
        relations::turned(
            regime::entropy_of(p, logs, k),
            regime::divergence_of(p, None, logs, k),
        ),
    decreases k,
{
    relations::zero_and_one();
    if k > 0 {
        entropy_turns_divergence(p, logs, k - 1);
        let part = p[k - 1].times(logs[k - 1]);
        if !part.nan() {
            relations::negated_is_opposite(part);
        }
        relations::sums_turn(
            regime::entropy_of(p, logs, k - 1),
            part.negated(),
            regime::divergence_of(p, None, logs, k - 1),
            part,
        );
    }
}

/// A probability that counts alone has as its divergence its product with its logarithm.
pub proof fn a_probability_alone_diverges_by_its_logarithm(
    p: Seq<Scalar>,
    q: Option<Seq<Scalar>>,
    logs: Seq<Scalar>,
    k: int,
    j: int,
)
    requires
        0 <= j < p.len() == logs.len(),
        0 <= k <= p.len(),
        q matches Some(q) ==> q.len() == p.len(),
        p[j].finite(),
        logs[j].finite(),
        Scalar::of_ratio(1, 1_000_000_000_000).below(p[j]),
        q matches Some(q) ==> Scalar::of_ratio(1, 1_000_000_000_000).below(q[j]),
        forall|i: int|
            0 <= i < p.len() && i != j ==> (#[trigger] p[i]).at_most(Scalar::of_ratio(1, 1_000_000_000_000))
                || (q matches Some(q) && q[i].at_most(Scalar::of_ratio(1, 1_000_000_000_000))),
    ensures
        j < k ==> relations::rounds(
            regime::divergence_of(p, q, logs, k),
            p[j].value() * logs[j].value(),
            scalar::one_unit(),
        ),
        k <= j ==> regime::divergence_of(p, q, logs, k).zero(),
    decreases k,
{
    relations::zero_and_one();
    if k > 0 {
        a_probability_alone_diverges_by_its_logarithm(p, q, logs, k - 1, j);
        let before = regime::divergence_of(p, q, logs, k - 1);
        if k - 1 == j {
            order::times_is_near(p[j], logs[j]);
            relations::adding_nothing(p[j].times(logs[j]), before);
        } else {
            assert(p[k - 1].at_most(Scalar::of_ratio(1, 1_000_000_000_000)) || (q matches Some(q)
                && q[k - 1].at_most(Scalar::of_ratio(1, 1_000_000_000_000))));
        }
    }
}

/// A probability is held against that of the other posterior at its place, and without one against
/// an even share.
pub proof fn probabilities_are_held_against_their_own(
    p: Seq<Scalar>,
    q: Seq<Scalar>,
    i: int,
)
    requires
        0 <= i < p.len() < EXACT,
    ensures
        regime::reference_at(p, Some(q), i) == q[i],
        relations::rounds(
            regime::reference_at(p, None, i),
            scalar::one_unit() as int,
            p.len(),
        ),
        regime::shared_len(p, None) == p.len(),
        regime::shared_len(p, Some(q)) <= p.len(),
        regime::shared_len(p, Some(q)) <= q.len(),
        regime::shared_len(p, Some(q)) == p.len() || regime::shared_len(p, Some(q)) == q.len(),
{
    relations::zero_and_one();
    relations::part_of(Scalar::of_int(1), p.len());
}

/// What a posterior tells: it is taken in, its time is noted, the drift stays, and the regime is
/// unknown exactly if the entropy is above the threshold.
pub proof fn a_high_entropy_leaves_the_regime_unknown(
    before: RegimeModel,
    posterior: Seq<Scalar>,
    now_ns: u64,
    entropy_logs: Seq<Scalar>,
    divergence_logs: Seq<Scalar>,
    threshold: Scalar,
)
    requires
        !threshold.nan(),
        !before.updated(posterior, now_ns, entropy_logs, divergence_logs, threshold).entropy.nan(),
    ensures
        ({
            let after = before.updated(
                posterior,
                now_ns,
                entropy_logs,
                divergence_logs,
                threshold,
            );
            &&& after.is_unknown <==> !after.entropy.at_most(threshold)
            &&& after.initialized
            &&& after.last_update_ns == now_ns
            &&& after.drift == before.drift
            &&& after.posterior.len() == posterior.len()
        }),
{
}

/// Where the entropy and the divergence of a posterior are taken with the same logarithms, one is
/// the other with its sign changed.
pub proof fn an_update_turns_entropy_into_divergence(
    before: RegimeModel,
    posterior: Seq<Scalar>,
    now_ns: u64,
    logs: Seq<Scalar>,
    threshold: Scalar,
)
    requires
        logs.len() == posterior.len(),
    ensures
        relations::turned(
            before.updated(posterior, now_ns, logs, logs, threshold).entropy,
            before.updated(posterior, now_ns, logs, logs, threshold).kl_divergence,
        ),
{
    entropy_turns_divergence(regime::normal(posterior), logs, posterior.len() as int);
}

// ---------------------------------------------------------------------------------------------
// Drift.
// ---------------------------------------------------------------------------------------------

/// Changing the sign of the drift changes the sign of the next one.
pub proof fn the_next_drift_turns_with_the_last(
    posterior: Seq<Scalar>,
    drift: Seq<Scalar>,
    mirrored: Seq<Scalar>,
    coeff: Scalar,
    d: int,
)
    requires
        0 <= d < drift.len() == mirrored.len(),
        relations::turned(drift[d], mirrored[d]),
    ensures
        relations::turned(
            regime::next_drift(posterior, drift, coeff)[d],
            regime::next_drift(posterior, mirrored, coeff)[d],
        ),
{
    relations::products_turn(drift[d], coeff, mirrored[d]);
    let a = regime::drift_parts(posterior, coeff.times(drift[d]));
    let b = regime::drift_parts(posterior, coeff.times(mirrored[d]));
    assert forall|i: int| 0 <= i < a.len() implies relations::turned(#[trigger] a[i], b[i]) by {
        relations::products_turn(
            coeff.times(drift[d]),
            posterior[i],
            coeff.times(mirrored[d]),
        );
    }
    relations::running_sums_turn(a, b, posterior.len() as int);
}

/// Where one regime is certain, the next drift is the last one times the coefficient, in every
/// place.
pub proof fn a_certain_regime_keeps_the_share_of_its_drift(
    posterior: Seq<Scalar>,
    drift: Seq<Scalar>,
    coeff: Scalar,
    certain: int,
    d: int,
)
    requires
        0 <= certain < posterior.len(),
        posterior[certain] == Scalar::of_int(1),
        forall|i: int|
            0 <= i < posterior.len() && i != certain ==> (#[trigger] posterior[i]).zero(),
        0 <= d < drift.len(),
        coeff.finite(),
        drift[d].finite(),
        coeff.times(drift[d]).finite(),
    ensures
        regime::next_drift(posterior, drift, coeff).len() == drift.len(),
        relations::rounds(
            regime::next_drift(posterior, drift, coeff)[d],
            coeff.value() * drift[d].value(),
            scalar::one_unit(),
        ),
{
    let decayed = coeff.times(drift[d]);
    order::times_is_near(coeff, drift[d]);
    let a = regime::drift_parts(posterior, decayed);
    assert forall|i: int| 0 <= i < a.len() && i != certain implies (#[trigger] a[i]).zero() by {
        assert(posterior[i].zero());
        relations::nothing_of(decayed, posterior[i]);
    }
    crate::bayesian_laws::times_one(decayed);
    relations::factors_commute(decayed, Scalar::of_int(1));
    assert(a[certain] == decayed);
    relations::a_single_term(a, a.len() as int, certain);
}

/// Moving the drift on changes nothing else.
pub proof fn only_the_drift_moves(before: RegimeModel, coeff: Scalar)
    ensures
        before.drifted(coeff) == (RegimeModel {
            drift: before.drifted(coeff).drift,
            ..before
        }),
        before.drifted(coeff).drift.len() == before.drift.len(),
{
}

/// At the start every regime is as likely as any other: the number nearest to one over their
/// count. Nothing drifts or diverges.
pub proof fn a_start_is_even(n_regimes: nat, feature_dim: nat, max_entropy: Scalar, i: int)
    requires
        0 <= i < n_regimes < EXACT,
    ensures
        relations::rounds(
            RegimeModel::start(n_regimes, feature_dim, max_entropy).posterior[i],
            scalar::one_unit() as int,
            n_regimes,
        ),
        RegimeModel::start(n_regimes, feature_dim, max_entropy).kl_divergence.zero(),
        RegimeModel::start(n_regimes, feature_dim, max_entropy).entropy == max_entropy,
        !RegimeModel::start(n_regimes, feature_dim, max_entropy).initialized,
        !RegimeModel::start(n_regimes, feature_dim, max_entropy).is_unknown,
{
    relations::zero_and_one();
    relations::part_of(Scalar::of_int(1), n_regimes);
}

} // verus!
