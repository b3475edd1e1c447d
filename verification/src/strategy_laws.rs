//! Laws of the strategies.

use crate::decision;
use crate::extractor_laws;
use crate::features::FeatureVector;
use crate::order;
use crate::scalar::Scalar;
use crate::strategy_a;
use crate::strategy_b;
use crate::strategy_c;
use vstd::prelude::*;

verus! {

/// Two probabilities and a number, weighed, are a probability.
proof fn blend_is_a_probability(a: Scalar, b: Scalar, c: Scalar)
    requires
        extractor_laws::is_probability(a),
        extractor_laws::is_probability(b),
        !c.nan(),
    ensures
        extractor_laws::is_probability(decision::blend(a, b, c)),
{
    extractor_laws::fraction(2, 5);
    extractor_laws::fraction(7, 20);
    extractor_laws::fraction(1, 4);
    extractor_laws::share(a, Scalar::of_ratio(2, 5));
    extractor_laws::share(b, Scalar::of_ratio(7, 20));
    let x = a.times(Scalar::of_ratio(2, 5));
    let y = b.times(Scalar::of_ratio(7, 20));
    let z = c.times(Scalar::of_ratio(1, 4));
    extractor_laws::base_is_finite(x, y);
    order::positive_ratio(1, 4);
    order::no_negative_rank(Scalar::of_ratio(1, 4));
    assert(!z.nan()) by {
        if c.finite() {
            order::times_is_near(c, Scalar::of_ratio(1, 4));
        } else {
            reveal(Scalar::times);
        }
    }
    extractor_laws::sum_with_finite(x.plus(y), z);
    extractor_laws::unit_is_probability(x.plus(y).plus(z));
}

/// How far a number is above a smaller one is not negative.
proof fn excess(x: Scalar, least: Scalar)
    requires
        least.finite(),
        least.below(x),
    ensures
        !x.minus(least).nan(),
        !x.minus(least).neg(),
{
    reveal(Scalar::plus);
    if x.finite() {
        order::order_is_order_of_values(least, x);
        order::negated_value(least);
        order::minus_is_near(x, least);
    }
}

/// The probability of reversion is a probability, whatever the features are.
pub proof fn p_revert_a_is_a_probability(base: FeatureVector)
    ensures
        extractor_laws::is_probability(strategy_a::p_revert_a(base)),
{
    let one = Scalar::of_int(1);
    let zero = Scalar::of_int(0);
    order::int_is_exact(0);
    order::int_is_exact(1);
    order::int_is_exact(2);
    order::no_negative_rank(one);
    extractor_laws::scaled_magnitude(base.spread_zscore, 3);
    extractor_laws::capped_magnitude(base.spread_zscore.magnitude().over(Scalar::of_int(3)));
    let fifth = Scalar::of_ratio(1, 5);
    extractor_laws::fraction(1, 5);
    order::positive_ratio(4, 5);
    let depth = base.depth_change_rate;
    if depth.below(fifth.negated()) {
        assert(fifth.below(depth.negated()));
        excess(depth.negated(), fifth);
        let over = depth.negated().minus(fifth).over(Scalar::of_ratio(4, 5));
        assert(over.nan() || over.rank() >= 0) by {
            reveal(Scalar::over);
        }
        extractor_laws::capped_magnitude(over);
    }
    let ratio = base.volatility_ratio;
    if one.below(ratio) {
        excess(ratio, one);
        let over = ratio.minus(one).over(Scalar::of_int(2));
        assert(over.nan() || over.rank() >= 0) by {
            reveal(Scalar::over);
        }
        extractor_laws::capped_magnitude(over);
    }
    order::order_is_order_of_values(zero, one);
    let spread_signal = base.spread_zscore.magnitude().over(Scalar::of_int(3)).lesser(one);
    let depth_signal = if depth.below(fifth.negated()) {
        depth.negated().minus(fifth).over(Scalar::of_ratio(4, 5)).lesser(one)
    } else {
        zero
    };
    let vol_signal = if one.below(ratio) {
        ratio.minus(one).over(Scalar::of_int(2)).lesser(one)
    } else {
        zero
    };
    blend_is_a_probability(spread_signal, depth_signal, vol_signal);
}

/// The probability of continuation is a probability, whatever the features are.
pub proof fn p_continue_b_is_a_probability(base: FeatureVector)
    ensures
        extractor_laws::is_probability(strategy_b::p_continue_b(base)),
{
    let one = Scalar::of_int(1);
    let zero = Scalar::of_int(0);
    order::int_is_exact(0);
    order::int_is_exact(1);
    order::order_is_order_of_values(zero, one);
    order::no_negative_rank(one);
    let decay = base.volatility_decay_rate;
    if decay.below(zero) {
        extractor_laws::capped_magnitude(decay.negated());
    }
    extractor_laws::capped_magnitude(base.obi.magnitude());
    let vol_decay_signal = if decay.below(zero) {
        decay.negated().lesser(one)
    } else {
        zero
    };
    blend_is_a_probability(
        vol_decay_signal,
        base.obi.magnitude().lesser(one),
        base.trade_intensity.over(Scalar::of_int(10)).lesser(one),
    );
}

/// The probability of a trend is a probability where the sessions are marked by probabilities.
pub proof fn p_trend_c_is_a_probability(base: FeatureVector, time_weight: Scalar)
    requires
        extractor_laws::is_probability(base.session_tokyo),
        extractor_laws::is_probability(base.session_london),
        extractor_laws::is_probability(base.session_ny),
        extractor_laws::is_probability(base.session_sydney),
        !time_weight.nan(),
    ensures
        extractor_laws::is_probability(strategy_c::p_trend_c(base, time_weight)),
{
    let one = Scalar::of_int(1);
    order::int_is_exact(1);
    order::no_negative_rank(one);
    extractor_laws::capped_magnitude(base.obi.magnitude());
    let early = if Scalar::of_int(0).below(base.time_since_open_ms) {
        time_weight
    } else {
        one
    };
    blend_is_a_probability(
        base.obi.magnitude().lesser(one),
        strategy_c::dominant_session(base),
        early,
    );
}

} // verus!
