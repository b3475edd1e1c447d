//! When the strategies act, and what they act on.

use crate::decision;
use crate::extractor_laws;
use crate::features::FeatureVector;
use crate::order;
use crate::outlook_laws;
use crate::relations;
use crate::scalar;
use crate::scalar::Scalar;
use crate::strategy_a;
use crate::strategy_a::StrategyAConfig;
use crate::strategy_b;
use crate::strategy_b::StrategyBConfig;
use crate::strategy_c;
use crate::strategy_c::StrategyCConfig;
use vstd::prelude::*;

verus! {

// ---------------------------------------------------------------------------------------------
// Triggers.
// ---------------------------------------------------------------------------------------------

/// The first strategy acts on a spread above its threshold, a depth that fell below its own, a
/// volatility above its own, and a regime that diverges by less than its own: on all of them.
pub proof fn a_lack_of_liquidity_triggers(config: StrategyAConfig, f: FeatureVector, kl: Scalar)
    requires
        f.spread_zscore.finite(),
        f.depth_change_rate.finite(),
        f.volatility_ratio.finite(),
        kl.finite(),
        config.spread_z_threshold.finite(),
        config.depth_drop_threshold.finite(),
        config.vol_spike_threshold.finite(),
        config.regime_kl_threshold.finite(),
    ensures
        config.triggers(f, kl) <==> f.spread_zscore.value() > config.spread_z_threshold.value()
            && f.depth_change_rate.value() < config.depth_drop_threshold.value()
            && f.volatility_ratio.value() > config.vol_spike_threshold.value() && kl.value()
            < config.regime_kl_threshold.value(),
{
    order::order_is_order_of_values(config.spread_z_threshold, f.spread_zscore);
    order::order_is_order_of_values(f.depth_change_rate, config.depth_drop_threshold);
    order::order_is_order_of_values(config.vol_spike_threshold, f.volatility_ratio);
    order::order_is_order_of_values(kl, config.regime_kl_threshold);
}

/// The second strategy acts on a volatility above its threshold that decays faster than its own, a
/// book that leans more than its own to either side, and a regime that diverges by less.
pub proof fn a_decaying_volatility_triggers(config: StrategyBConfig, f: FeatureVector, kl: Scalar)
    requires
        f.volatility_ratio.finite(),
        f.volatility_decay_rate.finite(),
        f.obi.finite(),
        kl.finite(),
        config.vol_spike_threshold.finite(),
        config.vol_decaying_threshold.finite(),
        config.obi_alignment_threshold.finite(),
        config.regime_kl_threshold.finite(),
    ensures
        config.triggers(f, kl) <==> f.volatility_ratio.value() > config.vol_spike_threshold.value()
            && f.volatility_decay_rate.value() < config.vol_decaying_threshold.value()
            && (f.obi.value() > config.obi_alignment_threshold.value() || -f.obi.value()
            > config.obi_alignment_threshold.value()) && kl.value()
            < config.regime_kl_threshold.value(),
{
    relations::magnitudes(f.obi);
    order::order_is_order_of_values(config.vol_spike_threshold, f.volatility_ratio);
    order::order_is_order_of_values(f.volatility_decay_rate, config.vol_decaying_threshold);
    order::order_is_order_of_values(config.obi_alignment_threshold, f.obi.magnitude());
    order::order_is_order_of_values(kl, config.regime_kl_threshold);
}

/// The third strategy acts in a session that is marked above its threshold, on a book that leans
/// more than its own to either side, before the session has been open for too long, and on a
/// regime that diverges by less.
pub proof fn an_early_session_triggers(config: StrategyCConfig, f: FeatureVector, kl: Scalar)
    requires
        f.session_tokyo.finite(),
        f.session_london.finite(),
        f.session_ny.finite(),
        f.session_sydney.finite(),
        f.obi.finite(),
        f.time_since_open_ms.finite(),
        kl.finite(),
        config.session_active_threshold.finite(),
        config.obi_significance_threshold.finite(),
        config.max_session_open_ms.finite(),
        config.regime_kl_threshold.finite(),
    ensures
        config.triggers(f, kl) <==> ({
            let least = config.session_active_threshold.value();
            f.session_tokyo.value() > least || f.session_london.value() > least
                || f.session_ny.value() > least || f.session_sydney.value() > least
        }) && (f.obi.value() > config.obi_significance_threshold.value() || -f.obi.value()
            > config.obi_significance_threshold.value()) && f.time_since_open_ms.value()
            < config.max_session_open_ms.value() && kl.value()
            < config.regime_kl_threshold.value(),
{
    relations::magnitudes(f.obi);
    order::order_is_order_of_values(config.session_active_threshold, f.session_tokyo);
    order::order_is_order_of_values(config.session_active_threshold, f.session_london);
    order::order_is_order_of_values(config.session_active_threshold, f.session_ny);
    order::order_is_order_of_values(config.session_active_threshold, f.session_sydney);
    order::order_is_order_of_values(config.obi_significance_threshold, f.obi.magnitude());
    order::order_is_order_of_values(f.time_since_open_ms, config.max_session_open_ms);
    order::order_is_order_of_values(kl, config.regime_kl_threshold);
}

// ---------------------------------------------------------------------------------------------
// What the strategies add to the features.
// ---------------------------------------------------------------------------------------------

/// The first strategy adds to the features: spread times book; impact, raised by how much the depth
/// has changed; the probability of reversion; what time has left; and depth times volatility.
pub proof fn the_first_strategy_looks_at_liquidity(
    base: FeatureVector,
    decayed: Scalar,
    change: Scalar,
    raise: Scalar,
)
    requires
        base.spread_zscore.finite(),
        base.obi.finite(),
        base.self_impact.finite(),
        base.depth_change_rate.finite(),
        base.realized_volatility.finite(),
        change.finite(),
        change.value() == if base.depth_change_rate.magnitude().value() <= 2 * scalar::one_unit() {
            base.depth_change_rate.magnitude().value()
        } else {
            2int * scalar::one_unit()
        },
        raise.finite(),
        relations::rounds(raise, scalar::one_unit() + change.value(), 1),
    ensures
        ({
            let phi = strategy_a::features_a(base, decayed);
            let n = base.flat().len() as int;
            let one = scalar::one_unit();
            &&& phi.len() == n + 5
            &&& phi.take(n) == base.flat()
            &&& relations::rounds(phi[n], base.spread_zscore.value() * base.obi.value(), one)
            &&& relations::rounds(phi[n + 1], base.self_impact.value() * raise.value(), one)
            &&& extractor_laws::is_probability(phi[n + 2])
            &&& phi[n + 2] == strategy_a::p_revert_a(base)
            &&& base.holding_time_ms.at_most(Scalar::of_int(0)) ==> phi[n + 3] == Scalar::of_int(1)
            &&& Scalar::of_int(0).below(base.holding_time_ms) ==> phi[n + 3] == decayed
            &&& relations::rounds(
                phi[n + 4],
                base.depth_change_rate.value() * base.realized_volatility.value(),
                one,
            )
        }),
{
    let phi = strategy_a::features_a(base, decayed);
    let n = base.flat().len() as int;
    assert(phi.take(n) =~= base.flat());
    relations::zero_and_one();
    order::int_is_exact(2);
    relations::magnitudes(base.depth_change_rate);
    let rate = base.depth_change_rate.magnitude();
    let two = Scalar::of_int(2);
    order::order_is_order_of_values(two, rate);
    let c = rate.lesser(two);
    assert(c.value() == change.value());
    order::plus_is_near(Scalar::of_int(1), c);
    let r = Scalar::of_int(1).plus(c);
    relations::level_values(r, raise);
    order::times_is_near(base.spread_zscore, base.obi);
    order::times_is_near(base.self_impact, r);
    order::times_is_near(base.depth_change_rate, base.realized_volatility);
    crate::strategy_laws::p_revert_a_is_a_probability(base);
}

/// The second strategy adds to the features: volatility times book; the change of the book times
/// how much is traded; the probability of continuation; what time has left; and the ratio of
/// volatilities times the volume.
pub proof fn the_second_strategy_looks_at_flow(base: FeatureVector, decayed: Scalar)
    requires
        base.realized_volatility.finite(),
        base.obi.finite(),
        base.delta_obi.finite(),
        base.trade_intensity.finite(),
        base.volatility_ratio.finite(),
        base.signed_volume.finite(),
    ensures
        ({
            let phi = strategy_b::features_b(base, decayed);
            let n = base.flat().len() as int;
            let one = scalar::one_unit();
            &&& phi.len() == n + 5
            &&& phi.take(n) == base.flat()
            &&& relations::rounds(phi[n], base.realized_volatility.value() * base.obi.value(), one)
            &&& relations::rounds(
                phi[n + 1],
                base.delta_obi.value() * base.trade_intensity.value(),
                one,
            )
            &&& extractor_laws::is_probability(phi[n + 2])
            &&& phi[n + 2] == strategy_b::p_continue_b(base)
            &&& base.holding_time_ms.at_most(Scalar::of_int(0)) ==> phi[n + 3] == Scalar::of_int(1)
            &&& Scalar::of_int(0).below(base.holding_time_ms) ==> phi[n + 3] == decayed
            &&& relations::rounds(
                phi[n + 4],
                base.volatility_ratio.value() * base.signed_volume.value(),
                one,
            )
        }),
{
    let phi = strategy_b::features_b(base, decayed);
    let n = base.flat().len() as int;
    assert(phi.take(n) =~= base.flat());
    relations::zero_and_one();
    order::times_is_near(base.realized_volatility, base.obi);
    order::times_is_near(base.delta_obi, base.trade_intensity);
    order::times_is_near(base.volatility_ratio, base.signed_volume);
    crate::strategy_laws::p_continue_b_is_a_probability(base);
}

/// The greatest mark of a session is one of the marks, and none is above it.
pub proof fn the_dominant_session_is_marked_most(base: FeatureVector)
    requires
        !base.session_tokyo.nan(),
        !base.session_london.nan(),
        !base.session_ny.nan(),
        !base.session_sydney.nan(),
    ensures
        ({
            let top = strategy_c::dominant_session(base);
            &&& base.session_tokyo.at_most(top)
            &&& base.session_london.at_most(top)
            &&& base.session_ny.at_most(top)
            &&& base.session_sydney.at_most(top)
            &&& top == base.session_tokyo || top == base.session_london || top == base.session_ny
                || top == base.session_sydney
        }),
{
}

/// The third strategy adds to the features: the book times the greatest mark of a session; the
/// change of depth times the place in the queue; the probability of a trend; what time has left;
/// and the book times the age of the session, at most sixty units of it.
pub proof fn the_third_strategy_looks_at_the_session(
    base: FeatureVector,
    time_weight: Scalar,
    decayed: Scalar,
    age: Scalar,
    capped: Scalar,
)
    requires
        base.obi.finite(),
        strategy_c::dominant_session(base).finite(),
        base.depth_change_rate.finite(),
        base.queue_position.finite(),
        base.time_since_open_ms.finite(),
        age.finite(),
        relations::rounds(age, base.time_since_open_ms.value(), 1_000_000),
        capped.finite(),
        capped.value() == if age.value() <= 60 * scalar::one_unit() {
            age.value()
        } else {
            60int * scalar::one_unit()
        },
    ensures
        ({
            let phi = strategy_c::features_c(base, time_weight, decayed);
            let n = base.flat().len() as int;
            let one = scalar::one_unit();
            &&& phi.len() == n + 5
            &&& phi.take(n) == base.flat()
            &&& relations::rounds(
                phi[n],
                base.obi.value() * strategy_c::dominant_session(base).value(),
                one,
            )
            &&& relations::rounds(
                phi[n + 1],
                base.depth_change_rate.value() * base.queue_position.value(),
                one,
            )
            &&& phi[n + 2] == strategy_c::p_trend_c(base, time_weight)
            &&& base.holding_time_ms.at_most(Scalar::of_int(0)) ==> phi[n + 3] == Scalar::of_int(1)
            &&& Scalar::of_int(0).below(base.holding_time_ms) ==> phi[n + 3] == decayed
            &&& relations::rounds(phi[n + 4], base.obi.value() * capped.value(), one)
        }),
{
    let phi = strategy_c::features_c(base, time_weight, decayed);
    let n = base.flat().len() as int;
    assert(phi.take(n) =~= base.flat());
    relations::zero_and_one();
    order::int_is_exact(60);
    relations::part_of(base.time_since_open_ms, 1_000_000);
    let a = base.time_since_open_ms.over(Scalar::of_int(1_000_000));
    relations::level_values(a, age);
    order::order_is_order_of_values(Scalar::of_int(60), a);
    let c = a.lesser(Scalar::of_int(60));
    order::times_is_near(base.obi, strategy_c::dominant_session(base));
    order::times_is_near(base.depth_change_rate, base.queue_position);
    order::times_is_near(base.obi, c);
}

// ---------------------------------------------------------------------------------------------
// How likely the strategies think a move is.
// ---------------------------------------------------------------------------------------------

/// The signal that a spread away from its mean gives.
proof fn away_signal(z: Scalar)
    requires
        !z.nan(),
    ensures
        extractor_laws::is_probability(
            z.magnitude().over(Scalar::of_int(3)).lesser(Scalar::of_int(1)),
        ),
{
    relations::magnitudes(z);
    outlook_laws::part_signal(z.magnitude(), z.magnitude(), 3);
}

/// The signal that a fall of the depth beyond a fifth gives.
proof fn fall_signal(a: Scalar, b: Scalar)
    requires
        b.at_most(a),
        a.below(Scalar::of_ratio(1, 5).negated()),
    ensures
        ({
            let fifth = Scalar::of_ratio(1, 5);
            let rest = Scalar::of_ratio(4, 5);
            let one = Scalar::of_int(1);
            let x = a.negated().minus(fifth).over(rest).lesser(one);
            let y = b.negated().minus(fifth).over(rest).lesser(one);
            &&& x.at_most(y)
            &&& extractor_laws::is_probability(x)
            &&& extractor_laws::is_probability(y)
        }),
{
    relations::zero_and_one();
    let fifth = Scalar::of_ratio(1, 5);
    let rest = Scalar::of_ratio(4, 5);
    outlook_laws::fractions(1, 5);
    outlook_laws::fractions(4, 5);
    relations::negated_is_opposite(fifth);
    relations::negated_is_opposite(a);
    relations::negated_is_opposite(b);
    order::order_is_order_of_values(Scalar::of_int(0), rest);
    let (u, v) = (a.negated().minus(fifth), b.negated().minus(fifth));
    above(a.negated(), fifth);
    above(b.negated(), fifth);
    relations::differences_keep_order(a.negated(), b.negated(), fifth, fifth);
    outlook_laws::number_over(u, rest);
    outlook_laws::number_over(v, rest);
    relations::quotients_keep_order(u, v, rest);
    relations::greater_divisors_give_less(u, rest, rest);
}

/// What is above a finite number is so by something.
proof fn above(x: Scalar, least: Scalar)
    requires
        least.finite(),
        least.below(x),
    ensures
        !x.minus(least).nan(),
        x.minus(least).rank() >= 0,
{
    relations::zero_and_one();
    if x.finite() {
        order::minus_is_near(x, least);
        order::order_is_order_of_values(least, x);
        order::near_itself(Scalar::of_int(0), 1);
        order::near_keeps_order(0, 1, x.value() - least.value(), 1);
    } else {
        reveal(Scalar::plus);
    }
}

/// The signal that a volatility above the long one gives.
proof fn rough_signal(a: Scalar, b: Scalar)
    requires
        a.at_most(b),
    ensures
        ({
            let one = Scalar::of_int(1);
            let x = if one.below(a) {
                a.minus(one).over(Scalar::of_int(2)).lesser(one)
            } else {
                Scalar::of_int(0)
            };
            let y = if one.below(b) {
                b.minus(one).over(Scalar::of_int(2)).lesser(one)
            } else {
                Scalar::of_int(0)
            };
            &&& x.at_most(y)
            &&& extractor_laws::is_probability(x)
            &&& extractor_laws::is_probability(y)
        }),
{
    relations::zero_and_one();
    let one = Scalar::of_int(1);
    if one.below(b) {
        outlook_laws::beyond_one(b);
        outlook_laws::part_signal(b.minus(one), b.minus(one), 2);
    }
    if one.below(a) {
        outlook_laws::beyond_one(a);
        relations::differences_keep_order(a, b, one, one);
        outlook_laws::part_signal(a.minus(one), b.minus(one), 2);
    }
}

/// For the first strategy a reversion is the more likely the further the spread is from its mean on
/// either side, the further the depth has fallen, and the more volatility has risen.
pub proof fn likely_reversions_keep_order(a: FeatureVector, b: FeatureVector)
    requires
        a.spread_zscore.magnitude().at_most(b.spread_zscore.magnitude()),
        b.depth_change_rate.at_most(a.depth_change_rate),
        a.volatility_ratio.at_most(b.volatility_ratio),
    ensures
        strategy_a::p_revert_a(a).at_most(strategy_a::p_revert_a(b)),
{
    relations::zero_and_one();
    let one = Scalar::of_int(1);
    let zero = Scalar::of_int(0);
    let drop = Scalar::of_ratio(1, 5).negated();
    outlook_laws::part_signal(a.spread_zscore.magnitude(), b.spread_zscore.magnitude(), 3);
    if a.depth_change_rate.below(drop) {
        fall_signal(a.depth_change_rate, b.depth_change_rate);
    } else if b.depth_change_rate.below(drop) {
        fall_signal(b.depth_change_rate, b.depth_change_rate);
    }
    rough_signal(a.volatility_ratio, b.volatility_ratio);
    outlook_laws::blends_keep_order(
        a.spread_zscore.magnitude().over(Scalar::of_int(3)).lesser(one),
        fallen(a.depth_change_rate),
        risen(a.volatility_ratio),
        b.spread_zscore.magnitude().over(Scalar::of_int(3)).lesser(one),
        fallen(b.depth_change_rate),
        risen(b.volatility_ratio),
    );
}

/// How far the depth has fallen beyond a fifth, as a share of the rest.
spec fn fallen(rate: Scalar) -> Scalar {
    if rate.below(Scalar::of_ratio(1, 5).negated()) {
        rate.negated().minus(Scalar::of_ratio(1, 5)).over(Scalar::of_ratio(4, 5)).lesser(
            Scalar::of_int(1),
        )
    } else {
        Scalar::of_int(0)
    }
}

/// How far volatility has risen above the long one, halved.
spec fn risen(ratio: Scalar) -> Scalar {
    if Scalar::of_int(1).below(ratio) {
        ratio.minus(Scalar::of_int(1)).over(Scalar::of_int(2)).lesser(Scalar::of_int(1))
    } else {
        Scalar::of_int(0)
    }
}

/// The sign of the spread does not matter to the first strategy.
pub proof fn reversion_is_likely_on_both_sides(a: FeatureVector, b: FeatureVector)
    requires
        relations::opposite(a.spread_zscore, b.spread_zscore),
        a.depth_change_rate == b.depth_change_rate,
        a.volatility_ratio == b.volatility_ratio,
    ensures
        strategy_a::p_revert_a(a) == strategy_a::p_revert_a(b),
{
    relations::opposite_values(a.spread_zscore, b.spread_zscore);
}

/// What each sign of a reversion counts for alone with the first strategy: three deviations of the
/// spread for two fifths; a depth that is gone for seven twentieths, from a fall of a fifth on in
/// proportion; a volatility of three times the long one for a quarter, from the long one on in
/// proportion.
pub proof fn reversion_has_three_signs(
    f: FeatureVector,
    third: Scalar,
    fall: Scalar,
    share: Scalar,
    excess: Scalar,
    part: Scalar,
)
    requires
        f.spread_zscore.finite(),
        f.depth_change_rate.finite(),
        f.volatility_ratio.finite(),
        third.finite(),
        fall.finite(),
        share.finite(),
        excess.finite(),
        part.finite(),
        relations::rounds(third, f.spread_zscore.magnitude().value(), 3),
        relations::rounds(
            fall,
            -f.depth_change_rate.value() - Scalar::of_ratio(1, 5).value(),
            1,
        ),
        relations::rounds(
            share,
            fall.value() * scalar::one_unit(),
            Scalar::of_ratio(4, 5).value() as nat,
        ),
        relations::rounds(excess, f.volatility_ratio.value() - scalar::one_unit(), 1),
        relations::rounds(part, excess.value(), 2),
        third.at_most(Scalar::of_int(1)),
        share.at_most(Scalar::of_int(1)),
        part.at_most(Scalar::of_int(1)),
    ensures
        ({
            let fallen = f.depth_change_rate.below(Scalar::of_ratio(1, 5).negated());
            let risen = Scalar::of_int(1).below(f.volatility_ratio);
            let p = strategy_a::p_revert_a(f);
            let one = scalar::one_unit();
            &&& !fallen && !risen ==> relations::rounds(
                p,
                third.value() * Scalar::of_ratio(2, 5).value(),
                one,
            )
            &&& f.spread_zscore.zero() && fallen && !risen ==> relations::rounds(
                p,
                share.value() * Scalar::of_ratio(7, 20).value(),
                one,
            )
            &&& f.spread_zscore.zero() && !fallen && risen ==> relations::rounds(
                p,
                part.value() * Scalar::of_ratio(1, 4).value(),
                one,
            )
        }),
{
    relations::zero_and_one();
    let one = Scalar::of_int(1);
    let zero = Scalar::of_int(0);
    let fifth = Scalar::of_ratio(1, 5);
    let rest = Scalar::of_ratio(4, 5);
    outlook_laws::fractions(1, 5);
    outlook_laws::fractions(4, 5);
    order::order_is_order_of_values(zero, rest);
    relations::magnitudes(f.spread_zscore);
    away_signal(f.spread_zscore);
    relations::part_of(f.spread_zscore.magnitude(), 3);
    outlook_laws::part_signal(f.spread_zscore.magnitude(), f.spread_zscore.magnitude(), 3);
    let t = f.spread_zscore.magnitude().over(Scalar::of_int(3));
    relations::level_values(t, third);
    let s = t.lesser(one);
    outlook_laws::a_signal_alone_counts_for_its_weight(s, zero);
    let rate = f.depth_change_rate;
    if rate.below(fifth.negated()) && f.spread_zscore.zero() && !one.below(f.volatility_ratio) {
        fall_signal(rate, rate);
        order::negated_value(rate);
        order::minus_is_near(rate.negated(), fifth);
        let u = rate.negated().minus(fifth);
        relations::level_values(u, fall);
        order::over_is_near(u, rest);
        relations::level_values(u.over(rest), share);
        outlook_laws::a_signal_alone_counts_for_its_weight(u.over(rest).lesser(one), zero);
        zeros_blend_alike(s, zero, u.over(rest).lesser(one));
    }
    if one.below(f.volatility_ratio) && f.spread_zscore.zero() && !rate.below(fifth.negated()) {
        rough_signal(f.volatility_ratio, f.volatility_ratio);
        outlook_laws::beyond_one(f.volatility_ratio);
        let e = f.volatility_ratio.minus(one);
        relations::level_values(e, excess);
        relations::part_of(e, 2);
        relations::level_values(e.over(Scalar::of_int(2)), part);
        outlook_laws::a_signal_alone_counts_for_its_weight(
            e.over(Scalar::of_int(2)).lesser(one),
            zero,
        );
        zeros_blend_alike(s, zero, e.over(Scalar::of_int(2)).lesser(one));
    }
}

/// It does not matter which zero stands for a signal that is not there.
proof fn zeros_blend_alike(a: Scalar, b: Scalar, c: Scalar)
    requires
        a.zero(),
        b.zero(),
        extractor_laws::is_probability(c),
    ensures
        decision::blend(a, c, b).level(decision::blend(b, c, b)),
        decision::blend(a, b, c).level(decision::blend(b, b, c)),
{
    relations::zero_and_one();
    assert(extractor_laws::is_probability(a) && extractor_laws::is_probability(b));
    outlook_laws::blends_keep_order(a, c, b, b, c, b);
    outlook_laws::blends_keep_order(b, c, b, a, c, b);
    outlook_laws::blends_keep_order(a, b, c, b, b, c);
    outlook_laws::blends_keep_order(b, b, c, a, b, c);
}

/// For the second strategy a move is the more likely to go on the faster volatility decays, the
/// more the book leans to either side, and the more is traded.
pub proof fn likely_continuations_keep_order(a: FeatureVector, b: FeatureVector)
    requires
        b.volatility_decay_rate.at_most(a.volatility_decay_rate),
        a.obi.magnitude().at_most(b.obi.magnitude()),
        Scalar::of_int(0).at_most(a.trade_intensity),
        a.trade_intensity.at_most(b.trade_intensity),
    ensures
        strategy_b::p_continue_b(a).at_most(strategy_b::p_continue_b(b)),
{
    relations::zero_and_one();
    let one = Scalar::of_int(1);
    let zero = Scalar::of_int(0);
    relations::magnitudes(a.obi);
    relations::magnitudes(b.obi);
    relations::negated_is_opposite(a.volatility_decay_rate);
    relations::negated_is_opposite(b.volatility_decay_rate);
    outlook_laws::part_signal(a.trade_intensity, b.trade_intensity, 10);
    outlook_laws::blends_keep_order(
        decays(a.volatility_decay_rate),
        a.obi.magnitude().lesser(one),
        a.trade_intensity.over(Scalar::of_int(10)).lesser(one),
        decays(b.volatility_decay_rate),
        b.obi.magnitude().lesser(one),
        b.trade_intensity.over(Scalar::of_int(10)).lesser(one),
    );
}

/// How fast volatility decays, at most one.
spec fn decays(rate: Scalar) -> Scalar {
    if rate.below(Scalar::of_int(0)) {
        rate.negated().lesser(Scalar::of_int(1))
    } else {
        Scalar::of_int(0)
    }
}

/// What each sign of a continuation counts for alone with the second strategy: the decay of
/// volatility for two fifths of itself, the lean of the book for seven twentieths, and ten trades
/// for a quarter, fewer in proportion.
pub proof fn continuation_has_three_signs(f: FeatureVector, part: Scalar)
    requires
        f.volatility_decay_rate.finite(),
        f.obi.finite(),
        order::nonnegative(f.trade_intensity),
        f.volatility_decay_rate.magnitude().at_most(Scalar::of_int(1)),
        f.obi.magnitude().at_most(Scalar::of_int(1)),
        part.finite(),
        relations::rounds(part, f.trade_intensity.value(), 10),
        part.at_most(Scalar::of_int(1)),
    ensures
        ({
            let decays = f.volatility_decay_rate.below(Scalar::of_int(0));
            let p = strategy_b::p_continue_b(f);
            let one = scalar::one_unit();
            &&& decays && f.obi.zero() && f.trade_intensity.zero() ==> relations::rounds(
                p,
                -f.volatility_decay_rate.value() * Scalar::of_ratio(2, 5).value(),
                one,
            )
            &&& !decays && f.trade_intensity.zero() ==> relations::rounds(
                p,
                f.obi.magnitude().value() * Scalar::of_ratio(7, 20).value(),
                one,
            )
            &&& !decays && f.obi.zero() ==> relations::rounds(
                p,
                part.value() * Scalar::of_ratio(1, 4).value(),
                one,
            )
        }),
{
    relations::zero_and_one();
    let one = Scalar::of_int(1);
    let zero = Scalar::of_int(0);
    relations::magnitudes(f.obi);
    relations::magnitudes(f.volatility_decay_rate);
    relations::negated_is_opposite(f.volatility_decay_rate);
    order::negated_value(f.volatility_decay_rate);
    order::no_negative_rank(f.trade_intensity);
    outlook_laws::part_signal(f.trade_intensity, f.trade_intensity, 10);
    relations::part_of(f.trade_intensity, 10);
    let i = f.trade_intensity.over(Scalar::of_int(10));
    relations::level_values(i, part);
    let (d, o, t) = (
        decays(f.volatility_decay_rate),
        f.obi.magnitude().lesser(one),
        i.lesser(one),
    );
    assert(extractor_laws::is_probability(d));
    assert(extractor_laws::is_probability(o));
    outlook_laws::a_signal_alone_counts_for_its_weight(d, zero);
    outlook_laws::a_signal_alone_counts_for_its_weight(o, zero);
    outlook_laws::a_signal_alone_counts_for_its_weight(t, zero);
    if f.obi.zero() && f.trade_intensity.zero() {
        outlook_laws::blends_keep_order(d, o, t, d, zero, zero);
        outlook_laws::blends_keep_order(d, zero, zero, d, o, t);
    }
    if !f.volatility_decay_rate.below(zero) && f.trade_intensity.zero() {
        outlook_laws::blends_keep_order(d, o, t, zero, o, zero);
        outlook_laws::blends_keep_order(zero, o, zero, d, o, t);
    }
    if !f.volatility_decay_rate.below(zero) && f.obi.zero() {
        outlook_laws::blends_keep_order(d, o, t, zero, zero, t);
        outlook_laws::blends_keep_order(zero, zero, t, d, o, t);
    }
}

/// For the third strategy a trend is the more likely the more the book leans to either side, the
/// more the session is marked, and the earlier it is.
pub proof fn likely_trends_keep_order(
    a: FeatureVector,
    b: FeatureVector,
    weight1: Scalar,
    weight2: Scalar,
)
    requires
        a.obi.magnitude().at_most(b.obi.magnitude()),
        extractor_laws::is_probability(strategy_c::dominant_session(a)),
        strategy_c::dominant_session(a).at_most(strategy_c::dominant_session(b)),
        strategy_c::dominant_session(b).at_most(Scalar::of_int(1)),
        Scalar::of_int(0).at_most(weight1),
        weight1.at_most(weight2),
        weight2.at_most(Scalar::of_int(1)),
        b.time_since_open_ms.at_most(a.time_since_open_ms),
    ensures
        strategy_c::p_trend_c(a, weight1).at_most(strategy_c::p_trend_c(b, weight2)),
{
    relations::zero_and_one();
    let one = Scalar::of_int(1);
    let zero = Scalar::of_int(0);
    relations::magnitudes(a.obi);
    relations::magnitudes(b.obi);
    let (u, v) = (
        if zero.below(a.time_since_open_ms) {
            weight1
        } else {
            one
        },
        if zero.below(b.time_since_open_ms) {
            weight2
        } else {
            one
        },
    );
    outlook_laws::blends_keep_order(
        a.obi.magnitude().lesser(one),
        strategy_c::dominant_session(a),
        u,
        b.obi.magnitude().lesser(one),
        strategy_c::dominant_session(b),
        v,
    );
}

/// What each sign of a trend counts for alone with the third strategy: the lean of the book for two
/// fifths of itself, the mark of the session for seven twentieths, and how early it is for a
/// quarter; at the opening that counts in full.
pub proof fn a_trend_has_three_signs(f: FeatureVector, none: Scalar, weight: Scalar)
    requires
        f.obi.finite(),
        f.obi.magnitude().at_most(Scalar::of_int(1)),
        extractor_laws::is_probability(strategy_c::dominant_session(f)),
        none.zero(),
        extractor_laws::is_probability(weight),
    ensures
        ({
            let later = Scalar::of_int(0).below(f.time_since_open_ms);
            let top = strategy_c::dominant_session(f);
            let one = scalar::one_unit();
            &&& later && top.zero() ==> relations::rounds(
                strategy_c::p_trend_c(f, none),
                f.obi.magnitude().value() * Scalar::of_ratio(2, 5).value(),
                one,
            )
            &&& later && f.obi.zero() ==> relations::rounds(
                strategy_c::p_trend_c(f, none),
                top.value() * Scalar::of_ratio(7, 20).value(),
                one,
            )
            &&& later && f.obi.zero() && top.zero() ==> relations::rounds(
                strategy_c::p_trend_c(f, weight),
                weight.value() * Scalar::of_ratio(1, 4).value(),
                one,
            )
            &&& !later ==> strategy_c::p_trend_c(f, weight) == strategy_c::p_trend_c(
                f,
                Scalar::of_int(1),
            )
        }),
{
    relations::zero_and_one();
    let one = Scalar::of_int(1);
    let zero = Scalar::of_int(0);
    relations::magnitudes(f.obi);
    let (o, s) = (f.obi.magnitude().lesser(one), strategy_c::dominant_session(f));
    outlook_laws::a_signal_alone_counts_for_its_weight(o, zero);
    outlook_laws::a_signal_alone_counts_for_its_weight(s, zero);
    outlook_laws::a_signal_alone_counts_for_its_weight(weight, zero);
    if s.zero() {
        outlook_laws::blends_keep_order(o, s, none, o, zero, zero);
        outlook_laws::blends_keep_order(o, zero, zero, o, s, none);
    }
    if f.obi.zero() {
        outlook_laws::blends_keep_order(o, s, none, zero, s, zero);
        outlook_laws::blends_keep_order(zero, s, zero, o, s, none);
    }
    if f.obi.zero() && s.zero() {
        outlook_laws::blends_keep_order(o, s, weight, zero, zero, weight);
        outlook_laws::blends_keep_order(zero, zero, weight, o, s, weight);
    }
}

} // verus!
