//! What a chosen action is for: whom it favours, what it costs and how much it trades.

use crate::bayesian_lr::{ActionDraws, ActionValues, QAction, QFunction};
use crate::decision;
use crate::decision::TradeRules;
use crate::features::FeatureVector;
use crate::order;
use crate::policy::Action;
use crate::relations;
use crate::rounding;
use crate::scalar;
use crate::scalar::Scalar;
use crate::state::StateSnapshot;
use vstd::arithmetic::mul::*;
use vstd::arithmetic::power2::*;
use vstd::prelude::*;

verus! {

// ---------------------------------------------------------------------------------------------
// Lots.
// ---------------------------------------------------------------------------------------------

/// The whole units of a number that is not negative: no more than the number, and less than one
/// short of it, unless it is beyond what a lot can hold.
pub proof fn whole_units(p: Scalar)
    requires
        !p.nan(),
        p.rank() >= 0,
    ensures
        p.finite() ==> p.whole() * scalar::one_unit() <= p.value(),
        p.finite() && p.whole() < u64::MAX ==> p.value() < (p.whole() + 1) * scalar::one_unit(),
        p.infinite() ==> p.whole() == u64::MAX,
{
    reveal(Scalar::whole);
    lemma_pow2_pos(scalar::UNIT_EXPONENT as nat);
    let one = scalar::one_unit() as int;
    if p.mag() == 0 {
        assert(rounding::units(0) == 0);
        assert(0int / one == 0) by {
            vstd::arithmetic::div_mod::lemma_div_basics(one);
        }
        lemma_mul_basics(one);
    } else if p.finite() {
        let n = p.count() as int;
        let q = n / one;
        vstd::arithmetic::div_mod::lemma_fundamental_div_mod(n, one);
        assert(q * one <= n < (q + 1) * one) by (nonlinear_arith)
            requires
                n == one * q + n % one,
                0 <= n % one < one,
        ;
        if q > u64::MAX {
            assert(u64::MAX * one <= n) by (nonlinear_arith)
                requires
                    q > u64::MAX,
                    q * one <= n,
                    one > 0,
            ;
        }
    }
}

/// `lot` is the whole units of `product`, at most `max_lot`.
pub open spec fn whole_and_capped(lot: u64, product: Scalar, max_lot: u64) -> bool {
    &&& lot <= max_lot
    &&& product.finite() ==> lot * scalar::one_unit() <= product.value()
    &&& lot < max_lot ==> product.finite() && product.value() < (lot + 1) * scalar::one_unit()
}

/// A trade, whether it buys or sells, has as its lot the whole units of the default lot times the
/// multiplier, at most the greatest lot. The product is the number nearest to the exact one.
pub proof fn a_trade_has_the_scaled_lot(
    chosen: QAction,
    multiplier: Scalar,
    rules: TradeRules,
    product: Scalar,
)
    requires
        multiplier.finite(),
        !product.nan(),
        product.rank() == order::near(
            Scalar::of_int(rules.default_lot_size as nat).value() * multiplier.value(),
            scalar::one_unit(),
        ),
    ensures
        decision::sized(chosen, multiplier, rules) matches Action::Buy(lot) ==> whole_and_capped(
            lot,
            product,
            rules.max_lot_size,
        ),
        decision::sized(chosen, multiplier, rules) matches Action::Sell(lot) ==> whole_and_capped(
            lot,
            product,
            rules.max_lot_size,
        ),
{
    if !multiplier.below(Scalar::of_ratio(1, 100)) {
        scaled_lot(multiplier, rules, product);
    }
}

/// A multiplier of at least a hundredth is positive.
proof fn a_hundredth()
    ensures
        Scalar::of_int(0).below(Scalar::of_ratio(1, 100)),
        Scalar::of_ratio(1, 100).finite(),
{
    relations::zero_and_one();
    order::positive_ratio(1, 100);
    order::proper_ratio(1, 100);
}

/// The lot for a multiplier that is large enough.
proof fn scaled_lot(multiplier: Scalar, rules: TradeRules, product: Scalar)
    requires
        multiplier.finite(),
        !multiplier.below(Scalar::of_ratio(1, 100)),
        !product.nan(),
        product.rank() == order::near(
            Scalar::of_int(rules.default_lot_size as nat).value() * multiplier.value(),
            scalar::one_unit(),
        ),
    ensures
        whole_and_capped(
            decision::lot_for(rules.default_lot_size, rules.max_lot_size, multiplier),
            product,
            rules.max_lot_size,
        ),
        product.rank() >= 0,
        decision::lot_for(rules.default_lot_size, rules.max_lot_size, multiplier)
            < rules.max_lot_size ==> decision::lot_for(
            rules.default_lot_size,
            rules.max_lot_size,
            multiplier,
        ) == product.whole(),
        decision::lot_for(rules.default_lot_size, rules.max_lot_size, multiplier)
            <= product.whole(),
{
    let lot = Scalar::of_int(rules.default_lot_size as nat);
    let p = lot.times(multiplier);
    let one = scalar::one_unit();
    lemma_pow2_pos(scalar::UNIT_EXPONENT as nat);
    relations::ints_are_finite(rules.default_lot_size);
    a_hundredth();
    relations::zero_and_one();
    order::order_is_order_of_values(Scalar::of_int(0), multiplier);
    order::times_is_near(lot, multiplier);
    lemma_mul_nonnegative(lot.value(), multiplier.value());
    order::near_itself(Scalar::of_int(0), one);
    lemma_mul_nonnegative(lot.value() * multiplier.value(), one as int);
    order::near_keeps_order(0, one, lot.value() * multiplier.value(), one);
    assert(p.level(product));
    relations::level_values(p, product);
    whole_units(p);
    whole_units(product);
    reveal(Scalar::whole);
    assert(rounding::units(0) == 0);
    if p.mag() == 0 {
        vstd::arithmetic::div_mod::lemma_div_basics(one as int);
    }
    assert(p.whole() == product.whole());
    let r = decision::lot_for(rules.default_lot_size, rules.max_lot_size, multiplier);
    assert(r * one <= p.whole() * one) by {
        lemma_mul_inequality(r as int, p.whole() as int, one as int);
    }
}

/// Under the same rules and multiplier a purchase and a sale have the same lot, and one is made
/// exactly if the other is.
pub proof fn both_sides_trade_the_same_lot(multiplier: Scalar, rules: TradeRules, lot: u64)
    ensures
        decision::sized(QAction::Buy, multiplier, rules) == Action::Buy(lot) <==> decision::sized(
            QAction::Sell,
            multiplier,
            rules,
        ) == Action::Sell(lot),
        !(decision::sized(QAction::Buy, multiplier, rules) is Sell),
        !(decision::sized(QAction::Sell, multiplier, rules) is Buy),
        decision::sized(QAction::Hold, multiplier, rules) is Hold,
{
}

/// A trade is made exactly if the multiplier is at least a hundredth and the scaled lot, capped,
/// is at least the least lot.
pub proof fn what_is_too_small_is_not_traded(
    chosen: QAction,
    multiplier: Scalar,
    rules: TradeRules,
    product: Scalar,
)
    requires
        chosen != QAction::Hold,
        multiplier.finite(),
        !product.nan(),
        product.rank() == order::near(
            Scalar::of_int(rules.default_lot_size as nat).value() * multiplier.value(),
            scalar::one_unit(),
        ),
    ensures
        decision::sized(chosen, multiplier, rules) is Hold <==> (multiplier.below(
            Scalar::of_ratio(1, 100),
        ) || rules.max_lot_size < rules.min_lot_size || (product.finite() && product.value()
            < rules.min_lot_size * scalar::one_unit())),
{
    if !multiplier.below(Scalar::of_ratio(1, 100)) {
        scaled_lot(multiplier, rules, product);
        whole_units(product);
        lemma_pow2_pos(scalar::UNIT_EXPONENT as nat);
        let one = scalar::one_unit() as int;
        let (w, m) = (product.whole() as int, rules.min_lot_size as int);
        if product.finite() {
            if w < m {
                lemma_mul_inequality(w + 1, m, one);
            } else {
                lemma_mul_inequality(m, w, one);
            }
        }
    }
}

/// What is chosen is traded with the lot for the multiplier of the account.
pub proof fn a_choice_trades_the_scaled_lot(
    q: QFunction,
    phi: Seq<Scalar>,
    draws: ActionDraws,
    features: FeatureVector,
    state: StateSnapshot,
    k: Scalar,
    latency_ms: Scalar,
    checks_consistency: bool,
    rules: TradeRules,
    product: Scalar,
)
    requires
        state.lot_multiplier.finite(),
        !product.nan(),
        product.rank() == order::near(
            Scalar::of_int(rules.default_lot_size as nat).value() * state.lot_multiplier.value(),
            scalar::one_unit(),
        ),
    ensures
        ({
            let action = decision::choice_of(
                q,
                phi,
                draws,
                features,
                state,
                k,
                latency_ms,
                checks_consistency,
                rules,
            ).action;
            &&& action matches Action::Buy(lot) ==> whole_and_capped(
                lot,
                product,
                rules.max_lot_size,
            ) && lot >= rules.min_lot_size
            &&& action matches Action::Sell(lot) ==> whole_and_capped(
                lot,
                product,
                rules.max_lot_size,
            ) && lot >= rules.min_lot_size
        }),
{
    a_trade_has_the_scaled_lot(QAction::Buy, state.lot_multiplier, rules, product);
    a_trade_has_the_scaled_lot(QAction::Sell, state.lot_multiplier, rules, product);
}

// ---------------------------------------------------------------------------------------------
// What a trade costs.
// ---------------------------------------------------------------------------------------------

/// Without noise and latency, a trade costs its impact and the dynamic cost.
pub proof fn impact_and_spread_are_costs(
    features: FeatureVector,
    noise_variance: Scalar,
    k: Scalar,
    latency_ms: Scalar,
    rules: TradeRules,
)
    requires
        features.self_impact.finite(),
        features.dynamic_cost.finite(),
        noise_variance.zero(),
        k.finite(),
        latency_ms.zero(),
        rules.latency_penalty_k.finite(),
    ensures
        relations::rounds(
            decision::trade_cost(features, noise_variance, k, latency_ms, rules),
            features.self_impact.value() + features.dynamic_cost.value(),
            1,
        ),
{
    reveal(Scalar::root);
    relations::nothing_of(k, noise_variance.root());
    relations::nothing_of(rules.latency_penalty_k, latency_ms);
    let sum = features.self_impact.plus(features.dynamic_cost);
    order::plus_is_near(features.self_impact, features.dynamic_cost);
    let noise = k.times(noise_variance.root());
    relations::adding_nothing(sum, noise);
    relations::adding_nothing(sum.plus(noise), rules.latency_penalty_k.times(latency_ms));
}

/// Without impact, dynamic cost and latency, a trade costs the deviation of the noise times its
/// weight; without noise either, the latency times its penalty.
pub proof fn noise_and_latency_are_costs(
    features: FeatureVector,
    noise_variance: Scalar,
    k: Scalar,
    latency_ms: Scalar,
    rules: TradeRules,
)
    requires
        features.self_impact.zero(),
        features.dynamic_cost.zero(),
        k.finite(),
        noise_variance.root().finite(),
        latency_ms.finite(),
        rules.latency_penalty_k.finite(),
    ensures
        latency_ms.zero() ==> relations::rounds(
            decision::trade_cost(features, noise_variance, k, latency_ms, rules),
            k.value() * noise_variance.root().value(),
            scalar::one_unit(),
        ),
        noise_variance.zero() ==> relations::rounds(
            decision::trade_cost(features, noise_variance, k, latency_ms, rules),
            rules.latency_penalty_k.value() * latency_ms.value(),
            scalar::one_unit(),
        ),
{
    let noise = k.times(noise_variance.root());
    let late = rules.latency_penalty_k.times(latency_ms);
    order::times_is_near(k, noise_variance.root());
    order::times_is_near(rules.latency_penalty_k, latency_ms);
    let base = features.self_impact.plus(features.dynamic_cost);
    relations::adding_nothing(features.self_impact, features.dynamic_cost);
    relations::adding_nothing(noise, base);
    if latency_ms.zero() {
        relations::nothing_of(rules.latency_penalty_k, latency_ms);
        relations::adding_nothing(base.plus(noise), late);
    }
    if noise_variance.zero() {
        reveal(Scalar::root);
        relations::nothing_of(k, noise_variance.root());
        relations::adding_nothing(late, base.plus(noise));
    }
}

/// A trade costs more with more impact, a higher dynamic cost, more noise, a heavier weight on it,
/// and more latency.
pub proof fn costs_add_up(
    cheap: FeatureVector,
    dear: FeatureVector,
    noise1: Scalar,
    noise2: Scalar,
    k1: Scalar,
    k2: Scalar,
    latency1: Scalar,
    latency2: Scalar,
    rules: TradeRules,
)
    requires
        cheap.self_impact.at_most(dear.self_impact),
        cheap.dynamic_cost.at_most(dear.dynamic_cost),
        Scalar::of_int(0).at_most(noise1),
        noise1.at_most(noise2),
        Scalar::of_int(0).at_most(k1),
        k1.at_most(k2),
        Scalar::of_int(0).at_most(latency1),
        latency1.at_most(latency2),
        Scalar::of_int(0).at_most(rules.latency_penalty_k),
        !decision::trade_cost(cheap, noise1, k1, latency1, rules).nan(),
        !decision::trade_cost(dear, noise2, k2, latency2, rules).nan(),
    ensures
        decision::trade_cost(cheap, noise1, k1, latency1, rules).at_most(
            decision::trade_cost(dear, noise2, k2, latency2, rules),
        ),
{
    let (n1, n2) = (k1.times(noise1.root()), k2.times(noise2.root()));
    let (l1, l2) = (
        rules.latency_penalty_k.times(latency1),
        rules.latency_penalty_k.times(latency2),
    );
    let (b1, b2) = (
        cheap.self_impact.plus(cheap.dynamic_cost),
        dear.self_impact.plus(dear.dynamic_cost),
    );
    relations::nan_spreads(b1.plus(n1), l1);
    relations::nan_spreads(b2.plus(n2), l2);
    relations::nan_spreads(b1, n1);
    relations::nan_spreads(b2, n2);
    relations::roots_keep_order(noise1, noise2);
    relations::products_keep_order(k1, k2, noise1.root(), noise2.root());
    relations::products_keep_order(
        rules.latency_penalty_k,
        rules.latency_penalty_k,
        latency1,
        latency2,
    );
    relations::sums_keep_order(
        cheap.self_impact,
        dear.self_impact,
        cheap.dynamic_cost,
        dear.dynamic_cost,
    );
    relations::sums_keep_order(b1, b2, n1, n2);
    relations::sums_keep_order(b1.plus(n1), b2.plus(n2), l1, l2);
}

/// Buying and selling are each lowered by the whole cost, and by the same.
pub proof fn both_sides_bear_the_cost(raw: ActionValues, cost: Scalar)
    requires
        raw.buy.finite(),
        raw.sell.finite(),
        cost.finite(),
    ensures
        relations::rounds(
            decision::after_costs(raw, cost).buy,
            raw.buy.value() - cost.value(),
            1,
        ),
        relations::rounds(
            decision::after_costs(raw, cost).sell,
            raw.sell.value() - cost.value(),
            1,
        ),
        raw.buy == raw.sell ==> decision::after_costs(raw, cost).buy == decision::after_costs(
            raw,
            cost,
        ).sell,
{
    order::minus_is_near(raw.buy, cost);
    order::minus_is_near(raw.sell, cost);
}

// ---------------------------------------------------------------------------------------------
// Indecision.
// ---------------------------------------------------------------------------------------------

/// It does not matter which of the two is called buying.
pub proof fn indecision_takes_no_side(a: Scalar, b: Scalar, threshold: Scalar)
    requires
        !a.nan(),
        !b.nan(),
    ensures
        decision::undecided(a, b, threshold) == decision::undecided(b, a, threshold),
{
    relations::zero_and_one();
    let zero = Scalar::of_int(0);
    if !a.at_most(zero) && !b.at_most(zero) {
        let (d, e) = (a.minus(b), b.minus(a));
        if a.rank() == b.rank() {
            relations::level_values(a, b);
        } else {
            relations::negated_is_opposite(a);
            relations::negated_is_opposite(b);
            relations::sums_turn_sign(a, b.negated(), a.negated(), b);
            reveal(Scalar::plus);
            if a.finite() && b.finite() {
                order::plus_is_near(b, a.negated());
                order::plus_is_near(a.negated(), b);
            }
            assert(d.nan() == e.nan());
            if !d.nan() {
                relations::opposite_values(d, a.negated().plus(b));
                relations::level_values(a.negated().plus(b), e);
            }
        }
    }
}

/// Two actions that both look good and equally so leave the choice open, unless nothing counts as
/// equal. One that does not look good never does.
pub proof fn equals_leave_the_choice_open(a: Scalar, b: Scalar, threshold: Scalar)
    ensures
        a.at_most(Scalar::of_int(0)) || b.at_most(Scalar::of_int(0)) ==> !decision::undecided(
            a,
            b,
            threshold,
        ),
        a.finite() && a.value() > 0 && a == b ==> (decision::undecided(a, b, threshold)
            <==> Scalar::of_int(0).below(threshold)),
        threshold.at_most(Scalar::of_int(0)) && a.finite() && b.finite() ==> !decision::undecided(
            a,
            b,
            threshold,
        ),
{
    relations::zero_and_one();
    let zero = Scalar::of_int(0);
    if a.finite() && b.finite() && !a.at_most(zero) && !b.at_most(zero) {
        let tiny = Scalar::of_ratio(1, 1_000_000_000_000_000);
        let top = a.greater(b);
        let d = a.minus(b).magnitude();
        order::proper_ratio(1, 1_000_000_000_000_000);
        order::order_is_order_of_values(zero, a);
        order::order_is_order_of_values(zero, b);
        order::order_is_order_of_values(zero, tiny);
        order::minus_is_near(a, b);
        relations::magnitudes(a.minus(b));
        relations::magnitudes(top);
        let whole = top.magnitude().plus(tiny);
        order::plus_is_near(top.magnitude(), tiny);
        order::near_itself(tiny, 1);
        order::near_keeps_order(tiny.value(), 1, top.magnitude().value() + tiny.value(), 1);
        relations::near_turns_sign(a.value() - b.value(), 1);
        order::order_is_order_of_values(a, b);
        order::near_itself(top, 1);
        order::near_keeps_order(a.value() - b.value(), 1, top.value(), 1);
        order::near_keeps_order(b.value() - a.value(), 1, top.value(), 1);
        assert(d.rank() <= top.rank());
        near_ratio_of_rank(d, whole);
        if a == b {
            order::near_itself(zero, 1);
            assert(d.zero());
        }
    }
}

/// A quotient of what is not negative by what is positive is not negative, and zero of zero.
proof fn near_ratio_of_rank(d: Scalar, whole: Scalar)
    requires
        !d.nan(),
        d.rank() >= 0,
        !whole.nan(),
        whole.rank() > 0,
        d.finite() || whole.finite(),
    ensures
        !d.over(whole).nan(),
        d.over(whole).rank() >= 0,
        d.zero() ==> d.over(whole).rank() == 0,
{
    relations::zero_and_one();
    let zero = Scalar::of_int(0);
    if d.finite() && whole.finite() {
        order::order_is_order_of_values(zero, whole);
        order::over_is_near(d, whole);
        relations::greater_divisors_give_less(d, whole, whole);
        if d.zero() {
            assert(rounding::units(0) == 0);
            lemma_mul_basics(scalar::one_unit() as int);
            order::near_itself(zero, whole.value() as nat);
            lemma_mul_basics(whole.value());
        }
    } else {
        reveal(Scalar::over);
    }
}

/// A choice that is open at one threshold is open at every higher one.
pub proof fn a_higher_threshold_leaves_more_choices_open(a: Scalar, b: Scalar, t1: Scalar, t2: Scalar)
    requires
        t1.at_most(t2),
    ensures
        decision::undecided(a, b, t1) ==> decision::undecided(a, b, t2),
{
}

/// The distance is measured by the greater of the two: it is never more than the whole of it, so
/// any threshold above one leaves every choice open between actions that look good.
pub proof fn the_distance_is_a_share_of_the_greater(a: Scalar, b: Scalar, threshold: Scalar)
    requires
        a.finite(),
        a.value() > 0,
        b.finite(),
        b.value() > 0,
        Scalar::of_int(1).below(threshold),
        a.greater(b).plus(Scalar::of_ratio(1, 1_000_000_000_000_000)).finite(),
    ensures
        decision::undecided(a, b, threshold),
{
    relations::zero_and_one();
    let zero = Scalar::of_int(0);
    let full = Scalar::of_int(1);
    let one = scalar::one_unit() as int;
    let tiny = Scalar::of_ratio(1, 1_000_000_000_000_000);
    let top = a.greater(b);
    order::proper_ratio(1, 1_000_000_000_000_000);
    order::order_is_order_of_values(zero, a);
    order::order_is_order_of_values(zero, b);
    order::order_is_order_of_values(zero, tiny);
    order::order_is_order_of_values(a, b);
    order::minus_is_near(a, b);
    let d = a.minus(b).magnitude();
    relations::magnitudes(a.minus(b));
    relations::magnitudes(top);
    relations::near_turns_sign(a.value() - b.value(), 1);
    let whole = top.magnitude().plus(tiny);
    order::plus_is_near(top.magnitude(), tiny);
    order::near_itself(top, 1);
    order::near_keeps_order(top.value(), 1, top.value() + tiny.value(), 1);
    order::near_keeps_order(a.value() - b.value(), 1, top.value(), 1);
    order::near_keeps_order(b.value() - a.value(), 1, top.value(), 1);
    assert(d.rank() <= top.rank() <= whole.rank());
    assert(top.magnitude() == top);
    order::order_is_order_of_values(d, whole);
    order::order_is_order_of_values(zero, whole);
    order::over_is_near(d, whole);
    order::near_itself(full, 1);
    lemma_mul_inequality(d.value(), whole.value(), one);
    lemma_mul_is_commutative(one, whole.value());
    order::near_keeps_order(d.value() * one, whole.value() as nat, one, 1);
}

// ---------------------------------------------------------------------------------------------
// The best action.
// ---------------------------------------------------------------------------------------------

/// With both sides allowed, buying wins its ties and selling loses only to buying. With one side
/// allowed, that side has to be better than holding. With none, nothing is done.
pub proof fn ties_are_settled(q: ActionValues)
    requires
        !q.buy.nan(),
        !q.sell.nan(),
        !q.hold.nan(),
    ensures
        decision::best_allowed(q, true, true) == QAction::Buy <==> q.sell.at_most(q.buy)
            && q.hold.at_most(q.buy),
        decision::best_allowed(q, true, true) == QAction::Sell <==> q.buy.below(q.sell)
            && q.hold.at_most(q.sell),
        decision::best_allowed(q, true, true) == QAction::Hold <==> q.buy.below(q.hold)
            && q.sell.below(q.hold),
        decision::best_allowed(q, true, false) == QAction::Buy <==> q.hold.below(q.buy),
        decision::best_allowed(q, true, false) != QAction::Sell,
        decision::best_allowed(q, false, true) == QAction::Sell <==> q.hold.below(q.sell),
        decision::best_allowed(q, false, true) != QAction::Buy,
        decision::best_allowed(q, false, false) == QAction::Hold,
{
}

/// Exchanging buying and selling, in worth and in what is allowed, exchanges the choice, unless
/// the two are tied.
pub proof fn neither_side_is_favoured(q: ActionValues, buy_allowed: bool, sell_allowed: bool)
    requires
        !q.buy.nan(),
        !q.sell.nan(),
        !q.hold.nan(),
        q.buy.rank() != q.sell.rank(),
    ensures
        ({
            let mirrored = ActionValues { buy: q.sell, sell: q.buy, hold: q.hold };
            let one = decision::best_allowed(q, buy_allowed, sell_allowed);
            let other = decision::best_allowed(mirrored, sell_allowed, buy_allowed);
            &&& one == QAction::Buy <==> other == QAction::Sell
            &&& one == QAction::Sell <==> other == QAction::Buy
        }),
{
}

/// A choice is the best allowed of its sampled values: unless the fallback holds, no action that
/// the limits allow has a greater one, and a trade that is strictly the best is made if its lot
/// is large enough.
pub proof fn a_choice_is_the_best_of_its_samples(
    q: QFunction,
    phi: Seq<Scalar>,
    draws: ActionDraws,
    features: FeatureVector,
    state: StateSnapshot,
    k: Scalar,
    latency_ms: Scalar,
    checks_consistency: bool,
    rules: TradeRules,
)
    ensures
        ({
            let choice = decision::choice_of(
                q,
                phi,
                draws,
                features,
                state,
                k,
                latency_ms,
                checks_consistency,
                rules,
            );
            let s = choice.sampled;
            let numbers = !s.buy.nan() && !s.sell.nan() && !s.hold.nan();
            &&& choice.consistency_fallback ==> choice.action is Hold && checks_consistency
            &&& numbers && choice.action is Buy ==> s.hold.at_most(s.buy)
                && state.buy_within_limit() && (state.sell_within_limit() ==> s.sell.at_most(s.buy))
            &&& numbers && choice.action is Sell ==> s.hold.at_most(s.sell)
                && state.sell_within_limit() && (state.buy_within_limit() ==> s.buy.below(s.sell))
            &&& numbers && !choice.consistency_fallback && state.buy_within_limit()
                && s.hold.below(s.buy) && s.sell.below(s.buy) ==> choice.action == decision::sized(
                QAction::Buy,
                state.lot_multiplier,
                rules,
            )
            &&& numbers && !choice.consistency_fallback && state.sell_within_limit()
                && s.hold.below(s.sell) && s.buy.below(s.sell) ==> choice.action
                == decision::sized(QAction::Sell, state.lot_multiplier, rules)
        }),
{
}

// ---------------------------------------------------------------------------------------------
// The position limit.
// ---------------------------------------------------------------------------------------------

/// A purchase is allowed exactly where the mirrored account may sell.
pub proof fn the_limit_holds_on_both_sides(state: StateSnapshot, mirrored: StateSnapshot)
    requires
        relations::opposite(state.global_position, mirrored.global_position),
        mirrored.global_position_limit == state.global_position_limit,
        !state.global_position_limit.nan(),
    ensures
        state.buy_within_limit() == mirrored.sell_within_limit(),
        state.sell_within_limit() == mirrored.buy_within_limit(),
{
    relations::zero_and_one();
    let one = Scalar::of_int(1);
    relations::negated_is_opposite(one);
    relations::negated_is_opposite(state.global_position_limit);
    relations::sums_turn_sign(
        state.global_position,
        one,
        mirrored.global_position,
        one.negated(),
    );
    relations::sums_turn_sign(
        state.global_position,
        one.negated(),
        mirrored.global_position,
        one,
    );
}

/// Buying is allowed exactly if the position and one more unit are within the limit; selling
/// exactly if the position less one unit is within the limit on the other side.
pub proof fn the_limit_counts_one_unit(state: StateSnapshot, more: Scalar, less: Scalar)
    requires
        state.global_position.finite(),
        state.global_position_limit.finite(),
        relations::rounds(more, state.global_position.value() + scalar::one_unit(), 1),
        relations::rounds(less, state.global_position.value() - scalar::one_unit(), 1),
        more.finite(),
        less.finite(),
    ensures
        state.buy_within_limit() <==> more.value() <= state.global_position_limit.value(),
        state.sell_within_limit() <==> -state.global_position_limit.value() <= less.value(),
{
    relations::zero_and_one();
    let one = Scalar::of_int(1);
    let (p, limit) = (state.global_position, state.global_position_limit);
    order::plus_is_near(p, one);
    order::minus_is_near(p, one);
    order::negated_value(limit);
    order::order_is_order_of_values(more, limit);
    order::order_is_order_of_values(limit.negated(), less);
}

/// A higher position never allows more purchases, a lower one never more sales, and a wider limit
/// never less of either.
pub proof fn room_shrinks_with_the_position(low: StateSnapshot, high: StateSnapshot)
    requires
        low.global_position.finite(),
        high.global_position.finite(),
        low.global_position.at_most(high.global_position),
        !low.global_position_limit.nan(),
        !high.global_position_limit.nan(),
    ensures
        high.global_position_limit.at_most(low.global_position_limit) && high.buy_within_limit()
            ==> low.buy_within_limit(),
        low.global_position_limit.at_most(high.global_position_limit) && low.sell_within_limit()
            ==> high.sell_within_limit(),
{
    relations::zero_and_one();
    let one = Scalar::of_int(1);
    order::plus_is_near(low.global_position, one);
    order::plus_is_near(high.global_position, one);
    order::minus_is_near(low.global_position, one);
    order::minus_is_near(high.global_position, one);
    relations::sums_keep_order(low.global_position, high.global_position, one, one);
    relations::differences_keep_order(low.global_position, high.global_position, one, one);
}

} // verus!
