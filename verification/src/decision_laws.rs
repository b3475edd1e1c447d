//! Laws of the decisions.

use crate::bayesian_laws;
use crate::bayesian_lr::{ActionDraws, ActionValues, QAction, QFunction};
use crate::decision;
use crate::decision::{Choice, Situation, StrategyModel, TradeRules};
use crate::features::FeatureVector;
use crate::order;
use crate::policy::Action;
use crate::rounding;
use crate::rounding::{BINADE, EXACT};
use crate::scalar;
use crate::scalar::Scalar;
use crate::state::StateSnapshot;
use crate::thompson_sampling;
use vstd::arithmetic::mul::*;
use vstd::arithmetic::power2::*;
use vstd::prelude::*;

verus! {

/// No choice trades beyond the limit on the global position, whatever the Q-values are.
pub proof fn the_position_limit_holds(
    q: QFunction,
    phi: Seq<Scalar>,
    draws: ActionDraws,
    features: FeatureVector,
    state: StateSnapshot,
    k: Scalar,
    latency_ms: Scalar,
    checks_consistency: bool,
    rules: TradeRules,
)
    ensures
        ({
            let action = decision::choice_of(
                q,
                phi,
                draws,
                features,
                state,
                k,
                latency_ms,
                checks_consistency,
                rules,
            ).action;
            &&& action is Buy ==> state.buy_within_limit()
            &&& action is Sell ==> state.sell_within_limit()
        }),
{
}

/// Every lot that is traded is from the least to the greatest, and nothing is traded with a
/// multiplier below a hundredth.
pub proof fn lots_are_within_bounds(chosen: QAction, multiplier: Scalar, rules: TradeRules)
    ensures
        decision::sized(chosen, multiplier, rules) matches Action::Buy(lot) ==> rules.min_lot_size
            <= lot <= rules.max_lot_size,
        decision::sized(chosen, multiplier, rules) matches Action::Sell(lot) ==> rules.min_lot_size
            <= lot <= rules.max_lot_size,
        multiplier.below(Scalar::of_ratio(1, 100)) ==> decision::sized(chosen, multiplier, rules)
            is Hold,
        decision::kind_of(decision::sized(chosen, multiplier, rules)) == chosen
            || decision::sized(chosen, multiplier, rules) is Hold,
{
}

/// Where the Q-values are numbers, the chosen action is one of those allowed, and none of them has
/// a greater value. Holding is always allowed.
pub proof fn the_best_allowed_action_is_chosen(
    q: ActionValues,
    buy_allowed: bool,
    sell_allowed: bool,
    other: QAction,
)
    requires
        !q.buy.nan(),
        !q.sell.nan(),
        !q.hold.nan(),
        other is Buy ==> buy_allowed,
        other is Sell ==> sell_allowed,
    ensures
        ({
            let chosen = decision::best_allowed(q, buy_allowed, sell_allowed);
            &&& chosen is Buy ==> buy_allowed
            &&& chosen is Sell ==> sell_allowed
            &&& q.of(other).at_most(q.of(chosen))
        }),
{
}

/// Where buying and selling look equally good, nothing is traded.
pub proof fn an_undecided_choice_holds(
    q: QFunction,
    phi: Seq<Scalar>,
    draws: ActionDraws,
    features: FeatureVector,
    state: StateSnapshot,
    k: Scalar,
    latency_ms: Scalar,
    checks_consistency: bool,
    rules: TradeRules,
)
    ensures
        ({
            let choice = decision::choice_of(
                q,
                phi,
                draws,
                features,
                state,
                k,
                latency_ms,
                checks_consistency,
                rules,
            );
            choice.consistency_fallback ==> choice.action is Hold
        }),
{
}

/// Point estimates and posterior deviations are for monitoring: two Q-functions with the same
/// samples and the same noise lead to the same action.
pub proof fn only_samples_decide(
    q1: QFunction,
    q2: QFunction,
    phi: Seq<Scalar>,
    draws1: ActionDraws,
    draws2: ActionDraws,
    features: FeatureVector,
    state: StateSnapshot,
    k: Scalar,
    latency_ms: Scalar,
    checks_consistency: bool,
    rules: TradeRules,
)
    requires
        q1.samples(phi, draws1) == q2.samples(phi, draws2),
        q1.buy.sigma2_noise == q2.buy.sigma2_noise,
    ensures
        ({
            let c1 = decision::choice_of(
                q1,
                phi,
                draws1,
                features,
                state,
                k,
                latency_ms,
                checks_consistency,
                rules,
            );
            let c2 = decision::choice_of(
                q2,
                phi,
                draws2,
                features,
                state,
                k,
                latency_ms,
                checks_consistency,
                rules,
            );
            c1.action == c2.action && c1.sampled == c2.sampled
        }),
{
}

/// Holding costs nothing.
pub proof fn holding_costs_nothing(raw: ActionValues, cost: Scalar)
    requires
        !raw.hold.nan(),
    ensures
        decision::after_costs(raw, cost).hold == raw.hold,
{
    reveal(Scalar::plus);
    order::int_is_exact(0);
    let zero = Scalar::of_int(0);
    if zero.mag() > 0 {
        rounding::units_increase(0, zero.mag());
    }
    order::negated_value(zero);
    let h = raw.hold;
    if h.finite() {
        rounding::round_mag_exact(h.mag(), 1);
        if h.mag() > 0 {
            rounding::units_increase(0, h.mag());
        }
    }
}

/// A cost that is not negative does not make buying or selling look better.
pub proof fn costs_lower_the_worth_of_trades(raw: ActionValues, cost: Scalar)
    requires
        raw.buy.finite(),
        raw.sell.finite(),
        order::nonnegative(cost),
    ensures
        decision::after_costs(raw, cost).buy.at_most(raw.buy),
        decision::after_costs(raw, cost).sell.at_most(raw.sell),
{
    order::minus_is_near(raw.buy, cost);
    order::minus_is_near(raw.sell, cost);
    order::near_itself(raw.buy, 1);
    order::near_itself(raw.sell, 1);
    order::near_keeps_order(raw.buy.value() - cost.value(), 1, raw.buy.value(), 1);
    order::near_keeps_order(raw.sell.value() - cost.value(), 1, raw.sell.value(), 1);
}

/// The trades among decisions are at most the decisions.
proof fn trades_are_decisions(history: Seq<bool>, k: int)
    ensures
        k >= 0 ==> decision::trades_in(history, k) <= k,
    decreases k,
{
    if k > 0 {
        trades_are_decisions(history, k - 1);
    }
}

/// The share of decisions that traded is from zero to one.
pub proof fn frequency_is_a_share(history: Seq<bool>)
    requires
        history.len() < EXACT,
    ensures
        Scalar::of_int(0).at_most(decision::frequency_of(history)),
        decision::frequency_of(history).at_most(Scalar::of_int(1)),
{
    order::int_is_exact(0);
    order::int_is_exact(1);
    let zero = Scalar::of_int(0);
    let full = Scalar::of_int(1);
    order::order_is_order_of_values(zero, full);
    if history.len() > 0 {
        let n = history.len();
        let t = decision::trades_in(history, n as int);
        trades_are_decisions(history, n as int);
        order::int_is_exact(n);
        order::int_is_exact(t);
        let a = Scalar::of_int(t);
        let b = Scalar::of_int(n);
        let one = scalar::one_unit() as int;
        lemma_mul_strictly_positive(n as int, one);
        order::over_is_near(a, b);
        order::near_itself(full, 1);
        order::near_itself(zero, 1);
        assert(a.value() * one * 1 <= one * b.value() && 0 <= a.value() * one) by (nonlinear_arith)
            requires
                a.value() == t * one,
                b.value() == n * one,
                0 <= t <= n,
                one > 0,
        ;
        order::near_keeps_order(a.value() * one, b.value() as nat, one, 1);
        order::near_keeps_order(0, 1, a.value() * one, b.value() as nat);
    }
}

/// The record of decisions never exceeds its window, and its last entry is the last decision.
pub proof fn the_record_keeps_to_its_window(history: Seq<bool>, window: nat, traded: bool)
    requires
        history.len() <= window,
        window > 0,
    ensures
        decision::recorded(history, window, traded).len() <= window,
        decision::recorded(history, window, traded).last() == traded,
{
}

/// Without a choice the decision does not depend on anything that is sampled.
pub proof fn nothing_is_sampled_without_a_choice(
    before: StrategyModel,
    situation: Situation,
    one: Choice,
    other: Choice,
    rules: TradeRules,
)
    requires
        !situation.chooses(before),
    ensures
        decision::decided(before, situation, one, rules) == decision::decided(
            before,
            situation,
            other,
            rules,
        ),
{
}

/// An episode that has lasted as long as it may is closed, whatever the market does, and no
/// decision leaves an episode under way without a position or a trade that opens one.
pub proof fn episodes_end(
    before: StrategyModel,
    situation: Situation,
    choice: Choice,
    rules: TradeRules,
)
    requires
        decision::clock_fits(before.entry, situation.now_ns, situation.max_hold_time_ms),
    ensures
        ({
            let (after, d) = decision::decided(before, situation, choice, rules);
            &&& situation.expires(before) ==> after.entry is None && d.should_close && d.action
                == decision::closing(situation.size)
            &&& d.episode_active == (after.entry is Some)
            &&& after.entry is Some ==> situation.holds || !(d.action is Hold)
            &&& after.entry is Some ==> !decision::timed_out(
                after.entry,
                situation.now_ns,
                situation.max_hold_time_ms,
            ) || after.entry == Some(situation.now_ns)
            &&& d.remaining_hold_time_ms <= situation.max_hold_time_ms
        }),
{
}

/// A decision that begins an episode trades, is triggered, and begins it at its own time.
pub proof fn episodes_begin_with_a_trade(
    before: StrategyModel,
    situation: Situation,
    choice: Choice,
    rules: TradeRules,
)
    requires
        before.entry is None,
    ensures
        ({
            let (after, d) = decision::decided(before, situation, choice, rules);
            after.entry is Some <==> !(d.action is Hold) && situation.triggered
        }),
        decision::decided(before, situation, choice, rules).0.entry matches Some(entry) ==> entry
            == situation.now_ns,
{
}

// ---------------------------------------------------------------------------------------------
// The weight of noise.
// ---------------------------------------------------------------------------------------------

/// Scaling a positive number by at least one does not make it smaller.
proof fn scaled_up(a: Scalar, f: Scalar)
    requires
        Scalar::of_int(0).below(a),
        Scalar::of_int(1).at_most(f),
    ensures
        a.at_most(a.times(f)),
{
    order::int_is_exact(0);
    order::int_is_exact(1);
    let zero = Scalar::of_int(0);
    if zero.mag() > 0 {
        rounding::units_increase(0, zero.mag());
    }
    let full = Scalar::of_int(1);
    if full.mag() == 0 {
        assert(full.value() == 0);
    }
    if a.finite() && f.finite() {
        order::order_is_order_of_values(full, f);
        order::order_is_order_of_values(zero, a);
        order::times_is_near(a, f);
        let one = scalar::one_unit();
        order::near_itself(a, one);
        assert((a.value() * one) * one <= (a.value() * f.value()) * one) by (nonlinear_arith)
            requires
                a.value() >= 0,
                one <= f.value(),
                one > 0,
        ;
        order::near_keeps_order(a.value() * one, one, a.value() * f.value(), one);
    } else {
        reveal(Scalar::times);
    }
}

/// One and something that is not negative is at least one.
proof fn one_and_more(x: Scalar)
    requires
        Scalar::of_int(0).at_most(x),
    ensures
        Scalar::of_int(1).at_most(Scalar::of_int(1).plus(x)),
{
    order::int_is_exact(0);
    order::int_is_exact(1);
    let full = Scalar::of_int(1);
    if x.finite() {
        order::order_is_order_of_values(Scalar::of_int(0), x);
        order::plus_is_near(full, x);
        order::near_itself(full, 1);
        order::near_keeps_order(full.value(), 1, full.value() + x.value(), 1);
    } else {
        reveal(Scalar::plus);
        if Scalar::of_int(0).mag() > 0 {
            rounding::units_increase(0, Scalar::of_int(0).mag());
        }
    }
}

/// A small positive integer times something that is not negative is not negative.
proof fn multiple(k: nat, x: Scalar)
    requires
        0 < k < EXACT,
        Scalar::of_int(0).at_most(x),
        x.finite(),
    ensures
        Scalar::of_int(0).at_most(Scalar::of_int(k).times(x)),
{
    order::int_is_exact(0);
    order::int_is_exact(k);
    let zero = Scalar::of_int(0);
    order::order_is_order_of_values(zero, x);
    order::times_is_near(Scalar::of_int(k), x);
    let one = scalar::one_unit();
    order::near_itself(zero, one);
    lemma_mul_nonnegative(k as int, one as int);
    lemma_mul_nonnegative(Scalar::of_int(k).value(), x.value());
    lemma_mul_nonnegative(Scalar::of_int(k).value() * x.value(), one as int);
    order::near_keeps_order(0, one, Scalar::of_int(k).value() * x.value(), one);
}

/// In no market is the noise weighed less than in a calm one: the weight is positive, and at
/// least the base weight.
pub proof fn noise_is_never_weighed_less(base_k: Scalar, volatility: Scalar, regime_stability: Scalar)
    requires
        Scalar::of_int(0).below(base_k),
        Scalar::of_int(0).at_most(volatility),
        volatility.finite(),
        regime_stability.at_most(Scalar::of_int(1)),
        regime_stability.finite(),
    ensures
        base_k.at_most(thompson_sampling::noise_weight(base_k, volatility, regime_stability)),
        Scalar::of_int(0).below(
            thompson_sampling::noise_weight(base_k, volatility, regime_stability),
        ),
{
    let one = Scalar::of_int(1);
    let zero = Scalar::of_int(0);
    order::int_is_exact(0);
    order::int_is_exact(1);
    multiple(10, volatility);
    one_and_more(Scalar::of_int(10).times(volatility));
    let factor = one.plus(Scalar::of_int(10).times(volatility));
    scaled_up(base_k, factor);
    let multiplier = if regime_stability.below(Scalar::of_ratio(1, 2)) {
        one.plus(Scalar::of_int(2).times(one.minus(regime_stability)))
    } else {
        one
    };
    if regime_stability.below(Scalar::of_ratio(1, 2)) {
        order::order_is_order_of_values(regime_stability, one);
        order::minus_is_near(one, regime_stability);
        order::near_itself(zero, 1);
        order::near_keeps_order(0, 1, one.value() - regime_stability.value(), 1);
        let gap = one.minus(regime_stability);
        if gap.finite() {
            multiple(2, gap);
        } else {
            reveal(Scalar::times);
            order::int_is_exact(2);
            if zero.mag() > 0 {
                rounding::units_increase(0, zero.mag());
            }
            if Scalar::of_int(2).mag() == 0 {
                assert(Scalar::of_int(2).value() == 0);
            }
        }
        one_and_more(Scalar::of_int(2).times(gap));
    }
    scaled_up(base_k.times(factor), multiplier);
}

/// Products of numbers that are not negative keep order, also where they are infinite.
proof fn products_keep_order(a: Scalar, b: Scalar, c: Scalar, d: Scalar)
    requires
        Scalar::of_int(0).at_most(a),
        Scalar::of_int(0).at_most(c),
        a.at_most(b),
        c.at_most(d),
        !a.times(c).nan(),
        !b.times(d).nan(),
    ensures
        a.times(c).at_most(b.times(d)),
        Scalar::of_int(0).at_most(a.times(c)),
{
    order::int_is_exact(0);
    let zero = Scalar::of_int(0);
    order::no_negative_rank(zero);
    let one = scalar::one_unit();
    if a.finite() && c.finite() {
        order::order_is_order_of_values(zero, a);
        order::order_is_order_of_values(zero, c);
        order::times_is_near(a, c);
        order::near_itself(zero, one);
        lemma_mul_nonnegative(a.value(), c.value());
        lemma_mul_nonnegative(a.value() * c.value(), one as int);
        order::near_keeps_order(0, one, a.value() * c.value(), one);
    } else {
        reveal(Scalar::times);
    }
    if b.finite() && d.finite() {
        order::order_is_order_of_values(a, b);
        order::order_is_order_of_values(c, d);
        order::times_is_near(b, d);
        assert(a.value() * c.value() * one <= b.value() * d.value() * one) by (nonlinear_arith)
            requires
                0 <= a.value() <= b.value(),
                0 <= c.value() <= d.value(),
                one > 0,
        ;
        order::near_keeps_order(a.value() * c.value(), one, b.value() * d.value(), one);
    } else {
        reveal(Scalar::times);
    }
}

/// How much the volatility adds to the weight of noise is at least one, and grows with it.
proof fn volatility_factors(v1: Scalar, v2: Scalar)
    requires
        Scalar::of_int(0).at_most(v1),
        v1.at_most(v2),
        v2.finite(),
    ensures
        ({
            let one = Scalar::of_int(1);
            let f1 = one.plus(Scalar::of_int(10).times(v1));
            let f2 = one.plus(Scalar::of_int(10).times(v2));
            &&& one.at_most(f1)
            &&& f1.at_most(f2)
        }),
{
    order::int_is_exact(0);
    order::int_is_exact(1);
    order::int_is_exact(10);
    let ten = Scalar::of_int(10);
    let zero = Scalar::of_int(0);
    order::order_is_order_of_values(zero, ten);
    order::no_negative_rank(zero);
    order::no_negative_rank(ten);
    assert(v1.finite());
    multiple(10, v1);
    multiple(10, v2);
    order::times_is_near(ten, v1);
    order::times_is_near(ten, v2);
    products_keep_order(ten, ten, v1, v2);
    one_and_more(ten.times(v1));
    one_and_more(ten.times(v2));
    let a = ten.times(v1);
    let b = ten.times(v2);
    let one = Scalar::of_int(1);
    if b.finite() {
        order::order_is_order_of_values(a, b);
        order::plus_is_near(one, a);
        order::plus_is_near(one, b);
        order::near_keeps_order(one.value() + a.value(), 1, one.value() + b.value(), 1);
    } else {
        reveal(Scalar::plus);
    }
}

/// How much an unstable regime multiplies the weight of noise by.
spec fn stability_multiplier(stability: Scalar) -> Scalar {
    let one = Scalar::of_int(1);
    if stability.below(Scalar::of_ratio(1, 2)) {
        one.plus(Scalar::of_int(2).times(one.minus(stability)))
    } else {
        one
    }
}

/// The multiplier is from one to three, and does not fall with less stability.
proof fn stability_multipliers(s1: Scalar, s2: Scalar)
    requires
        Scalar::of_int(0).at_most(s1),
        s1.at_most(s2),
        s2.at_most(Scalar::of_int(1)),
    ensures
        Scalar::of_int(1).at_most(stability_multiplier(s2)),
        stability_multiplier(s2).at_most(stability_multiplier(s1)),
        stability_multiplier(s1).finite(),
        stability_multiplier(s2).finite(),
{
    order::int_is_exact(0);
    order::int_is_exact(1);
    order::int_is_exact(2);
    order::int_is_exact(3);
    let zero = Scalar::of_int(0);
    let one = Scalar::of_int(1);
    let two = Scalar::of_int(2);
    let three = Scalar::of_int(3);
    let unit = scalar::one_unit();
    order::no_negative_rank(zero);
    order::no_negative_rank(one);
    order::order_is_order_of_values(one, three);
    order::proper_ratio(1, 2);
    assert(s1.finite() && s2.finite());
    order::order_is_order_of_values(zero, s1);
    order::order_is_order_of_values(s1, s2);
    order::order_is_order_of_values(s2, one);
    let g1 = one.minus(s1);
    let g2 = one.minus(s2);
    order::minus_is_near(one, s1);
    order::minus_is_near(one, s2);
    order::near_itself(zero, 1);
    order::near_itself(one, 1);
    order::near_keeps_order(0, 1, one.value() - s2.value(), 1);
    order::near_keeps_order(one.value() - s2.value(), 1, one.value() - s1.value(), 1);
    order::near_keeps_order(one.value() - s1.value(), 1, one.value(), 1);
    assert(g1.finite() && g2.finite());
    order::order_is_order_of_values(zero, g2);
    order::order_is_order_of_values(g2, g1);
    order::order_is_order_of_values(g1, one);
    let d1 = two.times(g1);
    let d2 = two.times(g2);
    order::times_is_near(two, g1);
    order::times_is_near(two, g2);
    order::near_itself(two, unit);
    order::near_itself(zero, unit);
    assert(0 <= two.value() * g2.value() * unit && two.value() * g2.value() * unit <= two.value()
        * g1.value() * unit && two.value() * g1.value() * unit <= two.value() * unit * unit)
        by (nonlinear_arith)
        requires
            0 <= g2.value() <= g1.value() <= unit,
            two.value() >= 0,
            unit > 0,
    ;
    order::near_keeps_order(0, unit, two.value() * g2.value(), unit);
    order::near_keeps_order(two.value() * g2.value(), unit, two.value() * g1.value(), unit);
    order::near_keeps_order(two.value() * g1.value(), unit, two.value() * unit, unit);
    order::no_negative_rank(two);
    assert(d1.finite() && d2.finite());
    order::order_is_order_of_values(zero, d2);
    order::order_is_order_of_values(d2, d1);
    order::order_is_order_of_values(d1, two);
    order::plus_is_near(one, d1);
    order::plus_is_near(one, d2);
    order::near_itself(three, 1);
    order::near_keeps_order(one.value(), 1, one.value() + d2.value(), 1);
    order::near_keeps_order(one.value() + d2.value(), 1, one.value() + d1.value(), 1);
    order::near_keeps_order(one.value() + d1.value(), 1, three.value(), 1);
}

/// Noise never weighs less in a rougher market: with more volatility or less stability the weight
/// does not fall, and it is at least the base weight. In a market at rest it is the base weight.
///
/// A base weight of zero is taken only together with a volatility that does not overflow.
pub proof fn noise_weighs_more_in_rougher_markets(
    base_k: Scalar,
    v1: Scalar,
    v2: Scalar,
    s1: Scalar,
    s2: Scalar,
)
    requires
        order::nonnegative(base_k),
        Scalar::of_int(0).at_most(v1),
        v1.at_most(v2),
        v2.finite(),
        Scalar::of_int(0).at_most(s1),
        s1.at_most(s2),
        s2.at_most(Scalar::of_int(1)),
        base_k.value() > 0 || Scalar::of_int(1).plus(Scalar::of_int(10).times(v2)).finite(),
    ensures
        thompson_sampling::noise_weight(base_k, v1, s2).at_most(
            thompson_sampling::noise_weight(base_k, v2, s1),
        ),
        base_k.at_most(thompson_sampling::noise_weight(base_k, v1, s2)),
        thompson_sampling::noise_weight(base_k, Scalar::of_int(0), Scalar::of_int(1)) == base_k,
{
    order::int_is_exact(0);
    order::int_is_exact(1);
    let zero = Scalar::of_int(0);
    let one = Scalar::of_int(1);
    order::no_negative_rank(zero);
    order::no_negative_rank(one);
    order::no_negative_rank(base_k);
    order::order_is_order_of_values(zero, one);
    let f1 = one.plus(Scalar::of_int(10).times(v1));
    let f2 = one.plus(Scalar::of_int(10).times(v2));
    volatility_factors(v1, v2);
    stability_multipliers(s1, s2);
    weight_is_a_number(base_k, f1);
    weight_is_a_number(base_k, f2);
    bayesian_laws::times_one(base_k);
    products_keep_order(base_k, base_k, one, f1);
    products_keep_order(base_k, base_k, f1, f2);
    let k1 = base_k.times(f1);
    let k2 = base_k.times(f2);
    let m1 = stability_multiplier(s2);
    let m2 = stability_multiplier(s1);
    weight_is_a_number(k1, m1);
    weight_is_a_number(k2, m2);
    products_keep_order(k1, k2, m1, m2);
    assert(k1.at_most(k1.times(m1))) by {
        if k1.finite() {
            bayesian_laws::times_one(k1);
            products_keep_order(k1, k1, one, m1);
        } else {
            reveal(Scalar::times);
        }
    }
    at_rest(base_k);
}

/// A number that is not negative, times a number that is at least one, is a number, unless it is
/// zero and the other infinite.
proof fn weight_is_a_number(a: Scalar, f: Scalar)
    requires
        Scalar::of_int(0).at_most(a),
        Scalar::of_int(1).at_most(f),
        a.rank() > 0 || f.finite(),
    ensures
        !a.times(f).nan(),
{
    order::int_is_exact(1);
    order::int_is_exact(0);
    order::no_negative_rank(Scalar::of_int(1));
    if Scalar::of_int(1).mag() == 0 {
        assert(Scalar::of_int(1).value() == 0);
    }
    if a.finite() && f.finite() {
        order::times_is_near(a, f);
    } else {
        reveal(Scalar::times);
    }
}

/// In a market at rest noise has its base weight.
proof fn at_rest(base_k: Scalar)
    requires
        base_k.finite(),
    ensures
        thompson_sampling::noise_weight(base_k, Scalar::of_int(0), Scalar::of_int(1)) == base_k,
{
    order::int_is_exact(0);
    order::int_is_exact(1);
    order::int_is_exact(10);
    let zero = Scalar::of_int(0);
    let one = Scalar::of_int(1);
    let ten = Scalar::of_int(10);
    let nothing = ten.times(zero);
    order::no_negative_rank(zero);
    order::times_is_near(ten, zero);
    lemma_mul_basics(ten.value());
    order::near_itself(zero, scalar::one_unit());
    assert(nothing.rank() == 0 && nothing.finite());
    order::order_is_order_of_values(nothing, zero);
    order::plus_is_near(one, nothing);
    order::near_itself(one, 1);
    order::no_negative_rank(one);
    if one.mag() == 0 {
        assert(one.value() == 0);
    }
    assert(one.plus(nothing) == one);
    order::proper_ratio(1, 2);
    bayesian_laws::times_one(base_k);
}

// ---------------------------------------------------------------------------------------------
// Widening fades.
// ---------------------------------------------------------------------------------------------

/// `k * 2^j` is a number of the format, where `k` has at most 53 bits and the product is finite.
pub(crate) proof fn short_numbers_are_exact(k: nat, j: nat) -> (mag: nat)
    requires
        k < EXACT,
    ensures
        rounding::units(mag) == k * pow2(j),
    decreases j,
{
    lemma2_to64();
    if j == 0 {
        k
    } else {
        lemma_pow2_unfold(j);
        let h = pow2((j - 1) as nat);
        if 2 * k < EXACT {
            assert((2 * k) * h == k * (2 * h)) by (nonlinear_arith);
            short_numbers_are_exact(2 * k, (j - 1) as nat)
        } else {
            rounding::units_in_binade(k, j);
            (k + j * BINADE) as nat
        }
    }
}

/// Taking one from a number that is at least one, and not so large that it has no ones, is exact.
proof fn minus_one_is_exact(c: Scalar)
    requires
        c.finite(),
        scalar::one_unit() <= c.value() < EXACT * scalar::one_unit(),
    ensures
        c.minus(Scalar::of_int(1)).finite(),
        c.minus(Scalar::of_int(1)).value() == c.value() - scalar::one_unit(),
{
    order::int_is_exact(1);
    let full = Scalar::of_int(1);
    let one = scalar::one_unit();
    lemma2_to64();
    lemma2_to64_rest();
    lemma_pow2_strictly_increases(53, scalar::UNIT_EXPONENT as nat);
    let mag = c.mag();
    assert(mag >= EXACT);
    let j = (mag / (BINADE as nat) - 1) as nat;
    let m = (mag % (BINADE as nat) + BINADE) as nat;
    assert(mag == m + j * BINADE) by (nonlinear_arith)
        requires
            mag == (mag / (BINADE as nat)) * BINADE + mag % (BINADE as nat),
            j == mag / (BINADE as nat) - 1,
            m == mag % (BINADE as nat) + BINADE,
    ;
    rounding::units_in_binade(m, j);
    assert(c.value() == m * pow2(j));
    // The spacing at `c` divides one.
    assert(j <= scalar::UNIT_EXPONENT) by {
        if j > scalar::UNIT_EXPONENT {
            lemma_pow2_adds((j - scalar::UNIT_EXPONENT) as nat, scalar::UNIT_EXPONENT as nat);
            lemma_pow2_strictly_increases(0, (j - scalar::UNIT_EXPONENT) as nat);
            let over = pow2((j - scalar::UNIT_EXPONENT) as nat);
            assert(over * one >= 2 * one) by (nonlinear_arith)
                requires
                    over >= 2,
            ;
            assert(m * pow2(j) >= EXACT * one) by (nonlinear_arith)
                requires
                    pow2(j) >= 2 * one,
                    m >= BINADE,
                    EXACT == 2 * BINADE,
                    one > 0,
            ;
        }
    }
    let s = (scalar::UNIT_EXPONENT - j) as nat;
    lemma_pow2_adds(s, j);
    lemma_pow2_pos(j);
    lemma_pow2_pos(s);
    assert(pow2(s) <= m) by (nonlinear_arith)
        requires
            pow2(s) * pow2(j) == one,
            one <= m * pow2(j),
            pow2(j) > 0,
    ;
    let k = (m - pow2(s)) as nat;
    assert(k * pow2(j) == c.value() - one) by (nonlinear_arith)
        requires
            k == m - pow2(s),
            pow2(s) * pow2(j) == one,
            c.value() == m * pow2(j),
    ;
    let exact = short_numbers_are_exact(k, j);
    rounding::round_mag_exact(exact, 1);
    if exact >= mag {
        if exact > mag {
            rounding::units_increase(mag, exact);
        }
    }
    order::minus_is_near(c, full);
    let d = c.minus(full);
    assert(order::near(c.value() - one, 1) == exact);
    assert(d.rank() == exact);
    if d.neg() {
        assert(d.mag() == 0);
    }
}

/// While trades are frequent enough, the widening of the posterior does not grow: with a decay
/// from zero to one it fades.
pub proof fn widening_fades(current: Scalar, target: Scalar, decay: Scalar)
    requires
        current.finite(),
        Scalar::of_int(1).at_most(current),
        current.value() < EXACT * scalar::one_unit(),
        Scalar::of_int(0).at_most(decay),
        decay.at_most(Scalar::of_int(1)),
    ensures
        decision::width_after(current, false, target, decay).at_most(current),
        Scalar::of_int(1).at_most(decision::width_after(current, false, target, decay)),
{
    order::int_is_exact(0);
    order::int_is_exact(1);
    let zero = Scalar::of_int(0);
    let full = Scalar::of_int(1);
    let one = scalar::one_unit();
    order::order_is_order_of_values(full, current);
    if zero.mag() > 0 {
        rounding::units_increase(0, zero.mag());
    }
    if full.below(current) {
        minus_one_is_exact(current);
        let excess = current.minus(full);
        assert(decay.finite());
        order::order_is_order_of_values(zero, decay);
        order::order_is_order_of_values(decay, full);
        let part = excess.times(decay);
        order::times_is_near(excess, decay);
        order::near_itself(excess, one);
        order::near_itself(zero, one);
        let v = excess.value() * decay.value();
        assert(0 <= v && v * one <= (excess.value() * one) * one) by (nonlinear_arith)
            requires
                v == excess.value() * decay.value(),
                excess.value() >= 0,
                0 <= decay.value() <= one,
                one > 0,
        ;
        lemma_mul_nonnegative(v, one as int);
        order::near_keeps_order(v, one, excess.value() * one, one);
        order::near_keeps_order(0, one, v, one);
        assert(part.finite());
        order::order_is_order_of_values(part, excess);
        order::order_is_order_of_values(zero, part);
        order::plus_is_near(full, part);
        order::near_itself(current, 1);
        order::near_itself(full, 1);
        order::near_keeps_order(full.value() + part.value(), 1, current.value(), 1);
        order::near_keeps_order(full.value(), 1, full.value() + part.value(), 1);
    }
}

/// While trades are too rare, the posterior counts as wide as the target and no wider, unless it
/// was wider before.
pub proof fn widening_stops_at_the_target(current: Scalar, target: Scalar, decay: Scalar)
    requires
        !current.nan(),
        !target.nan(),
    ensures
        ({
            let width = decision::width_after(current, true, target, decay);
            &&& width == target || width == current
            &&& target.at_most(width)
            &&& decision::widening(width, true, target) is None
        }),
{
}

// ---------------------------------------------------------------------------------------------
// Lots.
// ---------------------------------------------------------------------------------------------

/// A smaller multiplier never leads to a larger lot.
pub proof fn smaller_multiplier_smaller_lot(
    default_lot: u64,
    max_lot: u64,
    smaller: Scalar,
    larger: Scalar,
)
    requires
        smaller.finite(),
        larger.finite(),
        smaller.at_most(larger),
        default_lot < EXACT,
    ensures
        decision::lot_for(default_lot, max_lot, smaller) <= decision::lot_for(
            default_lot,
            max_lot,
            larger,
        ),
{
    let lot = Scalar::of_int(default_lot as nat);
    order::int_is_exact(default_lot as nat);
    order::order_is_order_of_values(smaller, larger);
    let one = scalar::one_unit();
    order::times_is_near(lot, smaller);
    order::times_is_near(lot, larger);
    assert((lot.value() * smaller.value()) * one <= (lot.value() * larger.value()) * one)
        by (nonlinear_arith)
        requires
            smaller.value() <= larger.value(),
            lot.value() >= 0,
            one > 0,
    ;
    order::near_keeps_order(lot.value() * smaller.value(), one, lot.value() * larger.value(), one);
    let x = lot.times(smaller);
    let y = lot.times(larger);
    reveal(Scalar::whole);
    if x.finite() && y.finite() {
        order::order_is_order_of_values(x, y);
        if !x.neg() && !y.neg() {
            vstd::arithmetic::div_mod::lemma_div_is_ordered(
                x.count() as int,
                y.count() as int,
                one as int,
            );
        } else if !x.neg() {
            assert(x.count() == 0 && y.count() == 0);
        }
    }
}

} // verus!
