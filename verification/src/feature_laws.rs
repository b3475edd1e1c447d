//! What the features tell of the position, the session, the executions and the likely move.

use crate::execution_stats;
use crate::execution_stats::{Execution, StatsModel};
use crate::extractor;
use crate::extractor::{ExtractorModel, FeatureExtractorConfig, MarketQuote, Session};
use crate::features::FeatureVector;
use crate::order;
use crate::relations;
use crate::rolling;
use crate::rounding::EXACT;
use crate::scalar;
use crate::scalar::Scalar;
use crate::signal_laws;
use crate::state::{StateSnapshot, StrategyId};
use vstd::arithmetic::mul::*;
use vstd::prelude::*;

verus! {

// ---------------------------------------------------------------------------------------------
// Sessions and times.
// ---------------------------------------------------------------------------------------------

/// One hour, in nanoseconds.
pub const HOUR_NS: u64 = 3_600_000_000_000;

/// The session goes by the time of day: it is the last in the list whose opening hour has come,
/// and it alone is marked.
pub proof fn the_session_goes_by_the_time_of_day(
    m: ExtractorModel,
    q: MarketQuote,
    state: StateSnapshot,
    strategy_id: StrategyId,
    now_ns: u64,
    held_ms: u64,
    decayed: Scalar,
    day: nat,
    since_midnight: nat,
)
    requires
        q.timestamp_ns == day * (24 * HOUR_NS) + since_midnight,
        since_midnight < 24 * HOUR_NS,
    ensures
        ({
            let f = m.features_at(q, state, strategy_id, now_ns, held_ms, decayed);
            let opens = m.config.session_hours_utc@;
            let sydney = since_midnight >= opens[3] * HOUR_NS;
            let ny = !sydney && since_midnight >= opens[2] * HOUR_NS;
            let london = !sydney && !ny && since_midnight >= opens[1] * HOUR_NS;
            let tokyo = !sydney && !ny && !london;
            &&& f.session_sydney == execution_stats::indicator(sydney)
            &&& f.session_ny == execution_stats::indicator(ny)
            &&& f.session_london == execution_stats::indicator(london)
            &&& f.session_tokyo == execution_stats::indicator(tokyo)
            &&& f.obi_x_session == f.obi.times(
                Scalar::of_int(
                    if sydney {
                        3
                    } else if ny {
                        2
                    } else if london {
                        1
                    } else {
                        0
                    },
                ),
            )
        }),
{
    let hour = since_midnight / (HOUR_NS as nat);
    let rest = since_midnight % (HOUR_NS as nat);
    let ts = q.timestamp_ns as int;
    assert(ts == (day * 24 + hour) * 3_600_000_000_000 + rest) by (nonlinear_arith)
        requires
            ts == day * (24 * 3_600_000_000_000) + since_midnight,
            since_midnight == 3_600_000_000_000 * hour + rest,
    ;
    vstd::arithmetic::div_mod::lemma_fundamental_div_mod_converse(
        ts,
        3_600_000_000_000,
        (day * 24 + hour) as int,
        rest as int,
    );
    assert((day * 24 + hour) % 24 == hour);
}

/// What has elapsed is the whole milliseconds since the start, if that is set and past.
pub proof fn whole_milliseconds_elapse(start_ns: u64, now_ns: u64)
    ensures
        extractor::elapsed_ms(start_ns, now_ns) is Some <==> 0 < start_ns < now_ns,
        extractor::elapsed_ms(start_ns, now_ns) matches Some(ms) ==> ms * 1_000_000 <= now_ns
            - start_ns < (ms + 1) * 1_000_000,
{
}

/// The times in the features: since the session opened, since the last volatility spike, and how
/// long the position has been held. Without a spike the time is the longest there is, without a
/// position it is zero.
pub proof fn features_tell_the_time(
    m: ExtractorModel,
    q: MarketQuote,
    state: StateSnapshot,
    strategy_id: StrategyId,
    now_ns: u64,
    held_ms: u64,
    decayed: Scalar,
    open_ms: nat,
    spike_ms: nat,
)
    requires
        open_ms < EXACT,
        spike_ms < EXACT,
        held_ms < EXACT,
    ensures
        ({
            let f = m.features_at(q, state, strategy_id, now_ns, held_ms, decayed);
            let one = scalar::one_unit();
            &&& extractor::elapsed_ms(m.session_open_ns, q.timestamp_ns) == Some(open_ms)
                ==> f.time_since_open_ms.finite() && f.time_since_open_ms.value() == open_ms * one
            &&& q.timestamp_ns <= m.session_open_ns ==> f.time_since_open_ms.zero()
            &&& extractor::elapsed_ms(m.last_vol_spike_ns, q.timestamp_ns) == Some(spike_ms)
                ==> f.time_since_last_spike_ms.finite() && f.time_since_last_spike_ms.value()
                == spike_ms * one
            &&& m.last_vol_spike_ns == 0 ==> Scalar::of_int(u64::MAX as nat).below(
                f.time_since_last_spike_ms,
            )
            &&& state.held(strategy_id) is Some ==> f.holding_time_ms.finite()
                && f.holding_time_ms.value() == held_ms * one
            &&& state.held(strategy_id) is None ==> f.holding_time_ms.zero() && f.time_decay
                == Scalar::of_int(1)
            &&& state.held(strategy_id) is Some && held_ms > 0 ==> f.time_decay == decayed
        }),
{
    relations::zero_and_one();
    order::int_is_exact(open_ms);
    order::int_is_exact(spike_ms);
    order::int_is_exact(held_ms as nat);
    relations::ints_are_finite(held_ms);
    relations::ints_are_finite(u64::MAX);
    beyond_every_word();
}

/// The longest time there is is beyond what a machine word counts.
proof fn beyond_every_word()
    ensures
        Scalar::of_int(u64::MAX as nat).below(Scalar { bits: extractor::LARGEST_BITS }),
{
    relations::ints_are_finite(u64::MAX);
    relations::words_are_small(u64::MAX);
}

// ---------------------------------------------------------------------------------------------
// The position.
// ---------------------------------------------------------------------------------------------

/// The features tell the position as it is; without one there is nothing to tell.
pub proof fn features_tell_the_position(
    m: ExtractorModel,
    q: MarketQuote,
    state: StateSnapshot,
    strategy_id: StrategyId,
    now_ns: u64,
    held_ms: u64,
    decayed: Scalar,
)
    ensures
        ({
            let f = m.features_at(q, state, strategy_id, now_ns, held_ms, decayed);
            &&& state.held(strategy_id) matches Some(p) ==> {
                &&& f.position_size == p.size
                &&& f.entry_price == p.entry_price
                &&& f.pnl_unrealized == p.unrealized_pnl
                &&& p.size.finite() && p.size.value() > 0 && rolling::epsilon_of_one().at_most(
                    p.size,
                ) ==> f.position_direction == Scalar::of_int(1)
                &&& p.size.finite() && p.size.value() < 0 && rolling::epsilon_of_one().at_most(
                    p.size.magnitude(),
                ) ==> relations::opposite(f.position_direction, Scalar::of_int(1))
                &&& p.size.magnitude().below(rolling::epsilon_of_one())
                    ==> f.position_direction.zero()
            }
            &&& state.held(strategy_id) is None ==> {
                &&& f.position_size.zero()
                &&& f.entry_price.zero()
                &&& f.pnl_unrealized.zero()
                &&& f.position_direction.zero()
            }
        }),
{
    relations::zero_and_one();
    signal_laws::beyond_rounding();
    relations::negated_is_opposite(Scalar::of_int(1));
    if let Some(p) = state.held(strategy_id) {
        if p.size.finite() {
            relations::magnitudes(p.size);
            order::order_is_order_of_values(Scalar::of_int(0), p.size);
        }
    }
}

/// A long and the mirrored short position differ in the features of direction alone: impact,
/// queue and size against volatility are the same.
pub proof fn long_and_short_have_the_same_impact(
    m: ExtractorModel,
    q: MarketQuote,
    long: StateSnapshot,
    short: StateSnapshot,
    strategy_id: StrategyId,
    now_ns: u64,
    held_ms: u64,
    decayed: Scalar,
)
    requires
        long.held(strategy_id) is Some,
        short.held(strategy_id) is Some,
        relations::opposite(
            long.held(strategy_id)->0.size,
            short.held(strategy_id)->0.size,
        ),
    ensures
        ({
            let f = m.features_at(q, long, strategy_id, now_ns, held_ms, decayed);
            let g = m.features_at(q, short, strategy_id, now_ns, held_ms, decayed);
            &&& f.self_impact == g.self_impact
            &&& f.queue_position == g.queue_position
            &&& f.position_size_x_vol == g.position_size_x_vol
            &&& f.spread_z_x_self_impact == g.spread_z_x_self_impact
            &&& f.dynamic_cost == g.dynamic_cost
            &&& relations::opposite(f.position_size, g.position_size)
        }),
{
    relations::opposite_values(long.held(strategy_id)->0.size, short.held(strategy_id)->0.size);
}

/// The impact of a position is its size in typical lots, times the volatility.
pub proof fn impact_is_lots_times_volatility(
    config: FeatureExtractorConfig,
    size: Scalar,
    vol: Scalar,
    lots: Scalar,
)
    requires
        size.finite(),
        vol.finite(),
        config.typical_lot_size.finite(),
        config.typical_lot_size.value() > 0,
        lots.finite(),
        relations::rounds(
            lots,
            (if size.value() < 0 {
                -size.value()
            } else {
                size.value()
            }) * scalar::one_unit(),
            config.typical_lot_size.value() as nat,
        ),
    ensures
        relations::rounds(
            extractor::self_impact_of(config, size, vol),
            lots.value() * vol.value(),
            scalar::one_unit(),
        ),
{
    relations::magnitudes(size);
    order::over_is_near(size.magnitude(), config.typical_lot_size);
    let l = size.magnitude().over(config.typical_lot_size);
    relations::level_values(l, lots);
    order::times_is_near(l, vol);
}

/// The place in the queue is the share of the position in what is bid for, at most one: no
/// greater for a smaller position or a larger bid, and zero where nothing is bid for.
pub proof fn the_queue_is_a_share_of_the_bid(
    m: ExtractorModel,
    q1: MarketQuote,
    q2: MarketQuote,
    small: StateSnapshot,
    large: StateSnapshot,
    strategy_id: StrategyId,
    now_ns: u64,
    held_ms: u64,
    decayed: Scalar,
)
    requires
        Scalar::of_int(0).below(m.config.typical_lot_size),
        m.config.typical_lot_size.finite(),
        small.held(strategy_id) matches Some(p) && p.size.finite(),
        large.held(strategy_id) matches Some(p) && p.size.finite(),
        small.held(strategy_id)->0.size.magnitude().at_most(
            large.held(strategy_id)->0.size.magnitude(),
        ),
        Scalar::of_int(0).below(q2.bid_size.over(m.config.typical_lot_size)),
        Scalar::of_int(0).below(q2.bid_size),
        q2.bid_size.at_most(q1.bid_size),
        q1.bid_size.over(m.config.typical_lot_size).finite(),
    ensures
        ({
            let f = m.features_at(q1, small, strategy_id, now_ns, held_ms, decayed);
            let g = m.features_at(q2, large, strategy_id, now_ns, held_ms, decayed);
            &&& f.queue_position.at_most(g.queue_position)
            &&& Scalar::of_int(0).at_most(f.queue_position)
            &&& g.queue_position.at_most(Scalar::of_int(1))
        }),
{
    relations::zero_and_one();
    let lot = m.config.typical_lot_size;
    let (s, t) = (
        small.held(strategy_id)->0.size.magnitude(),
        large.held(strategy_id)->0.size.magnitude(),
    );
    relations::magnitudes(small.held(strategy_id)->0.size);
    relations::magnitudes(large.held(strategy_id)->0.size);
    order::order_is_order_of_values(Scalar::of_int(0), lot);
    order::over_is_near(s, lot);
    order::over_is_near(t, lot);
    let (x, y) = (s.over(lot), t.over(lot));
    relations::quotients_keep_order(s, t, lot);
    relations::greater_divisors_give_less(s, lot, lot);
    let (b, c) = (q1.bid_size.over(lot), q2.bid_size.over(lot));
    relations::quotients_keep_order(q2.bid_size, q1.bid_size, lot);
    assert(c.finite() && b.finite());
    order::order_is_order_of_values(Scalar::of_int(0), c);
    order::order_is_order_of_values(Scalar::of_int(0), b);
    number_over(x, b);
    number_over(x, c);
    number_over(y, c);
    relations::greater_divisors_give_less(x, c, b);
    relations::quotients_keep_order(x, y, c);
}

/// A number over a positive finite one is a number.
proof fn number_over(a: Scalar, c: Scalar)
    requires
        !a.nan(),
        c.finite(),
        c.value() > 0,
    ensures
        !a.over(c).nan(),
{
    if a.finite() {
        order::over_is_near(a, c);
    } else {
        reveal(Scalar::over);
    }
}

/// The place in the queue is the position over what is bid for, both in typical lots, and at most
/// one; where nothing is bid for it is zero.
pub proof fn the_queue_is_position_over_bid(
    m: ExtractorModel,
    q: MarketQuote,
    state: StateSnapshot,
    strategy_id: StrategyId,
    now_ns: u64,
    held_ms: u64,
    decayed: Scalar,
    lots: Scalar,
    bid_lots: Scalar,
)
    requires
        m.config.typical_lot_size.finite(),
        m.config.typical_lot_size.value() > 0,
        q.bid_size.finite(),
        state.held(strategy_id) matches Some(p) && p.size.finite(),
        lots.finite(),
        bid_lots.finite(),
        bid_lots.value() > 0,
        relations::rounds(
            lots,
            state.held(strategy_id)->0.size.magnitude().value() * scalar::one_unit(),
            m.config.typical_lot_size.value() as nat,
        ),
        relations::rounds(
            bid_lots,
            q.bid_size.value() * scalar::one_unit(),
            m.config.typical_lot_size.value() as nat,
        ),
    ensures
        ({
            let f = m.features_at(q, state, strategy_id, now_ns, held_ms, decayed);
            let share = order::near(
                lots.value() * scalar::one_unit(),
                bid_lots.value() as nat,
            );
            &&& q.bid_size.value() > 0 ==> f.queue_position.rank() == if share
                <= Scalar::of_int(1).rank() {
                share
            } else {
                Scalar::of_int(1).rank()
            }
            &&& q.bid_size.value() <= 0 ==> f.queue_position.zero()
        }),
{
    relations::zero_and_one();
    let lot = m.config.typical_lot_size;
    let s = state.held(strategy_id)->0.size.magnitude();
    relations::magnitudes(state.held(strategy_id)->0.size);
    order::order_is_order_of_values(Scalar::of_int(0), q.bid_size);
    order::over_is_near(s, lot);
    order::over_is_near(q.bid_size, lot);
    relations::level_values(s.over(lot), lots);
    relations::level_values(q.bid_size.over(lot), bid_lots);
    order::over_is_near(s.over(lot), q.bid_size.over(lot));
}

// ---------------------------------------------------------------------------------------------
// Products of features.
// ---------------------------------------------------------------------------------------------

/// The products are those of the features that they name.
pub proof fn products_are_of_the_features_they_name(
    m: ExtractorModel,
    q: MarketQuote,
    state: StateSnapshot,
    strategy_id: StrategyId,
    now_ns: u64,
    held_ms: u64,
    decayed: Scalar,
)
    requires
        ({
            let f = m.features_at(q, state, strategy_id, now_ns, held_ms, decayed);
            &&& f.spread_zscore.finite()
            &&& f.realized_volatility.finite()
            &&& f.obi.finite()
            &&& f.position_size.finite()
            &&& f.self_impact.finite()
            &&& f.depth_change_rate.finite()
        }),
    ensures
        ({
            let f = m.features_at(q, state, strategy_id, now_ns, held_ms, decayed);
            let one = scalar::one_unit();
            &&& relations::rounds(
                f.spread_z_x_vol,
                f.spread_zscore.value() * f.realized_volatility.value(),
                one,
            )
            &&& relations::rounds(f.obi_x_vol, f.obi.value() * f.realized_volatility.value(), one)
            &&& relations::rounds(
                f.spread_z_x_self_impact,
                f.spread_zscore.value() * f.self_impact.value(),
                one,
            )
            &&& relations::rounds(
                f.position_size_x_vol,
                f.position_size.magnitude().value() * f.realized_volatility.value(),
                one,
            )
            &&& f.time_since_last_spike_ms.below(Scalar::of_int(5000))
                ==> f.depth_drop_x_vol_spike == f.depth_change_rate
            &&& !f.time_since_last_spike_ms.below(Scalar::of_int(5000))
                ==> f.depth_drop_x_vol_spike.zero()
        }),
{
    let f = m.features_at(q, state, strategy_id, now_ns, held_ms, decayed);
    relations::zero_and_one();
    relations::magnitudes(f.position_size);
    order::times_is_near(f.spread_zscore, f.realized_volatility);
    order::times_is_near(f.obi, f.realized_volatility);
    order::times_is_near(f.spread_zscore, f.self_impact);
    order::times_is_near(f.position_size.magnitude(), f.realized_volatility);
    crate::bayesian_laws::times_one(f.depth_change_rate);
    relations::nothing_of(f.depth_change_rate, Scalar::of_int(0));
}

// ---------------------------------------------------------------------------------------------
// Costs.
// ---------------------------------------------------------------------------------------------

/// The cost of a trade does not depend on which way the book leans.
pub proof fn the_cost_does_not_tell_sides(spread: Scalar, vol: Scalar, obi: Scalar, other: Scalar)
    requires
        relations::opposite(obi, other),
    ensures
        extractor::dynamic_cost_of(spread, vol, obi) == extractor::dynamic_cost_of(
            spread,
            vol,
            other,
        ),
{
    relations::opposite_values(obi, other);
}

/// In an even and calm market a trade costs the spread; an uneven book adds half of its share of
/// the spread, and volatility ten times its share.
pub proof fn the_cost_is_the_spread_and_more(
    spread: Scalar,
    vol: Scalar,
    obi: Scalar,
    lean: Scalar,
    half: Scalar,
    rough: Scalar,
    more: Scalar,
)
    requires
        order::nonnegative(spread),
        order::nonnegative(vol),
        obi.finite(),
        lean.finite(),
        rough.finite(),
        relations::rounds(
            lean,
            obi.magnitude().value() * spread.value(),
            scalar::one_unit(),
        ),
        relations::rounds(half, lean.value(), 2),
        relations::rounds(rough, vol.value() * spread.value(), scalar::one_unit()),
        relations::rounds(more, 10 * rough.value(), 1),
        half.finite(),
        more.finite(),
    ensures
        obi.zero() && vol.zero() ==> extractor::dynamic_cost_of(spread, vol, obi).level(spread),
        vol.zero() ==> relations::rounds(
            extractor::dynamic_cost_of(spread, vol, obi),
            spread.value() + half.value(),
            1,
        ),
        obi.zero() ==> relations::rounds(
            extractor::dynamic_cost_of(spread, vol, obi),
            spread.value() + more.value(),
            1,
        ),
{
    relations::zero_and_one();
    let one = scalar::one_unit() as int;
    let zero = Scalar::of_int(0);
    order::int_is_exact(10);
    order::int_is_exact(2);
    relations::magnitudes(obi);
    let o = obi.magnitude();
    order::times_is_near(o, spread);
    let l = o.times(spread);
    relations::level_values(l, lean);
    let h = l.times(Scalar::of_ratio(1, 2));
    one_half(l);
    relations::level_values(h, half);
    // The lean of the book never lowers the cost.
    order::near_itself(zero, 1);
    order::near_itself(zero, one as nat);
    lemma_mul_nonnegative(o.value(), spread.value());
    lemma_mul_nonnegative(o.value() * spread.value(), one);
    order::near_keeps_order(0, one as nat, o.value() * spread.value(), one as nat);
    order::order_is_order_of_values(zero, l);
    order::near_keeps_order(0, 1, l.value(), 2);
    let g = h.greater(zero);
    assert(g.level(half));
    relations::level_values(g, half);
    order::times_is_near(vol, spread);
    let r = vol.times(spread);
    relations::level_values(r, rough);
    order::times_is_near(r, Scalar::of_int(10));
    let v = r.value();
    assert((v * (10 * one)) * 1 == (10 * v) * one) by (nonlinear_arith);
    relations::near_of_equal_ratios(v * (10 * one), one as nat, 10 * v, 1);
    let e = r.times(Scalar::of_int(10));
    relations::level_values(e, more);
    order::plus_is_near(spread, g);
    if vol.zero() {
        relations::nothing_of(spread, vol);
        relations::nothing_of(Scalar::of_int(10), r);
        relations::adding_nothing(spread.plus(g), e);
        if obi.zero() {
            relations::nothing_of(spread, o);
            assert(crate::rounding::units(0) == 0);
            order::near_itself(zero, 2);
            relations::adding_nothing(spread, g);
        }
    }
    if obi.zero() {
        relations::nothing_of(spread, o);
        assert(crate::rounding::units(0) == 0);
        order::near_itself(zero, 2);
        relations::adding_nothing(spread, g);
        relations::level_values(spread.plus(g), spread);
        order::plus_is_near(spread.plus(g), e);
    }
}

/// A half of a number is the number nearest to its half.
proof fn one_half(a: Scalar)
    requires
        a.finite(),
    ensures
        relations::rounds(a.times(Scalar::of_ratio(1, 2)), a.value(), 2),
{
    let half = Scalar::of_ratio(1, 2);
    let one = scalar::one_unit();
    relations::zero_and_one();
    order::proper_ratio(1, 2);
    relations::part_of(Scalar::of_int(1), 2);
    relations::half_is_exact();
    order::times_is_near(a, half);
    let (v, h) = (a.value(), half.value());
    assert((v * h) * 2 == v * one) by (nonlinear_arith)
        requires
            2 * h == one,
    ;
    relations::near_of_equal_ratios(v * h, one, v, 2);
}

/// A wider spread, a more uneven book and a rougher market make trades dearer.
pub proof fn costs_keep_order(
    spread1: Scalar,
    spread2: Scalar,
    vol1: Scalar,
    vol2: Scalar,
    obi1: Scalar,
    obi2: Scalar,
)
    requires
        Scalar::of_int(0).at_most(spread1),
        spread1.at_most(spread2),
        Scalar::of_int(0).at_most(vol1),
        vol1.at_most(vol2),
        obi1.magnitude().at_most(obi2.magnitude()),
        spread2.finite(),
        vol2.finite(),
        obi2.finite(),
    ensures
        extractor::dynamic_cost_of(spread1, vol1, obi1).at_most(
            extractor::dynamic_cost_of(spread2, vol2, obi2),
        ),
{
    relations::zero_and_one();
    let zero = Scalar::of_int(0);
    let (o1, o2) = (obi1.magnitude(), obi2.magnitude());
    order::proper_ratio(1, 2);
    order::int_is_exact(10);
    order::order_is_order_of_values(zero, Scalar::of_int(10));
    order::times_is_near(o1, spread1);
    order::times_is_near(o2, spread2);
    order::times_is_near(vol1, spread1);
    order::times_is_near(vol2, spread2);
    relations::products_keep_order(o1, o2, spread1, spread2);
    relations::products_keep_order(vol1, vol2, spread1, spread2);
    let (a1, a2) = (o1.times(spread1), o2.times(spread2));
    let (b1, b2) = (vol1.times(spread1), vol2.times(spread2));
    let (half, ten) = (Scalar::of_ratio(1, 2), Scalar::of_int(10));
    scaled_number(a1, half);
    scaled_number(a2, half);
    scaled_number(b1, ten);
    scaled_number(b2, ten);
    relations::products_keep_order(a1, a2, half, half);
    relations::products_keep_order(b1, b2, ten, ten);
    let (h1, h2) = (a1.times(half).greater(zero), a2.times(half).greater(zero));
    relations::sum_is_a_number(spread1, h1);
    relations::sum_is_a_number(spread2, h2);
    relations::sums_keep_order(spread1, spread2, h1, h2);
    relations::adding_nothing(zero, zero);
    relations::sums_keep_order(zero, spread1, zero, h1);
    relations::sum_is_a_number(spread1.plus(h1), b1.times(ten));
    relations::sum_is_a_number(spread2.plus(h2), b2.times(ten));
    relations::sums_keep_order(
        spread1.plus(h1),
        spread2.plus(h2),
        b1.times(ten),
        b2.times(ten),
    );
}

/// A number times a positive finite one is a number.
proof fn scaled_number(a: Scalar, c: Scalar)
    requires
        !a.nan(),
        c.finite(),
        Scalar::of_int(0).below(c),
    ensures
        !a.times(c).nan(),
{
    relations::zero_and_one();
    if a.finite() {
        order::times_is_near(a, c);
    } else {
        reveal(Scalar::times);
    }
}

// ---------------------------------------------------------------------------------------------
// Executions, and what the features say together.
// ---------------------------------------------------------------------------------------------

/// The features tell what may be seen of the executions.
pub proof fn features_tell_the_executions(
    m: ExtractorModel,
    q: MarketQuote,
    state: StateSnapshot,
    strategy_id: StrategyId,
    now_ns: u64,
    held_ms: u64,
    decayed: Scalar,
)
    ensures
        ({
            let f = m.features_at(q, state, strategy_id, now_ns, held_ms, decayed);
            let lag = m.config.execution_lag_ns;
            let seen = m.executions.averages(now_ns, lag);
            &&& f.trade_intensity == m.executions.intensity(now_ns, lag)
            &&& f.signed_volume == m.executions.volume(now_ns, lag)
            &&& f.recent_fill_rate == seen.fill_rate_ema
            &&& f.recent_reject_rate == seen.reject_rate_ema
            &&& f.recent_slippage == seen.slippage_ema
            &&& f.execution_drift_trend == seen.drift_ema
        }),
{
}

/// Without executions the features tell of none; after a single fill that may be seen, they tell of
/// one fill, of its size, and of no rejection.
pub proof fn features_tell_a_single_fill(
    m: ExtractorModel,
    e: Execution,
    q: MarketQuote,
    state: StateSnapshot,
    strategy_id: StrategyId,
    now_ns: u64,
    held_ms: u64,
    decayed: Scalar,
)
    requires
        m.executions == StatsModel::empty(),
        execution_stats::due(e.timestamp_ns, now_ns, m.config.execution_lag_ns),
        e.fill_status.fills(),
        e.fill_size.finite(),
    ensures
        ({
            let before = m.features_at(q, state, strategy_id, now_ns, held_ms, decayed);
            let f = (ExtractorModel { executions: m.executions.with(e), ..m }).features_at(
                q,
                state,
                strategy_id,
                now_ns,
                held_ms,
                decayed,
            );
            &&& before.trade_intensity.zero() && before.signed_volume.zero()
                && before.recent_fill_rate.zero() && before.recent_reject_rate.zero()
            &&& f.trade_intensity.level(Scalar::of_int(1))
            &&& f.signed_volume.level(e.fill_size)
            &&& Scalar::of_int(0).at_most(f.recent_fill_rate)
            &&& f.recent_reject_rate.level(Scalar::of_int(0))
        }),
{
    relations::zero_and_one();
    let lag = m.config.execution_lag_ns;
    crate::execution_laws::no_executions_tell_nothing(now_ns, lag);
    crate::execution_laws::only_fills_count(m.executions, e, now_ns, lag);
    execution_stats::executions_are_seen_once_their_lag_has_passed(m.executions, e, now_ns, lag);
    execution_stats::rates_are_shares(m.executions.with(e), now_ns, lag);
    assert(crate::rounding::units(0) == 0);
    order::near_itself(Scalar::of_int(1), 1);
    order::near_itself(e.fill_size, 1);
    let zero = Scalar::of_int(0);
    let before = m.executions.averages(now_ns, lag).reject_rate_ema;
    let w = Scalar::of_ratio(1, 20);
    order::proper_ratio(1, 20);
    relations::adding_nothing(zero, before);
    relations::nothing_of(w, zero.minus(before));
    relations::adding_nothing(before, w.times(zero.minus(before)));
}

/// What is likely, what a trade costs and what impact it has go by the other features.
pub proof fn outlooks_go_by_the_features(
    m: ExtractorModel,
    q: MarketQuote,
    state: StateSnapshot,
    strategy_id: StrategyId,
    now_ns: u64,
    held_ms: u64,
    decayed: Scalar,
)
    ensures
        ({
            let f = m.features_at(q, state, strategy_id, now_ns, held_ms, decayed);
            &&& f.p_revert == extractor::p_revert_of(
                f.spread_zscore,
                f.obi,
                f.depth_change_rate,
            )
            &&& f.p_continue == extractor::p_continue_of(f.volatility_ratio, f.trade_intensity)
            &&& f.session_tokyo == Scalar::of_int(1) ==> f.p_trend == extractor::p_trend_of(
                Session::Tokyo,
                f.obi,
            )
            &&& f.session_london == Scalar::of_int(1) ==> f.p_trend == extractor::p_trend_of(
                Session::London,
                f.obi,
            )
            &&& f.session_ny == Scalar::of_int(1) ==> f.p_trend == extractor::p_trend_of(
                Session::NewYork,
                f.obi,
            )
            &&& f.session_sydney == Scalar::of_int(1) ==> f.p_trend == extractor::p_trend_of(
                Session::Sydney,
                f.obi,
            )
            &&& f.dynamic_cost == extractor::dynamic_cost_of(
                f.spread,
                f.realized_volatility,
                f.obi,
            )
            &&& f.self_impact == extractor::self_impact_of(
                m.config,
                f.position_size,
                f.realized_volatility,
            )
        }),
{
    relations::zero_and_one();
    assert(Scalar::of_int(0) != Scalar::of_int(1));
}

/// The features that are held for a strategy are those that were put there, and no other strategy's
/// change.
pub proof fn held_features_are_kept_apart(
    m: ExtractorModel,
    features: FeatureVector,
    strategy_id: StrategyId,
    other: StrategyId,
)
    ensures
        m.holding(strategy_id, features).held(strategy_id) == Some(features),
        other != strategy_id ==> m.holding(strategy_id, features).held(other) == m.held(other),
        m.holding(strategy_id, features).volatility == m.volatility,
        m.holding(strategy_id, features).executions == m.executions,
        m.holding(strategy_id, features).gap_hold == m.gap_hold,
{
}

/// A quote ends the count of executions that are older than the window: the first that is left is
/// within it, and where all are, all are left.
pub proof fn old_executions_stop_counting(m: ExtractorModel, q: MarketQuote, log_ratio: Scalar)
    ensures
        ({
            let left = m.after_quote(q, log_ratio).executions;
            let window = m.config.trade_intensity_window_ns;
            &&& left.trades.len() > 0 ==> left.trades[0].0 + window >= q.timestamp_ns
            &&& left.volumes.len() > 0 ==> left.volumes[0].0 + window >= q.timestamp_ns
            &&& m.executions.trades.len() > 0 && m.executions.trades[0].0 + window
                >= q.timestamp_ns ==> left.trades == m.executions.trades
            &&& m.executions.volumes.len() > 0 && m.executions.volumes[0].0 + window
                >= q.timestamp_ns ==> left.volumes == m.executions.volumes
        }),
{
    let cutoff = if q.timestamp_ns >= m.config.trade_intensity_window_ns {
        (q.timestamp_ns - m.config.trade_intensity_window_ns) as u64
    } else {
        0
    };
    let d = crate::execution_laws::pruning_drops_what_is_old(m.executions.trades, cutoff);
    let e = crate::execution_laws::pruning_drops_what_is_old(m.executions.volumes, cutoff);
}

/// In the flat form every feature stands at the place of its name.
pub proof fn features_stand_at_their_names(f: FeatureVector)
    ensures
        f.flat()[0] == f.spread && FeatureVector::names()[0]@ == "spread"@,
        f.flat()[1] == f.spread_zscore && FeatureVector::names()[1]@ == "spread_zscore"@,
        f.flat()[2] == f.obi && FeatureVector::names()[2]@ == "obi"@,
        f.flat()[3] == f.delta_obi && FeatureVector::names()[3]@ == "delta_obi"@,
        f.flat()[4] == f.depth_change_rate && FeatureVector::names()[4]@ == "depth_change_rate"@,
        f.flat()[5] == f.queue_position && FeatureVector::names()[5]@ == "queue_position"@,
        f.flat()[6] == f.realized_volatility && FeatureVector::names()[6]@ == "realized_volatility"@,
        f.flat()[7] == f.volatility_ratio && FeatureVector::names()[7]@ == "volatility_ratio"@,
        f.flat()[8] == f.volatility_decay_rate && FeatureVector::names()[8]@ == "volatility_decay_rate"@,
        f.flat()[9] == f.session_tokyo && FeatureVector::names()[9]@ == "session_tokyo"@,
        f.flat()[10] == f.session_london && FeatureVector::names()[10]@ == "session_london"@,
        f.flat()[11] == f.session_ny && FeatureVector::names()[11]@ == "session_ny"@,
        f.flat()[12] == f.session_sydney && FeatureVector::names()[12]@ == "session_sydney"@,
        f.flat()[13] == f.time_since_open_ms && FeatureVector::names()[13]@ == "time_since_open_ms"@,
        f.flat()[14] == f.time_since_last_spike_ms && FeatureVector::names()[14]@ == "time_since_last_spike_ms"@,
        f.flat()[15] == f.holding_time_ms && FeatureVector::names()[15]@ == "holding_time_ms"@,
        f.flat()[16] == f.position_size && FeatureVector::names()[16]@ == "position_size"@,
        f.flat()[17] == f.position_direction && FeatureVector::names()[17]@ == "position_direction"@,
        f.flat()[18] == f.entry_price && FeatureVector::names()[18]@ == "entry_price"@,
        f.flat()[19] == f.pnl_unrealized && FeatureVector::names()[19]@ == "pnl_unrealized"@,
        f.flat()[20] == f.trade_intensity && FeatureVector::names()[20]@ == "trade_intensity"@,
        f.flat()[21] == f.signed_volume && FeatureVector::names()[21]@ == "signed_volume"@,
        f.flat()[22] == f.recent_fill_rate && FeatureVector::names()[22]@ == "recent_fill_rate"@,
        f.flat()[23] == f.recent_slippage && FeatureVector::names()[23]@ == "recent_slippage"@,
        f.flat()[24] == f.recent_reject_rate && FeatureVector::names()[24]@ == "recent_reject_rate"@,
        f.flat()[25] == f.execution_drift_trend && FeatureVector::names()[25]@ == "execution_drift_trend"@,
        f.flat()[26] == f.self_impact && FeatureVector::names()[26]@ == "self_impact"@,
        f.flat()[27] == f.time_decay && FeatureVector::names()[27]@ == "time_decay"@,
        f.flat()[28] == f.dynamic_cost && FeatureVector::names()[28]@ == "dynamic_cost"@,
        f.flat()[29] == f.p_revert && FeatureVector::names()[29]@ == "p_revert"@,
        f.flat()[30] == f.p_continue && FeatureVector::names()[30]@ == "p_continue"@,
        f.flat()[31] == f.p_trend && FeatureVector::names()[31]@ == "p_trend"@,
        f.flat()[32] == f.spread_z_x_vol && FeatureVector::names()[32]@ == "spread_z_x_vol"@,
        f.flat()[33] == f.obi_x_session && FeatureVector::names()[33]@ == "obi_x_session"@,
        f.flat()[34] == f.depth_drop_x_vol_spike && FeatureVector::names()[34]@ == "depth_drop_x_vol_spike"@,
        f.flat()[35] == f.position_size_x_vol && FeatureVector::names()[35]@ == "position_size_x_vol"@,
        f.flat()[36] == f.obi_x_vol && FeatureVector::names()[36]@ == "obi_x_vol"@,
        f.flat()[37] == f.spread_z_x_self_impact && FeatureVector::names()[37]@ == "spread_z_x_self_impact"@,
{
}

} // verus!
