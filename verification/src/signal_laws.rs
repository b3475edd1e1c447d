//! What the features tell of the market, the position and the executions.

use crate::extractor::{ExtractorModel, MarketQuote};
use crate::linalg;
use crate::order;
use crate::relations;
use crate::rolling;
use crate::rolling::{RollingModel, VolatilityModel};
use crate::rounding::EXACT;
use crate::scalar;
use crate::scalar::Scalar;
use crate::state::{StateSnapshot, StrategyId};
use vstd::prelude::*;

verus! {

// ---------------------------------------------------------------------------------------------
// Volatility.
// ---------------------------------------------------------------------------------------------

/// What counts as more than rounding is positive.
pub(crate) proof fn beyond_rounding()
    ensures
        Scalar::of_int(0).below(rolling::epsilon_of_one()),
        rolling::epsilon_of_one().finite(),
        rolling::epsilon_of_one().value() > 0,
        rolling::epsilon_of_one().below(Scalar::of_int(1)),
{
    relations::zero_and_one();
    order::proper_ratio(1, 4_503_599_627_370_496);
    order::order_is_order_of_values(Scalar::of_int(0), rolling::epsilon_of_one());
}

/// The ratio of volatilities is that of the recent one to the long one: at least one exactly if
/// the recent one is at least the long one. Without a long volatility it is one.
pub proof fn volatility_ratio_is_recent_to_long(
    m: ExtractorModel,
    q: MarketQuote,
    state: StateSnapshot,
    strategy_id: StrategyId,
    now_ns: u64,
    held_ms: u64,
    decayed: Scalar,
)
    ensures
        ({
            let f = m.features_at(q, state, strategy_id, now_ns, held_ms, decayed);
            let recent = m.volatility.realized(m.config.vol_window as nat);
            let long = m.volatility.realized(m.config.vol_long_window as nat);
            &&& f.realized_volatility == recent
            &&& Scalar::of_ratio(1, 4_503_599_627_370_496).below(long) && long.finite() && order::nonnegative(
                recent,
            ) ==> {
                &&& relations::rounds(
                    f.volatility_ratio,
                    recent.value() * scalar::one_unit(),
                    long.value() as nat,
                )
                &&& Scalar::of_int(1).at_most(f.volatility_ratio) <==> long.at_most(recent)
            }
            &&& !Scalar::of_ratio(1, 4_503_599_627_370_496).below(long) ==> f.volatility_ratio == Scalar::of_int(1)
        }),
{
    let recent = m.volatility.realized(m.config.vol_window as nat);
    let long = m.volatility.realized(m.config.vol_long_window as nat);
    beyond_rounding();
    if rolling::epsilon_of_one().below(long) && long.finite() && order::nonnegative(recent) {
        order::order_is_order_of_values(rolling::epsilon_of_one(), long);
        relations::quotients_tell_the_greater(recent, long);
    }
}

/// The ratio of volatilities does not fall as the recent one grows, and does not grow with the
/// long one.
pub proof fn volatility_ratio_follows_the_recent_one(
    m1: ExtractorModel,
    m2: ExtractorModel,
    q: MarketQuote,
    state: StateSnapshot,
    strategy_id: StrategyId,
    now_ns: u64,
    held_ms: u64,
    decayed: Scalar,
)
    requires
        Scalar::of_int(0).at_most(m1.volatility.realized(m1.config.vol_window as nat)),
        m1.volatility.realized(m1.config.vol_window as nat).at_most(
            m2.volatility.realized(m2.config.vol_window as nat),
        ),
        rolling::epsilon_of_one().below(m2.volatility.realized(m2.config.vol_long_window as nat)),
        m2.volatility.realized(m2.config.vol_long_window as nat).at_most(
            m1.volatility.realized(m1.config.vol_long_window as nat),
        ),
        m1.volatility.realized(m1.config.vol_long_window as nat).finite(),
    ensures
        m1.features_at(q, state, strategy_id, now_ns, held_ms, decayed).volatility_ratio.at_most(
            m2.features_at(q, state, strategy_id, now_ns, held_ms, decayed).volatility_ratio,
        ),
{
    let a = m1.volatility.realized(m1.config.vol_window as nat);
    let b = m2.volatility.realized(m2.config.vol_window as nat);
    let c = m1.volatility.realized(m1.config.vol_long_window as nat);
    let d = m2.volatility.realized(m2.config.vol_long_window as nat);
    beyond_rounding();
    relations::zero_and_one();
    reveal(Scalar::over);
    relations::greater_divisors_give_less(a, d, c);
    relations::quotients_keep_order(a, b, d);
}

/// The volatility is taken from the last returns only: as many as the window says.
pub proof fn only_recent_returns_count(m1: VolatilityModel, m2: VolatilityModel, window: nat)
    requires
        window <= m1.log_returns.len(),
        window <= m2.log_returns.len(),
        m1.log_returns.skip(m1.log_returns.len() - window) == m2.log_returns.skip(
            m2.log_returns.len() - window,
        ),
    ensures
        m1.realized(window) == m2.realized(window),
{
}

/// The volatility does not depend on the direction of the returns.
pub proof fn volatility_has_no_direction(m1: VolatilityModel, m2: VolatilityModel, window: nat)
    requires
        m1.log_returns.len() == m2.log_returns.len() <= u64::MAX,
        forall|i: int|
            0 <= i < m1.log_returns.len() ==> relations::turned(
                #[trigger] m1.log_returns[i],
                m2.log_returns[i],
            ),
    ensures
        m1.realized(window) == m2.realized(window),
{
    let kept = m1.log_returns.len();
    let n = if window < kept {
        window
    } else {
        kept
    };
    if n > 0 {
        let (a, b) = (m1.log_returns.skip(kept - n), m2.log_returns.skip(kept - n));
        assert forall|i: int| 0 <= i < a.len() implies relations::turned(#[trigger] a[i], b[i]) by {
            assert(relations::turned(m1.log_returns[kept - n + i], m2.log_returns[kept - n + i]));
        }
        relations::running_sums_turn(a, b, n as int);
        let (s, t) = (linalg::running_sum(a, n as int), linalg::running_sum(b, n as int));
        relations::parts_turn(s, t, n as u64);
        let (x, y) = (s.over(Scalar::of_int(n)), t.over(Scalar::of_int(n)));
        assert forall|i: int| 0 <= i < n implies rolling::squared_distances(a, x)[i]
            == rolling::squared_distances(b, y)[i] by {
            assert(relations::turned(a[i], b[i]));
            relations::sums_turn(a[i], x, b[i], y);
            let (d, e) = (a[i].minus(x), b[i].minus(y));
            relations::turned_magnitudes(d, e);
            reveal(Scalar::times);
        }
        assert(rolling::squared_distances(a, x) =~= rolling::squared_distances(b, y));
    }
}

/// The volatility is the root of the mean squared distance from the mean.
pub proof fn volatility_is_the_root_of_the_mean_square(
    m: VolatilityModel,
    window: nat,
    mean: Scalar,
    square: Scalar,
)
    requires
        0 < window <= m.log_returns.len() < EXACT,
        ({
            let tail = m.log_returns.skip(m.log_returns.len() - window);
            let sum = linalg::running_sum(tail, window as int);
            let squares = linalg::running_sum(
                rolling::squared_distances(tail, mean),
                window as int,
            );
            &&& sum.finite()
            &&& relations::rounds(mean, sum.value(), window)
            &&& mean.rank() != 0
            &&& squares.finite()
            &&& relations::rounds(square, squares.value(), window)
            &&& square.rank() != 0
        }),
    ensures
        m.realized(window) == square.root(),
{
    let tail = m.log_returns.skip(m.log_returns.len() - window);
    let sum = linalg::running_sum(tail, window as int);
    relations::part_of(sum, window);
    relations::level_values(sum.over(Scalar::of_int(window)), mean);
    let squares = linalg::running_sum(rolling::squared_distances(tail, mean), window as int);
    relations::part_of(squares, window);
    relations::level_values(squares.over(Scalar::of_int(window)), square);
}

/// A squared distance is the square of the distance, and does not tell on which side it is.
pub proof fn a_squared_distance_is_a_square(values: Seq<Scalar>, mean: Scalar, i: int, distance: Scalar)
    requires
        0 <= i < values.len(),
        values[i].finite(),
        mean.finite(),
        distance.finite(),
        relations::rounds(distance, values[i].value() - mean.value(), 1),
    ensures
        rolling::squared_distances(values, mean).len() == values.len(),
        relations::rounds(
            rolling::squared_distances(values, mean)[i],
            distance.value() * distance.value(),
            scalar::one_unit(),
        ),
{
    order::minus_is_near(values[i], mean);
    let d = values[i].minus(mean);
    relations::level_values(d, distance);
    order::times_is_near(d, d);
}

/// A mid price adds its return: none for the first, and zero after a price that was not positive.
/// As many moves as are kept stay, the most recent last.
pub proof fn a_price_adds_its_return(m: VolatilityModel, mid: Scalar, log_ratio: Scalar)
    ensures
        m.with(mid, log_ratio).last_mid == Some(mid),
        m.last_mid is None ==> m.with(mid, log_ratio).log_returns == m.log_returns,
        m.last_mid matches Some(last) ==> {
            let moves = m.with(mid, log_ratio).log_returns;
            &&& moves.len() > 0
            &&& Scalar::of_int(0).below(last) ==> moves.last() == log_ratio
            &&& !Scalar::of_int(0).below(last) ==> moves.last().zero()
            &&& m.log_returns.len() < rolling::RETURNS_KEPT ==> moves.drop_last()
                == m.log_returns
            &&& m.log_returns.len() == rolling::RETURNS_KEPT ==> moves.drop_last()
                == m.log_returns.skip(1)
        },
        m.with(mid, log_ratio).prev_realized_vol == m.prev_realized_vol,
        m.with(mid, log_ratio).vol_ema_long == m.vol_ema_long,
{
    relations::zero_and_one();
    if let Some(last) = m.last_mid {
        let moves = m.with(mid, log_ratio).log_returns;
        if m.log_returns.len() < rolling::RETURNS_KEPT {
            assert(moves.drop_last() =~= m.log_returns);
        } else if m.log_returns.len() == rolling::RETURNS_KEPT {
            assert(moves.drop_last() =~= m.log_returns.skip(1));
        }
    }
}

/// The decay of volatility is how much it has changed, over what it was; zero where it was not
/// more than rounding.
pub proof fn volatility_decay_is_relative(
    m: ExtractorModel,
    q: MarketQuote,
    state: StateSnapshot,
    strategy_id: StrategyId,
    now_ns: u64,
    held_ms: u64,
    decayed: Scalar,
    change: Scalar,
)
    requires
        m.volatility.realized(m.config.vol_window as nat).finite(),
        m.volatility.prev_realized_vol.finite(),
        change.finite(),
        relations::rounds(
            change,
            m.volatility.realized(m.config.vol_window as nat).value()
                - m.volatility.prev_realized_vol.value(),
            1,
        ),
    ensures
        ({
            let f = m.features_at(q, state, strategy_id, now_ns, held_ms, decayed);
            let before = m.volatility.prev_realized_vol;
            &&& rolling::epsilon_of_one().below(before) ==> relations::rounds(
                f.volatility_decay_rate,
                change.value() * scalar::one_unit(),
                before.value() as nat,
            )
            &&& !rolling::epsilon_of_one().below(before) ==> f.volatility_decay_rate.zero()
        }),
{
    let vol = m.volatility.realized(m.config.vol_window as nat);
    let before = m.volatility.prev_realized_vol;
    beyond_rounding();
    relations::zero_and_one();
    order::minus_is_near(vol, before);
    relations::level_values(vol.minus(before), change);
    if rolling::epsilon_of_one().below(before) {
        order::order_is_order_of_values(rolling::epsilon_of_one(), before);
        order::over_is_near(vol.minus(before), before);
    }
}

// ---------------------------------------------------------------------------------------------
// Quotes.
// ---------------------------------------------------------------------------------------------

/// The spread is what is asked above what is bid, the mid price half of both, and the depth all
/// that is offered.
pub proof fn a_quote_has_its_spread_and_mid(q: MarketQuote, both: Scalar)
    requires
        q.bid.finite(),
        q.ask.finite(),
        q.bid_size.finite(),
        q.ask_size.finite(),
        both.finite(),
        relations::rounds(both, q.bid.value() + q.ask.value(), 1),
    ensures
        relations::rounds(q.spread(), q.ask.value() - q.bid.value(), 1),
        relations::rounds(q.mid(), both.value(), 2),
        relations::rounds(q.depth(), q.bid_size.value() + q.ask_size.value(), 1),
{
    order::minus_is_near(q.ask, q.bid);
    order::plus_is_near(q.bid, q.ask);
    order::plus_is_near(q.bid_size, q.ask_size);
    relations::level_values(q.bid.plus(q.ask), both);
    relations::part_of(q.bid.plus(q.ask), 2);
}

/// The imbalance of the book is what is asked above what is bid, over all that is offered;
/// without an offer it is zero.
pub proof fn imbalance_is_the_lean_of_the_book(q: MarketQuote, lean: Scalar, depth: Scalar)
    requires
        q.bid_size.finite(),
        q.ask_size.finite(),
        lean.finite(),
        depth.finite(),
        relations::rounds(lean, q.ask_size.value() - q.bid_size.value(), 1),
        relations::rounds(depth, q.bid_size.value() + q.ask_size.value(), 1),
    ensures
        depth.value() > 0 ==> relations::rounds(
            q.obi(),
            lean.value() * scalar::one_unit(),
            depth.value() as nat,
        ),
        depth.value() <= 0 ==> q.obi().zero(),
{
    relations::zero_and_one();
    order::minus_is_near(q.ask_size, q.bid_size);
    order::plus_is_near(q.bid_size, q.ask_size);
    relations::level_values(q.ask_size.minus(q.bid_size), lean);
    relations::level_values(q.depth(), depth);
    order::order_is_order_of_values(Scalar::of_int(0), q.depth());
    if q.depth().value() > 0 {
        order::over_is_near(q.ask_size.minus(q.bid_size), q.depth());
    }
}

/// Exchanging the two sides of the book turns its imbalance.
pub proof fn mirrored_books_lean_the_other_way(q: MarketQuote, mirrored: MarketQuote)
    requires
        mirrored.bid_size == q.ask_size,
        mirrored.ask_size == q.bid_size,
    ensures
        relations::turned(q.obi(), mirrored.obi()),
        q.depth() == mirrored.depth(),
{
    relations::zero_and_one();
    scalar::plus_commutes(q.bid_size, q.ask_size);
    relations::differences_turn(q.ask_size, q.bid_size);
    let (a, b) = (q.ask_size.minus(q.bid_size), q.bid_size.minus(q.ask_size));
    relations::nan_spreads(a, q.depth());
    relations::nan_spreads(b, q.depth());
    if Scalar::of_int(0).below(q.depth()) && !a.nan() {
        relations::quotients_turn_sign(a, q.depth(), b);
    }
}

/// Features speak of the quote that they are taken at.
pub proof fn features_speak_of_the_quote(
    m: ExtractorModel,
    q: MarketQuote,
    state: StateSnapshot,
    strategy_id: StrategyId,
    now_ns: u64,
    held_ms: u64,
    decayed: Scalar,
)
    requires
        q.bid.finite(),
        q.ask.finite(),
        q.obi().finite(),
    ensures
        ({
            let f = m.features_at(q, state, strategy_id, now_ns, held_ms, decayed);
            &&& relations::rounds(f.spread, q.ask.value() - q.bid.value(), 1)
            &&& f.obi == q.obi()
            &&& m.prev_obi.finite() ==> relations::rounds(
                f.delta_obi,
                q.obi().value() - m.prev_obi.value(),
                1,
            )
            &&& f.spread_zscore == m.spreads.z_score(f.spread)
        }),
{
    order::minus_is_near(q.ask, q.bid);
    if m.prev_obi.finite() {
        order::minus_is_near(q.obi(), m.prev_obi);
    }
}

/// After two quotes the change of the imbalance is that from the first to the second, and the
/// change of the depth is that from the first to the second, over the first.
pub proof fn changes_are_from_the_last_quote(
    m: ExtractorModel,
    q1: MarketQuote,
    q2: MarketQuote,
    log1: Scalar,
    log2: Scalar,
    state: StateSnapshot,
    strategy_id: StrategyId,
    now_ns: u64,
    held_ms: u64,
    decayed: Scalar,
    change: Scalar,
)
    requires
        m.imbalances.valid(),
        m.imbalances.capacity >= 2,
        q1.obi().finite(),
        q2.obi().finite(),
        q1.depth().finite(),
        q2.depth().finite(),
        change.finite(),
        relations::rounds(change, q2.depth().value() - q1.depth().value(), 1),
    ensures
        ({
            let f = m.after_quote(q1, log1).after_quote(q2, log2).features_at(
                q2,
                state,
                strategy_id,
                now_ns,
                held_ms,
                decayed,
            );
            &&& relations::rounds(f.delta_obi, q2.obi().value() - q1.obi().value(), 1)
            &&& q1.depth().value() > 0 ==> relations::rounds(
                f.depth_change_rate,
                change.value() * scalar::one_unit(),
                q1.depth().value() as nat,
            )
            &&& q1.depth().value() <= 0 ==> f.depth_change_rate.zero()
        }),
{
    let after = m.after_quote(q1, log1).after_quote(q2, log2);
    relations::zero_and_one();
    let once = m.imbalances.with(q1.obi());
    let twice = once.with(q2.obi());
    assert(once.values.last() == q1.obi());
    assert(twice.values.len() >= 2);
    assert(twice.values[twice.values.len() - 2] == q1.obi());
    order::minus_is_near(q2.obi(), q1.obi());
    order::minus_is_near(q2.depth(), q1.depth());
    relations::level_values(q2.depth().minus(q1.depth()), change);
    order::order_is_order_of_values(Scalar::of_int(0), q1.depth());
    if q1.depth().value() > 0 {
        order::over_is_near(q2.depth().minus(q1.depth()), q1.depth());
    }
}

/// A quote is remembered: its depth, the last volatility spike if it brought one, and when the
/// session opened if it is the first. There is no spike without a long volatility, nor in the
/// first quotes.
pub proof fn a_quote_is_remembered(m: ExtractorModel, q: MarketQuote, log_ratio: Scalar)
    requires
        m.valid(),
    ensures
        ({
            let after = m.after_quote(q, log_ratio);
            &&& after.last_depth_total == q.depth()
            &&& after.prev_depth_total == m.last_depth_total
            &&& after.spreads.values.last() == q.spread()
            &&& after.imbalances.values.last() == q.obi()
            &&& after.volatility.last_mid == Some(q.mid())
            &&& m.session_open_ns > 0 ==> after.session_open_ns == m.session_open_ns
            &&& m.session_open_ns == 0 ==> after.session_open_ns == q.timestamp_ns
            &&& after.last_vol_spike_ns == m.last_vol_spike_ns || after.last_vol_spike_ns
                == q.timestamp_ns
            &&& m.volatility.vol_ema_long.at_most(Scalar::of_int(0)) || m.spreads.values.len() < 9
                ==> after.last_vol_spike_ns == m.last_vol_spike_ns
            &&& after.executions.executions == m.executions.executions
            &&& after.gap_hold == m.gap_hold
        }),
{
}

/// A spike is a volatility of more than three times the long one.
pub proof fn a_spike_is_three_times_the_long_volatility(
    m: ExtractorModel,
    q: MarketQuote,
    log_ratio: Scalar,
    bar: Scalar,
)
    requires
        m.valid(),
        m.volatility.vol_ema_long.finite(),
        m.volatility.vol_ema_long.value() > 0,
        m.spreads.values.len() >= 10,
        m.spreads.capacity >= 10,
        m.config.vol_window >= 20,
        q.timestamp_ns != m.last_vol_spike_ns,
        relations::rounds(bar, 3 * m.volatility.vol_ema_long.value(), 1),
        !m.volatility.with(q.mid(), log_ratio).realized(20).nan(),
    ensures
        m.after_quote(q, log_ratio).last_vol_spike_ns == q.timestamp_ns <==> bar.below(
            m.volatility.with(q.mid(), log_ratio).realized(20),
        ),
{
    let long = m.volatility.vol_ema_long;
    let one = scalar::one_unit() as int;
    relations::zero_and_one();
    order::int_is_exact(3);
    order::times_is_near(long, Scalar::of_int(3));
    let v = long.value();
    assert((v * (3 * one)) * 1 == (3 * v) * one) by (nonlinear_arith);
    relations::near_of_equal_ratios(v * (3 * one), one as nat, 3 * v, 1);
    order::order_is_order_of_values(Scalar::of_int(0), long);
    a_price_adds_its_return(m.volatility, q.mid(), log_ratio);
}

// ---------------------------------------------------------------------------------------------
// Rolling windows.
// ---------------------------------------------------------------------------------------------

/// A window holds its most recent values: the new one last, and before it those that were there.
pub proof fn a_window_holds_the_most_recent_values(window: RollingModel, v: Scalar)
    requires
        window.valid(),
        window.capacity > 0,
    ensures
        ({
            let after = window.with(v);
            &&& after.capacity == window.capacity
            &&& after.values.last() == v
            &&& window.values.len() < window.capacity ==> after.values.drop_last() == window.values
            &&& window.values.len() == window.capacity ==> after.values.drop_last()
                == window.values.skip(1)
        }),
{
    let after = window.with(v);
    if window.values.len() < window.capacity {
        assert(after.values.drop_last() =~= window.values);
    } else {
        assert(after.values.drop_last() =~= window.values.skip(1));
    }
}

/// While there is room, a value adds itself to the sum and its square to the sum of squares.
pub proof fn a_value_adds_itself_to_the_sums(window: RollingModel, v: Scalar, square: Scalar)
    requires
        window.values.len() < window.capacity,
        window.sum.finite(),
        window.sum_sq.finite(),
        v.finite(),
        square.finite(),
        relations::rounds(square, v.value() * v.value(), scalar::one_unit()),
    ensures
        relations::rounds(window.with(v).sum, window.sum.value() + v.value(), 1),
        relations::rounds(window.with(v).sum_sq, window.sum_sq.value() + square.value(), 1),
{
    order::plus_is_near(window.sum, v);
    order::times_is_near(v, v);
    relations::level_values(v.times(v), square);
    order::plus_is_near(window.sum_sq, v.times(v));
}

/// In a full window the oldest value leaves the sums, with its square, before the new one enters.
pub proof fn the_oldest_value_leaves_the_sums(
    window: RollingModel,
    v: Scalar,
    less: Scalar,
    oldest_square: Scalar,
    less_squares: Scalar,
    square: Scalar,
)
    requires
        0 < window.capacity <= window.values.len(),
        window.sum.finite(),
        window.sum_sq.finite(),
        window.values[0].finite(),
        v.finite(),
        less.finite(),
        oldest_square.finite(),
        less_squares.finite(),
        square.finite(),
        relations::rounds(less, window.sum.value() - window.values[0].value(), 1),
        relations::rounds(
            oldest_square,
            window.values[0].value() * window.values[0].value(),
            scalar::one_unit(),
        ),
        relations::rounds(less_squares, window.sum_sq.value() - oldest_square.value(), 1),
        relations::rounds(square, v.value() * v.value(), scalar::one_unit()),
    ensures
        relations::rounds(window.with(v).sum, less.value() + v.value(), 1),
        relations::rounds(window.with(v).sum_sq, less_squares.value() + square.value(), 1),
{
    let old = window.values[0];
    order::minus_is_near(window.sum, old);
    relations::level_values(window.sum.minus(old), less);
    order::plus_is_near(window.sum.minus(old), v);
    order::times_is_near(old, old);
    relations::level_values(old.times(old), oldest_square);
    order::minus_is_near(window.sum_sq, old.times(old));
    let rest = window.sum_sq.minus(old.times(old));
    relations::level_values(rest, less_squares);
    order::times_is_near(v, v);
    relations::level_values(v.times(v), square);
    order::plus_is_near(rest, v.times(v));
}

/// The mean is the sum over the number of values, and the z-score how far a value is from it, in
/// standard deviations; where there is no deviation it is zero.
pub proof fn z_scores_count_deviations(window: RollingModel, v: Scalar, mean: Scalar, distance: Scalar)
    requires
        0 < window.values.len() < EXACT,
        window.sum.finite(),
        relations::rounds(mean, window.sum.value(), window.values.len()),
        mean.finite(),
        v.finite(),
        distance.finite(),
        relations::rounds(distance, v.value() - mean.value(), 1),
        window.deviation().finite(),
    ensures
        window.mean().level(mean),
        window.deviation().below(rolling::epsilon_of_one()) ==> window.z_score(v).zero(),
        !window.deviation().below(rolling::epsilon_of_one()) ==> relations::rounds(
            window.z_score(v),
            distance.value() * scalar::one_unit(),
            window.deviation().value() as nat,
        ),
{
    relations::zero_and_one();
    beyond_rounding();
    relations::part_of(window.sum, window.values.len());
    relations::level_values(window.mean(), mean);
    order::minus_is_near(v, window.mean());
    relations::level_values(v.minus(window.mean()), distance);
    if !window.deviation().below(rolling::epsilon_of_one()) {
        order::order_is_order_of_values(rolling::epsilon_of_one(), window.deviation());
        order::over_is_near(v.minus(window.mean()), window.deviation());
    }
}

/// The variance is the sum of squares less that of the mean, over one less than the number of
/// values; the deviation is its root, and zero where rounding left it negative.
pub proof fn the_variance_takes_the_mean_out(
    window: RollingModel,
    total: Scalar,
    square: Scalar,
    rest: Scalar,
)
    requires
        2 <= window.values.len() < EXACT,
        window.mean().finite(),
        window.sum_sq.finite(),
        total.finite(),
        square.finite(),
        rest.finite(),
        relations::rounds(total, window.values.len() * window.mean().value(), 1),
        relations::rounds(square, total.value() * window.mean().value(), scalar::one_unit()),
        relations::rounds(rest, window.sum_sq.value() - square.value(), 1),
    ensures
        relations::rounds(
            window.variance(),
            rest.value(),
            (window.values.len() - 1) as nat,
        ),
        window.variance().below(Scalar::of_int(0)) ==> window.deviation().zero(),
        Scalar::of_int(0).below(window.variance()) ==> window.deviation()
            == window.variance().root(),
{
    let n = window.values.len();
    let mean = window.mean();
    let one = scalar::one_unit() as int;
    relations::zero_and_one();
    order::int_is_exact(n);
    order::times_is_near(Scalar::of_int(n), mean);
    let v = mean.value();
    assert(((n * one) * v) * 1 == (n * v) * one) by (nonlinear_arith);
    relations::near_of_equal_ratios((n * one) * v, one as nat, n * v, 1);
    let t = Scalar::of_int(n).times(mean);
    relations::level_values(t, total);
    order::times_is_near(t, mean);
    relations::level_values(t.times(mean), square);
    order::minus_is_near(window.sum_sq, t.times(mean));
    let r = window.sum_sq.minus(t.times(mean));
    relations::level_values(r, rest);
    relations::part_of(r, (n - 1) as nat);
    if window.variance().below(Scalar::of_int(0)) {
        reveal(Scalar::root);
    }
    if Scalar::of_int(0).below(window.variance()) {
        relations::roots_keep_order(Scalar::of_int(0), window.variance());
    }
}

/// The mirrored value is as far from the mean of the mirrored window, on the other side.
pub proof fn mirrored_windows_turn_scores(a: RollingModel, b: RollingModel, v: Scalar, w: Scalar)
    requires
        a.values.len() == b.values.len() <= u64::MAX,
        relations::turned(a.sum, b.sum),
        a.sum_sq == b.sum_sq,
        relations::turned(v, w),
    ensures
        relations::turned(a.mean(), b.mean()),
        a.variance() == b.variance(),
        relations::turned(a.z_score(v), b.z_score(w)) || a.deviation().nan(),
{
    let n = a.values.len();
    relations::zero_and_one();
    beyond_rounding();
    if n > 0 {
        relations::parts_turn(a.sum, b.sum, n as u64);
    }
    let (x, y) = (a.mean(), b.mean());
    let c = Scalar::of_int(n);
    same_squares(c, x, y);
    relations::sums_turn(v, x, w, y);
    let d = a.deviation();
    if !d.nan() && !d.below(rolling::epsilon_of_one()) {
        let (s, t) = (v.minus(x), w.minus(y));
        relations::nan_spreads(s, d);
        relations::nan_spreads(t, d);
        if !s.nan() {
            relations::quotients_turn_sign(s, d, t);
        }
    }
}

proof fn same_squares(c: Scalar, x: Scalar, y: Scalar)
    requires
        relations::turned(x, y),
    ensures
        c.times(x).times(x) == c.times(y).times(y),
{
    reveal(Scalar::times);
    if !x.nan() {
        relations::opposite_values(x, y);
        if x.mag() == 0 {
            assert(x.count() == 0 && y.count() == 0);
        }
    }
}

/// Greater values have greater z-scores.
pub proof fn z_scores_keep_order(window: RollingModel, v: Scalar, w: Scalar)
    requires
        v.at_most(w),
        !window.z_score(v).nan(),
        !window.z_score(w).nan(),
    ensures
        window.z_score(v).at_most(window.z_score(w)),
{
    relations::zero_and_one();
    beyond_rounding();
    let (m, d) = (window.mean(), window.deviation());
    if !d.below(rolling::epsilon_of_one()) {
        relations::nan_spreads(v.minus(m), d);
        relations::nan_spreads(w.minus(m), d);
        relations::nan_spreads(v, m);
        relations::differences_keep_order(v, w, m, m);
        relations::quotients_keep_order(v.minus(m), w.minus(m), d);
    }
}

} // verus!
