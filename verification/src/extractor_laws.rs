//! Laws of the features.

use crate::execution_stats;
use crate::execution_stats::Execution;
use crate::extractor;
use crate::extractor::{ExtractorModel, MarketQuote, Session};
use crate::linalg;
use crate::order;
use crate::rolling;
use crate::rolling::VolatilityModel;
use crate::rounding::EXACT;
use crate::scalar;
use crate::scalar::Scalar;
use crate::state::{StateSnapshot, StrategyId};
use vstd::prelude::*;

verus! {

/// From zero to one.
pub open spec fn is_probability(p: Scalar) -> bool {
    Scalar::of_int(0).at_most(p) && p.at_most(Scalar::of_int(1))
}

/// No feature tells of an execution before its lag has passed: whatever the execution was, the
/// features are what they were without it.
pub proof fn features_do_not_tell_of_unseen_executions(
    before: ExtractorModel,
    after: ExtractorModel,
    e: Execution,
    q: MarketQuote,
    state: StateSnapshot,
    strategy_id: StrategyId,
    now_ns: u64,
    held_ms: u64,
    decayed: Scalar,
)
    requires
        after == (ExtractorModel { executions: before.executions.with(e), ..before }),
        !execution_stats::due(e.timestamp_ns, now_ns, before.config.execution_lag_ns),
    ensures
        after.features_at(q, state, strategy_id, now_ns, held_ms, decayed) == before.features_at(
            q,
            state,
            strategy_id,
            now_ns,
            held_ms,
            decayed,
        ),
{
    execution_stats::executions_are_unseen_until_their_lag_has_passed(
        before.executions,
        e,
        now_ns,
        before.config.execution_lag_ns,
    );
}

/// One more entry at the end does not change what is taken out before a time, but for itself.
proof fn pruning_goes_by_entries(entries: Seq<(u64, Scalar)>, e: (u64, Scalar), cutoff_ns: u64)
    ensures
        ({
            let with = execution_stats::pruned(entries.push(e), cutoff_ns);
            let without = execution_stats::pruned(entries, cutoff_ns);
            with == without.push(e) || (with == without && without.len() == 0)
        }),
    decreases entries.len(),
{
    if entries.len() == 0 {
        assert(entries.push(e).skip(1) =~= entries);
        assert(execution_stats::pruned(entries, cutoff_ns) == entries);
    } else if entries[0].0 < cutoff_ns {
        assert(entries.push(e)[0] == entries[0]);
        assert(entries.push(e).skip(1) =~= entries.skip(1).push(e));
        pruning_goes_by_entries(entries.skip(1), e, cutoff_ns);
    } else {
        assert(entries.push(e)[0] == entries[0]);
    }
}

/// An entry that may not be seen yet does not count, whatever is taken out before a time.
proof fn unseen_entries_do_not_count(
    entries: Seq<(u64, Scalar)>,
    e: (u64, Scalar),
    cutoff_ns: u64,
    now_ns: u64,
    lag_ns: u64,
)
    requires
        !execution_stats::due(e.0, now_ns, lag_ns),
    ensures
        execution_stats::seen_sum(
            execution_stats::pruned(entries.push(e), cutoff_ns),
            now_ns,
            lag_ns,
        ) == execution_stats::seen_sum(execution_stats::pruned(entries, cutoff_ns), now_ns, lag_ns),
{
    pruning_goes_by_entries(entries, e, cutoff_ns);
    let without = execution_stats::pruned(entries, cutoff_ns);
    assert(without.push(e).drop_last() =~= without);
}

/// A quote does not uncover an execution: however late the quote is, features that are asked for
/// at a time before the lag of the execution has passed are what they were without it.
pub proof fn quotes_do_not_uncover_executions(
    before: ExtractorModel,
    after: ExtractorModel,
    e: Execution,
    late: MarketQuote,
    log_ratio: Scalar,
    q: MarketQuote,
    state: StateSnapshot,
    strategy_id: StrategyId,
    now_ns: u64,
    held_ms: u64,
    decayed: Scalar,
)
    requires
        after == (ExtractorModel { executions: before.executions.with(e), ..before }),
        !execution_stats::due(e.timestamp_ns, now_ns, before.config.execution_lag_ns),
    ensures
        after.after_quote(late, log_ratio).features_at(
            q,
            state,
            strategy_id,
            now_ns,
            held_ms,
            decayed,
        ) == before.after_quote(late, log_ratio).features_at(
            q,
            state,
            strategy_id,
            now_ns,
            held_ms,
            decayed,
        ),
{
    let lag_ns = before.config.execution_lag_ns;
    let cutoff_ns = if late.timestamp_ns >= before.config.trade_intensity_window_ns {
        (late.timestamp_ns - before.config.trade_intensity_window_ns) as u64
    } else {
        0
    };
    let filled = execution_stats::indicator(e.fill_status.fills());
    unseen_entries_do_not_count(
        before.executions.trades,
        (e.timestamp_ns, filled),
        cutoff_ns,
        now_ns,
        lag_ns,
    );
    unseen_entries_do_not_count(
        before.executions.volumes,
        (e.timestamp_ns, e.fill_size.times(filled)),
        cutoff_ns,
        now_ns,
        lag_ns,
    );
    execution_stats::executions_are_unseen_until_their_lag_has_passed(
        before.executions,
        e,
        now_ns,
        lag_ns,
    );
}

/// What is moved into the range from zero to one is a probability.
pub(crate) proof fn unit_is_probability(x: Scalar)
    requires
        !x.nan(),
    ensures
        is_probability(extractor::unit(x)),
{
    order::int_is_exact(0);
    order::int_is_exact(1);
    order::order_is_order_of_values(Scalar::of_int(0), Scalar::of_int(1));
}

/// A sum is a number if one of the two is finite and the other a number.
pub(crate) proof fn sum_with_finite(a: Scalar, b: Scalar)
    requires
        a.finite(),
        !b.nan(),
    ensures
        !a.plus(b).nan(),
        !b.plus(a).nan(),
{
    reveal(Scalar::plus);
    if b.finite() {
        order::plus_is_near(a, b);
        order::plus_is_near(b, a);
    }
}

/// A number between zero and one, times a fraction, is between zero and that fraction.
pub(crate) proof fn share(x: Scalar, c: Scalar)
    requires
        is_probability(x),
        order::nonnegative(c),
    ensures
        x.times(c).finite(),
        0 <= x.times(c).rank() <= c.rank(),
{
    order::int_is_exact(0);
    order::int_is_exact(1);
    let zero = Scalar::of_int(0);
    let full = Scalar::of_int(1);
    assert(x.finite()) by {
        if zero.mag() > 0 {
            crate::rounding::units_increase(0, zero.mag());
        }
    }
    order::order_is_order_of_values(zero, x);
    order::order_is_order_of_values(x, full);
    order::times_is_near(x, c);
    let one = scalar::one_unit();
    order::near_itself(c, one);
    order::near_itself(zero, one);
    let v = x.value() * c.value();
    assert(0 <= v && v * one <= (c.value() * one) * one) by (nonlinear_arith)
        requires
            v == x.value() * c.value(),
            0 <= x.value() <= one,
            c.value() >= 0,
            one > 0,
    ;
    order::near_keeps_order(v, one, c.value() * one, one);
    order::near_keeps_order(0, one, v, one);
    order::no_negative_rank(c);
}

/// A fraction is a finite number that is not negative.
pub(crate) proof fn fraction(x: nat, y: nat)
    requires
        0 < x <= y,
        y < EXACT,
    ensures
        order::nonnegative(Scalar::of_ratio(x, y)),
        Scalar::of_ratio(x, y).mag() <= Scalar::of_int(1).mag(),
{
    order::int_is_exact(x);
    order::int_is_exact(y);
    order::int_is_exact(0);
    order::int_is_exact(1);
    let a = Scalar::of_int(x);
    let b = Scalar::of_int(y);
    let one = scalar::one_unit() as int;
    vstd::arithmetic::mul::lemma_mul_strictly_positive(y as int, one);
    order::over_is_near(a, b);
    let full = Scalar::of_int(1);
    order::near_itself(full, 1);
    order::near_itself(Scalar::of_int(0), 1);
    let v = a.value() * one;
    let d = b.value();
    assert(v * 1 <= one * d && 0 <= v) by (nonlinear_arith)
        requires
            v == (x * one) * one,
            d == y * one,
            0 < x <= y,
            0 < one,
    ;
    order::near_keeps_order(v, d as nat, one, 1);
    order::near_keeps_order(0, 1, v, d as nat);
    order::no_negative_rank(full);
    let r = Scalar::of_ratio(x, y);
    order::order_is_order_of_values(Scalar::of_int(0), r);
}

/// The least of a magnitude and one is from zero to one, whatever the magnitude is of.
pub(crate) proof fn capped_magnitude(x: Scalar)
    requires
        x.nan() || x.rank() >= 0,
    ensures
        is_probability(x.lesser(Scalar::of_int(1))),
{
    order::int_is_exact(0);
    order::int_is_exact(1);
    order::order_is_order_of_values(Scalar::of_int(0), Scalar::of_int(1));
    order::no_negative_rank(Scalar::of_int(1));
}

/// A magnitude over a positive integer, or times one, has no negative rank.
pub(crate) proof fn scaled_magnitude(x: Scalar, k: nat)
    requires
        0 < k < EXACT,
    ensures
        x.magnitude().over(Scalar::of_int(k)).nan() || x.magnitude().over(
            Scalar::of_int(k),
        ).rank() >= 0,
        x.magnitude().times(Scalar::of_int(k)).nan() || x.magnitude().times(
            Scalar::of_int(k),
        ).rank() >= 0,
{
    order::int_is_exact(k);
    reveal(Scalar::over);
    reveal(Scalar::times);
}

/// The probability of reversion is a probability, whatever it is computed from.
pub proof fn p_revert_is_a_probability(spread_zscore: Scalar, obi: Scalar, depth_change_rate: Scalar)
    ensures
        is_probability(extractor::p_revert_of(spread_zscore, obi, depth_change_rate)),
{
    let one = Scalar::of_int(1);
    order::int_is_exact(0);
    order::int_is_exact(1);
    order::no_negative_rank(one);
    scaled_magnitude(spread_zscore, 3);
    scaled_magnitude(obi, 2);
    let spread_signal = spread_zscore.magnitude().over(Scalar::of_int(3)).lesser(one);
    let obi_signal = obi.magnitude().times(Scalar::of_int(2)).lesser(one);
    let depth_signal = if depth_change_rate.below(Scalar::of_ratio(1, 5).negated()) {
        one
    } else {
        Scalar::of_int(0)
    };
    capped_magnitude(spread_zscore.magnitude().over(Scalar::of_int(3)));
    capped_magnitude(obi.magnitude().times(Scalar::of_int(2)));
    fraction(2, 5);
    fraction(3, 10);
    share(spread_signal, Scalar::of_ratio(2, 5));
    share(obi_signal, Scalar::of_ratio(3, 10));
    share(depth_signal, Scalar::of_ratio(3, 10));
    let a = spread_signal.times(Scalar::of_ratio(2, 5));
    let b = obi_signal.times(Scalar::of_ratio(3, 10));
    let c = depth_signal.times(Scalar::of_ratio(3, 10));
    order::plus_is_near(a, b);
    sum_with_finite(c, a.plus(b));
    unit_is_probability(a.plus(b).plus(c));
}

/// The probability of continuation is a probability, whatever it is computed from.
pub proof fn p_continue_is_a_probability(vol_ratio: Scalar, trade_intensity: Scalar)
    ensures
        is_probability(extractor::p_continue_of(vol_ratio, trade_intensity)),
{
    let one = Scalar::of_int(1);
    let zero = Scalar::of_int(0);
    order::int_is_exact(0);
    order::int_is_exact(1);
    order::int_is_exact(2);
    order::int_is_exact(20);
    order::no_negative_rank(one);
    let excess = vol_ratio.minus(one).times(Scalar::of_int(2));
    if one.below(vol_ratio) {
        if vol_ratio.finite() {
            order::order_is_order_of_values(one, vol_ratio);
            order::minus_is_near(vol_ratio, one);
            order::near_itself(zero, 1);
            order::near_keeps_order(0, 1, vol_ratio.value() - one.value(), 1);
        } else {
            reveal(Scalar::plus);
        }
        reveal(Scalar::times);
        assert(excess.nan() || excess.rank() >= 0);
        capped_magnitude(excess);
    }
    let vol_signal = if one.below(vol_ratio) {
        excess.lesser(one)
    } else {
        zero
    };
    fraction(3, 5);
    fraction(2, 5);
    share(vol_signal, Scalar::of_ratio(3, 5));
    let intensity_signal = trade_intensity.over(Scalar::of_int(20)).lesser(one);
    assert(!intensity_signal.nan());
    order::proper_ratio(2, 5);
    assert(!intensity_signal.times(Scalar::of_ratio(2, 5)).nan()) by {
        if intensity_signal.finite() {
            order::times_is_near(intensity_signal, Scalar::of_ratio(2, 5));
        } else {
            reveal(Scalar::times);
        }
    }
    let a = vol_signal.times(Scalar::of_ratio(3, 5));
    sum_with_finite(a, intensity_signal.times(Scalar::of_ratio(2, 5)));
    unit_is_probability(a.plus(intensity_signal.times(Scalar::of_ratio(2, 5))));
}

/// The probability of a trend is a probability, for every book that is a number.
pub proof fn p_trend_is_a_probability(session: Session, obi: Scalar)
    requires
        !obi.nan(),
    ensures
        is_probability(extractor::p_trend_of(session, obi)),
{
    order::int_is_exact(0);
    order::int_is_exact(1);
    fraction(1, 2);
    fraction(1, 10);
    fraction(3, 20);
    fraction(1, 20);
    order::negated_value(Scalar::of_ratio(1, 20));
    let half = Scalar::of_ratio(1, 2);
    let bias = extractor::session_bias(session);
    let base = half.plus(bias);
    order::plus_is_near(half, bias);
    order::no_negative_rank(Scalar::of_int(0));
    base_is_finite(half, bias);
    order::proper_ratio(3, 10);
    let tilt = obi.times(Scalar::of_ratio(3, 10));
    assert(!tilt.nan()) by {
        if obi.finite() {
            order::times_is_near(obi, Scalar::of_ratio(3, 10));
        } else {
            reveal(Scalar::times);
        }
    }
    sum_with_finite(base, tilt);
    unit_is_probability(base.plus(tilt));
}

/// Two numbers of magnitude at most one have a finite sum.
pub(crate) proof fn base_is_finite(a: Scalar, b: Scalar)
    requires
        a.finite(),
        b.finite(),
        a.mag() <= Scalar::of_int(1).mag(),
        b.mag() <= Scalar::of_int(1).mag(),
    ensures
        a.plus(b).finite(),
{
    order::int_is_exact(1);
    order::int_is_exact(2);
    let full = Scalar::of_int(1);
    let two = Scalar::of_int(2);
    order::plus_is_near(a, b);
    order::near_itself(two, 1);
    order::near_itself(two.negated(), 1);
    order::negated_value(two);
    if a.mag() < full.mag() {
        crate::rounding::units_increase(a.mag(), full.mag());
    }
    if b.mag() < full.mag() {
        crate::rounding::units_increase(b.mag(), full.mag());
    }
    let sum = a.value() + b.value();
    order::near_keeps_order(sum, 1, two.value(), 1);
    order::near_keeps_order(-two.value(), 1, sum, 1);
}

/// With finite sizes that are not negative, the order book imbalance is from minus one to one.
pub proof fn imbalance_is_within_one(q: MarketQuote)
    requires
        order::nonnegative(q.bid_size),
        order::nonnegative(q.ask_size),
    ensures
        Scalar::of_int(1).negated().at_most(q.obi()),
        q.obi().at_most(Scalar::of_int(1)),
{
    let a = q.ask_size;
    let b = q.bid_size;
    let n = a.minus(b);
    let d = b.plus(a);
    order::int_is_exact(0);
    order::int_is_exact(1);
    let full = Scalar::of_int(1);
    order::negated_value(full);
    order::no_negative_rank(full);
    order::minus_is_near(a, b);
    order::plus_is_near(b, a);
    order::near_itself(a, 1);
    order::near_itself(b, 1);
    order::near_itself(b.negated(), 1);
    order::negated_value(b);
    // The difference lies between the sizes, so it is finite.
    order::near_keeps_order(a.value() - b.value(), 1, a.value(), 1);
    order::near_keeps_order(-b.value(), 1, a.value() - b.value(), 1);
    order::no_negative_rank(a);
    order::no_negative_rank(b);
    assert(n.finite());
    if Scalar::of_int(0).below(d) {
        if d.finite() {
            order::order_is_order_of_values(Scalar::of_int(0), d);
            order::near_keeps_order(a.value() - b.value(), 1, b.value() + a.value(), 1);
            order::near_keeps_order(-(b.value() + a.value()), 1, a.value() - b.value(), 1);
            near_turns_sign(b.value() + a.value());
            order::order_is_order_of_values(n, d);
            order::negated_value(d);
            order::order_is_order_of_values(d.negated(), n);
            order::over_is_near(n, d);
            let one = scalar::one_unit() as int;
            order::near_itself(full, 1);
            order::near_itself(full.negated(), 1);
            assert(n.value() * one * 1 <= one * d.value() && (-one) * d.value() <= n.value() * one
                * 1) by (nonlinear_arith)
                requires
                    -d.value() <= n.value() <= d.value(),
                    one > 0,
            ;
            order::near_keeps_order(n.value() * one, d.value() as nat, one, 1);
            order::near_keeps_order(-one, 1, n.value() * one, d.value() as nat);
        } else {
            reveal(Scalar::over);
        }
    }
}

/// The number nearest to the opposite is the opposite of the nearest.
proof fn near_turns_sign(v: int)
    ensures
        order::near(-v, 1) == -order::near(v, 1),
{
    crate::rounding::round_mag_exact(0, 1);
}

/// Exactly one session is marked.
pub proof fn one_session_is_marked(session: Session, other: Session)
    ensures
        session.marks(other) == Scalar::of_int(1) <==> session == other,
{
    order::int_is_exact(0);
    order::int_is_exact(1);
}

/// A sum that starts at zero and takes in finite numbers is a number.
proof fn sum_of_finite_is_a_number(values: Seq<Scalar>, k: int)
    requires
        0 <= k <= values.len(),
        forall|i: int| 0 <= i < values.len() ==> (#[trigger] values[i]).finite(),
    ensures
        !linalg::running_sum(values, k).nan(),
    decreases k,
{
    order::int_is_exact(0);
    if k > 0 {
        sum_of_finite_is_a_number(values, k - 1);
        assert(values[k - 1].finite());
        sum_with_finite(values[k - 1], linalg::running_sum(values, k - 1));
    }
}

/// A number times itself is not negative.
proof fn square_is_not_negative(x: Scalar)
    requires
        !x.nan(),
    ensures
        !x.times(x).nan(),
        !x.times(x).neg(),
{
    if x.finite() {
        order::times_is_near(x, x);
    }
    reveal(Scalar::times);
}

/// A sum of numbers that have no minus sign has none.
proof fn sum_keeps_sign(values: Seq<Scalar>, k: int)
    requires
        0 <= k <= values.len(),
        forall|i: int| 0 <= i < values.len() ==> !(#[trigger] values[i]).nan() && !values[i].neg(),
    ensures
        !linalg::running_sum(values, k).nan(),
        !linalg::running_sum(values, k).neg(),
    decreases k,
{
    order::int_is_exact(0);
    if k > 0 {
        sum_keeps_sign(values, k - 1);
        let before = linalg::running_sum(values, k - 1);
        let x = values[k - 1];
        assert(!x.nan() && !x.neg());
        if before.finite() && x.finite() {
            order::plus_is_near(before, x);
        }
        reveal(Scalar::plus);
    }
}

/// The deviation of finite values around their mean is not negative.
proof fn deviation_is_not_negative(values: Seq<Scalar>)
    requires
        0 < values.len() < EXACT,
        forall|i: int| 0 <= i < values.len() ==> (#[trigger] values[i]).finite(),
    ensures
        Scalar::of_int(0).at_most(rolling::spread_of(values)),
{
    let n = Scalar::of_int(values.len());
    order::int_is_exact(0);
    order::int_is_exact(values.len());
    order::no_negative_rank(Scalar::of_int(0));
    vstd::arithmetic::mul::lemma_mul_strictly_positive(
        values.len() as int,
        scalar::one_unit() as int,
    );
    let sum = linalg::running_sum(values, values.len() as int);
    sum_of_finite_is_a_number(values, values.len() as int);
    let mean = sum.over(n);
    assert(!mean.nan()) by {
        if sum.finite() {
            order::over_is_near(sum, n);
        } else {
            reveal(Scalar::over);
        }
    }
    let squares = rolling::squared_distances(values, mean);
    assert forall|i: int| 0 <= i < squares.len() implies !(#[trigger] squares[i]).nan()
        && !squares[i].neg() by {
        let d = values[i].minus(mean);
        assert(values[i].finite());
        sum_with_finite(values[i], mean.negated());
        square_is_not_negative(d);
    }
    sum_keeps_sign(squares, values.len() as int);
    let total = linalg::running_sum(squares, values.len() as int);
    let variance = total.over(n);
    assert(!variance.nan() && !variance.neg()) by {
        if total.finite() {
            order::over_is_near(total, n);
        }
        reveal(Scalar::over);
    }
    reveal(Scalar::root);
}

/// Realized volatility is not negative, where the log returns are finite.
pub proof fn volatility_is_not_negative(volatility: VolatilityModel, window: nat)
    requires
        volatility.log_returns.len() < EXACT,
        forall|i: int|
            0 <= i < volatility.log_returns.len() ==> (
            #[trigger] volatility.log_returns[i]).finite(),
    ensures
        Scalar::of_int(0).at_most(volatility.realized(window)),
{
    let kept = volatility.log_returns.len();
    let n = if window < kept {
        window
    } else {
        kept
    };
    order::int_is_exact(0);
    if n > 0 {
        let values = volatility.log_returns.skip(kept - n);
        assert forall|i: int| 0 <= i < values.len() implies (#[trigger] values[i]).finite() by {
            assert(volatility.log_returns[i + (kept - n)].finite());
        }
        deviation_is_not_negative(values);
    }
}

/// A magnitude in lots over a positive size in lots has no negative rank.
proof fn queue_ratio(size: Scalar, bid_size: Scalar, lot: Scalar)
    requires
        Scalar::of_int(0).below(lot),
        Scalar::of_int(0).below(bid_size),
    ensures
        ({
            let ratio = size.magnitude().over(lot).over(bid_size.over(lot));
            ratio.nan() || ratio.rank() >= 0
        }),
{
    order::int_is_exact(0);
    order::no_negative_rank(Scalar::of_int(0));
    reveal(Scalar::over);
}

/// Features keep to their ranges. Exactly one session is marked. The imbalance is from minus one to
/// one; the place in the queue, the probabilities and the decay are from zero to one; volatility is
/// not negative; the direction of a position is one, zero or minus one. The products with
/// volatility are products.
pub proof fn features_are_in_range(
    extractor: ExtractorModel,
    q: MarketQuote,
    state: StateSnapshot,
    strategy_id: StrategyId,
    now_ns: u64,
    held_ms: u64,
    decayed: Scalar,
)
    requires
        order::nonnegative(q.bid_size),
        order::nonnegative(q.ask_size),
        Scalar::of_int(0).below(extractor.config.typical_lot_size),
        extractor.volatility.log_returns.len() < EXACT,
        forall|i: int|
            0 <= i < extractor.volatility.log_returns.len() ==> (
            #[trigger] extractor.volatility.log_returns[i]).finite(),
        state.held(strategy_id) matches Some(position) ==> !position.size.nan(),
        is_probability(decayed),
    ensures
        ({
            let f = extractor.features_at(q, state, strategy_id, now_ns, held_ms, decayed);
            let one = Scalar::of_int(1);
            let zero = Scalar::of_int(0);
            let hour = ((q.timestamp_ns / 3_600_000_000_000) % 24) as u8;
            let session = Session::at(hour, extractor.config.session_hours_utc@);
            &&& f.session_tokyo == session.marks(Session::Tokyo)
            &&& f.session_london == session.marks(Session::London)
            &&& f.session_ny == session.marks(Session::NewYork)
            &&& f.session_sydney == session.marks(Session::Sydney)
            &&& one.negated().at_most(f.obi) && f.obi.at_most(one)
            &&& is_probability(f.queue_position)
            &&& is_probability(f.p_revert)
            &&& is_probability(f.p_continue)
            &&& is_probability(f.p_trend)
            &&& is_probability(f.time_decay)
            &&& zero.at_most(f.realized_volatility)
            &&& (f.position_direction == one || f.position_direction == zero
                || f.position_direction == one.negated())
            &&& f.spread_z_x_vol == f.spread_zscore.times(f.realized_volatility)
            &&& f.obi_x_vol == f.obi.times(f.realized_volatility)
        }),
{
    let f = extractor.features_at(q, state, strategy_id, now_ns, held_ms, decayed);
    order::int_is_exact(0);
    order::int_is_exact(1);
    order::order_is_order_of_values(Scalar::of_int(0), Scalar::of_int(1));
    order::no_negative_rank(Scalar::of_int(1));
    imbalance_is_within_one(q);
    volatility_is_not_negative(extractor.volatility, extractor.config.vol_window as nat);
    let hour = ((q.timestamp_ns / 3_600_000_000_000) % 24) as u8;
    let session = Session::at(hour, extractor.config.session_hours_utc@);
    p_revert_is_a_probability(f.spread_zscore, f.obi, f.depth_change_rate);
    p_continue_is_a_probability(f.volatility_ratio, f.trade_intensity);
    p_trend_is_a_probability(session, f.obi);
    if Scalar::of_int(0).below(q.bid_size) {
        let lot = extractor.config.typical_lot_size;
        queue_ratio(f.position_size, q.bid_size, lot);
        capped_magnitude(f.position_size.magnitude().over(lot).over(q.bid_size.over(lot)));
    }
}

} // verus!
