//! What is learnt from executions: averages that move towards what is seen, and sums of fills.

use crate::execution_stats;
use crate::execution_stats::{Execution, ExecutionAverages, StatsModel};
use crate::extractor_laws;
use crate::order;
use crate::relations;
use crate::scalar;
use crate::scalar::Scalar;
use vstd::prelude::*;

verus! {

/// Something may be seen once its lag has passed, counted from when it was.
pub proof fn what_is_due_is_old_enough(timestamp_ns: u64, now_ns: u64, lag_ns: u64)
    ensures
        execution_stats::due(timestamp_ns, now_ns, lag_ns) <==> timestamp_ns + lag_ns <= now_ns
            || lag_ns == 0,
{
}

/// An average moves by a twentieth of the way to the sample.
pub proof fn an_average_moves_a_twentieth_of_the_way(
    before: Scalar,
    sample: Scalar,
    way: Scalar,
    step: Scalar,
)
    requires
        before.finite(),
        sample.finite(),
        way.finite(),
        step.finite(),
        relations::rounds(way, sample.value() - before.value(), 1),
        relations::rounds(
            step,
            Scalar::of_ratio(1, 20).value() * way.value(),
            scalar::one_unit(),
        ),
    ensures
        relations::rounds(
            execution_stats::average_after(before, sample),
            before.value() + step.value(),
            1,
        ),
{
    order::proper_ratio(1, 20);
    order::minus_is_near(sample, before);
    let w = sample.minus(before);
    relations::level_values(w, way);
    order::times_is_near(Scalar::of_ratio(1, 20), w);
    let s = Scalar::of_ratio(1, 20).times(w);
    relations::level_values(s, step);
    order::plus_is_near(before, s);
}

/// An average never moves away from a sample, and stays where it agrees with it. A greater sample
/// leaves a greater average.
pub proof fn averages_move_towards_samples(before: Scalar, sample: Scalar, greater: Scalar)
    requires
        before.finite(),
        sample.finite(),
        greater.finite(),
        sample.at_most(greater),
        !execution_stats::average_after(before, sample).nan(),
        !execution_stats::average_after(before, greater).nan(),
    ensures
        execution_stats::average_after(before, sample).at_most(
            execution_stats::average_after(before, greater),
        ),
        before.at_most(sample) ==> before.at_most(execution_stats::average_after(before, sample)),
        sample.at_most(before) ==> execution_stats::average_after(before, sample).at_most(before),
{
    relations::zero_and_one();
    let zero = Scalar::of_int(0);
    let w = Scalar::of_ratio(1, 20);
    order::proper_ratio(1, 20);
    let (x, y) = (sample.minus(before), greater.minus(before));
    relations::nan_spreads(before, w.times(x));
    relations::nan_spreads(before, w.times(y));
    relations::nan_spreads(w, x);
    relations::nan_spreads(w, y);
    relations::factors_commute(w, x);
    relations::factors_commute(w, y);
    relations::differences_keep_order(sample, greater, before, before);
    relations::scaling_keeps_order(x, y, w);
    relations::sums_keep_order(before, before, w.times(x), w.times(y));
    order::minus_is_near(sample, before);
    order::order_is_order_of_values(sample, before);
    order::order_is_order_of_values(before, sample);
    order::near_itself(zero, 1);
    relations::nothing_of(w, zero);
    relations::factors_commute(w, zero);
    relations::adding_nothing(before, w.times(zero));
    if before.at_most(sample) {
        order::near_keeps_order(0, 1, sample.value() - before.value(), 1);
        relations::scaling_keeps_order(zero, x, w);
        relations::sums_keep_order(before, before, w.times(zero), w.times(x));
    }
    if sample.at_most(before) {
        order::near_keeps_order(sample.value() - before.value(), 1, 0, 1);
        relations::scaling_keeps_order(x, zero, w);
        relations::sums_keep_order(before, before, w.times(x), w.times(zero));
    }
}

/// A fill never lowers the fill rate nor raises the reject rate, and a rejection the other way
/// round.
pub proof fn a_fill_raises_the_fill_rate(averages: ExecutionAverages, e: Execution)
    requires
        extractor_laws::is_probability(averages.fill_rate_ema),
        extractor_laws::is_probability(averages.reject_rate_ema),
        !averages.with(e).fill_rate_ema.nan(),
        !averages.with(e).reject_rate_ema.nan(),
    ensures
        e.fill_status.fills() ==> averages.fill_rate_ema.at_most(averages.with(e).fill_rate_ema)
            && averages.with(e).reject_rate_ema.at_most(averages.reject_rate_ema),
        !e.fill_status.fills() ==> averages.with(e).fill_rate_ema.at_most(averages.fill_rate_ema)
            && averages.reject_rate_ema.at_most(averages.with(e).reject_rate_ema),
{
    relations::zero_and_one();
    let fills = e.fill_status.fills();
    let (yes, no) = (execution_stats::indicator(fills), execution_stats::indicator(!fills));
    averages_move_towards_samples(averages.fill_rate_ema, yes, yes);
    averages_move_towards_samples(averages.reject_rate_ema, no, no);
}

/// Adverse and favourable slippage of the same size count alike; drift turns with its sign.
pub proof fn slippage_has_no_sign(
    averages: ExecutionAverages,
    mirrored: ExecutionAverages,
    e: Execution,
    other: Execution,
)
    requires
        relations::opposite(e.slippage, other.slippage),
        averages.slippage_ema == mirrored.slippage_ema,
        relations::turned(averages.drift_ema, mirrored.drift_ema),
        relations::turned(e.execution_drift_trend, other.execution_drift_trend),
    ensures
        averages.with(e).slippage_ema == mirrored.with(other).slippage_ema,
        relations::turned(averages.with(e).drift_ema, mirrored.with(other).drift_ema),
{
    relations::opposite_values(e.slippage, other.slippage);
    let (a, b) = (averages.drift_ema, mirrored.drift_ema);
    let (x, y) = (e.execution_drift_trend, other.execution_drift_trend);
    relations::sums_turn(x, a, y, b);
    relations::products_turn(x.minus(a), Scalar::of_ratio(1, 20), y.minus(b));
    relations::sums_turn(
        a,
        Scalar::of_ratio(1, 20).times(x.minus(a)),
        b,
        Scalar::of_ratio(1, 20).times(y.minus(b)),
    );
}

/// Only fills count: a fill that may be seen adds one to the count of fills and its size to the
/// volume; what was not filled adds nothing to either.
pub proof fn only_fills_count(stats: StatsModel, e: Execution, now_ns: u64, lag_ns: u64)
    requires
        execution_stats::due(e.timestamp_ns, now_ns, lag_ns),
        stats.intensity(now_ns, lag_ns).finite(),
        stats.volume(now_ns, lag_ns).finite(),
        e.fill_size.finite(),
    ensures
        e.fill_status.fills() ==> {
            &&& relations::rounds(
                stats.with(e).intensity(now_ns, lag_ns),
                stats.intensity(now_ns, lag_ns).value() + scalar::one_unit(),
                1,
            )
            &&& relations::rounds(
                stats.with(e).volume(now_ns, lag_ns),
                stats.volume(now_ns, lag_ns).value() + e.fill_size.value(),
                1,
            )
        },
        !e.fill_status.fills() ==> {
            &&& stats.with(e).intensity(now_ns, lag_ns).level(stats.intensity(now_ns, lag_ns))
            &&& stats.with(e).volume(now_ns, lag_ns).level(stats.volume(now_ns, lag_ns))
        },
{
    relations::zero_and_one();
    execution_stats::executions_are_seen_once_their_lag_has_passed(stats, e, now_ns, lag_ns);
    let (i, v) = (stats.intensity(now_ns, lag_ns), stats.volume(now_ns, lag_ns));
    crate::bayesian_laws::times_one(e.fill_size);
    relations::nothing_of(e.fill_size, Scalar::of_int(0));
    order::plus_is_near(i, Scalar::of_int(1));
    order::plus_is_near(v, e.fill_size);
    relations::adding_nothing(i, Scalar::of_int(0));
    relations::adding_nothing(v, e.fill_size.times(Scalar::of_int(0)));
}

/// An order is filled if it was filled wholly or in part, and not if it was rejected or is unknown.
pub proof fn fills_are_whole_or_partial()
    ensures
        execution_stats::FillStatus::Filled.fills(),
        execution_stats::FillStatus::PartialFill.fills(),
        !execution_stats::FillStatus::Rejected.fills(),
        !execution_stats::FillStatus::Unspecified.fills(),
{
}

/// Pruning drops the leading entries that are older than the cutoff, and nothing else.
pub proof fn pruning_drops_what_is_old(entries: Seq<(u64, Scalar)>, cutoff_ns: u64) -> (dropped: int)
    ensures
        0 <= dropped <= entries.len(),
        execution_stats::pruned(entries, cutoff_ns) == entries.skip(dropped),
        forall|i: int| 0 <= i < dropped ==> (#[trigger] entries[i]).0 < cutoff_ns,
        dropped < entries.len() ==> entries[dropped].0 >= cutoff_ns,
    decreases entries.len(),
{
    if entries.len() > 0 && entries[0].0 < cutoff_ns {
        let fewer = entries.skip(1);
        let d = pruning_drops_what_is_old(fewer, cutoff_ns);
        assert(fewer.skip(d) =~= entries.skip(d + 1));
        assert forall|i: int| 0 <= i < d + 1 implies (#[trigger] entries[i]).0 < cutoff_ns by {
            if i > 0 {
                assert(fewer[i - 1] == entries[i]);
            }
        }
        if d + 1 < entries.len() {
            assert(fewer[d] == entries[d + 1]);
        }
        d + 1
    } else {
        assert(entries.skip(0) =~= entries);
        0
    }
}

/// Pruning forgets fills and volumes alike, and keeps the executions that the averages are taken
/// over.
pub proof fn pruning_keeps_the_averages(stats: StatsModel, cutoff_ns: u64, now_ns: u64, lag_ns: u64)
    ensures
        stats.prune(cutoff_ns).averages(now_ns, lag_ns) == stats.averages(now_ns, lag_ns),
        stats.prune(cutoff_ns).trades == execution_stats::pruned(stats.trades, cutoff_ns),
        stats.prune(cutoff_ns).volumes == execution_stats::pruned(stats.volumes, cutoff_ns),
{
}

/// Without executions there is nothing to average and nothing to count.
pub proof fn no_executions_tell_nothing(now_ns: u64, lag_ns: u64)
    ensures
        StatsModel::empty().averages(now_ns, lag_ns).fill_rate_ema.zero(),
        StatsModel::empty().averages(now_ns, lag_ns).reject_rate_ema.zero(),
        StatsModel::empty().averages(now_ns, lag_ns).slippage_ema.zero(),
        StatsModel::empty().averages(now_ns, lag_ns).drift_ema.zero(),
        StatsModel::empty().intensity(now_ns, lag_ns).zero(),
        StatsModel::empty().volume(now_ns, lag_ns).zero(),
{
    relations::zero_and_one();
}

} // verus!
