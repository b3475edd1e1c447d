//! What executions say of the market, seen late.
//!
//! A decision must not know of an execution before its lag has passed. What it sees is asked for
//! at a time, and only the executions whose lag has passed by then count in the averages and sums.
//! Each execution is kept with its time, so that this holds whatever time is asked for.

use crate::extractor_laws;
use crate::order;
use crate::rounding::{BINADE, EXACT};
use crate::scalar;
use crate::scalar::Scalar;
use std::collections::VecDeque;
use vstd::prelude::*;

verus! {

/// What became of an order.
#[derive(Debug, Clone, Copy, PartialEq, Eq, Structural)]
pub enum FillStatus {
    Unspecified,
    Filled,
    PartialFill,
    Rejected,
}

impl FillStatus {
    /// The order was filled, wholly or in part.
    pub open spec fn fills(self) -> bool {
        self == FillStatus::Filled || self == FillStatus::PartialFill
    }
}

/// One execution.
#[derive(Debug, Clone, Copy, PartialEq, Eq, Structural)]
pub struct Execution {
    pub fill_status: FillStatus,
    pub slippage: Scalar,
    pub fill_size: Scalar,
    pub execution_drift_trend: Scalar,
    pub timestamp_ns: u64,
}

/// Whether what happened at `timestamp_ns` may be seen at `now_ns`.
pub open spec fn due(timestamp_ns: u64, now_ns: u64, lag_ns: u64) -> bool {
    (if now_ns >= timestamp_ns {
        now_ns - timestamp_ns
    } else {
        0
    }) >= lag_ns
}

fn is_due(timestamp_ns: u64, now_ns: u64, lag_ns: u64) -> (r: bool)
    ensures
        r == due(timestamp_ns, now_ns, lag_ns),
{
    (if now_ns >= timestamp_ns {
        now_ns - timestamp_ns
    } else {
        0
    }) >= lag_ns
}

/// Running averages over executions.
#[derive(Debug, Clone, Copy, PartialEq, Eq, Structural)]
pub struct ExecutionAverages {
    pub fill_rate_ema: Scalar,
    pub slippage_ema: Scalar,
    pub reject_rate_ema: Scalar,
    pub drift_ema: Scalar,
}

/// A running average after one more sample, which weighs a twentieth.
pub open spec fn average_after(before: Scalar, sample: Scalar) -> Scalar {
    before.plus(Scalar::of_ratio(1, 20).times(sample.minus(before)))
}

fn next_average(before: Scalar, sample: Scalar) -> (r: Scalar)
    ensures
        r == average_after(before, sample),
{
    before.add(Scalar::ratio(1, 20).mul(sample.sub(before)))
}

/// One for yes, zero for no.
pub open spec fn indicator(b: bool) -> Scalar {
    if b {
        Scalar::of_int(1)
    } else {
        Scalar::of_int(0)
    }
}

impl ExecutionAverages {
    /// No executions.
    pub open spec fn none() -> ExecutionAverages {
        ExecutionAverages {
            fill_rate_ema: Scalar::of_int(0),
            slippage_ema: Scalar::of_int(0),
            reject_rate_ema: Scalar::of_int(0),
            drift_ema: Scalar::of_int(0),
        }
    }

    /// After one more execution.
    pub open spec fn with(self, e: Execution) -> ExecutionAverages {
        ExecutionAverages {
            fill_rate_ema: average_after(self.fill_rate_ema, indicator(e.fill_status.fills())),
            slippage_ema: average_after(self.slippage_ema, e.slippage.magnitude()),
            reject_rate_ema: average_after(self.reject_rate_ema, indicator(!e.fill_status.fills())),
            drift_ema: average_after(self.drift_ema, e.execution_drift_trend),
        }
    }

    fn after(&self, e: &Execution) -> (r: ExecutionAverages)
        ensures
            r == self.with(*e),
    {
        let is_fill = e.fill_status == FillStatus::Filled || e.fill_status
            == FillStatus::PartialFill;
        let (fill, reject): (u64, u64) = if is_fill {
            (1, 0)
        } else {
            (0, 1)
        };
        ExecutionAverages {
            fill_rate_ema: next_average(self.fill_rate_ema, Scalar::from_u64(fill)),
            slippage_ema: next_average(self.slippage_ema, e.slippage.abs()),
            reject_rate_ema: next_average(self.reject_rate_ema, Scalar::from_u64(reject)),
            drift_ema: next_average(self.drift_ema, e.execution_drift_trend),
        }
    }
}

/// The averages over the executions that may be seen, in the order in which they came.
pub open spec fn averages_seen(executions: Seq<Execution>, now_ns: u64, lag_ns: u64) -> ExecutionAverages
    decreases executions.len(),
{
    if executions.len() == 0 {
        ExecutionAverages::none()
    } else {
        let before = averages_seen(executions.drop_last(), now_ns, lag_ns);
        if due(executions.last().timestamp_ns, now_ns, lag_ns) {
            before.with(executions.last())
        } else {
            before
        }
    }
}

/// The sum of the amounts that may be seen.
pub open spec fn seen_sum(entries: Seq<(u64, Scalar)>, now_ns: u64, lag_ns: u64) -> Scalar
    decreases entries.len(),
{
    if entries.len() == 0 {
        Scalar::of_int(0)
    } else {
        let before = seen_sum(entries.drop_last(), now_ns, lag_ns);
        if due(entries.last().0, now_ns, lag_ns) {
            before.plus(entries.last().1)
        } else {
            before
        }
    }
}

/// The entries without the leading ones that are older than `cutoff_ns`.
pub open spec fn pruned(entries: Seq<(u64, Scalar)>, cutoff_ns: u64) -> Seq<(u64, Scalar)>
    decreases entries.len(),
{
    if entries.len() > 0 && entries[0].0 < cutoff_ns {
        pruned(entries.skip(1), cutoff_ns)
    } else {
        entries
    }
}

/// What is known of executions.
pub ghost struct StatsModel {
    /// The executions, in the order in which they came.
    pub executions: Seq<Execution>,
    /// When executions were, and whether they filled.
    pub trades: Seq<(u64, Scalar)>,
    /// When executions were, and how much they filled.
    pub volumes: Seq<(u64, Scalar)>,
}

impl StatsModel {
    /// No executions.
    pub open spec fn empty() -> StatsModel {
        StatsModel {
            executions: Seq::empty(),
            trades: Seq::empty(),
            volumes: Seq::empty(),
        }
    }

    /// After one more execution.
    pub open spec fn with(self, e: Execution) -> StatsModel {
        let filled = indicator(e.fill_status.fills());
        StatsModel {
            executions: self.executions.push(e),
            trades: self.trades.push((e.timestamp_ns, filled)),
            volumes: self.volumes.push((e.timestamp_ns, e.fill_size.times(filled))),
        }
    }

    /// The averages that may be seen.
    pub open spec fn averages(self, now_ns: u64, lag_ns: u64) -> ExecutionAverages {
        averages_seen(self.executions, now_ns, lag_ns)
    }

    /// Old executions no longer count in the sums.
    pub open spec fn prune(self, cutoff_ns: u64) -> StatsModel {
        StatsModel {
            trades: pruned(self.trades, cutoff_ns),
            volumes: pruned(self.volumes, cutoff_ns),
            ..self
        }
    }

    /// How many fills may be seen.
    pub open spec fn intensity(self, now_ns: u64, lag_ns: u64) -> Scalar {
        seen_sum(self.trades, now_ns, lag_ns)
    }

    /// How much filled volume may be seen.
    pub open spec fn volume(self, now_ns: u64, lag_ns: u64) -> Scalar {
        seen_sum(self.volumes, now_ns, lag_ns)
    }
}

/// The executions so far.
#[derive(Debug, Clone)]
pub struct LaggedExecutionStats {
    /// The executions, in the order in which they came.
    pub executions: Vec<Execution>,
    /// When executions were, and whether they filled.
    pub trade_count_window: VecDeque<(u64, Scalar)>,
    /// When executions were, and how much they filled.
    pub volume_sum_window: VecDeque<(u64, Scalar)>,
}

impl View for LaggedExecutionStats {
    type V = StatsModel;

    open spec fn view(&self) -> StatsModel {
        StatsModel {
            executions: self.executions@,
            trades: self.trade_count_window@,
            volumes: self.volume_sum_window@,
        }
    }
}

/// The sum of the amounts that may be seen.
fn sum_seen(entries: &VecDeque<(u64, Scalar)>, now_ns: u64, lag_ns: u64) -> (r: Scalar)
    ensures
        r == seen_sum(entries@, now_ns, lag_ns),
{
    let n = entries.len();
    let mut sum = Scalar::from_u64(0);
    let mut i: usize = 0;
    assert(entries@.take(0) =~= Seq::empty());
    while i < n
        invariant
            n == entries@.len(),
            i <= n,
            sum == seen_sum(entries@.take(i as int), now_ns, lag_ns),
        decreases n - i,
    {
        let entry = entries[i];
        assert(entries@.take(i + 1).drop_last() =~= entries@.take(i as int));
        if is_due(entry.0, now_ns, lag_ns) {
            sum = sum.add(entry.1);
        }
        i = i + 1;
    }
    assert(entries@.take(i as int) =~= entries@);
    sum
}

/// Takes out the leading entries that are older than `cutoff_ns`.
fn drop_older(entries: &mut VecDeque<(u64, Scalar)>, cutoff_ns: u64)
    ensures
        final(entries)@ == pruned(old(entries)@, cutoff_ns),
{
    while entries.len() > 0 && entries[0].0 < cutoff_ns
        invariant
            pruned(entries@, cutoff_ns) == pruned(old(entries)@, cutoff_ns),
        decreases entries@.len(),
    {
        let ghost before = entries@;
        entries.pop_front();
        assert(entries@ =~= before.skip(1));
    }
}

impl LaggedExecutionStats {
    /// No executions.
    pub fn new() -> (r: LaggedExecutionStats)
        ensures
            r@ == StatsModel::empty(),
    {
        LaggedExecutionStats {
            executions: Vec::new(),
            trade_count_window: VecDeque::new(),
            volume_sum_window: VecDeque::new(),
        }
    }

    /// Takes in an execution.
    pub fn update(&mut self, e: Execution)
        ensures
            final(self)@ == old(self)@.with(e),
    {
        let is_fill = e.fill_status == FillStatus::Filled || e.fill_status
            == FillStatus::PartialFill;
        let filled = if is_fill {
            Scalar::from_u64(1)
        } else {
            Scalar::from_u64(0)
        };
        self.executions.push(e);
        self.trade_count_window.push_back((e.timestamp_ns, filled));
        self.volume_sum_window.push_back((e.timestamp_ns, e.fill_size.mul(filled)));
    }

    /// The averages that may be seen.
    pub fn averages(&self, now_ns: u64, lag_ns: u64) -> (r: ExecutionAverages)
        ensures
            r == self@.averages(now_ns, lag_ns),
    {
        let zero = Scalar::from_u64(0);
        let mut averages = ExecutionAverages {
            fill_rate_ema: zero,
            slippage_ema: zero,
            reject_rate_ema: zero,
            drift_ema: zero,
        };
        let mut i: usize = 0;
        assert(self.executions@.take(0) =~= Seq::empty());
        while i < self.executions.len()
            invariant
                i <= self.executions@.len(),
                averages == averages_seen(self.executions@.take(i as int), now_ns, lag_ns),
            decreases self.executions@.len() - i,
        {
            let e = self.executions[i];
            assert(self.executions@.take(i + 1).drop_last() =~= self.executions@.take(i as int));
            if is_due(e.timestamp_ns, now_ns, lag_ns) {
                averages = averages.after(&e);
            }
            i = i + 1;
        }
        assert(self.executions@.take(i as int) =~= self.executions@);
        averages
    }

    /// Takes executions before `cutoff_ns` out of the sums.
    pub fn prune_before(&mut self, cutoff_ns: u64)
        ensures
            final(self)@ == old(self)@.prune(cutoff_ns),
    {
        drop_older(&mut self.trade_count_window, cutoff_ns);
        drop_older(&mut self.volume_sum_window, cutoff_ns);
    }

    /// How many fills may be seen.
    pub fn trade_intensity(&self, now_ns: u64, lag_ns: u64) -> (r: Scalar)
        ensures
            r == self@.intensity(now_ns, lag_ns),
    {
        sum_seen(&self.trade_count_window, now_ns, lag_ns)
    }

    /// How much filled volume may be seen.
    pub fn signed_volume(&self, now_ns: u64, lag_ns: u64) -> (r: Scalar)
        ensures
            r == self@.volume(now_ns, lag_ns),
    {
        sum_seen(&self.volume_sum_window, now_ns, lag_ns)
    }
}

// ---------------------------------------------------------------------------------------------
// Laws.
// ---------------------------------------------------------------------------------------------

/// No decision knows of an execution before its lag has passed: whatever the execution was, the
/// averages, the count of fills and the volume that may be seen are what they were without it.
pub proof fn executions_are_unseen_until_their_lag_has_passed(
    stats: StatsModel,
    e: Execution,
    now_ns: u64,
    lag_ns: u64,
)
    requires
        !due(e.timestamp_ns, now_ns, lag_ns),
    ensures
        stats.with(e).averages(now_ns, lag_ns) == stats.averages(now_ns, lag_ns),
        stats.with(e).intensity(now_ns, lag_ns) == stats.intensity(now_ns, lag_ns),
        stats.with(e).volume(now_ns, lag_ns) == stats.volume(now_ns, lag_ns),
{
    assert(stats.with(e).executions.drop_last() =~= stats.executions);
    assert(stats.with(e).trades.drop_last() =~= stats.trades);
    assert(stats.with(e).volumes.drop_last() =~= stats.volumes);
}

/// An execution whose lag has passed counts, also where an earlier one does not yet.
pub proof fn executions_are_seen_once_their_lag_has_passed(
    stats: StatsModel,
    e: Execution,
    now_ns: u64,
    lag_ns: u64,
)
    requires
        due(e.timestamp_ns, now_ns, lag_ns),
    ensures
        stats.with(e).averages(now_ns, lag_ns) == stats.averages(now_ns, lag_ns).with(e),
        stats.with(e).intensity(now_ns, lag_ns) == stats.intensity(now_ns, lag_ns).plus(
            indicator(e.fill_status.fills()),
        ),
        stats.with(e).volume(now_ns, lag_ns) == stats.volume(now_ns, lag_ns).plus(
            e.fill_size.times(indicator(e.fill_status.fills())),
        ),
{
    assert(stats.with(e).executions.drop_last() =~= stats.executions);
    assert(stats.with(e).trades.drop_last() =~= stats.trades);
    assert(stats.with(e).volumes.drop_last() =~= stats.volumes);
}

/// The average of shares is a share.
proof fn average_of_shares(before: Scalar, yes: bool)
    requires
        extractor_laws::is_probability(before),
    ensures
        extractor_laws::is_probability(average_after(before, indicator(yes))),
{
    let zero = Scalar::of_int(0);
    let full = Scalar::of_int(1);
    let weight = Scalar::of_ratio(1, 20);
    let one = scalar::one_unit();
    order::int_is_exact(0);
    order::int_is_exact(1);
    order::proper_ratio(1, 20);
    order::no_negative_rank(full);
    order::order_is_order_of_values(zero, weight);
    order::order_is_order_of_values(zero, before);
    order::order_is_order_of_values(before, full);
    order::near_itself(zero, 1);
    order::near_itself(zero, one);
    order::near_itself(full, 1);
    let sample = indicator(yes);
    let gap = sample.minus(before);
    order::minus_is_near(sample, before);
    let v = sample.value() - before.value();
    let w = weight.value();
    let step = weight.times(gap);
    if yes {
        order::near_keeps_order(v, 1, full.value(), 1);
        order::near_keeps_order(0, 1, v, 1);
        order::order_is_order_of_values(zero, gap);
        order::nearest_is_at_most_twice(v, gap);
        order::times_is_near(weight, gap);
        let g = gap.value();
        assert(2 * (w * g) <= one * g && 0 <= w * g * one) by (nonlinear_arith)
            requires
                0 <= 2 * w <= one,
                0 <= g,
        ;
        order::near_keeps_order(0, one, w * g, one);
        if gap.mag() >= EXACT {
            let half = Scalar { bits: (gap.mag() - BINADE) as u64 };
            order::near_itself(half, one);
            assert(w * g * one <= half.value() * one * one) by (nonlinear_arith)
                requires
                    2 * (w * g) <= one * g,
                    2 * half.value() == g,
                    one > 0,
            ;
            order::near_keeps_order(w * g, one, half.value() * one, one);
            order::order_is_order_of_values(step, half);
        } else {
            order::near_itself(gap, one);
            assert(w * g * one <= g * one * one) by (nonlinear_arith)
                requires
                    2 * (w * g) <= one * g,
                    0 <= g,
                    one > 0,
            ;
            order::near_keeps_order(w * g, one, g * one, one);
            order::order_is_order_of_values(step, gap);
        }
        order::order_is_order_of_values(zero, step);
    } else {
        order::negated_value(before);
        order::near_itself(before.negated(), 1);
        order::order_is_order_of_values(gap, before.negated());
        let g = gap.value();
        order::times_is_near(weight, gap);
        order::near_itself(gap, one);
        assert(g * one * one <= w * g * one && w * g * one <= 0) by (nonlinear_arith)
            requires
                0 <= 2 * w <= one,
                g <= 0,
                one > 0,
        ;
        order::near_keeps_order(g * one, one, w * g, one);
        order::near_keeps_order(w * g, one, 0, one);
        order::order_is_order_of_values(gap, step);
        order::order_is_order_of_values(step, zero);
    }
    order::plus_is_near(before, step);
    order::near_keeps_order(0, 1, before.value() + step.value(), 1);
    order::near_keeps_order(before.value() + step.value(), 1, full.value(), 1);
}

/// The rates of fills and of rejections are shares, from zero to one, whatever was executed and
/// whenever it is asked for.
pub proof fn rates_are_shares(stats: StatsModel, now_ns: u64, lag_ns: u64)
    ensures
        extractor_laws::is_probability(stats.averages(now_ns, lag_ns).fill_rate_ema),
        extractor_laws::is_probability(stats.averages(now_ns, lag_ns).reject_rate_ema),
    decreases stats.executions.len(),
{
    let n = stats.executions.len();
    if n == 0 {
        order::int_is_exact(0);
        order::int_is_exact(1);
        order::order_is_order_of_values(Scalar::of_int(0), Scalar::of_int(1));
    } else {
        let fewer = StatsModel { executions: stats.executions.drop_last(), ..stats };
        rates_are_shares(fewer, now_ns, lag_ns);
        let before = fewer.averages(now_ns, lag_ns);
        let fills = stats.executions.last().fill_status.fills();
        average_of_shares(before.fill_rate_ema, fills);
        average_of_shares(before.reject_rate_ema, !fills);
    }
}

} // verus!
