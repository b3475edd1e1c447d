//! What goes on from one decision to the next: how often trades happen, how long positions are
//! held and how they are closed.

use crate::bayesian_lr::QAction;
use crate::decision;
use crate::decision::{Choice, Situation, StrategyModel, TradeRules};
use crate::order;
use crate::policy::Action;
use crate::relations;
use crate::rolling;
use crate::rounding::EXACT;
use crate::scalar;
use crate::scalar::Scalar;
use crate::signal_laws;
use crate::state::{StateSnapshot, StrategyId};
use vstd::prelude::*;

verus! {

// ---------------------------------------------------------------------------------------------
// How often trades happen.
// ---------------------------------------------------------------------------------------------

/// The record holds the most recent decisions, in their order: the new one last, before it those
/// that were there, and no more than the window.
pub proof fn the_record_holds_the_most_recent_decisions(
    history: Seq<bool>,
    window: nat,
    traded: bool,
    back: int,
)
    requires
        history.len() <= window,
        0 < window,
    ensures
        ({
            let after = decision::recorded(history, window, traded);
            &&& after.len() == if history.len() < window {
                history.len() + 1
            } else {
                window
            }
            &&& after.last() == traded
            &&& 1 <= back < after.len() ==> after[after.len() - 1 - back] == history[history.len()
                - back]
        }),
{
}

/// A decision counts as a trade exactly if it traded.
pub proof fn a_trade_counts_once(history: Seq<bool>, traded: bool)
    ensures
        decision::trades_in(history.push(traded), history.len() as int + 1)
            == decision::trades_in(history, history.len() as int) + if traded {
            1nat
        } else {
            0
        },
        decision::trades_in(history, history.len() as int) <= history.len(),
{
    same_trades(history, history.push(traded), history.len() as int);
    few_trades(history, history.len() as int);
}

proof fn same_trades(a: Seq<bool>, b: Seq<bool>, k: int)
    requires
        forall|i: int| 0 <= i < k ==> a[i] == b[i],
    ensures
        decision::trades_in(a, k) == decision::trades_in(b, k),
    decreases k,
{
    if k > 0 {
        same_trades(a, b, k - 1);
    }
}

proof fn few_trades(a: Seq<bool>, k: int)
    ensures
        decision::trades_in(a, k) <= if k <= 0 {
            0
        } else {
            k
        },
    decreases k,
{
    if k > 0 {
        few_trades(a, k - 1);
    }
}

/// The frequency is the number of trades over the number of decisions: one if all traded, zero if
/// none did.
pub proof fn the_frequency_counts_trades(history: Seq<bool>)
    requires
        history.len() < EXACT,
    ensures
        history.len() > 0 ==> relations::rounds(
            decision::frequency_of(history),
            decision::trades_in(history, history.len() as int) as int * scalar::one_unit(),
            history.len(),
        ),
        (forall|i: int| 0 <= i < history.len() ==> !(#[trigger] history[i]))
            ==> decision::frequency_of(history).zero(),
        history.len() > 0 && (forall|i: int| 0 <= i < history.len() ==> (#[trigger] history[i]))
            ==> decision::frequency_of(history).level(Scalar::of_int(1)),
{
    relations::zero_and_one();
    let n = history.len();
    let t = decision::trades_in(history, n as int);
    let one = scalar::one_unit() as int;
    few_trades(history, n as int);
    if n > 0 {
        order::int_is_exact(t);
        relations::part_of(Scalar::of_int(t), n);
        if forall|i: int| 0 <= i < n ==> !(#[trigger] history[i]) {
            no_trades(history, n as int);
            vstd::arithmetic::mul::lemma_mul_basics(one);
            vstd::arithmetic::mul::lemma_mul_basics(n as int);
            order::near_itself(Scalar::of_int(0), n);
        }
        if forall|i: int| 0 <= i < n ==> (#[trigger] history[i]) {
            only_trades(history, n as int);
            order::near_itself(Scalar::of_int(1), n);
            vstd::arithmetic::mul::lemma_mul_is_commutative(one, n as int);
        }
    }
}

proof fn no_trades(history: Seq<bool>, k: int)
    requires
        k <= history.len(),
        forall|i: int| 0 <= i < history.len() ==> !(#[trigger] history[i]),
    ensures
        decision::trades_in(history, k) == 0,
    decreases k,
{
    if k > 0 {
        no_trades(history, k - 1);
        assert(!history[k - 1]);
    }
}

proof fn only_trades(history: Seq<bool>, k: int)
    requires
        0 <= k <= history.len(),
        forall|i: int| 0 <= i < history.len() ==> (#[trigger] history[i]),
    ensures
        decision::trades_in(history, k) == k,
    decreases k,
{
    if k > 0 {
        only_trades(history, k - 1);
        assert(history[k - 1]);
    }
}

/// Trades are never too rare before a full window of decisions, nor where the share that is asked
/// for is reached; after it they are wherever it is not. A record with more trades is never too
/// rare where one with fewer is not.
pub proof fn trades_are_too_rare_below_the_share(
    fewer: Seq<bool>,
    more: Seq<bool>,
    total_decisions: nat,
    rules: TradeRules,
)
    requires
        0 < fewer.len() == more.len() < EXACT,
        decision::trades_in(fewer, fewer.len() as int) <= decision::trades_in(
            more,
            more.len() as int,
        ),
        !rules.min_trade_frequency.nan(),
    ensures
        total_decisions < rules.trade_frequency_window ==> !decision::too_rare(
            fewer,
            total_decisions,
            rules,
        ),
        rules.min_trade_frequency.at_most(decision::frequency_of(fewer)) ==> !decision::too_rare(
            fewer,
            total_decisions,
            rules,
        ),
        total_decisions >= rules.trade_frequency_window && decision::frequency_of(fewer).below(
            rules.min_trade_frequency,
        ) ==> decision::too_rare(fewer, total_decisions, rules),
        decision::too_rare(more, total_decisions, rules) ==> decision::too_rare(
            fewer,
            total_decisions,
            rules,
        ),
{
    the_frequency_counts_trades(fewer);
    the_frequency_counts_trades(more);
    let n = fewer.len();
    let one = scalar::one_unit() as int;
    let (s, t) = (
        decision::trades_in(fewer, n as int) as int,
        decision::trades_in(more, n as int) as int,
    );
    relations::zero_and_one();
    vstd::arithmetic::mul::lemma_mul_inequality(s, t, one);
    vstd::arithmetic::mul::lemma_mul_inequality(s * one, t * one, n as int);
    order::near_keeps_order(s * one, n, t * one, n);
}

// ---------------------------------------------------------------------------------------------
// Widening.
// ---------------------------------------------------------------------------------------------

/// The posterior is widened by as much as its width is short of the target, and only where trades
/// are too rare.
pub proof fn widening_makes_up_the_shortfall(current: Scalar, rare: bool, target: Scalar)
    requires
        current.finite(),
        current.value() > 0,
        target.finite(),
    ensures
        decision::widening(current, rare, target) is Some <==> rare && current.below(target),
        decision::widening(current, rare, target) matches Some(factor) ==> relations::rounds(
            factor,
            target.value() * scalar::one_unit(),
            current.value() as nat,
        ),
{
    order::over_is_near(target, current);
}

/// A slower decay, and a greater width, leave a greater width.
pub proof fn widths_keep_order(
    current1: Scalar,
    current2: Scalar,
    target: Scalar,
    decay1: Scalar,
    decay2: Scalar,
)
    requires
        Scalar::of_int(1).at_most(current1),
        current1.at_most(current2),
        current2.finite(),
        Scalar::of_int(0).at_most(decay1),
        decay1.at_most(decay2),
        decay2.finite(),
    ensures
        decision::width_after(current1, false, target, decay1).at_most(
            decision::width_after(current2, false, target, decay2),
        ),
        decay1.zero() ==> decision::width_after(current1, false, target, decay1).level(
            Scalar::of_int(1),
        ),
{
    relations::zero_and_one();
    let one = Scalar::of_int(1);
    let zero = Scalar::of_int(0);
    let (x, y) = (current1.minus(one), current2.minus(one));
    order::minus_is_near(current1, one);
    order::minus_is_near(current2, one);
    order::near_itself(zero, 1);
    order::order_is_order_of_values(one, current1);
    order::order_is_order_of_values(current1, current2);
    order::near_keeps_order(0, 1, current1.value() - one.value(), 1);
    order::near_itself(current2, 1);
    order::near_keeps_order(current2.value() - one.value(), 1, current2.value(), 1);
    relations::differences_keep_order(current1, current2, one, one);
    assert(x.finite() && y.finite());
    order::times_is_near(x, decay1);
    order::times_is_near(y, decay2);
    relations::products_keep_order(x, y, decay1, decay2);
    let (u, v) = (x.times(decay1), y.times(decay2));
    relations::sum_is_a_number(one, u);
    relations::sum_is_a_number(one, v);
    relations::sums_keep_order(one, one, u, v);
    relations::adding_nothing(one, zero);
    relations::sums_keep_order(one, one, zero, u);
    relations::sums_keep_order(one, one, zero, v);
    if decay1.zero() {
        relations::nothing_of(x, decay1);
        relations::adding_nothing(one, u);
    }
}

// ---------------------------------------------------------------------------------------------
// How long an episode may last.
// ---------------------------------------------------------------------------------------------

/// An episode has run out of time exactly if none is left, and what is left is the whole
/// milliseconds up to its end.
pub proof fn time_runs_out_when_none_is_left(entry_ns: u64, now_ns: u64, max_hold_time_ms: u64)
    requires
        entry_ns <= now_ns,
    ensures
        ({
            let left = decision::time_left(Some(entry_ns), now_ns, max_hold_time_ms);
            let end = entry_ns + max_hold_time_ms * 1_000_000;
            &&& decision::timed_out(Some(entry_ns), now_ns, max_hold_time_ms) <==> left == 0
            &&& decision::timed_out(Some(entry_ns), now_ns, max_hold_time_ms) <==> now_ns >= end
            &&& now_ns <= end ==> end - now_ns <= left * 1_000_000 < end - now_ns + 1_000_000
            &&& left <= max_hold_time_ms
        }),
        !decision::timed_out(None, now_ns, max_hold_time_ms),
        decision::time_left(None, now_ns, max_hold_time_ms) == 0,
{
}

/// A millisecond later there is a millisecond less.
pub proof fn time_passes(entry_ns: u64, now_ns: u64, later_ns: u64, max_hold_time_ms: u64)
    requires
        entry_ns <= now_ns,
        later_ns == now_ns + 1_000_000,
    ensures
        ({
            let left = decision::time_left(Some(entry_ns), now_ns, max_hold_time_ms);
            decision::time_left(Some(entry_ns), later_ns, max_hold_time_ms) == if left > 0 {
                left - 1
            } else {
                0
            }
        }),
{
}

// ---------------------------------------------------------------------------------------------
// Positions.
// ---------------------------------------------------------------------------------------------

/// What closes a position is the opposite trade of all its whole units: a long one is sold, a
/// short one bought back.
pub proof fn closing_undoes_a_position(size: Scalar)
    requires
        size.finite(),
    ensures
        ({
            let held = if size.value() < 0 {
                -size.value()
            } else {
                size.value()
            };
            let lot = match decision::closing(size) {
                Action::Buy(lot) => Some(lot),
                Action::Sell(lot) => Some(lot),
                Action::Hold => None,
            };
            &&& decision::closing(size) is Sell ==> size.value() > 0
            &&& decision::closing(size) is Buy ==> size.value() < 0
            &&& decision::closing(size) is Hold <==> size.magnitude().at_most(
                Scalar::of_ratio(1, 4_503_599_627_370_496),
            )
            &&& lot matches Some(lot) ==> lot * scalar::one_unit() <= held && (lot < u64::MAX
                ==> held < (lot + 1) * scalar::one_unit())
        }),
{
    signal_laws::beyond_rounding();
    relations::zero_and_one();
    relations::magnitudes(size);
    relations::negated_is_opposite(rolling::epsilon_of_one());
    order::order_is_order_of_values(Scalar::of_int(0), size);
    crate::choice_laws::whole_units(size.magnitude());
}

/// Long and short positions are closed alike: the mirrored position by the mirrored trade of the
/// same lot.
pub proof fn mirrored_positions_are_closed_alike(long: Scalar, short: Scalar, lot: u64)
    requires
        relations::opposite(long, short),
    ensures
        decision::closing(long) == Action::Sell(lot) <==> decision::closing(short) == Action::Buy(
            lot,
        ),
        decision::closing(long) is Hold <==> decision::closing(short) is Hold,
        decision::trades_against(Action::Sell(lot), long) == decision::trades_against(
            Action::Buy(lot),
            short,
        ),
{
    signal_laws::beyond_rounding();
    relations::opposite_values(long, short);
    relations::negated_is_opposite(rolling::epsilon_of_one());
}

/// What closes a position trades against it; a trade that adds to it, and none at all, do not.
pub proof fn closing_trades_against(size: Scalar, lot: u64)
    requires
        !size.nan(),
    ensures
        decision::trades_against(decision::closing(size), size) <==> !(decision::closing(
            size,
        ) is Hold),
        decision::closing(size) is Sell ==> !decision::trades_against(Action::Buy(lot), size),
        decision::closing(size) is Buy ==> !decision::trades_against(Action::Sell(lot), size),
        !decision::trades_against(Action::Hold, size),
        size.zero() ==> decision::closing(size) is Hold,
{
    signal_laws::beyond_rounding();
    relations::zero_and_one();
    relations::negated_is_opposite(rolling::epsilon_of_one());
}

/// A strategy holds a position exactly if there is something to close.
pub proof fn what_is_held_can_be_closed(state: StateSnapshot, strategy_id: StrategyId)
    requires
        state.held(strategy_id) matches Some(p) ==> !p.size.nan(),
    ensures
        decision::holds(state, strategy_id) <==> !(decision::closing(
            decision::size_held(state, strategy_id),
        ) is Hold),
        state.held(strategy_id) is None ==> decision::size_held(state, strategy_id).zero()
            && !decision::holds(state, strategy_id),
        state.held(strategy_id) matches Some(p) ==> decision::size_held(state, strategy_id)
            == p.size,
{
    signal_laws::beyond_rounding();
    relations::zero_and_one();
    relations::negated_is_opposite(rolling::epsilon_of_one());
    relations::magnitudes(decision::size_held(state, strategy_id));
}

// ---------------------------------------------------------------------------------------------
// What a decision reports.
// ---------------------------------------------------------------------------------------------

/// A decision that follows a choice reports what was estimated and sampled of the action that was
/// chosen; one that does not reports nothing of the kind.
pub proof fn a_decision_reports_the_action_it_takes(
    before: StrategyModel,
    situation: Situation,
    choice: Choice,
    rules: TradeRules,
)
    ensures
        ({
            let (after, d) = decision::decided(before, situation, choice, rules);
            let chooses = situation.chooses(before);
            &&& chooses ==> d.action == choice.action && d.consistency_fallback
                == choice.consistency_fallback && d.triggered == situation.triggered
            &&& chooses && d.action is Buy ==> d.q_point == choice.points.buy && d.q_sampled
                == choice.sampled.buy && d.posterior_std == choice.deviations.buy
            &&& chooses && d.action is Sell ==> d.q_point == choice.points.sell && d.q_sampled
                == choice.sampled.sell && d.posterior_std == choice.deviations.sell
            &&& chooses && d.action is Hold ==> d.q_point == choice.points.hold && d.q_sampled
                == choice.sampled.hold && d.posterior_std == choice.deviations.hold
            &&& !chooses ==> d.q_point.zero() && d.q_sampled.zero() && d.posterior_std.zero()
                && !d.triggered && !d.consistency_fallback && d.remaining_hold_time_ms == 0
            &&& !chooses && !situation.expires(before) ==> d.action is Hold && !d.should_close
            &&& after.total_decisions == before.total_decisions + 1
            &&& chooses ==> d.hold_degeneration_detected == decision::too_rare(
                after.trades,
                after.total_decisions,
                rules,
            )
            &&& !chooses ==> !d.hold_degeneration_detected
        }),
{
    relations::zero_and_one();
}

/// A decision enters the record as a trade exactly if it trades by choice; closing an expired
/// episode leaves the record as it is.
pub proof fn decisions_enter_the_record(
    before: StrategyModel,
    situation: Situation,
    choice: Choice,
    rules: TradeRules,
)
    requires
        before.trades.len() <= rules.trade_frequency_window,
        0 < rules.trade_frequency_window,
    ensures
        ({
            let (after, d) = decision::decided(before, situation, choice, rules);
            &&& situation.expires(before) ==> after.trades == before.trades
            &&& !situation.expires(before) ==> after.trades.last() == !(d.action is Hold)
                && after.trades.len() <= rules.trade_frequency_window
        }),
{
}

/// An exit on a signal closes: exactly the choices that trade against a position in an episode
/// under way, where such exits are wanted.
pub proof fn signals_close_positions(
    before: StrategyModel,
    situation: Situation,
    choice: Choice,
    rules: TradeRules,
)
    requires
        situation.chooses(before),
    ensures
        ({
            let (after, d) = decision::decided(before, situation, choice, rules);
            &&& d.should_close <==> situation.exits_on_signal && situation.holds && before.entry
                is Some && decision::trades_against(choice.action, situation.size)
            &&& d.should_close ==> !(d.action is Hold)
            &&& situation.holds && before.entry is Some ==> after.entry == before.entry
            &&& after.entry matches Some(entry) ==> d.remaining_hold_time_ms
                == decision::time_left(Some(entry), situation.now_ns, situation.max_hold_time_ms)
        }),
{
}

/// The kind of an action is the side that it trades on.
pub proof fn an_action_is_of_its_kind(lot: u64)
    ensures
        decision::kind_of(Action::Buy(lot)) == QAction::Buy,
        decision::kind_of(Action::Sell(lot)) == QAction::Sell,
        decision::kind_of(Action::Hold) == QAction::Hold,
{
}

} // verus!
