//! What a step of an episode is rewarded for, and how rewards add up to returns.

use crate::bayesian_lr::{QAction, QFunction, UpdateResult};
use crate::linalg;
use crate::mc_eval;
use crate::mc_eval::{BufferModel, ResultModel, RewardConfig, TerminalReason, TransitionModel};
use crate::order;
use crate::relations;
use crate::scalar;
use crate::scalar::Scalar;
use crate::state::{StateSnapshot, StrategyId};
use vstd::prelude::*;

verus! {

// ---------------------------------------------------------------------------------------------
// Drawdown.
// ---------------------------------------------------------------------------------------------

/// The drawdown that counts is how far the equity is below its peak, but at most the cap; without
/// a fall there is none.
pub proof fn drawdown_is_the_fall_from_the_peak(peak: Scalar, equity: Scalar, cap: Scalar, fall: Scalar)
    requires
        peak.finite(),
        equity.finite(),
        Scalar::of_int(0).at_most(cap),
        relations::rounds(fall, peak.value() - equity.value(), 1),
    ensures
        ({
            let dd = mc_eval::capped_drawdown(peak, equity, cap);
            &&& peak.at_most(equity) ==> dd.level(Scalar::of_int(0))
            &&& equity.at_most(peak) && fall.at_most(cap) ==> dd.level(fall)
            &&& equity.at_most(peak) && cap.at_most(fall) ==> dd.level(cap)
        }),
{
    relations::zero_and_one();
    order::minus_is_near(peak, equity);
    order::order_is_order_of_values(peak, equity);
    order::order_is_order_of_values(equity, peak);
    order::near_itself(Scalar::of_int(0), 1);
    if equity.at_most(peak) {
        order::near_keeps_order(0, 1, peak.value() - equity.value(), 1);
    }
    if peak.at_most(equity) {
        order::near_keeps_order(peak.value() - equity.value(), 1, 0, 1);
    }
}

/// The drawdown that counts grows with the peak and the cap, and shrinks with the equity.
pub proof fn drawdown_keeps_order(
    peak1: Scalar,
    peak2: Scalar,
    equity1: Scalar,
    equity2: Scalar,
    cap1: Scalar,
    cap2: Scalar,
)
    requires
        peak1.at_most(peak2),
        equity2.at_most(equity1),
        equity1.finite(),
        equity2.finite(),
        Scalar::of_int(0).at_most(cap1),
        cap1.at_most(cap2),
    ensures
        mc_eval::capped_drawdown(peak1, equity1, cap1).at_most(
            mc_eval::capped_drawdown(peak2, equity2, cap2),
        ),
        Scalar::of_int(0).at_most(mc_eval::capped_drawdown(peak1, equity1, cap1)),
        mc_eval::capped_drawdown(peak1, equity1, cap1).at_most(cap1),
{
    relations::zero_and_one();
    reveal(Scalar::plus);
    relations::differences_keep_order(peak1, peak2, equity1, equity2);
}

// ---------------------------------------------------------------------------------------------
// Rewards.
// ---------------------------------------------------------------------------------------------

/// The square of a number is that of its magnitude.
proof fn square_of_magnitude(a: Scalar)
    ensures
        a.times(a) == a.magnitude().times(a.magnitude()),
{
    reveal(Scalar::times);
}

/// The reward does not depend on whether a position is long or short.
pub proof fn long_and_short_are_rewarded_alike(
    config: RewardConfig,
    prev_equity: Scalar,
    equity_peak: Scalar,
    equity: Scalar,
    long: Scalar,
    short: Scalar,
    price_volatility_sq: Scalar,
)
    requires
        relations::opposite(long, short),
    ensures
        mc_eval::reward_of(config, prev_equity, equity_peak, equity, long, price_volatility_sq)
            == mc_eval::reward_of(
            config,
            prev_equity,
            equity_peak,
            equity,
            short,
            price_volatility_sq,
        ),
{
    relations::opposite_values(long, short);
    square_of_magnitude(long);
    square_of_magnitude(short);
}

/// A recorded step is rewarded alike whether its position is long or short.
pub proof fn recorded_steps_do_not_tell_long_from_short(
    buffer: BufferModel,
    timestamp_ns: u64,
    action: QAction,
    phi: Seq<Scalar>,
    equity: Scalar,
    long: Scalar,
    short: Scalar,
    price_volatility_sq: Scalar,
    config: RewardConfig,
)
    requires
        relations::opposite(long, short),
    ensures
        buffer.with(timestamp_ns, action, phi, equity, long, price_volatility_sq, config)
            == buffer.with(timestamp_ns, action, phi, equity, short, price_volatility_sq, config),
{
    long_and_short_are_rewarded_alike(
        config,
        buffer.prev_equity,
        buffer.equity_peak,
        equity,
        long,
        short,
        price_volatility_sq,
    );
}

/// The risk of a step: the weighed variance of its position.
proof fn risk_keeps_order(
    lambda1: Scalar,
    lambda2: Scalar,
    size1: Scalar,
    size2: Scalar,
    variance1: Scalar,
    variance2: Scalar,
)
    requires
        Scalar::of_int(0).at_most(lambda1),
        lambda1.at_most(lambda2),
        size1.magnitude().at_most(size2.magnitude()),
        Scalar::of_int(0).at_most(variance1),
        variance1.at_most(variance2),
        !lambda1.times(size1.times(size1).times(variance1)).nan(),
        !lambda2.times(size2.times(size2).times(variance2)).nan(),
    ensures
        lambda1.times(size1.times(size1).times(variance1)).at_most(
            lambda2.times(size2.times(size2).times(variance2)),
        ),
        Scalar::of_int(0).at_most(lambda1.times(size1.times(size1).times(variance1))),
{
    let (sq1, sq2) = (size1.times(size1), size2.times(size2));
    relations::nan_spreads(lambda1, sq1.times(variance1));
    relations::nan_spreads(lambda2, sq2.times(variance2));
    relations::nan_spreads(sq1, variance1);
    relations::nan_spreads(sq2, variance2);
    relations::zero_and_one();
    relations::magnitudes(size1);
    square_of_magnitude(size1);
    square_of_magnitude(size2);
    relations::products_keep_order(
        size1.magnitude(),
        size2.magnitude(),
        size1.magnitude(),
        size2.magnitude(),
    );
    relations::products_keep_order(sq1, sq2, variance1, variance2);
    relations::products_keep_order(lambda1, lambda2, sq1.times(variance1), sq2.times(variance2));
}

/// At the same equity, a larger position on either side, rougher prices, a higher peak, a higher
/// cap and heavier weights never raise the reward.
pub proof fn risk_and_drawdown_never_raise_the_reward(
    calm: RewardConfig,
    wary: RewardConfig,
    prev_equity: Scalar,
    peak1: Scalar,
    peak2: Scalar,
    equity: Scalar,
    size1: Scalar,
    size2: Scalar,
    variance1: Scalar,
    variance2: Scalar,
)
    requires
        Scalar::of_int(0).at_most(calm.lambda_risk),
        calm.lambda_risk.at_most(wary.lambda_risk),
        Scalar::of_int(0).at_most(calm.lambda_dd),
        calm.lambda_dd.at_most(wary.lambda_dd),
        Scalar::of_int(0).at_most(calm.dd_cap),
        calm.dd_cap.at_most(wary.dd_cap),
        peak1.at_most(peak2),
        equity.finite(),
        size1.magnitude().at_most(size2.magnitude()),
        Scalar::of_int(0).at_most(variance1),
        variance1.at_most(variance2),
        !mc_eval::reward_of(calm, prev_equity, peak1, equity, size1, variance1).nan(),
        !mc_eval::reward_of(wary, prev_equity, peak2, equity, size2, variance2).nan(),
    ensures
        mc_eval::reward_of(wary, prev_equity, peak2, equity, size2, variance2).at_most(
            mc_eval::reward_of(calm, prev_equity, peak1, equity, size1, variance1),
        ),
{
    let gain = equity.minus(prev_equity);
    let risk1 = calm.lambda_risk.times(size1.times(size1).times(variance1));
    let risk2 = wary.lambda_risk.times(size2.times(size2).times(variance2));
    let dd1 = mc_eval::capped_drawdown(peak1, equity, calm.dd_cap);
    let dd2 = mc_eval::capped_drawdown(peak2, equity, wary.dd_cap);
    let fall1 = calm.lambda_dd.times(dd1);
    let fall2 = wary.lambda_dd.times(dd2);
    relations::nan_spreads(gain.minus(risk1), fall1);
    relations::nan_spreads(gain.minus(risk2), fall2);
    relations::nan_spreads(gain, risk1);
    relations::nan_spreads(gain, risk2);
    risk_keeps_order(calm.lambda_risk, wary.lambda_risk, size1, size2, variance1, variance2);
    drawdown_keeps_order(peak1, peak2, equity, equity, calm.dd_cap, wary.dd_cap);
    relations::products_keep_order(calm.lambda_dd, wary.lambda_dd, dd1, dd2);
    relations::differences_keep_order(gain, gain, risk2, risk1);
    relations::differences_keep_order(gain.minus(risk2), gain.minus(risk1), fall2, fall1);
}

/// The risk of a position never raises the reward above what a flat position would get at the
/// same equity.
pub proof fn a_position_is_never_rewarded_above_none(
    config: RewardConfig,
    prev_equity: Scalar,
    equity_peak: Scalar,
    equity: Scalar,
    size: Scalar,
    flat: Scalar,
    price_volatility_sq: Scalar,
)
    requires
        Scalar::of_int(0).at_most(config.lambda_risk),
        Scalar::of_int(0).at_most(price_volatility_sq),
        flat.zero(),
        !size.nan(),
        !mc_eval::reward_of(
            config,
            prev_equity,
            equity_peak,
            equity,
            size,
            price_volatility_sq,
        ).nan(),
        !mc_eval::reward_of(
            config,
            prev_equity,
            equity_peak,
            equity,
            flat,
            price_volatility_sq,
        ).nan(),
    ensures
        mc_eval::reward_of(
            config,
            prev_equity,
            equity_peak,
            equity,
            size,
            price_volatility_sq,
        ).at_most(
            mc_eval::reward_of(
                config,
                prev_equity,
                equity_peak,
                equity,
                flat,
                price_volatility_sq,
            ),
        ),
{
    let gain = equity.minus(prev_equity);
    let risk = config.lambda_risk.times(size.times(size).times(price_volatility_sq));
    let none = config.lambda_risk.times(flat.times(flat).times(price_volatility_sq));
    let fall = config.lambda_dd.times(
        mc_eval::capped_drawdown(equity_peak, equity, config.dd_cap),
    );
    relations::nan_spreads(gain.minus(risk), fall);
    relations::nan_spreads(gain.minus(none), fall);
    relations::nan_spreads(gain, risk);
    relations::nan_spreads(gain, none);
    risk_keeps_order(
        config.lambda_risk,
        config.lambda_risk,
        flat,
        size,
        price_volatility_sq,
        price_volatility_sq,
    );
    relations::differences_keep_order(gain, gain, risk, none);
    relations::differences_keep_order(gain.minus(risk), gain.minus(none), fall, fall);
}

/// A higher equity is never rewarded less.
pub proof fn higher_equity_is_rewarded_more(
    config: RewardConfig,
    prev_equity: Scalar,
    equity_peak: Scalar,
    lower: Scalar,
    higher: Scalar,
    size: Scalar,
    price_volatility_sq: Scalar,
)
    requires
        Scalar::of_int(0).at_most(config.lambda_dd),
        Scalar::of_int(0).at_most(config.dd_cap),
        lower.finite(),
        higher.finite(),
        lower.at_most(higher),
        !equity_peak.nan(),
        !mc_eval::reward_of(config, prev_equity, equity_peak, lower, size, price_volatility_sq).nan(),
        !mc_eval::reward_of(config, prev_equity, equity_peak, higher, size, price_volatility_sq).nan(),
    ensures
        mc_eval::reward_of(config, prev_equity, equity_peak, lower, size, price_volatility_sq).at_most(
            mc_eval::reward_of(config, prev_equity, equity_peak, higher, size, price_volatility_sq),
        ),
{
    let risk = config.lambda_risk.times(size.times(size).times(price_volatility_sq));
    let dd1 = mc_eval::capped_drawdown(equity_peak, lower, config.dd_cap);
    let dd2 = mc_eval::capped_drawdown(equity_peak, higher, config.dd_cap);
    let (gain1, gain2) = (lower.minus(prev_equity), higher.minus(prev_equity));
    let (fall1, fall2) = (config.lambda_dd.times(dd1), config.lambda_dd.times(dd2));
    relations::nan_spreads(gain1.minus(risk), fall1);
    relations::nan_spreads(gain2.minus(risk), fall2);
    relations::nan_spreads(gain1, risk);
    relations::nan_spreads(gain2, risk);
    relations::nan_spreads(lower, prev_equity);
    drawdown_keeps_order(equity_peak, equity_peak, higher, lower, config.dd_cap, config.dd_cap);
    relations::products_keep_order(config.lambda_dd, config.lambda_dd, dd2, dd1);
    relations::differences_keep_order(lower, higher, prev_equity, prev_equity);
    relations::differences_keep_order(gain1, gain2, risk, risk);
    relations::differences_keep_order(gain1.minus(risk), gain2.minus(risk), fall1, fall2);
}

/// Without a position and without a drawdown, the reward is the change of the equity.
pub proof fn a_flat_step_is_rewarded_its_gain(
    config: RewardConfig,
    prev_equity: Scalar,
    equity_peak: Scalar,
    equity: Scalar,
    flat: Scalar,
    price_volatility_sq: Scalar,
)
    requires
        config.lambda_risk.finite(),
        config.lambda_dd.finite(),
        Scalar::of_int(0).at_most(config.dd_cap),
        prev_equity.finite(),
        equity.finite(),
        equity_peak.finite(),
        equity_peak.at_most(equity),
        flat.zero(),
        price_volatility_sq.finite(),
    ensures
        relations::rounds(
            mc_eval::reward_of(
                config,
                prev_equity,
                equity_peak,
                equity,
                flat,
                price_volatility_sq,
            ),
            equity.value() - prev_equity.value(),
            1,
        ),
{
    let gain = equity.minus(prev_equity);
    let dd = mc_eval::capped_drawdown(equity_peak, equity, config.dd_cap);
    let fall = equity_peak.minus(equity);
    order::minus_is_near(equity_peak, equity);
    order::minus_is_near(equity, prev_equity);
    relations::zero_and_one();
    relations::nothing_of(flat, flat);
    let square = flat.times(flat);
    relations::nothing_of(price_volatility_sq, square);
    let exposure = square.times(price_volatility_sq);
    relations::nothing_of(config.lambda_risk, exposure);
    let risk = config.lambda_risk.times(exposure);
    drawdown_is_the_fall_from_the_peak(equity_peak, equity, config.dd_cap, fall);
    relations::nothing_of(config.lambda_dd, dd);
    relations::adding_nothing(gain, risk);
    relations::adding_nothing(gain.minus(risk), config.lambda_dd.times(dd));
}

/// At an unchanged equity that is at its peak, the reward is minus the weighed variance of the
/// position: the square of its size, times the variance of the price, times the weight, each
/// product rounded.
pub proof fn an_unchanged_step_is_charged_its_risk(
    config: RewardConfig,
    equity: Scalar,
    size: Scalar,
    price_volatility_sq: Scalar,
    square: Scalar,
    exposure: Scalar,
    charge: Scalar,
)
    requires
        config.lambda_risk.finite(),
        config.lambda_dd.finite(),
        Scalar::of_int(0).at_most(config.dd_cap),
        equity.finite(),
        size.finite(),
        price_volatility_sq.finite(),
        square.finite(),
        exposure.finite(),
        relations::rounds(square, size.value() * size.value(), scalar::one_unit()),
        relations::rounds(
            exposure,
            square.value() * price_volatility_sq.value(),
            scalar::one_unit(),
        ),
        relations::rounds(
            charge,
            config.lambda_risk.value() * exposure.value(),
            scalar::one_unit(),
        ),
    ensures
        relations::opposite(
            mc_eval::reward_of(config, equity, equity, equity, size, price_volatility_sq),
            charge,
        ),
{
    relations::zero_and_one();
    order::minus_is_near(equity, equity);
    order::near_itself(Scalar::of_int(0), 1);
    let gain = equity.minus(equity);
    assert(gain.zero());
    order::times_is_near(size, size);
    let s = size.times(size);
    relations::level_values(s, square);
    order::times_is_near(s, price_volatility_sq);
    let e = s.times(price_volatility_sq);
    relations::level_values(e, exposure);
    order::times_is_near(config.lambda_risk, e);
    let risk = config.lambda_risk.times(e);
    drawdown_is_the_fall_from_the_peak(equity, equity, config.dd_cap, gain);
    let dd = mc_eval::capped_drawdown(equity, equity, config.dd_cap);
    relations::nothing_of(config.lambda_dd, dd);
    relations::adding_nothing(risk, gain);
    relations::adding_nothing(gain.minus(risk), config.lambda_dd.times(dd));
}

/// A flat step at an unchanged equity is charged its drawdown, times the weight.
pub proof fn a_flat_step_is_charged_its_drawdown(
    config: RewardConfig,
    equity: Scalar,
    equity_peak: Scalar,
    flat: Scalar,
    price_volatility_sq: Scalar,
    fall: Scalar,
    charge: Scalar,
)
    requires
        config.lambda_risk.finite(),
        config.lambda_dd.finite(),
        equity.finite(),
        equity_peak.finite(),
        flat.zero(),
        price_volatility_sq.finite(),
        equity.at_most(equity_peak),
        fall.finite(),
        relations::rounds(fall, equity_peak.value() - equity.value(), 1),
        Scalar::of_int(0).at_most(config.dd_cap),
        fall.at_most(config.dd_cap),
        relations::rounds(charge, config.lambda_dd.value() * fall.value(), scalar::one_unit()),
    ensures
        relations::opposite(
            mc_eval::reward_of(config, equity, equity_peak, equity, flat, price_volatility_sq),
            charge,
        ),
{
    relations::zero_and_one();
    order::minus_is_near(equity, equity);
    order::near_itself(Scalar::of_int(0), 1);
    let gain = equity.minus(equity);
    assert(gain.zero());
    relations::nothing_of(flat, flat);
    let square = flat.times(flat);
    relations::nothing_of(price_volatility_sq, square);
    let exposure = square.times(price_volatility_sq);
    relations::nothing_of(config.lambda_risk, exposure);
    let risk = config.lambda_risk.times(exposure);
    drawdown_is_the_fall_from_the_peak(equity_peak, equity, config.dd_cap, fall);
    let dd = mc_eval::capped_drawdown(equity_peak, equity, config.dd_cap);
    relations::level_values(dd, fall);
    order::times_is_near(config.lambda_dd, dd);
    let penalty = config.lambda_dd.times(dd);
    relations::adding_nothing(gain, risk);
    relations::adding_nothing(penalty, gain.minus(risk));
}

// ---------------------------------------------------------------------------------------------
// Episodes.
// ---------------------------------------------------------------------------------------------

/// A recorded step comes last and says what it was given; the steps before it stay. The episode
/// remembers the equity of the step, and the greatest equity so far.
pub proof fn a_recorded_step_comes_last(
    buffer: BufferModel,
    timestamp_ns: u64,
    action: QAction,
    phi: Seq<Scalar>,
    equity: Scalar,
    size: Scalar,
    price_volatility_sq: Scalar,
    config: RewardConfig,
)
    ensures
        ({
            let after = buffer.with(
                timestamp_ns,
                action,
                phi,
                equity,
                size,
                price_volatility_sq,
                config,
            );
            let n = buffer.transitions.len() as int;
            &&& after.transitions.len() == n + 1
            &&& after.transitions.take(n) == buffer.transitions
            &&& after.transitions[n].timestamp_ns == timestamp_ns
            &&& after.transitions[n].action == action
            &&& after.transitions[n].phi == phi
            &&& after.prev_equity == equity
            &&& after.strategy_id == buffer.strategy_id
            &&& after.start_timestamp_ns == buffer.start_timestamp_ns
            &&& !equity.nan() && !buffer.equity_peak.nan() ==> {
                &&& equity.at_most(after.equity_peak)
                &&& buffer.equity_peak.at_most(after.equity_peak)
                &&& after.equity_peak == equity || after.equity_peak == buffer.equity_peak
            }
        }),
{
    let after = buffer.with(timestamp_ns, action, phi, equity, size, price_volatility_sq, config);
    assert(after.transitions.take(buffer.transitions.len() as int) =~= buffer.transitions);
}

/// The reward of a step is taken from the equity of the step before it: of two flat steps in a
/// row that set new peaks, the second is rewarded what it gained over the first.
pub proof fn a_step_is_rewarded_against_the_last(
    buffer: BufferModel,
    t1: u64,
    t2: u64,
    a1: QAction,
    a2: QAction,
    phi1: Seq<Scalar>,
    phi2: Seq<Scalar>,
    equity1: Scalar,
    equity2: Scalar,
    flat: Scalar,
    price_volatility_sq: Scalar,
    config: RewardConfig,
)
    requires
        config.lambda_risk.finite(),
        config.lambda_dd.finite(),
        Scalar::of_int(0).at_most(config.dd_cap),
        equity1.finite(),
        equity2.finite(),
        buffer.equity_peak.finite(),
        buffer.equity_peak.at_most(equity2),
        equity1.at_most(equity2),
        flat.zero(),
        price_volatility_sq.finite(),
    ensures
        relations::rounds(
            buffer.with(t1, a1, phi1, equity1, flat, price_volatility_sq, config).with(
                t2,
                a2,
                phi2,
                equity2,
                flat,
                price_volatility_sq,
                config,
            ).transitions.last().reward,
            equity2.value() - equity1.value(),
            1,
        ),
{
    let first = buffer.with(t1, a1, phi1, equity1, flat, price_volatility_sq, config);
    a_flat_step_is_rewarded_its_gain(
        config,
        first.prev_equity,
        first.equity_peak,
        equity2,
        flat,
        price_volatility_sq,
    );
}

/// The equity of a strategy is what it has won and what its position is worth; without a position
/// it is zero, and so is the size.
pub proof fn equity_is_what_was_won_and_what_is_held(state: StateSnapshot, strategy_id: StrategyId)
    ensures
        state.held(strategy_id) matches Some(p) ==> {
            &&& p.realized_pnl.finite() && p.unrealized_pnl.finite() ==> relations::rounds(
                mc_eval::equity_in(state, strategy_id),
                p.realized_pnl.value() + p.unrealized_pnl.value(),
                1,
            )
            &&& mc_eval::size_in(state, strategy_id) == p.size
        },
        state.held(strategy_id) is None ==> mc_eval::equity_in(state, strategy_id).zero()
            && mc_eval::size_in(state, strategy_id).zero(),
{
    relations::zero_and_one();
    if let Some(p) = state.held(strategy_id) {
        if p.realized_pnl.finite() && p.unrealized_pnl.finite() {
            order::plus_is_near(p.realized_pnl, p.unrealized_pnl);
        }
    }
}

// ---------------------------------------------------------------------------------------------
// Returns.
// ---------------------------------------------------------------------------------------------

/// The return of the last step is its reward.
pub proof fn the_last_return_is_the_last_reward(rewards: Seq<Scalar>, gamma: Scalar)
    requires
        rewards.len() > 0,
        !rewards.last().nan(),
        gamma.finite(),
    ensures
        mc_eval::returns_of(rewards, gamma).last().level(rewards.last()),
{
    relations::zero_and_one();
    let n = rewards.len() as int;
    reveal_with_fuel(mc_eval::discounted, 2);
    relations::nothing_of(gamma, Scalar::of_int(0));
    relations::adding_nothing(rewards.last(), gamma.times(Scalar::of_int(0)));
}

/// Each return is the reward of its step and the return of the next, discounted once.
pub proof fn a_return_is_a_reward_and_the_next_return(
    rewards: Seq<Scalar>,
    gamma: Scalar,
    i: int,
    later: Scalar,
)
    requires
        0 <= i < rewards.len() - 1,
        rewards[i].finite(),
        gamma.finite(),
        later.finite(),
        mc_eval::returns_of(rewards, gamma)[i + 1].finite(),
        relations::rounds(
            later,
            gamma.value() * mc_eval::returns_of(rewards, gamma)[i + 1].value(),
            scalar::one_unit(),
        ),
    ensures
        relations::rounds(
            mc_eval::returns_of(rewards, gamma)[i],
            rewards[i].value() + later.value(),
            1,
        ),
        mc_eval::returns_of(rewards, gamma).len() == rewards.len(),
{
    let next = mc_eval::discounted(rewards, gamma, i + 1);
    order::times_is_near(gamma, next);
    relations::level_values(gamma.times(next), later);
    order::plus_is_near(rewards[i], gamma.times(next));
}

/// Greater rewards give greater returns, at each step.
pub proof fn greater_rewards_give_greater_returns(
    lower: Seq<Scalar>,
    higher: Seq<Scalar>,
    gamma: Scalar,
    i: int,
)
    requires
        lower.len() == higher.len(),
        0 <= i <= lower.len(),
        Scalar::of_int(0).at_most(gamma),
        forall|j: int| i <= j < lower.len() ==> (#[trigger] lower[j]).at_most(higher[j]),
        forall|j: int|
            i <= j < lower.len() ==> !(#[trigger] mc_eval::discounted(lower, gamma, j)).nan()
                && !mc_eval::discounted(higher, gamma, j).nan(),
    ensures
        mc_eval::discounted(lower, gamma, i).at_most(mc_eval::discounted(higher, gamma, i)),
    decreases lower.len() - i,
{
    relations::zero_and_one();
    if i < lower.len() {
        greater_rewards_give_greater_returns(lower, higher, gamma, i + 1);
        let x = mc_eval::discounted(lower, gamma, i + 1);
        let y = mc_eval::discounted(higher, gamma, i + 1);
        assert(lower[i].at_most(higher[i]));
        assert(!mc_eval::discounted(lower, gamma, i).nan());
        relations::nan_spreads(lower[i], gamma.times(x));
        relations::nan_spreads(higher[i], gamma.times(y));
        relations::factors_commute(gamma, x);
        relations::factors_commute(gamma, y);
        relations::scaling_keeps_order(x, y, gamma);
        relations::sums_keep_order(lower[i], higher[i], gamma.times(x), gamma.times(y));
    }
}

/// An episode that ends says how it went: its first return, the time it took, and a total reward
/// that grows by the reward of each step.
pub proof fn a_result_sums_the_episode_up(
    buffer: BufferModel,
    reason: TerminalReason,
    end_timestamp_ns: u64,
    gamma: Scalar,
)
    ensures
        ({
            let result = mc_eval::result_of(buffer, reason, end_timestamp_ns, gamma);
            let n = buffer.transitions.len() as int;
            &&& result.terminal_reason == reason
            &&& result.strategy_id == buffer.strategy_id
            &&& result.transitions == buffer.transitions
            &&& result.num_transitions == result.transitions.len() == result.returns.len()
            &&& n > 0 ==> result.return_g0 == result.returns[0]
            &&& n == 0 ==> result.return_g0.zero() && result.total_reward.zero()
            &&& buffer.start_timestamp_ns <= end_timestamp_ns ==> buffer.start_timestamp_ns
                + result.duration_ns == end_timestamp_ns
            &&& end_timestamp_ns < buffer.start_timestamp_ns ==> result.duration_ns == 0
        }),
{
    relations::zero_and_one();
    let rewards = mc_eval::rewards_of(buffer.transitions);
    assert(mc_eval::returns_of(rewards, gamma).len() == rewards.len());
}

/// One more step adds its reward to the total.
pub proof fn a_step_adds_its_reward_to_the_total(
    buffer: BufferModel,
    longer: BufferModel,
    reason: TerminalReason,
    end_timestamp_ns: u64,
    gamma: Scalar,
)
    requires
        longer.transitions.len() == buffer.transitions.len() + 1,
        longer.transitions.take(buffer.transitions.len() as int) == buffer.transitions,
        longer.transitions.last().reward.finite(),
        mc_eval::result_of(buffer, reason, end_timestamp_ns, gamma).total_reward.finite(),
    ensures
        relations::rounds(
            mc_eval::result_of(longer, reason, end_timestamp_ns, gamma).total_reward,
            mc_eval::result_of(buffer, reason, end_timestamp_ns, gamma).total_reward.value()
                + longer.transitions.last().reward.value(),
            1,
        ),
{
    let (few, more) = (
        mc_eval::rewards_of(buffer.transitions),
        mc_eval::rewards_of(longer.transitions),
    );
    let n = few.len() as int;
    assert forall|i: int| 0 <= i < n implies few[i] == more[i] by {
        assert(buffer.transitions[i] == longer.transitions.take(n)[i]);
    }
    same_running_sum(few, more, n);
    order::plus_is_near(linalg::running_sum(few, n), more[n]);
}

proof fn same_running_sum(a: Seq<Scalar>, b: Seq<Scalar>, k: int)
    requires
        forall|i: int| 0 <= i < k ==> a[i] == b[i],
    ensures
        linalg::running_sum(a, k) == linalg::running_sum(b, k),
    decreases k,
{
    if k > 0 {
        same_running_sum(a, b, k - 1);
    }
}

// ---------------------------------------------------------------------------------------------
// Learning from episodes.
// ---------------------------------------------------------------------------------------------

/// Each step teaches the action that it took its own return: the residual is that return less what
/// was estimated before the step, and the other actions stay as they were.
pub proof fn each_step_teaches_its_own_return(
    trace: Seq<QFunction>,
    transitions: Seq<TransitionModel>,
    targets: Seq<Scalar>,
    results: Seq<UpdateResult>,
    i: int,
    other: QAction,
)
    requires
        mc_eval::learning(trace, transitions, targets, results),
        0 <= i < transitions.len(),
        i < targets.len(),
        targets[i].finite(),
        trace[i].of(transitions[i].action).estimate(transitions[i].phi).finite(),
    ensures
        i < results.len(),
        relations::rounds(
            results[i].residual,
            targets[i].value() - trace[i].of(transitions[i].action).estimate(
                transitions[i].phi,
            ).value(),
            1,
        ),
        trace[i + 1].of(transitions[i].action).n_observations == trace[i].of(
            transitions[i].action,
        ).n_observations + 1,
        other != transitions[i].action ==> trace[i + 1].of(other) == trace[i].of(other),
{
    assert(mc_eval::learns(trace[i], trace[i + 1], transitions[i], targets[i], results[i]));
    order::minus_is_near(
        targets[i],
        trace[i].of(transitions[i].action).estimate(transitions[i].phi),
    );
}

/// As many steps are learnt from as have a return, each once.
pub proof fn every_step_with_a_return_is_learnt_from(
    before: QFunction,
    after: QFunction,
    result: ResultModel,
    results: Seq<UpdateResult>,
)
    requires
        mc_eval::learnt(before, after, result, results),
        result.transitions.len() == result.returns.len(),
    ensures
        results.len() == result.transitions.len(),
        result.transitions.len() == 0 ==> after == before,
{
    let trace = choose|trace: Seq<QFunction>| #[trigger]
        mc_eval::learning(trace, result.transitions, result.returns, results) && trace[0] == before
            && trace.last() == after;
}

} // verus!
