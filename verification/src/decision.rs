//! How an action is chosen from sampled Q-values.
//!
//! Every decision goes the same way: the sampled Q-values of buying and selling are lowered by
//! what a trade costs, the best action that the position limit allows is chosen, and a lot size
//! is set. Where trades become too rare, the posterior is widened so that more is tried.

use crate::bayesian_lr::{ActionDraws, ActionValues, QAction, QFunction};
use crate::extractor;
use crate::features::FeatureVector;
use crate::order;
use crate::policy::Action;
use crate::rolling;
use crate::scalar;
use crate::scalar::Scalar;
use crate::state::{StateSnapshot, StrategyId};
use vstd::prelude::*;

verus! {

/// Parameters of the choice.
#[derive(Debug, Clone, Copy, PartialEq, Eq, Structural)]
pub struct TradeRules {
    /// Weight of the noise in the cost of a trade.
    pub non_model_uncertainty_k: Scalar,
    /// Cost of a millisecond of latency.
    pub latency_penalty_k: Scalar,
    /// The least share of decisions that trade.
    pub min_trade_frequency: Scalar,
    /// Over how many decisions that share is taken.
    pub trade_frequency_window: usize,
    /// How far the posterior is widened where trades are too rare.
    pub hold_degeneration_inflation: Scalar,
    pub max_lot_size: u64,
    /// The least lot; a smaller one is not traded.
    pub min_lot_size: u64,
    /// How close buying and selling may be before neither is done.
    pub consistency_threshold: Scalar,
    pub default_lot_size: u64,
}

// ---------------------------------------------------------------------------------------------
// Choosing an action.
// ---------------------------------------------------------------------------------------------

/// Buying and selling both look good, and about equally so.
pub open spec fn undecided(q_buy: Scalar, q_sell: Scalar, threshold: Scalar) -> bool {
    let zero = Scalar::of_int(0);
    &&& !q_buy.at_most(zero)
    &&& !q_sell.at_most(zero)
    &&& q_buy.minus(q_sell).magnitude().over(
        q_buy.greater(q_sell).magnitude().plus(Scalar::of_ratio(1, 1_000_000_000_000_000)),
    ).below(threshold)
}

/// Whether buying and selling both look good, and about equally so.
pub fn check_consistency(q_buy: Scalar, q_sell: Scalar, threshold: Scalar) -> (r: bool)
    ensures
        r == undecided(q_buy, q_sell, threshold),
{
    let zero = Scalar::from_u64(0);
    if q_buy.le(zero) || q_sell.le(zero) {
        return false;
    }
    let max_q = q_buy.max(q_sell);
    let diff = q_buy.sub(q_sell).abs();
    diff.div(max_q.abs().add(Scalar::ratio(1, 1_000_000_000_000_000))).lt(threshold)
}

/// The best action among those allowed. Buying wins a tie with selling and either wins a tie with
/// holding, unless one of them is not allowed: then the other must be better than holding.
pub open spec fn best_allowed(q: ActionValues, buy_allowed: bool, sell_allowed: bool) -> QAction {
    if !buy_allowed && !sell_allowed {
        QAction::Hold
    } else if !buy_allowed {
        if q.hold.below(q.sell) {
            QAction::Sell
        } else {
            QAction::Hold
        }
    } else if !sell_allowed {
        if q.hold.below(q.buy) {
            QAction::Buy
        } else {
            QAction::Hold
        }
    } else if q.sell.at_most(q.buy) && q.hold.at_most(q.buy) {
        QAction::Buy
    } else if q.buy.at_most(q.sell) && q.hold.at_most(q.sell) {
        QAction::Sell
    } else {
        QAction::Hold
    }
}

/// The best action among those allowed.
pub fn select_best(q: &ActionValues, buy_allowed: bool, sell_allowed: bool) -> (r: QAction)
    ensures
        r == best_allowed(*q, buy_allowed, sell_allowed),
{
    if !buy_allowed && !sell_allowed {
        return QAction::Hold;
    }
    if !buy_allowed {
        return if q.sell.gt(q.hold) {
            QAction::Sell
        } else {
            QAction::Hold
        };
    }
    if !sell_allowed {
        return if q.buy.gt(q.hold) {
            QAction::Buy
        } else {
            QAction::Hold
        };
    }
    if q.buy.ge(q.sell) && q.buy.ge(q.hold) {
        QAction::Buy
    } else if q.sell.ge(q.buy) && q.sell.ge(q.hold) {
        QAction::Sell
    } else {
        QAction::Hold
    }
}

/// The lot for a multiplier: the whole units of the default lot times the multiplier, at most the
/// greatest lot.
pub open spec fn lot_for(default_lot: u64, max_lot: u64, multiplier: Scalar) -> u64 {
    let lot = Scalar::of_int(default_lot as nat).times(multiplier).whole();
    if lot > max_lot {
        max_lot
    } else {
        lot
    }
}

/// The lot for a multiplier.
pub fn lot_size(default_lot: u64, max_lot: u64, multiplier: Scalar) -> (r: u64)
    ensures
        r == lot_for(default_lot, max_lot, multiplier),
{
    let lot = Scalar::from_u64(default_lot).mul(multiplier).to_u64();
    if lot > max_lot {
        max_lot
    } else {
        lot
    }
}

/// The chosen action with its lot. A multiplier below a hundredth, or a lot below the least, means
/// to hold.
pub open spec fn sized(chosen: QAction, multiplier: Scalar, rules: TradeRules) -> Action {
    let lot = lot_for(rules.default_lot_size, rules.max_lot_size, multiplier);
    if multiplier.below(Scalar::of_ratio(1, 100)) || lot < rules.min_lot_size {
        Action::Hold
    } else {
        match chosen {
            QAction::Buy => Action::Buy(lot),
            QAction::Sell => Action::Sell(lot),
            QAction::Hold => Action::Hold,
        }
    }
}

fn size_action(chosen: QAction, multiplier: Scalar, rules: &TradeRules) -> (r: Action)
    ensures
        r == sized(chosen, multiplier, *rules),
{
    if multiplier.lt(Scalar::ratio(1, 100)) {
        return Action::Hold;
    }
    let lot = lot_size(rules.default_lot_size, rules.max_lot_size, multiplier);
    match chosen {
        QAction::Buy => if lot < rules.min_lot_size {
            Action::Hold
        } else {
            Action::Buy(lot)
        },
        QAction::Sell => if lot < rules.min_lot_size {
            Action::Hold
        } else {
            Action::Sell(lot)
        },
        QAction::Hold => Action::Hold,
    }
}

/// The kind of an action, without its lot.
pub open spec fn kind_of(action: Action) -> QAction {
    match action {
        Action::Buy(_) => QAction::Buy,
        Action::Sell(_) => QAction::Sell,
        Action::Hold => QAction::Hold,
    }
}

/// The kind of an action, without its lot.
pub fn action_kind(action: &Action) -> (r: QAction)
    ensures
        r == kind_of(*action),
{
    match action {
        Action::Buy(_) => QAction::Buy,
        Action::Sell(_) => QAction::Sell,
        Action::Hold => QAction::Hold,
    }
}

/// What a trade costs: its impact, the spread, the noise weighed with `k`, and the latency.
pub open spec fn trade_cost(
    features: FeatureVector,
    noise_variance: Scalar,
    k: Scalar,
    latency_ms: Scalar,
    rules: TradeRules,
) -> Scalar {
    features.self_impact.plus(features.dynamic_cost).plus(k.times(noise_variance.root())).plus(
        rules.latency_penalty_k.times(latency_ms),
    )
}

/// Q-values after costs: a trade costs, holding does not.
pub open spec fn after_costs(raw: ActionValues, cost: Scalar) -> ActionValues {
    ActionValues {
        buy: raw.buy.minus(cost),
        sell: raw.sell.minus(cost),
        hold: raw.hold.minus(Scalar::of_int(0)),
    }
}

/// What was chosen, and on what grounds.
#[derive(Debug, Clone, Copy, PartialEq, Eq, Structural)]
pub struct Choice {
    pub action: Action,
    /// Sampled Q-values after costs.
    pub sampled: ActionValues,
    /// Point estimates, for monitoring.
    pub points: ActionValues,
    /// Posterior standard deviations, for monitoring.
    pub deviations: ActionValues,
    /// Whether buying and selling looked equally good, so that neither was chosen.
    pub consistency_fallback: bool,
}

/// The choice on features `phi`, with the randomness of `draws`.
pub open spec fn choice_of(
    q: QFunction,
    phi: Seq<Scalar>,
    draws: ActionDraws,
    features: FeatureVector,
    state: StateSnapshot,
    k: Scalar,
    latency_ms: Scalar,
    checks_consistency: bool,
    rules: TradeRules,
) -> Choice {
    let cost = trade_cost(features, q.buy.sigma2_noise, k, latency_ms, rules);
    let sampled = after_costs(q.samples(phi, draws), cost);
    let fallback = checks_consistency && undecided(
        sampled.buy,
        sampled.sell,
        rules.consistency_threshold,
    );
    let chosen = if fallback {
        QAction::Hold
    } else {
        best_allowed(sampled, state.buy_within_limit(), state.sell_within_limit())
    };
    Choice {
        action: sized(chosen, state.lot_multiplier, rules),
        sampled,
        points: q.estimates(phi),
        deviations: q.deviations(phi),
        consistency_fallback: fallback,
    }
}

/// Chooses an action.
pub fn choose_action(
    q: &QFunction,
    phi: &[Scalar],
    draws: &ActionDraws,
    features: &FeatureVector,
    state: &StateSnapshot,
    k: Scalar,
    latency_ms: Scalar,
    checks_consistency: bool,
    rules: &TradeRules,
) -> (r: Choice)
    requires
        q.valid(),
        q.fits(*draws),
        phi@.len() == q.dim,
    ensures
        r == choice_of(
            *q,
            phi@,
            *draws,
            *features,
            *state,
            k,
            latency_ms,
            checks_consistency,
            *rules,
        ),
{
    let raw = q.sample_q_values(phi, draws);
    let sigma_noise = q.buy.noise_variance().sqrt();
    let non_model_penalty = k.mul(sigma_noise);
    let latency_penalty = rules.latency_penalty_k.mul(latency_ms);
    let cost = features.self_impact.add(features.dynamic_cost).add(non_model_penalty).add(
        latency_penalty,
    );
    let sampled = ActionValues {
        buy: raw.buy.sub(cost),
        sell: raw.sell.sub(cost),
        hold: raw.hold.sub(Scalar::from_u64(0)),
    };
    let points = q.q_values(phi);
    let deviations = q.posterior_stds(phi);
    let consistency_fallback = checks_consistency && check_consistency(
        sampled.buy,
        sampled.sell,
        rules.consistency_threshold,
    );
    let chosen = if consistency_fallback {
        QAction::Hold
    } else {
        select_best(&sampled, state.buy_allowed(), state.sell_allowed())
    };
    Choice {
        action: size_action(chosen, state.lot_multiplier, rules),
        sampled,
        points,
        deviations,
        consistency_fallback,
    }
}

// ---------------------------------------------------------------------------------------------
// How often trades happen.
// ---------------------------------------------------------------------------------------------

/// The record after one more decision; beyond the window the oldest entry goes.
pub open spec fn recorded(history: Seq<bool>, window: nat, traded: bool) -> Seq<bool> {
    let longer = history.push(traded);
    if longer.len() > window {
        longer.skip(1)
    } else {
        longer
    }
}

/// How many of the first `k` decisions traded.
pub open spec fn trades_in(history: Seq<bool>, k: int) -> nat
    decreases k,
{
    if k <= 0 {
        0
    } else {
        trades_in(history, k - 1) + if history[k - 1] {
            1nat
        } else {
            0
        }
    }
}

/// The share of decisions that traded; zero of none.
pub open spec fn frequency_of(history: Seq<bool>) -> Scalar {
    if history.len() == 0 {
        Scalar::of_int(0)
    } else {
        Scalar::of_int(trades_in(history, history.len() as int)).over(
            Scalar::of_int(history.len()),
        )
    }
}

/// Trades have become too rare, over a full window of decisions.
pub open spec fn too_rare(history: Seq<bool>, total_decisions: nat, rules: TradeRules) -> bool {
    total_decisions >= rules.trade_frequency_window && frequency_of(history).below(
        rules.min_trade_frequency,
    )
}

/// Notes a decision.
pub fn record(history: &mut Vec<bool>, window: usize, traded: bool)
    requires
        old(history)@.len() <= window,
    ensures
        final(history)@ == recorded(old(history)@, window as nat, traded),
        final(history)@.len() <= window,
{
    history.push(traded);
    if history.len() > window {
        let ghost longer = history@;
        history.remove(0);
        assert(history@ =~= longer.skip(1));
    }
}

/// The share of decisions that traded.
pub fn frequency(history: &[bool]) -> (r: Scalar)
    ensures
        r == frequency_of(history@),
{
    if history.len() == 0 {
        return Scalar::from_u64(0);
    }
    let n = history.len();
    let mut trades: usize = 0;
    let mut i: usize = 0;
    while i < n
        invariant
            n == history@.len(),
            i <= n,
            trades == trades_in(history@, i as int),
            trades <= i,
        decreases n - i,
    {
        if history[i] {
            trades = trades + 1;
        }
        i = i + 1;
    }
    Scalar::from_u64(trades as u64).div(Scalar::from_u64(n as u64))
}

/// Whether trades have become too rare.
pub fn is_too_rare(history: &[bool], total_decisions: usize, rules: &TradeRules) -> (r: bool)
    ensures
        r == too_rare(history@, total_decisions as nat, *rules),
{
    if total_decisions < rules.trade_frequency_window {
        return false;
    }
    frequency(history).lt(rules.min_trade_frequency)
}

// ---------------------------------------------------------------------------------------------
// Widening the posterior.
// ---------------------------------------------------------------------------------------------

/// By how much the posterior is widened: to the target, if trades are too rare and it is not
/// there yet.
pub open spec fn widening(current: Scalar, rare: bool, target: Scalar) -> Option<Scalar> {
    if rare && current.below(target) {
        Some(target.over(current))
    } else {
        None
    }
}

/// How wide the posterior counts as afterwards: the target, or on the way back to one.
pub open spec fn width_after(current: Scalar, rare: bool, target: Scalar, decay: Scalar) -> Scalar {
    let one = Scalar::of_int(1);
    if rare {
        if current.below(target) {
            target
        } else {
            current
        }
    } else if one.below(current) {
        let next = one.plus(current.minus(one).times(decay));
        if next.below(Scalar::of_ratio(1001, 1000)) {
            one
        } else {
            next
        }
    } else {
        current
    }
}

/// `after` is `before` with the covariances widened by `factor`, if there is one.
pub open spec fn widened(after: QFunction, before: QFunction, factor: Option<Scalar>) -> bool {
    match factor {
        Some(factor) => after.inflated(before, factor),
        None => after == before,
    }
}

/// Where the posterior has to be widened, the factor is at least one.
pub proof fn widening_widens(current: Scalar, rare: bool, target: Scalar)
    requires
        !current.below(Scalar::of_int(1)),
    ensures
        widening(current, rare, target) matches Some(factor) ==> Scalar::of_int(1).at_most(factor),
{
    order::int_is_exact(1);
    let full = Scalar::of_int(1);
    let one = scalar::one_unit() as int;
    if rare && current.below(target) {
        assert(current.finite());
        order::order_is_order_of_values(full, current);
        if target.finite() {
            order::order_is_order_of_values(current, target);
            order::over_is_near(target, current);
            order::near_itself(full, 1);
            assert(one * current.value() <= target.value() * one * 1) by (nonlinear_arith)
                requires
                    current.value() <= target.value(),
                    one > 0,
            ;
            order::near_keeps_order(one, 1, target.value() * one, current.value() as nat);
        } else {
            reveal(Scalar::over);
        }
    }
}

/// Widens the posterior where trades are too rare, and lets the widening fade where they are not.
pub fn steer(
    q: &mut QFunction,
    current: Scalar,
    rare: bool,
    target: Scalar,
    decay: Scalar,
) -> (r: Scalar)
    requires
        old(q).valid(),
        !current.below(Scalar::of_int(1)),
    ensures
        final(q).valid(),
        widened(*final(q), *old(q), widening(current, rare, target)),
        r == width_after(current, rare, target, decay),
        !r.below(Scalar::of_int(1)),
{
    proof {
        widening_widens(current, rare, target);
        order::int_is_exact(1);
        one_is_below_a_little_more();
    }
    let one = Scalar::from_u64(1);
    if rare {
        if current.lt(target) {
            let ratio = target.div(current);
            q.inflate_covariance(ratio);
            return target;
        }
        current
    } else if current.gt(one) {
        let next = one.add(current.sub(one).mul(decay));
        if next.lt(Scalar::ratio(1001, 1000)) {
            one
        } else {
            next
        }
    } else {
        current
    }
}

/// One is at most 1.001.
proof fn one_is_below_a_little_more()
    ensures
        Scalar::of_int(1).at_most(Scalar::of_ratio(1001, 1000)),
{
    order::int_is_exact(1);
    order::int_is_exact(1001);
    order::int_is_exact(1000);
    let one = scalar::one_unit() as int;
    let a = Scalar::of_int(1001);
    let b = Scalar::of_int(1000);
    order::over_is_near(a, b);
    order::near_itself(Scalar::of_int(1), 1);
    assert(one * b.value() <= a.value() * one * 1) by (nonlinear_arith)
        requires
            a.value() == 1001 * one,
            b.value() == 1000 * one,
            one > 0,
    ;
    order::near_keeps_order(one, 1, a.value() * one, b.value() as nat);
}

// ---------------------------------------------------------------------------------------------
// Episodes and positions.
// ---------------------------------------------------------------------------------------------

/// The episode that began at `entry` has lasted as long as it may.
pub open spec fn timed_out(entry: Option<u64>, now_ns: u64, max_hold_time_ms: u64) -> bool {
    match entry {
        Some(entry_ns) => now_ns - entry_ns >= max_hold_time_ms * 1_000_000,
        None => false,
    }
}

/// How long an episode may still last.
pub open spec fn time_left(entry: Option<u64>, now_ns: u64, max_hold_time_ms: u64) -> u64 {
    match entry {
        Some(entry_ns) => {
            let elapsed_ms = (now_ns - entry_ns) / 1_000_000;
            if elapsed_ms >= max_hold_time_ms {
                0
            } else {
                (max_hold_time_ms - elapsed_ms) as u64
            }
        },
        None => 0,
    }
}

/// Time does not run backwards, and the holding time fits the clock.
pub open spec fn clock_fits(entry: Option<u64>, now_ns: u64, max_hold_time_ms: u64) -> bool {
    &&& entry matches Some(entry_ns) ==> entry_ns <= now_ns
    &&& entry is Some ==> max_hold_time_ms * 1_000_000 <= u64::MAX
}

/// Whether an episode has lasted as long as it may.
pub fn is_timed_out(entry: Option<u64>, now_ns: u64, max_hold_time_ms: u64) -> (r: bool)
    requires
        clock_fits(entry, now_ns, max_hold_time_ms),
    ensures
        r == timed_out(entry, now_ns, max_hold_time_ms),
{
    match entry {
        Some(entry_ns) => now_ns - entry_ns >= max_hold_time_ms * 1_000_000,
        None => false,
    }
}

/// How long an episode may still last.
pub fn remaining_ms(entry: Option<u64>, now_ns: u64, max_hold_time_ms: u64) -> (r: u64)
    requires
        entry matches Some(entry_ns) ==> entry_ns <= now_ns,
    ensures
        r == time_left(entry, now_ns, max_hold_time_ms),
{
    match entry {
        Some(entry_ns) => {
            let elapsed_ms = (now_ns - entry_ns) / 1_000_000;
            if elapsed_ms >= max_hold_time_ms {
                0
            } else {
                max_hold_time_ms - elapsed_ms
            }
        },
        None => 0,
    }
}

/// The size of the position of a strategy.
pub open spec fn size_held(state: StateSnapshot, strategy_id: StrategyId) -> Scalar {
    match state.held(strategy_id) {
        Some(position) => position.size,
        None => Scalar::of_int(0),
    }
}

/// The strategy has a position that is more than rounding.
pub open spec fn holds(state: StateSnapshot, strategy_id: StrategyId) -> bool {
    state.held(strategy_id) matches Some(position) && rolling::epsilon_of_one().below(
        position.size.magnitude(),
    )
}

/// A position is long, beyond rounding.
pub open spec fn long(size: Scalar) -> bool {
    rolling::epsilon_of_one().below(size)
}

/// A position is short, beyond rounding.
pub open spec fn short(size: Scalar) -> bool {
    size.below(rolling::epsilon_of_one().negated())
}

/// What closes a position: the opposite trade of its whole size.
pub open spec fn closing(size: Scalar) -> Action {
    if long(size) {
        Action::Sell(size.magnitude().whole())
    } else if short(size) {
        Action::Buy(size.magnitude().whole())
    } else {
        Action::Hold
    }
}

/// The size of the position of a strategy.
pub fn position_size(state: &StateSnapshot, strategy_id: StrategyId) -> (r: Scalar)
    ensures
        r == size_held(*state, strategy_id),
{
    match state.position(strategy_id) {
        Some(position) => position.size,
        None => Scalar::from_u64(0),
    }
}

/// Whether the strategy has a position that is more than rounding.
pub fn holds_position(state: &StateSnapshot, strategy_id: StrategyId) -> (r: bool)
    ensures
        r == holds(*state, strategy_id),
{
    match state.position(strategy_id) {
        Some(position) => position.size.abs().gt(rolling::machine_epsilon()),
        None => false,
    }
}

/// What closes a position.
pub fn closing_action(size: Scalar) -> (r: Action)
    ensures
        r == closing(size),
{
    if size.gt(rolling::machine_epsilon()) {
        Action::Sell(size.abs().to_u64())
    } else if size.lt(rolling::machine_epsilon().neg_of()) {
        Action::Buy(size.abs().to_u64())
    } else {
        Action::Hold
    }
}

/// Whether an action trades against a position.
pub open spec fn trades_against(action: Action, size: Scalar) -> bool {
    match action {
        Action::Buy(_) => short(size),
        Action::Sell(_) => long(size),
        Action::Hold => false,
    }
}

/// Whether an action trades against a position.
pub fn is_against(action: &Action, size: Scalar) -> (r: bool)
    ensures
        r == trades_against(*action, size),
{
    match action {
        Action::Buy(_) => size.lt(rolling::machine_epsilon().neg_of()),
        Action::Sell(_) => size.gt(rolling::machine_epsilon()),
        Action::Hold => false,
    }
}

// ---------------------------------------------------------------------------------------------
// A whole decision.
// ---------------------------------------------------------------------------------------------

/// What a strategy remembers from one decision to the next, apart from what it has learnt.
pub ghost struct StrategyModel {
    /// When the episode under way began.
    pub entry: Option<u64>,
    /// Which of the last decisions traded.
    pub trades: Seq<bool>,
    pub total_decisions: nat,
}

/// What a strategy decides.
pub ghost struct DecisionModel {
    pub action: Action,
    pub q_point: Scalar,
    pub q_sampled: Scalar,
    pub posterior_std: Scalar,
    pub triggered: bool,
    pub episode_active: bool,
    pub should_close: bool,
    pub skip_reason: Option<Seq<char>>,
    pub remaining_hold_time_ms: u64,
    pub hold_degeneration_detected: bool,
    pub consistency_fallback: bool,
}

/// What a strategy decides on.
pub ghost struct Situation {
    pub now_ns: u64,
    pub max_hold_time_ms: u64,
    /// The strategy has a position.
    pub holds: bool,
    /// The size of the position.
    pub size: Scalar,
    /// The trigger conditions are met.
    pub triggered: bool,
    /// A trade against the position closes it.
    pub exits_on_signal: bool,
}

impl Situation {
    /// The episode that is still under way: without a position there is none.
    pub open spec fn entry_kept(self, before: StrategyModel) -> Option<u64> {
        if self.holds {
            before.entry
        } else {
            None
        }
    }

    /// The episode has lasted as long as it may.
    pub open spec fn expires(self, before: StrategyModel) -> bool {
        timed_out(before.entry, self.now_ns, self.max_hold_time_ms)
    }

    /// An action is chosen: an episode is under way and has not expired, or one may begin.
    pub open spec fn chooses(self, before: StrategyModel) -> bool {
        !self.expires(before) && (self.entry_kept(before) is Some || self.triggered)
    }
}

/// A decision without a choice.
pub open spec fn passive(action: Action, should_close: bool, reason: Seq<char>) -> DecisionModel {
    let zero = Scalar::of_int(0);
    DecisionModel {
        action,
        q_point: zero,
        q_sampled: zero,
        posterior_std: zero,
        triggered: false,
        episode_active: false,
        should_close,
        skip_reason: Some(reason),
        remaining_hold_time_ms: 0,
        hold_degeneration_detected: false,
        consistency_fallback: false,
    }
}

/// The decision, and what the strategy remembers after it. An expired episode closes its
/// position; without an episode or a trigger nothing is done; else `choice` is followed, and a
/// trade from idle begins an episode.
pub open spec fn decided(before: StrategyModel, situation: Situation, choice: Choice, rules: TradeRules) -> (
    StrategyModel,
    DecisionModel,
) {
    let total = (before.total_decisions + 1) as nat;
    let kept = situation.entry_kept(before);
    let window = rules.trade_frequency_window as nat;
    if situation.expires(before) {
        (
            StrategyModel { entry: None, total_decisions: total, ..before },
            passive(closing(situation.size), true, "MAX_HOLD_TIME exceeded"@),
        )
    } else if !situation.chooses(before) {
        (
            StrategyModel {
                entry: None,
                trades: recorded(before.trades, window, false),
                total_decisions: total,
            },
            passive(Action::Hold, false, "trigger conditions not met"@),
        )
    } else {
        let traded = choice.action != Action::Hold;
        let trades = recorded(before.trades, window, traded);
        let entry = if kept is None && traded {
            Some(situation.now_ns)
        } else {
            kept
        };
        let closes = situation.exits_on_signal && kept is Some && trades_against(
            choice.action,
            situation.size,
        );
        let kind = kind_of(choice.action);
        (
            StrategyModel { entry, trades, total_decisions: total },
            DecisionModel {
                action: choice.action,
                q_point: choice.points.of(kind),
                q_sampled: choice.sampled.of(kind),
                posterior_std: choice.deviations.of(kind),
                triggered: situation.triggered,
                episode_active: entry is Some,
                should_close: closes,
                skip_reason: if closes {
                    Some("TRIGGER_EXIT close"@)
                } else {
                    None
                },
                remaining_hold_time_ms: time_left(
                    entry,
                    situation.now_ns,
                    situation.max_hold_time_ms,
                ),
                hold_degeneration_detected: too_rare(trades, total, rules),
                consistency_fallback: choice.consistency_fallback,
            },
        )
    }
}

// ---------------------------------------------------------------------------------------------
// Features that the strategies share.
// ---------------------------------------------------------------------------------------------

/// Three signals, weighed.
pub open spec fn blend(a: Scalar, b: Scalar, c: Scalar) -> Scalar {
    extractor::unit(
        a.times(Scalar::of_ratio(2, 5)).plus(b.times(Scalar::of_ratio(7, 20))).plus(
            c.times(Scalar::of_ratio(1, 4)),
        ),
    )
}

/// Weighs three signals.
pub fn blended(a: Scalar, b: Scalar, c: Scalar) -> (r: Scalar)
    ensures
        r == blend(a, b, c),
{
    extractor::to_unit(
        a.mul(Scalar::ratio(2, 5)).add(b.mul(Scalar::ratio(7, 20))).add(c.mul(Scalar::ratio(1, 4))),
    )
}

} // verus!
