//! On-policy Monte Carlo evaluation.
//!
//! While a position is held, every step of its episode is recorded with its reward:
//! `r = change of equity - lambda_risk * size^2 * price variance - lambda_dd * min(drawdown, cap)`.
//! When the episode ends, the Q-function learns from the full discounted return of each step that
//! was taken, and from nothing else.

use crate::bayesian_lr::{QAction, QFunction, UpdateResult};
use crate::linalg;
use crate::order;
use crate::scalar;
use crate::scalar::Scalar;
use crate::state::{StateSnapshot, StrategyId};
use vstd::prelude::*;
use vstd::string::*;

verus! {

/// Why an episode ended.
#[derive(Debug, Clone, Copy, PartialEq, Eq, Structural)]
pub enum TerminalReason {
    /// The position was closed.
    PositionClosed,
    /// The position was held for too long.
    MaxHoldTimeExceeded,
    /// The loss limit of the day was reached.
    DailyHardLimit,
    /// The loss limit of the week was reached.
    WeeklyHardLimit,
    /// The loss limit of the month was reached.
    MonthlyHardLimit,
    /// Trading halted for the weekend.
    WeekendHalt,
    /// The market is in no known regime.
    UnknownRegime,
}

impl TerminalReason {
    /// The name of the reason.
    pub open spec fn label(self) -> Seq<char> {
        match self {
            TerminalReason::PositionClosed => "PositionClosed"@,
            TerminalReason::MaxHoldTimeExceeded => "MaxHoldTimeExceeded"@,
            TerminalReason::DailyHardLimit => "DailyHardLimit"@,
            TerminalReason::WeeklyHardLimit => "WeeklyHardLimit"@,
            TerminalReason::MonthlyHardLimit => "MonthlyHardLimit"@,
            TerminalReason::WeekendHalt => "WeekendHalt"@,
            TerminalReason::UnknownRegime => "UnknownRegime"@,
        }
    }

    /// The name of the reason.
    pub fn name(&self) -> (r: String)
        ensures
            r@ == self.label(),
    {
        String::from_str(
            match self {
                TerminalReason::PositionClosed => "PositionClosed",
                TerminalReason::MaxHoldTimeExceeded => "MaxHoldTimeExceeded",
                TerminalReason::DailyHardLimit => "DailyHardLimit",
                TerminalReason::WeeklyHardLimit => "WeeklyHardLimit",
                TerminalReason::MonthlyHardLimit => "MonthlyHardLimit",
                TerminalReason::WeekendHalt => "WeekendHalt",
                TerminalReason::UnknownRegime => "UnknownRegime",
            },
        )
    }
}

/// One step of an episode.
#[derive(Debug, Clone, PartialEq)]
pub struct EpisodeTransition {
    pub timestamp_ns: u64,
    /// What was done.
    pub action: QAction,
    /// The features it was done on.
    pub phi: Vec<Scalar>,
    /// The reward of the step.
    pub reward: Scalar,
}

/// What a step holds.
pub ghost struct TransitionModel {
    pub timestamp_ns: u64,
    pub action: QAction,
    pub phi: Seq<Scalar>,
    pub reward: Scalar,
}

impl View for EpisodeTransition {
    type V = TransitionModel;

    open spec fn view(&self) -> TransitionModel {
        TransitionModel {
            timestamp_ns: self.timestamp_ns,
            action: self.action,
            phi: self.phi@,
            reward: self.reward,
        }
    }
}

/// What several steps hold.
pub open spec fn steps(transitions: Seq<EpisodeTransition>) -> Seq<TransitionModel> {
    Seq::new(transitions.len(), |i: int| transitions[i]@)
}

impl EpisodeTransition {
    fn duplicate(&self) -> (r: EpisodeTransition)
        ensures
            r@ == self@,
    {
        let phi = self.phi.clone();
        assert(phi@ =~= self.phi@);
        EpisodeTransition {
            timestamp_ns: self.timestamp_ns,
            action: self.action,
            phi,
            reward: self.reward,
        }
    }
}

/// Parameters of the reward.
#[derive(Debug, Clone, Copy, PartialEq, Eq, Structural)]
pub struct RewardConfig {
    /// Weight of the variance of the position.
    pub lambda_risk: Scalar,
    /// Weight of the drawdown.
    pub lambda_dd: Scalar,
    /// Greatest drawdown that counts.
    pub dd_cap: Scalar,
    /// Discount of later rewards.
    pub gamma: Scalar,
}

impl Default for RewardConfig {
    fn default() -> (r: RewardConfig)
        ensures
            r == (RewardConfig {
                lambda_risk: Scalar::of_ratio(1, 10),
                lambda_dd: Scalar::of_ratio(1, 2),
                dd_cap: Scalar::of_int(100),
                gamma: Scalar::of_ratio(99, 100),
            }),
    {
        RewardConfig {
            lambda_risk: Scalar::ratio(1, 10),
            lambda_dd: Scalar::ratio(1, 2),
            dd_cap: Scalar::from_u64(100),
            gamma: Scalar::ratio(99, 100),
        }
    }
}

/// The drawdown that counts: how far the equity is below its peak, but at most the cap.
pub open spec fn capped_drawdown(peak: Scalar, equity: Scalar, cap: Scalar) -> Scalar {
    peak.minus(equity).greater(Scalar::of_int(0)).lesser(cap)
}

/// The reward of a step.
pub open spec fn reward_of(
    config: RewardConfig,
    prev_equity: Scalar,
    equity_peak: Scalar,
    equity: Scalar,
    size: Scalar,
    price_volatility_sq: Scalar,
) -> Scalar {
    equity.minus(prev_equity).minus(
        config.lambda_risk.times(size.times(size).times(price_volatility_sq)),
    ).minus(config.lambda_dd.times(capped_drawdown(equity_peak, equity, config.dd_cap)))
}

/// What an episode under way holds.
pub ghost struct BufferModel {
    pub strategy_id: StrategyId,
    pub transitions: Seq<TransitionModel>,
    pub start_timestamp_ns: u64,
    pub prev_equity: Scalar,
    pub equity_peak: Scalar,
}

impl BufferModel {
    /// An episode with no steps yet.
    pub open spec fn fresh(strategy_id: StrategyId, start_timestamp_ns: u64, equity: Scalar) -> BufferModel {
        BufferModel {
            strategy_id,
            transitions: Seq::empty(),
            start_timestamp_ns,
            prev_equity: equity,
            equity_peak: equity,
        }
    }

    /// The episode with one more step.
    pub open spec fn with(
        self,
        timestamp_ns: u64,
        action: QAction,
        phi: Seq<Scalar>,
        equity: Scalar,
        size: Scalar,
        price_volatility_sq: Scalar,
        config: RewardConfig,
    ) -> BufferModel {
        let reward = reward_of(
            config,
            self.prev_equity,
            self.equity_peak,
            equity,
            size,
            price_volatility_sq,
        );
        BufferModel {
            transitions: self.transitions.push(
                TransitionModel { timestamp_ns, action, phi, reward },
            ),
            prev_equity: equity,
            equity_peak: self.equity_peak.greater(equity),
            ..self
        }
    }
}

/// An episode under way.
#[derive(Debug, Clone, PartialEq)]
pub struct EpisodeBuffer {
    pub strategy_id: StrategyId,
    /// The steps in their order.
    pub transitions: Vec<EpisodeTransition>,
    pub start_timestamp_ns: u64,
    /// The equity at the last step.
    pub prev_equity: Scalar,
    /// The greatest equity so far.
    pub equity_peak: Scalar,
}

impl View for EpisodeBuffer {
    type V = BufferModel;

    open spec fn view(&self) -> BufferModel {
        BufferModel {
            strategy_id: self.strategy_id,
            transitions: steps(self.transitions@),
            start_timestamp_ns: self.start_timestamp_ns,
            prev_equity: self.prev_equity,
            equity_peak: self.equity_peak,
        }
    }
}

impl EpisodeBuffer {
    /// An episode with no steps yet.
    pub fn new(strategy_id: StrategyId, start_timestamp_ns: u64, initial_equity: Scalar) -> (r:
        EpisodeBuffer)
        ensures
            r@ == BufferModel::fresh(strategy_id, start_timestamp_ns, initial_equity),
    {
        let r = EpisodeBuffer {
            strategy_id,
            transitions: Vec::new(),
            start_timestamp_ns,
            prev_equity: initial_equity,
            equity_peak: initial_equity,
        };
        assert(r@.transitions =~= Seq::empty());
        r
    }

    /// Records a step and its reward.
    pub fn record(
        &mut self,
        timestamp_ns: u64,
        action: QAction,
        phi: Vec<Scalar>,
        current_equity: Scalar,
        position_size: Scalar,
        price_volatility_sq: Scalar,
        config: &RewardConfig,
    )
        ensures
            final(self)@ == old(self)@.with(
                timestamp_ns,
                action,
                phi@,
                current_equity,
                position_size,
                price_volatility_sq,
                *config,
            ),
    {
        let delta_pnl = current_equity.sub(self.prev_equity);
        let position_variance = position_size.mul(position_size).mul(price_volatility_sq);
        let drawdown = self.equity_peak.sub(current_equity).max(Scalar::from_u64(0));
        let dd_capped = drawdown.min(config.dd_cap);
        let reward = delta_pnl.sub(config.lambda_risk.mul(position_variance)).sub(
            config.lambda_dd.mul(dd_capped),
        );
        self.equity_peak = self.equity_peak.max(current_equity);
        let ghost before = self.transitions@;
        let ghost values = phi@;
        self.transitions.push(EpisodeTransition { timestamp_ns, action, phi, reward });
        assert(steps(self.transitions@) =~= steps(before).push(
            TransitionModel { timestamp_ns, action, phi: values, reward },
        ));
        self.prev_equity = current_equity;
    }

    /// How many steps there are.
    pub fn len(&self) -> (r: usize)
        ensures
            r == self@.transitions.len(),
    {
        self.transitions.len()
    }

    /// Whether there are no steps.
    pub fn is_empty(&self) -> (r: bool)
        ensures
            r == (self@.transitions.len() == 0),
    {
        self.transitions.len() == 0
    }

    /// The greatest equity so far.
    pub fn equity_peak(&self) -> (r: Scalar)
        ensures
            r == self@.equity_peak,
    {
        self.equity_peak
    }

    /// The equity at the last step.
    pub fn prev_equity(&self) -> (r: Scalar)
        ensures
            r == self@.prev_equity,
    {
        self.prev_equity
    }
}

/// The discounted return from step `i` on.
pub open spec fn discounted(rewards: Seq<Scalar>, gamma: Scalar, i: int) -> Scalar
    decreases rewards.len() - i,
{
    if i >= rewards.len() {
        Scalar::of_int(0)
    } else {
        rewards[i].plus(gamma.times(discounted(rewards, gamma, i + 1)))
    }
}

/// The discounted returns of all steps.
pub open spec fn returns_of(rewards: Seq<Scalar>, gamma: Scalar) -> Seq<Scalar> {
    Seq::new(rewards.len(), |i: int| discounted(rewards, gamma, i))
}

/// The rewards of steps.
pub open spec fn rewards_of(transitions: Seq<TransitionModel>) -> Seq<Scalar> {
    Seq::new(transitions.len(), |i: int| transitions[i].reward)
}

/// What a finished episode holds.
pub ghost struct ResultModel {
    pub strategy_id: StrategyId,
    pub terminal_reason: TerminalReason,
    pub num_transitions: nat,
    pub total_reward: Scalar,
    pub return_g0: Scalar,
    pub duration_ns: u64,
    pub returns: Seq<Scalar>,
    pub transitions: Seq<TransitionModel>,
}

/// The result of an episode that ends.
pub open spec fn result_of(
    buffer: BufferModel,
    reason: TerminalReason,
    end_timestamp_ns: u64,
    gamma: Scalar,
) -> ResultModel {
    let rewards = rewards_of(buffer.transitions);
    ResultModel {
        strategy_id: buffer.strategy_id,
        terminal_reason: reason,
        num_transitions: buffer.transitions.len(),
        total_reward: linalg::running_sum(rewards, rewards.len() as int),
        return_g0: discounted(rewards, gamma, 0),
        duration_ns: if end_timestamp_ns >= buffer.start_timestamp_ns {
            (end_timestamp_ns - buffer.start_timestamp_ns) as u64
        } else {
            0
        },
        returns: returns_of(rewards, gamma),
        transitions: buffer.transitions,
    }
}

/// A finished episode.
#[derive(Debug, Clone, PartialEq)]
pub struct EpisodeResult {
    pub strategy_id: StrategyId,
    pub terminal_reason: TerminalReason,
    pub num_transitions: usize,
    /// The sum of the rewards.
    pub total_reward: Scalar,
    /// The discounted return from the first step on.
    pub return_g0: Scalar,
    pub duration_ns: u64,
    /// The discounted return of each step.
    pub returns: Vec<Scalar>,
    /// The steps.
    pub transitions: Vec<EpisodeTransition>,
}

impl View for EpisodeResult {
    type V = ResultModel;

    open spec fn view(&self) -> ResultModel {
        ResultModel {
            strategy_id: self.strategy_id,
            terminal_reason: self.terminal_reason,
            num_transitions: self.num_transitions as nat,
            total_reward: self.total_reward,
            return_g0: self.return_g0,
            duration_ns: self.duration_ns,
            returns: self.returns@,
            transitions: steps(self.transitions@),
        }
    }
}

impl EpisodeResult {
    /// The mean reward of a step.
    pub fn avg_reward(&self) -> (r: Scalar)
        ensures
            r == if self.num_transitions == 0 {
                Scalar::of_int(0)
            } else {
                self.total_reward.over(Scalar::of_int(self.num_transitions as nat))
            },
    {
        if self.num_transitions == 0 {
            Scalar::from_u64(0)
        } else {
            self.total_reward.div(Scalar::from_u64(self.num_transitions as u64))
        }
    }

    /// The duration in milliseconds.
    pub fn duration_ms(&self) -> (r: Scalar)
        ensures
            r == Scalar::of_int(self.duration_ns as nat).over(Scalar::of_int(1_000_000)),
    {
        Scalar::from_u64(self.duration_ns).div(Scalar::from_u64(1_000_000))
    }

    fn duplicate(&self) -> (r: EpisodeResult)
        ensures
            r@ == self@,
    {
        let mut transitions: Vec<EpisodeTransition> = Vec::new();
        let mut i: usize = 0;
        while i < self.transitions.len()
            invariant
                i <= self.transitions@.len(),
                transitions@.len() == i,
                forall|j: int| 0 <= j < i ==> (#[trigger] transitions@[j])@
                    == self.transitions@[j]@,
            decreases self.transitions@.len() - i,
        {
            transitions.push(self.transitions[i].duplicate());
            i = i + 1;
        }
        let discounted_rewards = self.returns.clone();
        assert(discounted_rewards@ =~= self.returns@);
        assert(steps(transitions@) =~= steps(self.transitions@));
        EpisodeResult {
            strategy_id: self.strategy_id,
            terminal_reason: self.terminal_reason,
            num_transitions: self.num_transitions,
            total_reward: self.total_reward,
            return_g0: self.return_g0,
            duration_ns: self.duration_ns,
            returns: discounted_rewards,
            transitions,
        }
    }
}

/// Parameters of the evaluation.
#[derive(Debug, Clone, Copy, PartialEq, Eq, Structural)]
pub struct McEvalConfig {
    pub reward: RewardConfig,
}

impl Default for McEvalConfig {
    fn default() -> (r: McEvalConfig)
        ensures
            call_ensures(RewardConfig::default, (), r.reward),
    {
        McEvalConfig { reward: RewardConfig::default() }
    }
}

/// What an evaluator knows.
pub ghost struct EvaluatorModel {
    pub config: McEvalConfig,
    pub active_a: Option<BufferModel>,
    pub active_b: Option<BufferModel>,
    pub active_c: Option<BufferModel>,
    pub completed: Seq<ResultModel>,
}

impl EvaluatorModel {
    /// The episode of a strategy that is under way.
    pub open spec fn active(self, strategy_id: StrategyId) -> Option<BufferModel> {
        match strategy_id {
            StrategyId::A => self.active_a,
            StrategyId::B => self.active_b,
            StrategyId::C => self.active_c,
        }
    }

    /// The evaluator with another episode of a strategy under way, or none.
    pub open spec fn with(self, strategy_id: StrategyId, buffer: Option<BufferModel>) -> EvaluatorModel {
        match strategy_id {
            StrategyId::A => EvaluatorModel { active_a: buffer, ..self },
            StrategyId::B => EvaluatorModel { active_b: buffer, ..self },
            StrategyId::C => EvaluatorModel { active_c: buffer, ..self },
        }
    }

    /// The finished episodes of a strategy.
    pub open spec fn completed_for(self, strategy_id: StrategyId) -> Seq<ResultModel> {
        self.completed.filter(|result: ResultModel| result.strategy_id == strategy_id)
    }
}

/// Records the episodes of the strategies and lets the Q-function learn from them.
pub struct McEvaluator {
    pub config: McEvalConfig,
    pub active_a: Option<EpisodeBuffer>,
    pub active_b: Option<EpisodeBuffer>,
    pub active_c: Option<EpisodeBuffer>,
    /// The finished episodes.
    pub completed_episodes: Vec<EpisodeResult>,
}

/// What an episode that may be under way holds.
pub open spec fn buffer_view(buffer: Option<EpisodeBuffer>) -> Option<BufferModel> {
    match buffer {
        Some(buffer) => Some(buffer@),
        None => None,
    }
}

/// What finished episodes hold.
pub open spec fn results_view(results: Seq<EpisodeResult>) -> Seq<ResultModel> {
    Seq::new(results.len(), |i: int| results[i]@)
}

impl View for McEvaluator {
    type V = EvaluatorModel;

    open spec fn view(&self) -> EvaluatorModel {
        EvaluatorModel {
            config: self.config,
            active_a: buffer_view(self.active_a),
            active_b: buffer_view(self.active_b),
            active_c: buffer_view(self.active_c),
            completed: results_view(self.completed_episodes@),
        }
    }
}

/// The equity of a strategy: what it has won and what its position is worth.
pub open spec fn equity_in(state: StateSnapshot, strategy_id: StrategyId) -> Scalar {
    match state.held(strategy_id) {
        Some(position) => position.realized_pnl.plus(position.unrealized_pnl),
        None => Scalar::of_int(0),
    }
}

/// The size of the position of a strategy.
pub open spec fn size_in(state: StateSnapshot, strategy_id: StrategyId) -> Scalar {
    match state.held(strategy_id) {
        Some(position) => position.size,
        None => Scalar::of_int(0),
    }
}

/// The equity of a strategy.
pub fn state_equity(state: &StateSnapshot, strategy_id: StrategyId) -> (r: Scalar)
    ensures
        r == equity_in(*state, strategy_id),
{
    match state.position(strategy_id) {
        Some(position) => position.realized_pnl.add(position.unrealized_pnl),
        None => Scalar::from_u64(0),
    }
}

/// The size of the position of a strategy.
pub fn state_position_size(state: &StateSnapshot, strategy_id: StrategyId) -> (r: Scalar)
    ensures
        r == size_in(*state, strategy_id),
{
    match state.position(strategy_id) {
        Some(position) => position.size,
        None => Scalar::from_u64(0),
    }
}

/// One step of learning: the action that was taken learns its return.
pub open spec fn learns(
    before: QFunction,
    after: QFunction,
    step: TransitionModel,
    target: Scalar,
    r: UpdateResult,
) -> bool {
    &&& after.valid()
    &&& after == before.with(step.action, after.of(step.action))
    &&& after.of(step.action).observed(before.of(step.action), step.phi, target, r)
}

/// How many steps there are to learn from: those that have a return.
pub open spec fn paired(transitions: Seq<TransitionModel>, targets: Seq<Scalar>) -> nat {
    if transitions.len() <= targets.len() {
        transitions.len()
    } else {
        targets.len()
    }
}

/// How often the first `n` steps took an action.
pub open spec fn times_taken(transitions: Seq<TransitionModel>, n: int, action: QAction) -> nat
    decreases n,
{
    if n <= 0 {
        0
    } else {
        times_taken(transitions, n - 1, action) + if transitions[n - 1].action == action {
            1nat
        } else {
            0
        }
    }
}

/// `trace` leads from one Q-function to another, a step of an episode at a time.
pub open spec fn learning(
    trace: Seq<QFunction>,
    transitions: Seq<TransitionModel>,
    targets: Seq<Scalar>,
    results: Seq<UpdateResult>,
) -> bool {
    &&& trace.len() == paired(transitions, targets) + 1
    &&& results.len() == paired(transitions, targets)
    &&& forall|i: int|
        0 <= i < paired(transitions, targets) ==> #[trigger] learns(
            trace[i],
            trace[i + 1],
            transitions[i],
            targets[i],
            results[i],
        )
}

/// `after` has learnt from every step of an episode that has a return, in their order.
pub open spec fn learnt(
    before: QFunction,
    after: QFunction,
    result: ResultModel,
    results: Seq<UpdateResult>,
) -> bool {
    exists|trace: Seq<QFunction>| #[trigger]
        learning(trace, result.transitions, result.returns, results) && trace[0] == before
            && trace.last() == after
}

/// More steps take an action no less often.
proof fn taken_more_often(transitions: Seq<TransitionModel>, k: int, n: int, action: QAction)
    requires
        k <= n,
    ensures
        times_taken(transitions, k, action) <= times_taken(transitions, n, action),
    decreases n - k,
{
    if k < n {
        taken_more_often(transitions, k, n - 1, action);
    }
}

/// The Q-function can learn from the steps: their features have its dimension, and its counts
/// of observations do not overflow.
pub open spec fn can_learn(q: QFunction, result: ResultModel) -> bool {
    let n = paired(result.transitions, result.returns) as int;
    &&& q.valid()
    &&& forall|i: int| 0 <= i < n ==> (#[trigger] result.transitions[i]).phi.len() == q.dim
    &&& forall|action: QAction|
        (#[trigger] q.of(action)).n_observations + times_taken(result.transitions, n, action)
            <= usize::MAX
}

/// The Q-function learns from every step of an episode that has a return.
fn update_q_function(q_function: &mut QFunction, result: &EpisodeResult) -> (r: Vec<UpdateResult>)
    requires
        can_learn(*old(q_function), result@),
    ensures
        final(q_function).valid(),
        learnt(*old(q_function), *final(q_function), result@, r@),
{
    let mut results: Vec<UpdateResult> = Vec::new();
    let ghost mut trace: Seq<QFunction> = seq![*q_function];
    let ghost before = *q_function;
    let ghost transitions = result@.transitions;
    let mut i: usize = 0;
    while i < result.transitions.len() && i < result.returns.len()
        invariant
            before == *old(q_function),
            can_learn(before, result@),
            transitions == result@.transitions,
            i <= paired(transitions, result@.returns),
            q_function.valid(),
            q_function.dim == before.dim,
            forall|action: QAction|
                (#[trigger] q_function.of(action)).n_observations == before.of(
                    action,
                ).n_observations + times_taken(transitions, i as int, action),
            trace.len() == i + 1,
            trace[0] == before,
            trace[i as int] == *q_function,
            results@.len() == i,
            forall|j: int|
                0 <= j < i ==> #[trigger] learns(
                    trace[j],
                    trace[j + 1],
                    transitions[j],
                    result@.returns[j],
                    results@[j],
                ),
        decreases result.transitions@.len() - i,
    {
        let transition = &result.transitions[i];
        assert(transitions[i as int] == transition@);
        assert(transitions[i as int].phi.len() == before.dim);
        let ghost here = *q_function;
        assert(here.of(transition.action).n_observations < usize::MAX) by {
            let n = paired(transitions, result@.returns) as int;
            taken_more_often(transitions, i + 1, n, transition.action);
            assert(before.of(transition.action).n_observations + times_taken(
                transitions,
                n,
                transition.action,
            ) <= usize::MAX);
        }
        let outcome = q_function.update(transition.action, &transition.phi, result.returns[i]);
        results.push(outcome);
        proof {
            let longer = trace.push(*q_function);
            assert(learns(
                longer[i as int],
                longer[i + 1],
                transitions[i as int],
                result@.returns[i as int],
                results@[i as int],
            ));
            assert forall|j: int| 0 <= j < i + 1 implies #[trigger] learns(
                longer[j],
                longer[j + 1],
                transitions[j],
                result@.returns[j],
                results@[j],
            ) by {
                if j < i {
                    assert(learns(
                        trace[j],
                        trace[j + 1],
                        transitions[j],
                        result@.returns[j],
                        results@[j],
                    ));
                }
            }
            assert forall|action: QAction|
                (#[trigger] q_function.of(action)).n_observations == before.of(
                    action,
                ).n_observations + times_taken(transitions, i + 1, action) by {
                assert(here.of(action).n_observations == before.of(action).n_observations
                    + times_taken(transitions, i as int, action));
            }
            trace = longer;
        }
        i = i + 1;
    }
    assert(learning(trace, transitions, result@.returns, results@));
    results
}

impl McEvaluator {
    /// An evaluator with no episodes.
    pub fn new(config: McEvalConfig) -> (r: McEvaluator)
        ensures
            r@ == (EvaluatorModel {
                config,
                active_a: None,
                active_b: None,
                active_c: None,
                completed: Seq::empty(),
            }),
    {
        let r = McEvaluator {
            config,
            active_a: None,
            active_b: None,
            active_c: None,
            completed_episodes: Vec::new(),
        };
        assert(r@.completed =~= Seq::empty());
        r
    }

    /// Begins an episode of a strategy that has none under way.
    pub fn start_episode(
        &mut self,
        strategy_id: StrategyId,
        timestamp_ns: u64,
        initial_equity: Scalar,
    )
        requires
            old(self)@.active(strategy_id) is None,
        ensures
            final(self)@ == old(self)@.with(
                strategy_id,
                Some(BufferModel::fresh(strategy_id, timestamp_ns, initial_equity)),
            ),
    {
        let buffer = EpisodeBuffer::new(strategy_id, timestamp_ns, initial_equity);
        match strategy_id {
            StrategyId::A => {
                self.active_a = Some(buffer);
            },
            StrategyId::B => {
                self.active_b = Some(buffer);
            },
            StrategyId::C => {
                self.active_c = Some(buffer);
            },
        }
    }

    /// Whether a strategy has an episode under way.
    pub fn has_active_episode(&self, strategy_id: StrategyId) -> (r: bool)
        ensures
            r == (self@.active(strategy_id) is Some),
    {
        self.active_episode(strategy_id).is_some()
    }

    /// Records a step of the episode of a strategy, with the reward that the account shows.
    pub fn record_transition(
        &mut self,
        strategy_id: StrategyId,
        timestamp_ns: u64,
        action: QAction,
        phi: Vec<Scalar>,
        state: &StateSnapshot,
        price_volatility_sq: Scalar,
    )
        requires
            old(self)@.active(strategy_id) is Some,
        ensures
            final(self)@ == old(self)@.with(
                strategy_id,
                Some(
                    old(self)@.active(strategy_id)->0.with(
                        timestamp_ns,
                        action,
                        phi@,
                        equity_in(*state, strategy_id),
                        size_in(*state, strategy_id),
                        price_volatility_sq,
                        old(self)@.config.reward,
                    ),
                ),
            ),
    {
        let equity = state_equity(state, strategy_id);
        let size = state_position_size(state, strategy_id);
        let config = self.config.reward;
        let taken = match strategy_id {
            StrategyId::A => self.active_a.take(),
            StrategyId::B => self.active_b.take(),
            StrategyId::C => self.active_c.take(),
        };
        let mut buffer = taken.unwrap();
        buffer.record(timestamp_ns, action, phi, equity, size, price_volatility_sq, &config);
        match strategy_id {
            StrategyId::A => {
                self.active_a = Some(buffer);
            },
            StrategyId::B => {
                self.active_b = Some(buffer);
            },
            StrategyId::C => {
                self.active_c = Some(buffer);
            },
        }
    }

    /// Ends the episode of a strategy and puts its result on record.
    pub fn end_episode(
        &mut self,
        strategy_id: StrategyId,
        reason: TerminalReason,
        end_timestamp_ns: u64,
    ) -> (r: EpisodeResult)
        requires
            old(self)@.active(strategy_id) is Some,
        ensures
            r@ == result_of(
                old(self)@.active(strategy_id)->0,
                reason,
                end_timestamp_ns,
                old(self)@.config.reward.gamma,
            ),
            final(self)@ == (EvaluatorModel {
                completed: old(self)@.completed.push(r@),
                ..old(self)@.with(strategy_id, None)
            }),
    {
        let taken = match strategy_id {
            StrategyId::A => self.active_a.take(),
            StrategyId::B => self.active_b.take(),
            StrategyId::C => self.active_c.take(),
        };
        let result = Self::compute_episode_result(
            taken.unwrap(),
            reason,
            end_timestamp_ns,
            self.config.reward.gamma,
        );
        let ghost before = self.completed_episodes@;
        self.completed_episodes.push(result.duplicate());
        assert(results_view(self.completed_episodes@) =~= results_view(before).push(result@));
        result
    }

    /// Ends the episode of a strategy and lets the Q-function learn from it.
    pub fn end_episode_and_update(
        &mut self,
        strategy_id: StrategyId,
        reason: TerminalReason,
        end_timestamp_ns: u64,
        q_function: &mut QFunction,
    ) -> (r: (EpisodeResult, Vec<UpdateResult>))
        requires
            old(self)@.active(strategy_id) is Some,
            can_learn(
                *old(q_function),
                result_of(
                    old(self)@.active(strategy_id)->0,
                    reason,
                    end_timestamp_ns,
                    old(self)@.config.reward.gamma,
                ),
            ),
        ensures
            r.0@ == result_of(
                old(self)@.active(strategy_id)->0,
                reason,
                end_timestamp_ns,
                old(self)@.config.reward.gamma,
            ),
            final(self)@ == (EvaluatorModel {
                completed: old(self)@.completed.push(r.0@),
                ..old(self)@.with(strategy_id, None)
            }),
            final(q_function).valid(),
            learnt(*old(q_function), *final(q_function), r.0@, r.1@),
    {
        let result = self.end_episode(strategy_id, reason, end_timestamp_ns);
        let update_results = update_q_function(q_function, &result);
        (result, update_results)
    }

    /// Lets the Q-function learn from a finished episode.
    pub fn update_from_result(q_function: &mut QFunction, result: &EpisodeResult) -> (r: Vec<
        UpdateResult,
    >)
        requires
            can_learn(*old(q_function), result@),
        ensures
            final(q_function).valid(),
            learnt(*old(q_function), *final(q_function), result@, r@),
    {
        update_q_function(q_function, result)
    }

    /// How many episodes are finished.
    pub fn completed_count(&self) -> (r: usize)
        ensures
            r == self@.completed.len(),
    {
        self.completed_episodes.len()
    }

    /// How many episodes of a strategy are finished.
    pub fn completed_count_for(&self, strategy_id: StrategyId) -> (r: usize)
        ensures
            r == self@.completed_for(strategy_id).len(),
    {
        self.episodes_for(strategy_id).len()
    }

    /// The episode of a strategy that is under way.
    pub fn active_episode(&self, strategy_id: StrategyId) -> (r: Option<&EpisodeBuffer>)
        ensures
            r matches Some(buffer) ==> self@.active(strategy_id) == Some(buffer@),
            r is None ==> self@.active(strategy_id) is None,
    {
        match strategy_id {
            StrategyId::A => self.active_a.as_ref(),
            StrategyId::B => self.active_b.as_ref(),
            StrategyId::C => self.active_c.as_ref(),
        }
    }

    /// The finished episodes of a strategy.
    pub fn episodes_for(&self, strategy_id: StrategyId) -> (r: Vec<&EpisodeResult>)
        ensures
            Seq::new(r@.len(), |i: int| r@[i]@) == self@.completed_for(strategy_id),
    {
        let mut r: Vec<&EpisodeResult> = Vec::new();
        let mut i: usize = 0;
        let ghost all = self@.completed;
        let ghost wanted = |result: ResultModel| result.strategy_id == strategy_id;
        proof {
            reveal(Seq::filter);
            assert(all.take(0) =~= Seq::empty());
            assert(Seq::new(r@.len(), |j: int| r@[j]@) =~= Seq::empty());
        }
        while i < self.completed_episodes.len()
            invariant
                all == self@.completed,
                wanted == (|result: ResultModel| result.strategy_id == strategy_id),
                i <= self.completed_episodes@.len(),
                Seq::new(r@.len(), |j: int| r@[j]@) == all.take(i as int).filter(wanted),
            decreases self.completed_episodes@.len() - i,
        {
            let result = &self.completed_episodes[i];
            let ghost before = Seq::new(r@.len(), |j: int| r@[j]@);
            proof {
                reveal(Seq::filter);
                assert(all.take(i + 1).drop_last() =~= all.take(i as int));
                assert(all.take(i + 1).last() == result@);
            }
            if result.strategy_id == strategy_id {
                r.push(result);
                assert(Seq::new(r@.len(), |j: int| r@[j]@) =~= before.push(result@));
            }
            i = i + 1;
        }
        assert(all.take(i as int) =~= all);
        r
    }

    /// The discounted return of each step: its reward and the discounted return of the next.
    pub fn compute_returns(rewards: &[Scalar], gamma: Scalar) -> (r: Vec<Scalar>)
        ensures
            r@ == returns_of(rewards@, gamma),
    {
        let n = rewards.len();
        let mut gains = linalg::zero_vector(n);
        let mut g = Scalar::from_u64(0);
        let mut i: usize = n;
        while i > 0
            invariant
                n == rewards@.len(),
                i <= n,
                gains@.len() == n,
                g == discounted(rewards@, gamma, i as int),
                forall|j: int| i <= j < n ==> gains@[j] == discounted(rewards@, gamma, j),
            decreases i,
        {
            i = i - 1;
            g = rewards[i].add(gamma.mul(g));
            gains.set(i, g);
        }
        assert(gains@ =~= returns_of(rewards@, gamma));
        gains
    }

    /// Parameters of the reward.
    pub fn reward_config(&self) -> (r: &RewardConfig)
        ensures
            *r == self@.config.reward,
    {
        &self.config.reward
    }

    /// The result of an episode.
    fn compute_episode_result(
        buffer: EpisodeBuffer,
        reason: TerminalReason,
        end_timestamp_ns: u64,
        gamma: Scalar,
    ) -> (r: EpisodeResult)
        ensures
            r@ == result_of(buffer@, reason, end_timestamp_ns, gamma),
    {
        let mut rewards: Vec<Scalar> = Vec::new();
        let mut total_reward = Scalar::from_u64(0);
        let mut i: usize = 0;
        while i < buffer.transitions.len()
            invariant
                i <= buffer.transitions@.len(),
                rewards@ == rewards_of(buffer@.transitions).take(i as int),
                total_reward == linalg::running_sum(rewards_of(buffer@.transitions), i as int),
            decreases buffer.transitions@.len() - i,
        {
            let reward = buffer.transitions[i].reward;
            rewards.push(reward);
            total_reward = total_reward.add(reward);
            i = i + 1;
            assert(rewards@ =~= rewards_of(buffer@.transitions).take(i as int));
        }
        assert(rewards@ =~= rewards_of(buffer@.transitions));
        let gains = Self::compute_returns(&rewards, gamma);
        let return_g0 = if gains.len() > 0 {
            gains[0]
        } else {
            Scalar::from_u64(0)
        };
        let duration_ns = if end_timestamp_ns >= buffer.start_timestamp_ns {
            end_timestamp_ns - buffer.start_timestamp_ns
        } else {
            0
        };
        EpisodeResult {
            strategy_id: buffer.strategy_id,
            terminal_reason: reason,
            num_transitions: buffer.transitions.len(),
            total_reward,
            return_g0,
            duration_ns,
            returns: gains,
            transitions: buffer.transitions,
        }
    }
}

// ---------------------------------------------------------------------------------------------
// Laws.
// ---------------------------------------------------------------------------------------------

/// The equity peak never falls, and no recorded equity is above it.
pub proof fn equity_peak_never_falls(
    buffer: BufferModel,
    timestamp_ns: u64,
    action: QAction,
    phi: Seq<Scalar>,
    equity: Scalar,
    size: Scalar,
    price_volatility_sq: Scalar,
    config: RewardConfig,
)
    requires
        !buffer.equity_peak.nan(),
        !equity.nan(),
    ensures
        ({
            let after = buffer.with(
                timestamp_ns,
                action,
                phi,
                equity,
                size,
                price_volatility_sq,
                config,
            );
            buffer.equity_peak.at_most(after.equity_peak) && equity.at_most(after.equity_peak)
        }),
{
}

/// The drawdown that a reward counts is never above the cap, and not below zero unless the cap
/// is.
pub proof fn drawdown_is_capped(peak: Scalar, equity: Scalar, cap: Scalar)
    requires
        !cap.nan(),
    ensures
        capped_drawdown(peak, equity, cap).at_most(cap),
        Scalar::of_int(0).at_most(cap) ==> Scalar::of_int(0).at_most(
            capped_drawdown(peak, equity, cap),
        ),
{
    order::int_is_exact(0);
}

/// A finished episode has one return for each step, its first return is the return of the whole
/// episode, and every return is the reward of its step and the discounted next one.
pub proof fn returns_align_with_steps(
    buffer: BufferModel,
    reason: TerminalReason,
    end_timestamp_ns: u64,
    gamma: Scalar,
)
    ensures
        ({
            let result = result_of(buffer, reason, end_timestamp_ns, gamma);
            &&& result.returns.len() == result.transitions.len()
            &&& result.num_transitions == result.transitions.len()
            &&& result.returns.len() > 0 ==> result.return_g0 == result.returns[0]
            &&& forall|i: int|
                #![trigger result.returns[i]]
                0 <= i < result.returns.len() ==> result.returns[i]
                    == result.transitions[i].reward.plus(
                    gamma.times(
                        if i + 1 < result.returns.len() {
                            result.returns[i + 1]
                        } else {
                            Scalar::of_int(0)
                        },
                    ),
                )
        }),
{
    let result = result_of(buffer, reason, end_timestamp_ns, gamma);
    let rewards = rewards_of(buffer.transitions);
    assert forall|i: int| 0 <= i < result.returns.len() implies #[trigger] result.returns[i]
        == result.transitions[i].reward.plus(
        gamma.times(
            if i + 1 < result.returns.len() {
                result.returns[i + 1]
            } else {
                Scalar::of_int(0)
            },
        ),
    ) by {
        assert(result.returns[i] == discounted(rewards, gamma, i));
        assert(discounted(rewards, gamma, i + 1) == if i + 1 < result.returns.len() {
            result.returns[i + 1]
        } else {
            Scalar::of_int(0)
        });
    }
}

/// Learning is on-policy: an action that no step took has learnt nothing.
pub proof fn untaken_actions_learn_nothing(
    before: QFunction,
    after: QFunction,
    result: ResultModel,
    results: Seq<UpdateResult>,
    action: QAction,
)
    requires
        learnt(before, after, result, results),
        times_taken(
            result.transitions,
            paired(result.transitions, result.returns) as int,
            action,
        ) == 0,
    ensures
        after.of(action) == before.of(action),
{
    let trace = choose|trace: Seq<QFunction>| #[trigger]
        learning(trace, result.transitions, result.returns, results) && trace[0] == before
            && trace.last() == after;
    let n = paired(result.transitions, result.returns) as int;
    untaken_along(trace, result, results, action, n);
}

proof fn untaken_along(
    trace: Seq<QFunction>,
    result: ResultModel,
    results: Seq<UpdateResult>,
    action: QAction,
    k: int,
)
    requires
        learning(trace, result.transitions, result.returns, results),
        0 <= k <= paired(result.transitions, result.returns),
        times_taken(result.transitions, k, action) == 0,
    ensures
        trace[k].of(action) == trace[0].of(action),
    decreases k,
{
    if k > 0 {
        untaken_along(trace, result, results, action, k - 1);
        assert(learns(
            trace[k - 1],
            trace[k - 1 + 1],
            result.transitions[k - 1],
            result.returns[k - 1],
            results[k - 1],
        ));
    }
}

/// Each action learns as often as it was taken: its count of observations grows by the number of
/// steps that took it, and there is one outcome for each step that has a return.
pub proof fn actions_learn_as_often_as_taken(
    before: QFunction,
    after: QFunction,
    result: ResultModel,
    results: Seq<UpdateResult>,
    action: QAction,
)
    requires
        learnt(before, after, result, results),
    ensures
        after.of(action).n_observations == before.of(action).n_observations + times_taken(
            result.transitions,
            paired(result.transitions, result.returns) as int,
            action,
        ),
        results.len() == paired(result.transitions, result.returns),
{
    let trace = choose|trace: Seq<QFunction>| #[trigger]
        learning(trace, result.transitions, result.returns, results) && trace[0] == before
            && trace.last() == after;
    taken_along(trace, result, results, action, paired(result.transitions, result.returns) as int);
}

proof fn taken_along(
    trace: Seq<QFunction>,
    result: ResultModel,
    results: Seq<UpdateResult>,
    action: QAction,
    k: int,
)
    requires
        learning(trace, result.transitions, result.returns, results),
        0 <= k <= paired(result.transitions, result.returns),
    ensures
        trace[k].of(action).n_observations == trace[0].of(action).n_observations + times_taken(
            result.transitions,
            k,
            action,
        ),
    decreases k,
{
    if k > 0 {
        taken_along(trace, result, results, action, k - 1);
        assert(learns(
            trace[k - 1],
            trace[k - 1 + 1],
            result.transitions[k - 1],
            result.returns[k - 1],
            results[k - 1],
        ));
    }
}

/// Strategies are rewarded apart: a step of one leaves the episodes of the others as they are, and
/// what it is rewarded does not depend on their positions.
pub proof fn strategies_are_rewarded_apart(
    evaluator: EvaluatorModel,
    strategy_id: StrategyId,
    other: StrategyId,
    state: StateSnapshot,
    elsewhere: StateSnapshot,
    buffer: BufferModel,
)
    requires
        strategy_id != other,
        state.held(strategy_id) == elsewhere.held(strategy_id),
    ensures
        evaluator.with(strategy_id, Some(buffer)).active(other) == evaluator.active(other),
        evaluator.with(strategy_id, Some(buffer)).active(strategy_id) == Some(buffer),
        evaluator.with(strategy_id, Some(buffer)).completed == evaluator.completed,
        equity_in(state, strategy_id) == equity_in(elsewhere, strategy_id),
        size_in(state, strategy_id) == size_in(elsewhere, strategy_id),
{
}

/// A stronger discount never makes the return of rewards that are not negative larger.
pub proof fn discounting_lowers_returns(rewards: Seq<Scalar>, lower: Scalar, higher: Scalar, i: int)
    requires
        0 <= i <= rewards.len(),
        order::nonnegative(lower),
        order::nonnegative(higher),
        lower.at_most(higher),
        forall|j: int|
            0 <= j < rewards.len() ==> order::nonnegative(#[trigger] rewards[j]),
        forall|j: int|
            0 <= j <= rewards.len() ==> (#[trigger] discounted(rewards, higher, j)).finite(),
    ensures
        discounted(rewards, lower, i).at_most(discounted(rewards, higher, i)),
        order::nonnegative(discounted(rewards, lower, i)),
    decreases rewards.len() - i,
{
    order::int_is_exact(0);
    let zero = Scalar::of_int(0);
    order::no_negative_rank(zero);
    if i < rewards.len() {
        discounting_lowers_returns(rewards, lower, higher, i + 1);
        let a = discounted(rewards, lower, i + 1);
        let b = discounted(rewards, higher, i + 1);
        let r = rewards[i];
        assert(discounted(rewards, higher, i).finite());
        assert(b.finite());
        order::order_is_order_of_values(a, b);
        order::order_is_order_of_values(lower, higher);
        let one = scalar::one_unit();
        let la = lower.value() * a.value();
        let hb = higher.value() * b.value();
        assert(0 <= la <= hb) by (nonlinear_arith)
            requires
                la == lower.value() * a.value(),
                hb == higher.value() * b.value(),
                0 <= lower.value() <= higher.value(),
                0 <= a.value() <= b.value(),
        ;
        assert(0 <= la * one <= hb * one) by (nonlinear_arith)
            requires
                0 <= la <= hb,
                one > 0,
        ;
        order::times_is_near(lower, a);
        order::times_is_near(higher, b);
        order::near_itself(zero, one);
        order::near_keeps_order(la, one, hb, one);
        order::near_keeps_order(0, one, la, one);
        let x = lower.times(a);
        let y = higher.times(b);
        if !y.finite() {
            reveal(Scalar::plus);
        }
        assert(y.finite() && x.finite());
        order::order_is_order_of_values(x, y);
        order::order_is_order_of_values(zero, x);
        order::plus_is_near(r, x);
        order::plus_is_near(r, y);
        order::near_itself(zero, 1);
        order::near_keeps_order(r.value() + x.value(), 1, r.value() + y.value(), 1);
        order::near_keeps_order(0, 1, r.value() + x.value(), 1);
        order::order_is_order_of_values(zero, discounted(rewards, lower, i));
    }
}

} // verus!
