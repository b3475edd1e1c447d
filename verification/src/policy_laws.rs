//! What the strategies and the policy bring to a decision: their own position, rules and costs.

use crate::bayesian_lr::{ActionDraws, QAction, QFunction};
use crate::change_point;
use crate::change_point::{ChangePointConfig, ChangeSeverity};
use crate::decision;
use crate::features::FeatureVector;
use crate::mc_eval::{BufferModel, EvaluatorModel, ResultModel};
use crate::order;
use crate::relations;
use crate::scalar::Scalar;
use crate::state::{StateSnapshot, StrategyId};
use crate::strategy_a::{StrategyA, StrategyAConfig};
use crate::strategy_b::{StrategyB, StrategyBConfig};
use crate::strategy_c::{StrategyC, StrategyCConfig};
use crate::thompson_sampling::{ThompsonSamplingConfig, ThompsonSamplingPolicy};
use vstd::prelude::*;

verus! {

// ---------------------------------------------------------------------------------------------
// What a choice is made of.
// ---------------------------------------------------------------------------------------------

/// A choice values buying and selling by what was sampled of them less the cost of a trade, and
/// holding by what was sampled of it; the point estimates bear no cost.
pub proof fn a_choice_pays_its_cost(
    q: QFunction,
    phi: Seq<Scalar>,
    draws: ActionDraws,
    features: FeatureVector,
    state: StateSnapshot,
    k: Scalar,
    latency_ms: Scalar,
    checks_consistency: bool,
    rules: decision::TradeRules,
)
    requires
        q.samples(phi, draws).buy.finite(),
        q.samples(phi, draws).sell.finite(),
        !q.samples(phi, draws).hold.nan(),
        decision::trade_cost(features, q.buy.sigma2_noise, k, latency_ms, rules).finite(),
    ensures
        ({
            let choice = decision::choice_of(
                q,
                phi,
                draws,
                features,
                state,
                k,
                latency_ms,
                checks_consistency,
                rules,
            );
            let raw = q.samples(phi, draws);
            let cost = decision::trade_cost(features, q.buy.sigma2_noise, k, latency_ms, rules);
            &&& relations::rounds(choice.sampled.buy, raw.buy.value() - cost.value(), 1)
            &&& relations::rounds(choice.sampled.sell, raw.sell.value() - cost.value(), 1)
            &&& choice.sampled.hold.level(raw.hold)
            &&& choice.points == q.estimates(phi)
            &&& choice.deviations == q.deviations(phi)
            &&& choice.consistency_fallback <==> checks_consistency && decision::undecided(
                choice.sampled.buy,
                choice.sampled.sell,
                rules.consistency_threshold,
            )
        }),
{
    let raw = q.samples(phi, draws);
    let cost = decision::trade_cost(features, q.buy.sigma2_noise, k, latency_ms, rules);
    relations::zero_and_one();
    order::minus_is_near(raw.buy, cost);
    order::minus_is_near(raw.sell, cost);
    relations::adding_nothing(raw.hold, Scalar::of_int(0));
}

/// The first strategy pays the costs that its own parameters say, and never trades both ways at
/// once: where buying and selling look equally good it holds.
pub proof fn the_first_strategy_pays_its_costs(
    s: StrategyA,
    features: FeatureVector,
    state: StateSnapshot,
    latency_ms: Scalar,
    decayed: Scalar,
    draws: ActionDraws,
)
    requires
        s.q_function.samples(crate::strategy_a::features_a(features, decayed), draws).buy.finite(),
        s.q_function.samples(crate::strategy_a::features_a(features, decayed), draws).sell.finite(),
        !s.q_function.samples(crate::strategy_a::features_a(features, decayed), draws).hold.nan(),
        decision::trade_cost(
            features,
            s.q_function.buy.sigma2_noise,
            s.config.non_model_uncertainty_k,
            latency_ms,
            s.config.trade_rules(),
        ).finite(),
    ensures
        ({
            let choice = s.choice(features, state, latency_ms, decayed, draws);
            let raw = s.q_function.samples(
                crate::strategy_a::features_a(features, decayed),
                draws,
            );
            let cost = decision::trade_cost(
                features,
                s.q_function.buy.sigma2_noise,
                s.config.non_model_uncertainty_k,
                latency_ms,
                s.config.trade_rules(),
            );
            &&& relations::rounds(choice.sampled.buy, raw.buy.value() - cost.value(), 1)
            &&& relations::rounds(choice.sampled.sell, raw.sell.value() - cost.value(), 1)
            &&& decision::undecided(
                choice.sampled.buy,
                choice.sampled.sell,
                s.config.consistency_threshold,
            ) ==> choice.action is Hold
        }),
{
    a_choice_pays_its_cost(
        s.q_function,
        crate::strategy_a::features_a(features, decayed),
        draws,
        features,
        state,
        s.config.non_model_uncertainty_k,
        latency_ms,
        true,
        s.config.trade_rules(),
    );
}

/// The second strategy pays the costs that its own parameters say, and holds where buying and
/// selling look equally good.
pub proof fn the_second_strategy_pays_its_costs(
    s: StrategyB,
    features: FeatureVector,
    state: StateSnapshot,
    latency_ms: Scalar,
    decayed: Scalar,
    draws: ActionDraws,
)
    requires
        s.q_function.samples(crate::strategy_b::features_b(features, decayed), draws).buy.finite(),
        s.q_function.samples(crate::strategy_b::features_b(features, decayed), draws).sell.finite(),
        !s.q_function.samples(crate::strategy_b::features_b(features, decayed), draws).hold.nan(),
        decision::trade_cost(
            features,
            s.q_function.buy.sigma2_noise,
            s.config.non_model_uncertainty_k,
            latency_ms,
            s.config.trade_rules(),
        ).finite(),
    ensures
        ({
            let choice = s.choice(features, state, latency_ms, decayed, draws);
            let raw = s.q_function.samples(
                crate::strategy_b::features_b(features, decayed),
                draws,
            );
            let cost = decision::trade_cost(
                features,
                s.q_function.buy.sigma2_noise,
                s.config.non_model_uncertainty_k,
                latency_ms,
                s.config.trade_rules(),
            );
            &&& relations::rounds(choice.sampled.buy, raw.buy.value() - cost.value(), 1)
            &&& relations::rounds(choice.sampled.sell, raw.sell.value() - cost.value(), 1)
            &&& decision::undecided(
                choice.sampled.buy,
                choice.sampled.sell,
                s.config.consistency_threshold,
            ) ==> choice.action is Hold
        }),
{
    a_choice_pays_its_cost(
        s.q_function,
        crate::strategy_b::features_b(features, decayed),
        draws,
        features,
        state,
        s.config.non_model_uncertainty_k,
        latency_ms,
        true,
        s.config.trade_rules(),
    );
}

/// The third strategy pays the costs that its own parameters say. Where buying and selling look
/// equally good it holds, once it has learnt twenty times of each; before that it does not ask.
pub proof fn the_third_strategy_pays_its_costs(
    s: StrategyC,
    features: FeatureVector,
    state: StateSnapshot,
    latency_ms: Scalar,
    time_weight: Scalar,
    decayed: Scalar,
    draws: ActionDraws,
)
    requires
        ({
            let phi = crate::strategy_c::features_c(features, time_weight, decayed);
            &&& s.q_function.samples(phi, draws).buy.finite()
            &&& s.q_function.samples(phi, draws).sell.finite()
            &&& !s.q_function.samples(phi, draws).hold.nan()
        }),
        decision::trade_cost(
            features,
            s.q_function.buy.sigma2_noise,
            s.config.non_model_uncertainty_k,
            latency_ms,
            s.config.trade_rules(),
        ).finite(),
    ensures
        ({
            let choice = s.choice(features, state, latency_ms, time_weight, decayed, draws);
            let raw = s.q_function.samples(
                crate::strategy_c::features_c(features, time_weight, decayed),
                draws,
            );
            let cost = decision::trade_cost(
                features,
                s.q_function.buy.sigma2_noise,
                s.config.non_model_uncertainty_k,
                latency_ms,
                s.config.trade_rules(),
            );
            let equal = decision::undecided(
                choice.sampled.buy,
                choice.sampled.sell,
                s.config.consistency_threshold,
            );
            let learnt = s.q_function.buy.n_observations >= 20 && s.q_function.sell.n_observations
                >= 20;
            &&& relations::rounds(choice.sampled.buy, raw.buy.value() - cost.value(), 1)
            &&& relations::rounds(choice.sampled.sell, raw.sell.value() - cost.value(), 1)
            &&& learnt && equal ==> choice.action is Hold
            &&& choice.consistency_fallback <==> learnt && equal
        }),
{
    a_choice_pays_its_cost(
        s.q_function,
        crate::strategy_c::features_c(features, time_weight, decayed),
        draws,
        features,
        state,
        s.config.non_model_uncertainty_k,
        latency_ms,
        s.q_function.buy.n_observations >= 20 && s.q_function.sell.n_observations >= 20,
        s.config.trade_rules(),
    );
}

/// Each strategy looks at its own position only: the positions of the others do not matter to what
/// it holds, nor to when it has to close it.
pub proof fn strategies_look_at_their_own_position(
    a: StrategyA,
    b: StrategyB,
    c: StrategyC,
    features: FeatureVector,
    one: StateSnapshot,
    other: StateSnapshot,
    regime_kl: Scalar,
    now_ns: u64,
)
    ensures
        one.position_a == other.position_a ==> a.situation(features, one, regime_kl, now_ns)
            == a.situation(features, other, regime_kl, now_ns),
        one.position_b == other.position_b ==> b.situation(features, one, regime_kl, now_ns)
            == b.situation(features, other, regime_kl, now_ns),
        one.position_c == other.position_c ==> c.situation(features, one, regime_kl, now_ns)
            == c.situation(features, other, regime_kl, now_ns),
        one.position_a matches Some(p) ==> a.situation(features, one, regime_kl, now_ns).size
            == p.size,
        one.position_b matches Some(p) ==> b.situation(features, one, regime_kl, now_ns).size
            == p.size,
        one.position_c matches Some(p) ==> c.situation(features, one, regime_kl, now_ns).size
            == p.size,
        a.situation(features, one, regime_kl, now_ns).now_ns == now_ns,
        b.situation(features, one, regime_kl, now_ns).now_ns == now_ns,
        c.situation(features, one, regime_kl, now_ns).now_ns == now_ns,
        a.situation(features, one, regime_kl, now_ns).max_hold_time_ms == a.config.max_hold_time_ms,
        b.situation(features, one, regime_kl, now_ns).max_hold_time_ms == b.config.max_hold_time_ms,
        c.situation(features, one, regime_kl, now_ns).max_hold_time_ms == c.config.max_hold_time_ms,
{
}

/// Only the third strategy closes a position on a signal against it; the others keep theirs until
/// their time is up.
pub proof fn only_the_third_strategy_exits_on_signals(
    a: StrategyA,
    b: StrategyB,
    c: StrategyC,
    features: FeatureVector,
    state: StateSnapshot,
    regime_kl: Scalar,
    latency_ms: Scalar,
    now_ns: u64,
    time_weight: Scalar,
    decayed: Scalar,
    draws: ActionDraws,
)
    ensures
        a.verdict(features, state, regime_kl, latency_ms, now_ns, decayed, draws).1.should_close
            ==> decision::timed_out(a.episode.began(), now_ns, a.config.max_hold_time_ms),
        b.verdict(features, state, regime_kl, latency_ms, now_ns, decayed, draws).1.should_close
            ==> decision::timed_out(b.episode.began(), now_ns, b.config.max_hold_time_ms),
        ({
            let d = c.verdict(
                features,
                state,
                regime_kl,
                latency_ms,
                now_ns,
                time_weight,
                decayed,
                draws,
            ).1;
            let under_way = c.episode.began() is Some && decision::holds(state, StrategyId::C)
                && !decision::timed_out(c.episode.began(), now_ns, c.config.max_hold_time_ms);
            under_way ==> (d.should_close <==> decision::trades_against(
                d.action,
                decision::size_held(state, StrategyId::C),
            ))
        }),
{
}

/// The rules of a choice are those that the parameters say.
pub proof fn rules_are_the_parameters(
    a: StrategyAConfig,
    b: StrategyBConfig,
    c: StrategyCConfig,
    t: ThompsonSamplingConfig,
)
    ensures
        a.trade_rules().max_lot_size == a.max_lot_size && a.trade_rules().min_lot_size
            == a.min_lot_size && a.trade_rules().default_lot_size == a.default_lot_size,
        b.trade_rules().max_lot_size == b.max_lot_size && b.trade_rules().min_lot_size
            == b.min_lot_size && b.trade_rules().default_lot_size == b.default_lot_size,
        c.trade_rules().max_lot_size == c.max_lot_size && c.trade_rules().min_lot_size
            == c.min_lot_size && c.trade_rules().default_lot_size == c.default_lot_size,
        t.trade_rules().max_lot_size == t.max_lot_size && t.trade_rules().min_lot_size
            == t.min_lot_size && t.trade_rules().default_lot_size == t.default_lot_size,
        a.trade_rules().latency_penalty_k == a.latency_penalty_k
            && a.trade_rules().min_trade_frequency == a.min_trade_frequency
            && a.trade_rules().trade_frequency_window == a.trade_frequency_window
            && a.trade_rules().consistency_threshold == a.consistency_threshold,
        b.trade_rules().latency_penalty_k == b.latency_penalty_k
            && b.trade_rules().min_trade_frequency == b.min_trade_frequency
            && b.trade_rules().trade_frequency_window == b.trade_frequency_window
            && b.trade_rules().consistency_threshold == b.consistency_threshold,
        c.trade_rules().latency_penalty_k == c.latency_penalty_k
            && c.trade_rules().min_trade_frequency == c.min_trade_frequency
            && c.trade_rules().trade_frequency_window == c.trade_frequency_window
            && c.trade_rules().consistency_threshold == c.consistency_threshold,
        t.trade_rules().latency_penalty_k == t.latency_penalty_k
            && t.trade_rules().min_trade_frequency == t.min_trade_frequency
            && t.trade_rules().trade_frequency_window == t.trade_frequency_window
            && t.trade_rules().consistency_threshold == t.consistency_threshold,
{
}

/// The policy pays the costs that its own parameters say, with the noise weighed by the volatility
/// and the stability of the market, and holds where buying and selling look equally good.
pub proof fn the_policy_pays_for_rough_markets(
    p: ThompsonSamplingPolicy,
    features: FeatureVector,
    state: StateSnapshot,
    latency_ms: Scalar,
    draws: ActionDraws,
)
    requires
        p.q_function.samples(features.flat(), draws).buy.finite(),
        p.q_function.samples(features.flat(), draws).sell.finite(),
        !p.q_function.samples(features.flat(), draws).hold.nan(),
        decision::trade_cost(
            features,
            p.q_function.buy.sigma2_noise,
            crate::thompson_sampling::noise_weight(
                p.config.non_model_uncertainty_k,
                features.realized_volatility,
                crate::thompson_sampling::stability_of(features),
            ),
            latency_ms,
            p.config.trade_rules(),
        ).finite(),
    ensures
        ({
            let choice = p.choice(features, state, latency_ms, draws);
            let raw = p.q_function.samples(features.flat(), draws);
            let cost = decision::trade_cost(
                features,
                p.q_function.buy.sigma2_noise,
                crate::thompson_sampling::noise_weight(
                    p.config.non_model_uncertainty_k,
                    features.realized_volatility,
                    crate::thompson_sampling::stability_of(features),
                ),
                latency_ms,
                p.config.trade_rules(),
            );
            &&& relations::rounds(choice.sampled.buy, raw.buy.value() - cost.value(), 1)
            &&& relations::rounds(choice.sampled.sell, raw.sell.value() - cost.value(), 1)
            &&& decision::undecided(
                choice.sampled.buy,
                choice.sampled.sell,
                p.config.consistency_threshold,
            ) ==> choice.action is Hold
        }),
{
    a_choice_pays_its_cost(
        p.q_function,
        features.flat(),
        draws,
        features,
        state,
        crate::thompson_sampling::noise_weight(
            p.config.non_model_uncertainty_k,
            features.realized_volatility,
            crate::thompson_sampling::stability_of(features),
        ),
        latency_ms,
        true,
        p.config.trade_rules(),
    );
}

// ---------------------------------------------------------------------------------------------
// Responses to change points.
// ---------------------------------------------------------------------------------------------

/// A minor change forgets nothing that was learnt; a major one forgets everything where a full reset
/// is wanted, and else nothing either.
pub proof fn only_a_full_reset_forgets(
    after: QFunction,
    before: QFunction,
    severity: ChangeSeverity,
    config: ChangePointConfig,
    action: QAction,
    phi: Seq<Scalar>,
)
    requires
        change_point::responded(after, before, severity, config),
    ensures
        severity == ChangeSeverity::Minor || !config.major_full_reset ==> {
            &&& after.of(action).n_observations == before.of(action).n_observations
            &&& after.of(action).estimate(phi) == before.of(action).estimate(phi)
            &&& after.of(action).sigma2_noise == before.of(action).sigma2_noise
        },
        severity == ChangeSeverity::Major && config.major_full_reset ==> {
            &&& after.of(action).n_observations == 0
            &&& after.of(action).sigma2_noise == before.initial_sigma2
        },
        severity == ChangeSeverity::Minor ==> after.inflated(
            before,
            config.minor_inflation_factor,
        ),
        severity == ChangeSeverity::Major && !config.major_full_reset ==> after.inflated(
            before,
            config.major_inflation_factor,
        ),
{
}

// ---------------------------------------------------------------------------------------------
// Episodes of several strategies.
// ---------------------------------------------------------------------------------------------

/// The episodes of the strategies are kept apart: what changes for one leaves the others, the
/// finished episodes and the parameters as they were.
pub proof fn episodes_are_kept_apart(
    evaluator: EvaluatorModel,
    strategy_id: StrategyId,
    other: StrategyId,
    buffer: Option<BufferModel>,
)
    ensures
        evaluator.with(strategy_id, buffer).active(strategy_id) == buffer,
        other != strategy_id ==> evaluator.with(strategy_id, buffer).active(other)
            == evaluator.active(other),
        evaluator.with(strategy_id, buffer).completed == evaluator.completed,
        evaluator.with(strategy_id, buffer).config == evaluator.config,
{
}

/// A finished episode of a strategy counts among its own, after those before it, and among no
/// other's.
pub proof fn finished_episodes_count_for_their_strategy(
    evaluator: EvaluatorModel,
    result: ResultModel,
    strategy_id: StrategyId,
)
    ensures
        ({
            let after = EvaluatorModel { completed: evaluator.completed.push(result), ..evaluator };
            &&& result.strategy_id == strategy_id ==> after.completed_for(strategy_id)
                == evaluator.completed_for(strategy_id).push(result)
            &&& result.strategy_id != strategy_id ==> after.completed_for(strategy_id)
                == evaluator.completed_for(strategy_id)
        }),
{
    reveal(Seq::filter);
    let after = evaluator.completed.push(result);
    assert(after.drop_last() =~= evaluator.completed);
}

} // verus!
