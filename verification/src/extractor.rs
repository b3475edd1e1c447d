//! Features from market and execution events.
//!
//! Executions count only once their lag has passed, so that a feature never tells a decision
//! what it could not have known.

use crate::execution_stats::{Execution, FillStatus, LaggedExecutionStats, StatsModel};
use crate::features::FeatureVector;
use crate::order;
use crate::relations;
use crate::rolling;
use crate::rolling::{RollingModel, RollingWindow, VolatilityModel, VolatilityState};
use crate::scalar;
use crate::scalar::Scalar;
use crate::state::{StateSnapshot, StrategyId};
use vstd::prelude::*;

verus! {

/// The largest finite number.
pub const LARGEST_BITS: u64 = 0x7fef_ffff_ffff_ffff;

/// A quote of the market.
#[derive(Debug, Clone, Copy, PartialEq, Eq, Structural)]
pub struct MarketQuote {
    pub bid: Scalar,
    pub ask: Scalar,
    pub bid_size: Scalar,
    pub ask_size: Scalar,
    pub timestamp_ns: u64,
}

/// What is reported of an execution.
#[derive(Debug, Clone, Copy, PartialEq, Eq, Structural)]
pub struct ExecutionReport {
    pub fill_status: FillStatus,
    pub slippage: Scalar,
    pub fill_size: Scalar,
    pub execution_drift_trend: Scalar,
    /// When it was, if the report says so itself.
    pub header_timestamp_ns: Option<u64>,
}

/// Parameters of the extraction.
#[derive(Debug, Clone, Copy)]
pub struct FeatureExtractorConfig {
    /// How many spreads the z-score takes in.
    pub spread_window: usize,
    /// How many order book imbalances are kept.
    pub obi_window: usize,
    /// How many ticks the realized volatility takes in.
    pub vol_window: usize,
    /// How many ticks the long volatility takes in.
    pub vol_long_window: usize,
    /// How long an execution counts, in nanoseconds.
    pub trade_intensity_window_ns: u64,
    /// How long an execution stays unseen, in nanoseconds.
    pub execution_lag_ns: u64,
    /// How fast the worth of a held position decays, per millisecond.
    pub default_decay_rate: Scalar,
    /// The lot size that market impact is measured in.
    pub typical_lot_size: Scalar,
    /// The longest holding time, in milliseconds.
    pub max_hold_time_ms: Scalar,
    /// When Tokyo, London, New York and Sydney open, as hours in UTC.
    pub session_hours_utc: [u8; 4],
}

impl Default for FeatureExtractorConfig {
    fn default() -> (r: FeatureExtractorConfig)
        ensures
            r.spread_window == 200,
            r.obi_window == 200,
            r.vol_window == 100,
            r.vol_long_window == 500,
            r.trade_intensity_window_ns == 60_000_000_000,
            r.execution_lag_ns == 0,
            r.default_decay_rate == Scalar::of_ratio(1, 1000),
            r.typical_lot_size == Scalar::of_int(100_000),
            r.max_hold_time_ms == Scalar::of_int(30_000),
            r.session_hours_utc@ == seq![0u8, 8u8, 13u8, 22u8],
    {
        let session_hours_utc: [u8; 4] = [0, 8, 13, 22];
        assert(session_hours_utc@ =~= seq![0u8, 8u8, 13u8, 22u8]);
        FeatureExtractorConfig {
            spread_window: 200,
            obi_window: 200,
            vol_window: 100,
            vol_long_window: 500,
            trade_intensity_window_ns: 60_000_000_000,
            execution_lag_ns: 0,
            default_decay_rate: Scalar::ratio(1, 1000),
            typical_lot_size: Scalar::from_u64(100_000),
            max_hold_time_ms: Scalar::from_u64(30_000),
            session_hours_utc,
        }
    }
}

/// A trading session.
#[derive(Debug, Clone, Copy, PartialEq, Eq, Structural)]
pub enum Session {
    Tokyo,
    London,
    NewYork,
    Sydney,
}

impl Session {
    /// The session at an hour: the last in the list that has opened.
    pub open spec fn at(hour: u8, session_hours: Seq<u8>) -> Session {
        if hour >= session_hours[3] {
            Session::Sydney
        } else if hour >= session_hours[2] {
            Session::NewYork
        } else if hour >= session_hours[1] {
            Session::London
        } else {
            Session::Tokyo
        }
    }

    /// The number of the session.
    pub open spec fn ordinal(self) -> nat {
        match self {
            Session::Tokyo => 0,
            Session::London => 1,
            Session::NewYork => 2,
            Session::Sydney => 3,
        }
    }

    /// One if this is the session, else zero.
    pub open spec fn marks(self, other: Session) -> Scalar {
        if self == other {
            Scalar::of_int(1)
        } else {
            Scalar::of_int(0)
        }
    }

    /// The session at an hour.
    pub fn from_utc_hour(hour: u8, session_hours: &[u8; 4]) -> (r: Session)
        ensures
            r == Session::at(hour, session_hours@),
    {
        if hour >= session_hours[3] {
            Session::Sydney
        } else if hour >= session_hours[2] {
            Session::NewYork
        } else if hour >= session_hours[1] {
            Session::London
        } else {
            Session::Tokyo
        }
    }

    /// One at the place of the session, zero elsewhere.
    pub fn one_hot(&self) -> (r: (Scalar, Scalar, Scalar, Scalar))
        ensures
            r.0 == self.marks(Session::Tokyo),
            r.1 == self.marks(Session::London),
            r.2 == self.marks(Session::NewYork),
            r.3 == self.marks(Session::Sydney),
    {
        let one = Scalar::from_u64(1);
        let zero = Scalar::from_u64(0);
        match self {
            Session::Tokyo => (one, zero, zero, zero),
            Session::London => (zero, one, zero, zero),
            Session::NewYork => (zero, zero, one, zero),
            Session::Sydney => (zero, zero, zero, one),
        }
    }

    /// The number of the session.
    pub fn numeric(&self) -> (r: Scalar)
        ensures
            r == Scalar::of_int(self.ordinal()),
    {
        match self {
            Session::Tokyo => Scalar::from_u64(0),
            Session::London => Scalar::from_u64(1),
            Session::NewYork => Scalar::from_u64(2),
            Session::Sydney => Scalar::from_u64(3),
        }
    }
}

impl MarketQuote {
    /// A quote of nothing.
    pub open spec fn blank() -> MarketQuote {
        MarketQuote {
            bid: Scalar::of_int(0),
            ask: Scalar::of_int(0),
            bid_size: Scalar::of_int(0),
            ask_size: Scalar::of_int(0),
            timestamp_ns: 0,
        }
    }

    pub open spec fn mid(self) -> Scalar {
        self.bid.plus(self.ask).over(Scalar::of_int(2))
    }

    pub open spec fn spread(self) -> Scalar {
        self.ask.minus(self.bid)
    }

    pub open spec fn depth(self) -> Scalar {
        self.bid_size.plus(self.ask_size)
    }

    /// Order book imbalance: how much more is asked for than bid for, over all that is.
    pub open spec fn obi(self) -> Scalar {
        if Scalar::of_int(0).below(self.depth()) {
            self.ask_size.minus(self.bid_size).over(self.depth())
        } else {
            Scalar::of_int(0)
        }
    }

    fn get_mid(&self) -> (r: Scalar)
        ensures
            r == self.mid(),
    {
        self.bid.add(self.ask).div(Scalar::from_u64(2))
    }

    fn get_obi(&self) -> (r: Scalar)
        ensures
            r == self.obi(),
    {
        let depth = self.bid_size.add(self.ask_size);
        if depth.gt(Scalar::from_u64(0)) {
            self.ask_size.sub(self.bid_size).div(depth)
        } else {
            Scalar::from_u64(0)
        }
    }
}

/// Market impact of the own position.
pub open spec fn self_impact_of(config: FeatureExtractorConfig, size: Scalar, vol: Scalar) -> Scalar {
    size.magnitude().over(config.typical_lot_size).times(vol)
}

/// What is left of the worth of a position; `decayed` is the exponential of minus the decay rate
/// times the holding time.
pub open spec fn time_decay_of(holding_time_ms: Scalar, decayed: Scalar) -> Scalar {
    if holding_time_ms.at_most(Scalar::of_int(0)) {
        Scalar::of_int(1)
    } else {
        decayed
    }
}

/// What a trade costs: the spread, more of it in an uneven book, more of it in a volatile market.
pub open spec fn dynamic_cost_of(spread: Scalar, vol: Scalar, obi: Scalar) -> Scalar {
    spread.plus(
        obi.magnitude().times(spread).times(Scalar::of_ratio(1, 2)).greater(Scalar::of_int(0)),
    ).plus(vol.times(spread).times(Scalar::of_int(10)))
}

/// Zero to one.
pub open spec fn unit(x: Scalar) -> Scalar {
    x.within(Scalar::of_int(0), Scalar::of_int(1))
}

/// How likely the price reverts: from a wide spread, an uneven book and a fall in depth.
pub open spec fn p_revert_of(spread_zscore: Scalar, obi: Scalar, depth_change_rate: Scalar) -> Scalar {
    let spread_signal = spread_zscore.magnitude().over(Scalar::of_int(3)).lesser(
        Scalar::of_int(1),
    );
    let obi_signal = obi.magnitude().times(Scalar::of_int(2)).lesser(Scalar::of_int(1));
    let depth_signal = if depth_change_rate.below(Scalar::of_ratio(1, 5).negated()) {
        Scalar::of_int(1)
    } else {
        Scalar::of_int(0)
    };
    unit(
        spread_signal.times(Scalar::of_ratio(2, 5)).plus(
            obi_signal.times(Scalar::of_ratio(3, 10)),
        ).plus(depth_signal.times(Scalar::of_ratio(3, 10))),
    )
}

/// How likely a move goes on: from rising volatility and frequent trades.
pub open spec fn p_continue_of(vol_ratio: Scalar, trade_intensity: Scalar) -> Scalar {
    let one = Scalar::of_int(1);
    let vol_signal = if one.below(vol_ratio) {
        vol_ratio.minus(one).times(Scalar::of_int(2)).lesser(one)
    } else {
        Scalar::of_int(0)
    };
    let intensity_signal = trade_intensity.over(Scalar::of_int(20)).lesser(one);
    unit(
        vol_signal.times(Scalar::of_ratio(3, 5)).plus(
            intensity_signal.times(Scalar::of_ratio(2, 5)),
        ),
    )
}

/// How much more a session trends.
pub open spec fn session_bias(session: Session) -> Scalar {
    match session {
        Session::London => Scalar::of_ratio(1, 10),
        Session::NewYork => Scalar::of_ratio(3, 20),
        Session::Tokyo => Scalar::of_ratio(1, 20).negated(),
        Session::Sydney => Scalar::of_int(0),
    }
}

/// How likely the market trends: from the session and the book.
pub open spec fn p_trend_of(session: Session, obi: Scalar) -> Scalar {
    unit(
        Scalar::of_ratio(1, 2).plus(session_bias(session)).plus(
            obi.times(Scalar::of_ratio(3, 10)),
        ),
    )
}

/// Milliseconds from `start_ns`, if that is set and past.
pub open spec fn elapsed_ms(start_ns: u64, now_ns: u64) -> Option<nat> {
    if start_ns > 0 && now_ns > start_ns {
        Some(((now_ns - start_ns) / 1_000_000) as nat)
    } else {
        None
    }
}

/// What an extractor knows.
pub ghost struct ExtractorModel {
    pub config: FeatureExtractorConfig,
    pub spreads: RollingModel,
    pub imbalances: RollingModel,
    pub volatility: VolatilityModel,
    pub executions: StatsModel,
    pub prev_obi: Scalar,
    pub last_vol_spike_ns: u64,
    pub last_depth_total: Scalar,
    pub prev_depth_total: Scalar,
    pub session_open_ns: u64,
    pub gap_hold: bool,
    pub held_a: Option<FeatureVector>,
    pub held_b: Option<FeatureVector>,
    pub held_c: Option<FeatureVector>,
}

impl ExtractorModel {
    /// Nothing processed.
    pub open spec fn fresh(config: FeatureExtractorConfig) -> ExtractorModel {
        let zero = Scalar::of_int(0);
        ExtractorModel {
            config,
            spreads: RollingModel::empty(config.spread_window as nat),
            imbalances: RollingModel::empty(config.obi_window as nat),
            volatility: VolatilityModel::empty(),
            executions: StatsModel::empty(),
            prev_obi: zero,
            last_vol_spike_ns: 0,
            last_depth_total: zero,
            prev_depth_total: zero,
            session_open_ns: 0,
            gap_hold: false,
            held_a: None,
            held_b: None,
            held_c: None,
        }
    }

    /// The windows keep to their capacities.
    pub open spec fn valid(self) -> bool {
        self.spreads.valid() && self.imbalances.valid()
    }

    /// The last features that were computed for a strategy.
    pub open spec fn held(self, strategy_id: StrategyId) -> Option<FeatureVector> {
        match strategy_id {
            StrategyId::A => self.held_a,
            StrategyId::B => self.held_b,
            StrategyId::C => self.held_c,
        }
    }

    /// The extractor with other features held for a strategy.
    pub open spec fn holding(self, strategy_id: StrategyId, features: FeatureVector) -> ExtractorModel {
        match strategy_id {
            StrategyId::A => ExtractorModel { held_a: Some(features), ..self },
            StrategyId::B => ExtractorModel { held_b: Some(features), ..self },
            StrategyId::C => ExtractorModel { held_c: Some(features), ..self },
        }
    }

    /// After a quote. `log_ratio` is the logarithm of its mid price over the last one.
    pub open spec fn after_quote(self, q: MarketQuote, log_ratio: Scalar) -> ExtractorModel {
        let spreads = self.spreads.with(q.spread());
        let imbalances = self.imbalances.with(q.obi());
        let n = imbalances.values.len();
        let volatility = self.volatility.with(q.mid(), log_ratio);
        let short = if self.config.vol_window < 20 {
            self.config.vol_window as nat
        } else {
            20
        };
        let spike = spreads.values.len() >= 10 && volatility.vol_ema_long.times(
            Scalar::of_int(3),
        ).below(volatility.realized(short)) && Scalar::of_int(0).below(volatility.vol_ema_long);
        let cutoff = if q.timestamp_ns >= self.config.trade_intensity_window_ns {
            (q.timestamp_ns - self.config.trade_intensity_window_ns) as u64
        } else {
            0
        };
        ExtractorModel {
            spreads,
            imbalances,
            volatility,
            executions: self.executions.prune(cutoff),
            prev_obi: if n >= 2 {
                imbalances.values[n - 2]
            } else {
                q.obi()
            },
            last_vol_spike_ns: if spike {
                q.timestamp_ns
            } else {
                self.last_vol_spike_ns
            },
            last_depth_total: q.depth(),
            prev_depth_total: self.last_depth_total,
            session_open_ns: if self.session_open_ns == 0 {
                q.timestamp_ns
            } else {
                self.session_open_ns
            },
            ..self
        }
    }

    /// The features at a quote. `held_ms` is how long the position has been held, `decayed` the
    /// exponential of `time_decay_exponent` of that.
    pub open spec fn features_at(
        self,
        q: MarketQuote,
        state: StateSnapshot,
        strategy_id: StrategyId,
        now_ns: u64,
        held_ms: u64,
        decayed: Scalar,
    ) -> FeatureVector {
        let zero = Scalar::of_int(0);
        let one = Scalar::of_int(1);
        let lag = self.config.execution_lag_ns;
        let position = state.held(strategy_id);
        let size = match position {
            Some(p) => p.size,
            None => zero,
        };
        let spread = q.spread();
        let obi = q.obi();
        let zscore = self.spreads.z_score(spread);
        let depth_change_rate = if zero.below(self.prev_depth_total) {
            q.depth().minus(self.prev_depth_total).over(self.prev_depth_total)
        } else {
            zero
        };
        let lot = self.config.typical_lot_size;
        let vol = self.volatility.realized(self.config.vol_window as nat);
        let long_vol = self.volatility.realized(self.config.vol_long_window as nat);
        let volatility_ratio = if rolling::epsilon_of_one().below(long_vol) {
            vol.over(long_vol)
        } else {
            one
        };
        let before = self.volatility.prev_realized_vol;
        let hour = ((q.timestamp_ns / 3_600_000_000_000) % 24) as u8;
        let session = Session::at(hour, self.config.session_hours_utc@);
        let since_spike = match elapsed_ms(self.last_vol_spike_ns, q.timestamp_ns) {
            Some(ms) => Scalar::of_int(ms),
            None => Scalar { bits: LARGEST_BITS },
        };
        let holding_time_ms = if position is Some {
            Scalar::of_int(held_ms as nat)
        } else {
            zero
        };
        let averages = self.executions.averages(now_ns, lag);
        let trade_intensity = self.executions.intensity(now_ns, lag);
        let self_impact = self_impact_of(self.config, size, vol);
        FeatureVector {
            spread,
            spread_zscore: zscore,
            obi,
            delta_obi: obi.minus(self.prev_obi),
            depth_change_rate,
            queue_position: if zero.below(q.bid_size) {
                size.magnitude().over(lot).over(q.bid_size.over(lot)).lesser(one)
            } else {
                zero
            },
            realized_volatility: vol,
            volatility_ratio,
            volatility_decay_rate: if rolling::epsilon_of_one().below(before) {
                vol.minus(before).over(before)
            } else {
                zero
            },
            session_tokyo: session.marks(Session::Tokyo),
            session_london: session.marks(Session::London),
            session_ny: session.marks(Session::NewYork),
            session_sydney: session.marks(Session::Sydney),
            time_since_open_ms: match elapsed_ms(self.session_open_ns, q.timestamp_ns) {
                Some(ms) => Scalar::of_int(ms),
                None => zero,
            },
            time_since_last_spike_ms: since_spike,
            holding_time_ms,
            position_size: size,
            position_direction: if size.magnitude().below(rolling::epsilon_of_one()) {
                zero
            } else {
                size.sign()
            },
            entry_price: match position {
                Some(p) => p.entry_price,
                None => zero,
            },
            pnl_unrealized: match position {
                Some(p) => p.unrealized_pnl,
                None => zero,
            },
            trade_intensity,
            signed_volume: self.executions.volume(now_ns, lag),
            recent_fill_rate: averages.fill_rate_ema,
            recent_slippage: averages.slippage_ema,
            recent_reject_rate: averages.reject_rate_ema,
            execution_drift_trend: averages.drift_ema,
            self_impact,
            time_decay: time_decay_of(holding_time_ms, decayed),
            dynamic_cost: dynamic_cost_of(spread, vol, obi),
            p_revert: p_revert_of(zscore, obi, depth_change_rate),
            p_continue: p_continue_of(volatility_ratio, trade_intensity),
            p_trend: p_trend_of(session, obi),
            spread_z_x_vol: zscore.times(vol),
            obi_x_session: obi.times(Scalar::of_int(session.ordinal())),
            depth_drop_x_vol_spike: depth_change_rate.times(
                if since_spike.below(Scalar::of_int(5000)) {
                    one
                } else {
                    zero
                },
            ),
            position_size_x_vol: size.magnitude().times(vol),
            obi_x_vol: obi.times(vol),
            spread_z_x_self_impact: zscore.times(self_impact),
        }
    }
}

/// Turns market and execution events into feature vectors.
pub struct FeatureExtractor {
    pub config: FeatureExtractorConfig,
    pub spread_window: RollingWindow,
    pub obi_window: RollingWindow,
    pub vol_state: VolatilityState,
    pub lagged_exec: LaggedExecutionStats,
    pub prev_obi: Scalar,
    pub last_vol_spike_ns: u64,
    pub last_depth_total: Scalar,
    pub prev_depth_total: Scalar,
    pub session_open_ns: u64,
    pub gap_hold: bool,
    /// The last features of each strategy.
    pub held_a: Option<FeatureVector>,
    pub held_b: Option<FeatureVector>,
    pub held_c: Option<FeatureVector>,
}

impl View for FeatureExtractor {
    type V = ExtractorModel;

    open spec fn view(&self) -> ExtractorModel {
        ExtractorModel {
            config: self.config,
            spreads: self.spread_window@,
            imbalances: self.obi_window@,
            volatility: self.vol_state@,
            executions: self.lagged_exec@,
            prev_obi: self.prev_obi,
            last_vol_spike_ns: self.last_vol_spike_ns,
            last_depth_total: self.last_depth_total,
            prev_depth_total: self.prev_depth_total,
            session_open_ns: self.session_open_ns,
            gap_hold: self.gap_hold,
            held_a: self.held_a,
            held_b: self.held_b,
            held_c: self.held_c,
        }
    }
}

impl FeatureExtractor {
    /// An extractor that has processed nothing.
    pub fn new(config: FeatureExtractorConfig) -> (r: FeatureExtractor)
        ensures
            r@ == ExtractorModel::fresh(config),
            r@.valid(),
    {
        let zero = Scalar::from_u64(0);
        FeatureExtractor {
            spread_window: RollingWindow::new(config.spread_window),
            obi_window: RollingWindow::new(config.obi_window),
            vol_state: VolatilityState::new(),
            lagged_exec: LaggedExecutionStats::new(),
            prev_obi: zero,
            last_vol_spike_ns: 0,
            last_depth_total: zero,
            prev_depth_total: zero,
            session_open_ns: 0,
            gap_hold: false,
            held_a: None,
            held_b: None,
            held_c: None,
            config,
        }
    }

    /// The number whose logarithm `process_market_event` takes for this quote: its mid price
    /// over the last one. There is none for the first quote, nor after a price that was not
    /// positive.
    pub fn mid_ratio(&self, quote: &MarketQuote) -> (r: Option<Scalar>)
        ensures
            r == match self@.volatility.last_mid {
                Some(last) => if Scalar::of_int(0).below(last) {
                    Some(quote.mid().over(last))
                } else {
                    None
                },
                None => None,
            },
            r matches Some(ratio) ==> {
                let last = self@.volatility.last_mid->0;
                quote.mid().finite() && last.finite() ==> last.value() > 0 && relations::rounds(
                    ratio,
                    quote.mid().value() * scalar::one_unit(),
                    last.value() as nat,
                )
            },
    {
        proof {
            if let Some(last) = self@.volatility.last_mid {
                if last.finite() && quote.mid().finite() && Scalar::of_int(0).below(last) {
                    relations::zero_and_one();
                    order::order_is_order_of_values(Scalar::of_int(0), last);
                    order::over_is_near(quote.mid(), last);
                }
            }
        }
        match self.vol_state.last_mid {
            Some(last) => if last.gt(Scalar::from_u64(0)) {
                Some(quote.get_mid().div(last))
            } else {
                None
            },
            None => None,
        }
    }

    /// Takes in a market event; one that could not be read, which is `None`, changes nothing.
    /// `log_ratio` is the logarithm of `mid_ratio`, where there is one.
    pub fn process_market_event(&mut self, market: Option<MarketQuote>, log_ratio: Scalar)
        requires
            old(self)@.valid(),
        ensures
            final(self)@ == match market {
                Some(quote) => old(self)@.after_quote(quote, log_ratio),
                None => old(self)@,
            },
            final(self)@.valid(),
    {
        let quote = match market {
            Some(quote) => quote,
            None => return,
        };
        let spread = quote.ask.sub(quote.bid);
        self.spread_window.push(spread);

        let obi = quote.get_obi();
        self.obi_window.push(obi);
        self.prev_obi = match self.obi_window.prev() {
            Some(prev) => prev,
            None => obi,
        };

        self.prev_depth_total = self.last_depth_total;
        self.last_depth_total = quote.bid_size.add(quote.ask_size);

        self.vol_state.push_mid(quote.get_mid(), log_ratio);

        if self.spread_window.len() >= 10 {
            let short = if self.config.vol_window < 20 {
                self.config.vol_window
            } else {
                20
            };
            let current_vol = self.vol_state.realized_volatility(short);
            let long = self.vol_state.vol_ema_long;
            if current_vol.gt(long.mul(Scalar::from_u64(3))) && long.gt(Scalar::from_u64(0)) {
                self.last_vol_spike_ns = quote.timestamp_ns;
            }
        }
        if self.session_open_ns == 0 {
            self.session_open_ns = quote.timestamp_ns;
        }
        let cutoff = if quote.timestamp_ns >= self.config.trade_intensity_window_ns {
            quote.timestamp_ns - self.config.trade_intensity_window_ns
        } else {
            0
        };
        self.lagged_exec.prune_before(cutoff);
    }

    /// Takes in an execution event; one that could not be read, which is `None`, changes nothing.
    /// An execution that does not say when it was counts from the time of its event.
    pub fn process_execution_event(
        &mut self,
        report: Option<ExecutionReport>,
        event_timestamp_ns: u64,
    )
        requires
            old(self)@.valid(),
        ensures
            final(self)@ == match report {
                Some(e) => ExtractorModel {
                    executions: old(self)@.executions.with(
                        Execution {
                            fill_status: e.fill_status,
                            slippage: e.slippage,
                            fill_size: e.fill_size,
                            execution_drift_trend: e.execution_drift_trend,
                            timestamp_ns: match e.header_timestamp_ns {
                                Some(ns) => ns,
                                None => event_timestamp_ns,
                            },
                        },
                    ),
                    ..old(self)@
                },
                None => old(self)@,
            },
            final(self)@.valid(),
            report matches Some(e) ==> {
                let taken = final(self)@.executions.executions.last();
                &&& e.header_timestamp_ns matches Some(ns) ==> taken.timestamp_ns == ns
                &&& e.header_timestamp_ns is None ==> taken.timestamp_ns == event_timestamp_ns
                &&& taken.fill_status == e.fill_status && taken.slippage == e.slippage
                &&& taken.fill_size == e.fill_size && taken.execution_drift_trend
                    == e.execution_drift_trend
            },
    {
        if let Some(e) = report {
            let timestamp_ns = match e.header_timestamp_ns {
                Some(ns) => ns,
                None => event_timestamp_ns,
            };
            self.lagged_exec.update(
                Execution {
                    fill_status: e.fill_status,
                    slippage: e.slippage,
                    fill_size: e.fill_size,
                    execution_drift_trend: e.execution_drift_trend,
                    timestamp_ns,
                },
            );
        }
    }

    /// Sets whether features are held: while they are, `extract` gives the last ones again.
    pub fn set_gap_hold(&mut self, hold: bool)
        ensures
            final(self)@ == (ExtractorModel { gap_hold: hold, ..old(self)@ }),
    {
        self.gap_hold = hold;
    }

    /// The exponent whose exponential `extract` takes, for a position held for so long.
    pub fn time_decay_exponent(&self, holding_time_ms: Scalar) -> (r: Scalar)
        ensures
            r == self@.config.default_decay_rate.negated().times(holding_time_ms),
            self@.config.default_decay_rate.finite() && holding_time_ms.finite()
                ==> relations::rounds(
                r,
                -(self@.config.default_decay_rate.value() * holding_time_ms.value()),
                scalar::one_unit(),
            ),
    {
        proof {
            relations::negated_product(self.config.default_decay_rate, holding_time_ms);
        }
        self.config.default_decay_rate.neg_of().mul(holding_time_ms)
    }

    /// The features of a strategy at a market event; a market event that could not be read, which
    /// is `None`, counts as a blank quote. `held_ms` is how long the position has been held, and
    /// `decayed` the exponential of `time_decay_exponent` of that. While features are held, the
    /// last ones of the strategy come again, if there are any.
    pub fn extract(
        &mut self,
        market: Option<MarketQuote>,
        state: &StateSnapshot,
        strategy_id: StrategyId,
        now_ns: u64,
        held_ms: u64,
        decayed: Scalar,
    ) -> (r: FeatureVector)
        requires
            old(self)@.valid(),
        ensures
            final(self)@.valid(),
            ({
                let q = match market {
                    Some(q) => q,
                    None => MarketQuote::blank(),
                };
                let before = old(self)@;
                if before.gap_hold && before.held(strategy_id) is Some {
                    Some(r) == before.held(strategy_id) && final(self)@ == before
                } else {
                    r == before.features_at(q, *state, strategy_id, now_ns, held_ms, decayed)
                        && final(self)@ == before.holding(strategy_id, r)
                }
            }),
            final(self)@.held(strategy_id) == Some(r),
            old(self)@.gap_hold ==> (old(self)@.held(strategy_id) matches Some(held) ==> r == held),
            forall|other: StrategyId|
                other != strategy_id ==> #[trigger] final(self)@.held(other) == old(self)@.held(other),
    {
        let held = match strategy_id {
            StrategyId::A => self.held_a,
            StrategyId::B => self.held_b,
            StrategyId::C => self.held_c,
        };
        if self.gap_hold {
            if let Some(features) = held {
                return features;
            }
        }
        let quote = match market {
            Some(quote) => quote,
            None => {
                let zero = Scalar::from_u64(0);
                MarketQuote {
                    bid: zero,
                    ask: zero,
                    bid_size: zero,
                    ask_size: zero,
                    timestamp_ns: 0,
                }
            },
        };
        let features = self.compute_features(quote, state, strategy_id, now_ns, held_ms, decayed);
        match strategy_id {
            StrategyId::A => {
                self.held_a = Some(features);
            },
            StrategyId::B => {
                self.held_b = Some(features);
            },
            StrategyId::C => {
                self.held_c = Some(features);
            },
        }
        features
    }

    /// The features at a quote.
    fn compute_features(
        &self,
        quote: MarketQuote,
        state: &StateSnapshot,
        strategy_id: StrategyId,
        now_ns: u64,
        held_ms: u64,
        decayed: Scalar,
    ) -> (r: FeatureVector)
        ensures
            r == self@.features_at(quote, *state, strategy_id, now_ns, held_ms, decayed),
    {
        let zero = Scalar::from_u64(0);
        let one = Scalar::from_u64(1);
        let lag = self.config.execution_lag_ns;

        let spread = quote.ask.sub(quote.bid);
        let spread_zscore = self.spread_window.z_score(spread);
        let total_depth = quote.bid_size.add(quote.ask_size);
        let obi = quote.get_obi();
        let delta_obi = obi.sub(self.prev_obi);
        let depth_change_rate = if self.prev_depth_total.gt(zero) {
            total_depth.sub(self.prev_depth_total).div(self.prev_depth_total)
        } else {
            zero
        };

        let position = state.position(strategy_id);
        let (position_size, entry_price, pnl_unrealized, holding_time_ms) = match position {
            Some(p) => (p.size, p.entry_price, p.unrealized_pnl, Scalar::from_u64(held_ms)),
            None => (zero, zero, zero, zero),
        };
        let lot = self.config.typical_lot_size;
        let queue_position = if quote.bid_size.gt(zero) {
            position_size.abs().div(lot).div(quote.bid_size.div(lot)).min(one)
        } else {
            zero
        };

        let realized_vol = self.vol_state.realized_volatility(self.config.vol_window);
        let realized_vol_long = self.vol_state.realized_volatility(self.config.vol_long_window);
        let volatility_ratio = if realized_vol_long.gt(rolling::machine_epsilon()) {
            realized_vol.div(realized_vol_long)
        } else {
            one
        };
        let before = self.vol_state.prev_realized_vol;
        let volatility_decay_rate = if before.gt(rolling::machine_epsilon()) {
            realized_vol.sub(before).div(before)
        } else {
            zero
        };

        let hour: u8 = ((quote.timestamp_ns / 3_600_000_000_000) % 24) as u8;
        let session = Session::from_utc_hour(hour, &self.config.session_hours_utc);
        let (session_tokyo, session_london, session_ny, session_sydney) = session.one_hot();
        let time_since_open_ms = if self.session_open_ns > 0 && quote.timestamp_ns
            > self.session_open_ns {
            Scalar::from_u64((quote.timestamp_ns - self.session_open_ns) / 1_000_000)
        } else {
            zero
        };
        let time_since_last_spike_ms = if self.last_vol_spike_ns > 0 && quote.timestamp_ns
            > self.last_vol_spike_ns {
            Scalar::from_u64((quote.timestamp_ns - self.last_vol_spike_ns) / 1_000_000)
        } else {
            Scalar::from_bits(LARGEST_BITS)
        };

        let position_direction = if position_size.abs().lt(rolling::machine_epsilon()) {
            zero
        } else {
            position_size.signum()
        };

        let averages = self.lagged_exec.averages(now_ns, lag);
        let trade_intensity = self.lagged_exec.trade_intensity(now_ns, lag);
        let signed_volume = self.lagged_exec.signed_volume(now_ns, lag);

        let self_impact = self.compute_self_impact(position_size, realized_vol);
        let time_decay = self.compute_time_decay(holding_time_ms, decayed);
        let dynamic_cost = self.compute_dynamic_cost(spread, realized_vol, obi);
        let p_revert = self.compute_p_revert(spread_zscore, obi, depth_change_rate);
        let p_continue = self.compute_p_continue(volatility_ratio, trade_intensity);
        let p_trend = self.compute_p_trend(session, obi);

        FeatureVector {
            spread,
            spread_zscore,
            obi,
            delta_obi,
            depth_change_rate,
            queue_position,
            realized_volatility: realized_vol,
            volatility_ratio,
            volatility_decay_rate,
            session_tokyo,
            session_london,
            session_ny,
            session_sydney,
            time_since_open_ms,
            time_since_last_spike_ms,
            holding_time_ms,
            position_size,
            position_direction,
            entry_price,
            pnl_unrealized,
            trade_intensity,
            signed_volume,
            recent_fill_rate: averages.fill_rate_ema,
            recent_slippage: averages.slippage_ema,
            recent_reject_rate: averages.reject_rate_ema,
            execution_drift_trend: averages.drift_ema,
            self_impact,
            time_decay,
            dynamic_cost,
            p_revert,
            p_continue,
            p_trend,
            spread_z_x_vol: spread_zscore.mul(realized_vol),
            obi_x_session: obi.mul(session.numeric()),
            depth_drop_x_vol_spike: depth_change_rate.mul(
                if time_since_last_spike_ms.lt(Scalar::from_u64(5000)) {
                    one
                } else {
                    zero
                },
            ),
            position_size_x_vol: position_size.abs().mul(realized_vol),
            obi_x_vol: obi.mul(realized_vol),
            spread_z_x_self_impact: spread_zscore.mul(self_impact),
        }
    }

    /// Market impact of the own position: its size in typical lots, times the volatility.
    pub fn compute_self_impact(&self, position_size: Scalar, vol: Scalar) -> (r: Scalar)
        ensures
            r == self_impact_of(self@.config, position_size, vol),
    {
        position_size.abs().div(self.config.typical_lot_size).mul(vol)
    }

    /// What is left of the worth of a position.
    pub fn compute_time_decay(&self, holding_time_ms: Scalar, decayed: Scalar) -> (r: Scalar)
        ensures
            r == time_decay_of(holding_time_ms, decayed),
    {
        time_decay(holding_time_ms, decayed)
    }

    /// What a trade costs.
    pub fn compute_dynamic_cost(&self, spread: Scalar, vol: Scalar, obi: Scalar) -> (r: Scalar)
        ensures
            r == dynamic_cost_of(spread, vol, obi),
    {
        let obi_premium = obi.abs().mul(spread).mul(Scalar::ratio(1, 2)).max(Scalar::from_u64(0));
        let vol_premium = vol.mul(spread).mul(Scalar::from_u64(10));
        spread.add(obi_premium).add(vol_premium)
    }

    /// How likely the price reverts.
    pub fn compute_p_revert(
        &self,
        spread_zscore: Scalar,
        obi: Scalar,
        depth_change_rate: Scalar,
    ) -> (r: Scalar)
        ensures
            r == p_revert_of(spread_zscore, obi, depth_change_rate),
    {
        let one = Scalar::from_u64(1);
        let spread_signal = spread_zscore.abs().div(Scalar::from_u64(3)).min(one);
        let obi_signal = obi.abs().mul(Scalar::from_u64(2)).min(one);
        let depth_signal = if depth_change_rate.lt(Scalar::ratio(1, 5).neg_of()) {
            one
        } else {
            Scalar::from_u64(0)
        };
        to_unit(
            spread_signal.mul(Scalar::ratio(2, 5)).add(obi_signal.mul(Scalar::ratio(3, 10))).add(
                depth_signal.mul(Scalar::ratio(3, 10)),
            ),
        )
    }

    /// How likely a move goes on.
    pub fn compute_p_continue(&self, vol_ratio: Scalar, trade_intensity: Scalar) -> (r: Scalar)
        ensures
            r == p_continue_of(vol_ratio, trade_intensity),
    {
        let one = Scalar::from_u64(1);
        let vol_signal = if vol_ratio.gt(one) {
            vol_ratio.sub(one).mul(Scalar::from_u64(2)).min(one)
        } else {
            Scalar::from_u64(0)
        };
        let intensity_signal = trade_intensity.div(Scalar::from_u64(20)).min(one);
        to_unit(
            vol_signal.mul(Scalar::ratio(3, 5)).add(intensity_signal.mul(Scalar::ratio(2, 5))),
        )
    }

    /// How likely the market trends.
    pub fn compute_p_trend(&self, session: Session, obi: Scalar) -> (r: Scalar)
        ensures
            r == p_trend_of(session, obi),
    {
        let bias = match session {
            Session::London => Scalar::ratio(1, 10),
            Session::NewYork => Scalar::ratio(3, 20),
            Session::Tokyo => Scalar::ratio(1, 20).neg_of(),
            Session::Sydney => Scalar::from_u64(0),
        };
        to_unit(Scalar::ratio(1, 2).add(bias).add(obi.mul(Scalar::ratio(3, 10))))
    }

    /// The order book imbalance at the last quote.
    pub fn current_obi(&self) -> (r: Scalar)
        ensures
            r == if self@.imbalances.values.len() == 0 {
                Scalar::of_int(0)
            } else {
                self@.imbalances.values.last()
            },
    {
        match self.obi_window.latest() {
            Some(obi) => obi,
            None => Scalar::from_u64(0),
        }
    }

    /// The z-score of the last spread.
    pub fn current_spread_zscore(&self) -> (r: Scalar)
        ensures
            r == if self@.spreads.values.len() == 0 {
                Scalar::of_int(0)
            } else {
                self@.spreads.z_score(self@.spreads.values.last())
            },
    {
        match self.spread_window.latest() {
            Some(spread) => self.spread_window.z_score(spread),
            None => Scalar::from_u64(0),
        }
    }

    /// The realized volatility.
    pub fn current_realized_vol(&self) -> (r: Scalar)
        ensures
            r == self@.volatility.realized(self@.config.vol_window as nat),
    {
        self.vol_state.realized_volatility(self.config.vol_window)
    }

    /// Whether features are held.
    pub fn is_gap_hold(&self) -> (r: bool)
        ensures
            r == self@.gap_hold,
    {
        self.gap_hold
    }

    /// Sets when the session opened.
    pub fn reset_session_open(&mut self, timestamp_ns: u64)
        ensures
            final(self)@ == (ExtractorModel { session_open_ns: timestamp_ns, ..old(self)@ }),
    {
        self.session_open_ns = timestamp_ns;
    }
}

/// Moves a number into the range from zero to one.
pub fn to_unit(x: Scalar) -> (r: Scalar)
    ensures
        r == unit(x),
{
    let zero = Scalar::from_u64(0);
    let one = Scalar::from_u64(1);
    proof {
        crate::order::int_is_exact(0);
        crate::order::int_is_exact(1);
        crate::order::order_is_order_of_values(zero, one);
    }
    x.clamp(zero, one)
}

/// What is left of the worth of a position.
pub fn time_decay(holding_time_ms: Scalar, decayed: Scalar) -> (r: Scalar)
    ensures
        r == time_decay_of(holding_time_ms, decayed),
{
    if holding_time_ms.le(Scalar::from_u64(0)) {
        Scalar::from_u64(1)
    } else {
        decayed
    }
}

} // verus!
