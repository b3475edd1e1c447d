#![allow(dead_code)]

use fx_strategy::execution_stats;
use fx_strategy::execution_stats::{Execution, FillStatus};
use fx_strategy::extractor;
use fx_strategy::extractor::{ExecutionReport, MarketQuote, Session};
use fx_strategy::rolling;
use fx_strategy::scalar::Scalar;
use fx_strategy::state::StrategyId;
use std::cell::RefCell;
use std::collections::HashMap;

fn s(x: f64) -> Scalar {
    Scalar::from_bits(x.to_bits())
}

fn f(x: Scalar) -> f64 {
    f64::from_bits(x.to_bits())
}

fn scalars(v: &[f64]) -> Vec<Scalar> {
    v.iter().map(|&x| s(x)).collect()
}

fn floats(v: &[Scalar]) -> Vec<f64> {
    v.iter().map(|&x| f(x)).collect()
}

#[derive(Debug, Clone)]
struct Position {
    size: f64,
    entry_price: f64,
    unrealized_pnl: f64,
    realized_pnl: f64,
    entry_timestamp_ns: u64,
}

#[derive(Debug, Clone)]
struct StateSnapshot {
    positions: HashMap<StrategyId, Position>,
    global_position: f64,
    global_position_limit: f64,
    lot_multiplier: f64,
}

impl StateSnapshot {
    fn lib(&self) -> fx_strategy::state::StateSnapshot {
        let position = |id: StrategyId| {
            self.positions
                .get(&id)
                .map(|p| fx_strategy::state::Position {
                    size: s(p.size),
                    entry_price: s(p.entry_price),
                    unrealized_pnl: s(p.unrealized_pnl),
                    realized_pnl: s(p.realized_pnl),
                })
        };
        fx_strategy::state::StateSnapshot {
            position_a: position(StrategyId::A),
            position_b: position(StrategyId::B),
            position_c: position(StrategyId::C),
            global_position: s(self.global_position),
            global_position_limit: s(self.global_position_limit),
            lot_multiplier: s(self.lot_multiplier),
        }
    }
}

#[derive(Debug, Clone, PartialEq)]
struct FeatureVector {
    spread: f64,
    spread_zscore: f64,
    obi: f64,
    delta_obi: f64,
    depth_change_rate: f64,
    queue_position: f64,
    realized_volatility: f64,
    volatility_ratio: f64,
    volatility_decay_rate: f64,
    session_tokyo: f64,
    session_london: f64,
    session_ny: f64,
    session_sydney: f64,
    time_since_open_ms: f64,
    time_since_last_spike_ms: f64,
    holding_time_ms: f64,
    position_size: f64,
    position_direction: f64,
    entry_price: f64,
    pnl_unrealized: f64,
    trade_intensity: f64,
    signed_volume: f64,
    recent_fill_rate: f64,
    recent_slippage: f64,
    recent_reject_rate: f64,
    execution_drift_trend: f64,
    self_impact: f64,
    time_decay: f64,
    dynamic_cost: f64,
    p_revert: f64,
    p_continue: f64,
    p_trend: f64,
    spread_z_x_vol: f64,
    obi_x_session: f64,
    depth_drop_x_vol_spike: f64,
    position_size_x_vol: f64,
    obi_x_vol: f64,
    spread_z_x_self_impact: f64,
}

impl FeatureVector {
    fn lib(&self) -> fx_strategy::features::FeatureVector {
        fx_strategy::features::FeatureVector {
            spread: s(self.spread),
            spread_zscore: s(self.spread_zscore),
            obi: s(self.obi),
            delta_obi: s(self.delta_obi),
            depth_change_rate: s(self.depth_change_rate),
            queue_position: s(self.queue_position),
            realized_volatility: s(self.realized_volatility),
            volatility_ratio: s(self.volatility_ratio),
            volatility_decay_rate: s(self.volatility_decay_rate),
            session_tokyo: s(self.session_tokyo),
            session_london: s(self.session_london),
            session_ny: s(self.session_ny),
            session_sydney: s(self.session_sydney),
            time_since_open_ms: s(self.time_since_open_ms),
            time_since_last_spike_ms: s(self.time_since_last_spike_ms),
            holding_time_ms: s(self.holding_time_ms),
            position_size: s(self.position_size),
            position_direction: s(self.position_direction),
            entry_price: s(self.entry_price),
            pnl_unrealized: s(self.pnl_unrealized),
            trade_intensity: s(self.trade_intensity),
            signed_volume: s(self.signed_volume),
            recent_fill_rate: s(self.recent_fill_rate),
            recent_slippage: s(self.recent_slippage),
            recent_reject_rate: s(self.recent_reject_rate),
            execution_drift_trend: s(self.execution_drift_trend),
            self_impact: s(self.self_impact),
            time_decay: s(self.time_decay),
            dynamic_cost: s(self.dynamic_cost),
            p_revert: s(self.p_revert),
            p_continue: s(self.p_continue),
            p_trend: s(self.p_trend),
            spread_z_x_vol: s(self.spread_z_x_vol),
            obi_x_session: s(self.obi_x_session),
            depth_drop_x_vol_spike: s(self.depth_drop_x_vol_spike),
            position_size_x_vol: s(self.position_size_x_vol),
            obi_x_vol: s(self.obi_x_vol),
            spread_z_x_self_impact: s(self.spread_z_x_self_impact),
        }
    }

    fn plain(x: fx_strategy::features::FeatureVector) -> FeatureVector {
        FeatureVector {
            spread: f(x.spread),
            spread_zscore: f(x.spread_zscore),
            obi: f(x.obi),
            delta_obi: f(x.delta_obi),
            depth_change_rate: f(x.depth_change_rate),
            queue_position: f(x.queue_position),
            realized_volatility: f(x.realized_volatility),
            volatility_ratio: f(x.volatility_ratio),
            volatility_decay_rate: f(x.volatility_decay_rate),
            session_tokyo: f(x.session_tokyo),
            session_london: f(x.session_london),
            session_ny: f(x.session_ny),
            session_sydney: f(x.session_sydney),
            time_since_open_ms: f(x.time_since_open_ms),
            time_since_last_spike_ms: f(x.time_since_last_spike_ms),
            holding_time_ms: f(x.holding_time_ms),
            position_size: f(x.position_size),
            position_direction: f(x.position_direction),
            entry_price: f(x.entry_price),
            pnl_unrealized: f(x.pnl_unrealized),
            trade_intensity: f(x.trade_intensity),
            signed_volume: f(x.signed_volume),
            recent_fill_rate: f(x.recent_fill_rate),
            recent_slippage: f(x.recent_slippage),
            recent_reject_rate: f(x.recent_reject_rate),
            execution_drift_trend: f(x.execution_drift_trend),
            self_impact: f(x.self_impact),
            time_decay: f(x.time_decay),
            dynamic_cost: f(x.dynamic_cost),
            p_revert: f(x.p_revert),
            p_continue: f(x.p_continue),
            p_trend: f(x.p_trend),
            spread_z_x_vol: f(x.spread_z_x_vol),
            obi_x_session: f(x.obi_x_session),
            depth_drop_x_vol_spike: f(x.depth_drop_x_vol_spike),
            position_size_x_vol: f(x.position_size_x_vol),
            obi_x_vol: f(x.obi_x_vol),
            spread_z_x_self_impact: f(x.spread_z_x_self_impact),
        }
    }

    const DIM: usize = fx_strategy::features::FeatureVector::DIM;

    fn zero() -> FeatureVector {
        FeatureVector::plain(fx_strategy::features::FeatureVector::zero())
    }

    fn flattened(&self) -> Vec<f64> {
        floats(&self.lib().flattened())
    }

    fn from_flattened(flat: &[f64]) -> Option<FeatureVector> {
        fx_strategy::features::FeatureVector::from_flattened(&scalars(flat))
            .map(FeatureVector::plain)
    }
}

#[derive(Debug, Clone)]
struct FeatureExtractorConfig {
    spread_window: usize,
    obi_window: usize,
    vol_window: usize,
    vol_long_window: usize,
    trade_intensity_window_ns: u64,
    execution_lag_ns: u64,
    default_decay_rate: f64,
    typical_lot_size: f64,
    max_hold_time_ms: f64,
    session_hours_utc: [u8; 4],
}

impl FeatureExtractorConfig {
    fn lib(&self) -> fx_strategy::extractor::FeatureExtractorConfig {
        fx_strategy::extractor::FeatureExtractorConfig {
            spread_window: self.spread_window,
            obi_window: self.obi_window,
            vol_window: self.vol_window,
            vol_long_window: self.vol_long_window,
            trade_intensity_window_ns: self.trade_intensity_window_ns,
            execution_lag_ns: self.execution_lag_ns,
            default_decay_rate: s(self.default_decay_rate),
            typical_lot_size: s(self.typical_lot_size),
            max_hold_time_ms: s(self.max_hold_time_ms),
            session_hours_utc: self.session_hours_utc,
        }
    }

    fn plain(x: fx_strategy::extractor::FeatureExtractorConfig) -> FeatureExtractorConfig {
        FeatureExtractorConfig {
            spread_window: x.spread_window,
            obi_window: x.obi_window,
            vol_window: x.vol_window,
            vol_long_window: x.vol_long_window,
            trade_intensity_window_ns: x.trade_intensity_window_ns,
            execution_lag_ns: x.execution_lag_ns,
            default_decay_rate: f(x.default_decay_rate),
            typical_lot_size: f(x.typical_lot_size),
            max_hold_time_ms: f(x.max_hold_time_ms),
            session_hours_utc: x.session_hours_utc,
        }
    }
}

impl Default for FeatureExtractorConfig {
    fn default() -> FeatureExtractorConfig {
        FeatureExtractorConfig::plain(fx_strategy::extractor::FeatureExtractorConfig::default())
    }
}

/// A market event; one that could not be read has no quote.
struct MarketEvent {
    quote: Option<MarketQuote>,
}

/// An execution event; one that could not be read has no report.
struct ExecutionEvent {
    report: Option<ExecutionReport>,
    timestamp_ns: u64,
}

struct LaggedExecutionStats {
    inner: execution_stats::LaggedExecutionStats,
}

impl LaggedExecutionStats {
    fn new() -> LaggedExecutionStats {
        LaggedExecutionStats {
            inner: execution_stats::LaggedExecutionStats::new(),
        }
    }

    fn update(
        &mut self,
        fill_status: FillStatus,
        slippage: f64,
        fill_size: f64,
        execution_drift_trend: f64,
        timestamp_ns: u64,
    ) {
        self.inner.update(Execution {
            fill_status,
            slippage: s(slippage),
            fill_size: s(fill_size),
            execution_drift_trend: s(execution_drift_trend),
            timestamp_ns,
        });
    }

    fn prune_before(&mut self, cutoff_ns: u64) {
        self.inner.prune_before(cutoff_ns);
    }

    fn trade_intensity(&self) -> f64 {
        f(self.inner.trade_intensity(u64::MAX, 0))
    }

    fn signed_volume(&self) -> f64 {
        f(self.inner.signed_volume(u64::MAX, 0))
    }
}

struct RollingWindow {
    inner: rolling::RollingWindow,
}

impl RollingWindow {
    fn new(capacity: usize) -> RollingWindow {
        RollingWindow {
            inner: rolling::RollingWindow::new(capacity),
        }
    }

    fn push(&mut self, v: f64) {
        self.inner.push(s(v));
    }

    fn mean(&self) -> f64 {
        f(self.inner.mean())
    }

    fn std_dev(&self) -> f64 {
        f(self.inner.std_dev())
    }

    fn z_score(&self, v: f64) -> f64 {
        f(self.inner.z_score(s(v)))
    }

    fn len(&self) -> usize {
        self.inner.len()
    }

    fn latest(&self) -> Option<f64> {
        self.inner.latest().map(f)
    }

    fn prev(&self) -> Option<f64> {
        self.inner.prev().map(f)
    }
}

struct VolatilityState {
    inner: rolling::VolatilityState,
}

impl VolatilityState {
    fn new() -> VolatilityState {
        VolatilityState {
            inner: rolling::VolatilityState::new(),
        }
    }

    fn push_mid(&mut self, mid: f64) {
        let ratio = self.inner.last_mid.map_or(1.0, |last| mid / f(last));
        self.inner.push_mid(s(mid), s(ratio.ln()));
    }

    fn realized_volatility(&self, window: usize) -> f64 {
        f(self.inner.realized_volatility(window))
    }
}

struct FeatureExtractor {
    inner: RefCell<extractor::FeatureExtractor>,
}

impl FeatureExtractor {
    fn new(config: FeatureExtractorConfig) -> FeatureExtractor {
        FeatureExtractor {
            inner: RefCell::new(extractor::FeatureExtractor::new(config.lib())),
        }
    }

    fn process_market_event(&mut self, event: &MarketEvent) {
        let inner = self.inner.get_mut();
        let log_ratio = event
            .quote
            .and_then(|q| inner.mid_ratio(&q))
            .map_or(s(0.0), |r| s(f(r).ln()));
        inner.process_market_event(event.quote, log_ratio);
    }

    fn process_execution_event(&mut self, event: &ExecutionEvent) {
        self.inner
            .get_mut()
            .process_execution_event(event.report, event.timestamp_ns);
    }

    fn extract(
        &self,
        event: &MarketEvent,
        state: &StateSnapshot,
        id: StrategyId,
        now_ns: u64,
    ) -> FeatureVector {
        let mut inner = self.inner.borrow_mut();
        let held_ms = state
            .positions
            .get(&id)
            .filter(|p| p.size != 0.0)
            .map_or(0, |p| now_ns.saturating_sub(p.entry_timestamp_ns) / 1_000_000);
        let decayed = s(f(inner.time_decay_exponent(s(held_ms as f64))).exp());
        FeatureVector::plain(inner.extract(event.quote, &state.lib(), id, now_ns, held_ms, decayed))
    }

    fn fill_rate(&self) -> f64 {
        f(self.inner.borrow().lagged_exec.averages(u64::MAX, 0).fill_rate_ema)
    }

    fn compute_p_trend(&self, session: Session, obi: f64) -> f64 {
        f(self.inner.borrow().compute_p_trend(session, s(obi)))
    }

    fn set_gap_hold(&mut self, hold: bool) {
        self.inner.get_mut().set_gap_hold(hold);
    }

    fn is_gap_hold(&self) -> bool {
        self.inner.borrow().is_gap_hold()
    }
}

fn make_market_event(
    ts_offset_ms: u64,
    bid: f64,
    ask: f64,
    bid_size: f64,
    ask_size: f64,
    _seq: u64,
) -> MarketEvent {
    MarketEvent {
        quote: Some(MarketQuote {
            bid: s(bid),
            ask: s(ask),
            bid_size: s(bid_size),
            ask_size: s(ask_size),
            timestamp_ns: NS_BASE + ts_offset_ms * 1_000_000,
        }),
    }
}

fn make_execution_event(
    ts_offset_ms: u64,
    fill_status: FillStatus,
    slippage: f64,
    fill_size: f64,
    _seq: u64,
) -> ExecutionEvent {
    ExecutionEvent {
        report: Some(ExecutionReport {
            fill_status,
            slippage: s(slippage),
            fill_size: s(fill_size),
            execution_drift_trend: s(slippage),
            header_timestamp_ns: None,
        }),
        timestamp_ns: NS_BASE + ts_offset_ms * 1_000_000,
    }
}

fn marks(session: Session) -> (f64, f64, f64, f64) {
    let (tokyo, london, new_york, sydney) = session.one_hot();
    (f(tokyo), f(london), f(new_york), f(sydney))
}

const NS_BASE: u64 = 1_000_000_000_000_000;

const TICK_MS: u64 = 100;

fn make_state_snapshot() -> StateSnapshot {
    StateSnapshot {
        positions: HashMap::new(),
        global_position: 0.0,
        global_position_limit: 10.0,
        lot_multiplier: 1.0,
    }
}

fn make_state_with_position(
    size: f64,
    entry_price: f64,
    unrealized_pnl: f64,
    entry_ns: u64,
) -> StateSnapshot {
    let mut positions = HashMap::new();
    positions.insert(
        StrategyId::A,
        Position {
            size,
            entry_price,
            unrealized_pnl,
            realized_pnl: 0.0,
            entry_timestamp_ns: entry_ns,
        },
    );
    StateSnapshot {
        positions,
        global_position: size,
        global_position_limit: 10.0,
        lot_multiplier: 1.0,
    }
}

fn default_extractor() -> FeatureExtractor {
    FeatureExtractor::new(FeatureExtractorConfig {
        spread_window: 50,
        obi_window: 50,
        vol_window: 20,
        vol_long_window: 50,
        trade_intensity_window_ns: 10_000_000_000,
        execution_lag_ns: 100_000_000,
        ..Default::default()
    })
}

#[test]
fn test_spread_computed_correctly() {
    let mut ext = default_extractor();
    let event = make_market_event(0, 110.0, 110.005, 1_000_000.0, 1_000_000.0, 1);
    ext.process_market_event(&event);

    let fv = ext.extract(&event, &make_state_snapshot(), StrategyId::A, NS_BASE);
    assert!((fv.spread - 0.005).abs() < 1e-10);
}

#[test]
fn test_spread_zscore_converges() {
    let mut ext = default_extractor();
    for i in 0..60u64 {
        let event = make_market_event(i * TICK_MS, 110.0, 110.005, 1e6, 1e6, i + 1);
        ext.process_market_event(&event);
    }
    let event = make_market_event(60 * TICK_MS, 110.0, 110.005, 1e6, 1e6, 61);
    ext.process_market_event(&event);
    let fv = ext.extract(
        &event,
        &make_state_snapshot(),
        StrategyId::A,
        NS_BASE + 60 * TICK_MS * 1_000_000,
    );
    assert!(
        fv.spread_zscore.abs() < 0.5,
        "z-score should be near 0 for constant spread, got {}",
        fv.spread_zscore
    );
}

#[test]
fn test_spread_zscore_detects_widening() {
    let mut ext = default_extractor();
    for i in 0..60u64 {
        let event = make_market_event(i * TICK_MS, 110.0, 110.005, 1e6, 1e6, i + 1);
        ext.process_market_event(&event);
    }
    let event = make_market_event(60 * TICK_MS, 110.0, 110.020, 1e6, 1e6, 61);
    ext.process_market_event(&event);
    let fv = ext.extract(
        &event,
        &make_state_snapshot(),
        StrategyId::A,
        NS_BASE + 60 * TICK_MS * 1_000_000,
    );
    assert!(
        fv.spread_zscore > 1.0,
        "z-score should be positive for widened spread, got {}",
        fv.spread_zscore
    );
}

#[test]
fn test_obi_balanced() {
    let mut ext = default_extractor();
    let event = make_market_event(0, 110.0, 110.005, 1_000_000.0, 1_000_000.0, 1);
    ext.process_market_event(&event);
    let fv = ext.extract(&event, &make_state_snapshot(), StrategyId::A, NS_BASE);
    assert!((fv.obi - 0.0).abs() < 1e-10, "balanced book -> OBI = 0");
}

#[test]
fn test_obi_sell_imbalance() {
    let mut ext = default_extractor();
    let event = make_market_event(0, 110.0, 110.005, 2_000_000.0, 500_000.0, 1);
    ext.process_market_event(&event);
    let fv = ext.extract(&event, &make_state_snapshot(), StrategyId::A, NS_BASE);
    let expected_obi = (500_000.0 - 2_000_000.0) / 2_500_000.0;
    assert!((fv.obi - expected_obi).abs() < 1e-10);
    assert!(fv.obi < 0.0, "sell imbalance -> OBI < 0");
}

#[test]
fn test_delta_obi_initial() {
    let mut ext = default_extractor();
    let event = make_market_event(0, 110.0, 110.005, 1e6, 1e6, 1);
    ext.process_market_event(&event);
    let fv = ext.extract(&event, &make_state_snapshot(), StrategyId::A, NS_BASE);
    assert!(
        (fv.delta_obi - 0.0).abs() < 1e-10,
        "first tick -> delta_obi = 0"
    );
}

#[test]
fn test_delta_obi_changes() {
    let mut ext = default_extractor();
    let event1 = make_market_event(0, 110.0, 110.005, 1e6, 1e6, 1);
    ext.process_market_event(&event1);
    let event2 = make_market_event(TICK_MS, 110.0, 110.005, 2e6, 500_000.0, 2);
    ext.process_market_event(&event2);
    let fv = ext.extract(
        &event2,
        &make_state_snapshot(),
        StrategyId::A,
        NS_BASE + TICK_MS * 1_000_000,
    );
    assert!(
        (fv.delta_obi - (-0.6)).abs() < 1e-10,
        "OBI shifted from 0.0 to -0.6, delta should be -0.6, got {}",
        fv.delta_obi
    );
}

#[test]
fn test_depth_change_rate() {
    let mut ext = default_extractor();
    let event1 = make_market_event(0, 110.0, 110.005, 1e6, 1e6, 1);
    ext.process_market_event(&event1);
    let event2 = make_market_event(TICK_MS, 110.0, 110.005, 500_000.0, 500_000.0, 2);
    ext.process_market_event(&event2);
    let fv = ext.extract(
        &event2,
        &make_state_snapshot(),
        StrategyId::A,
        NS_BASE + TICK_MS * 1_000_000,
    );
    let expected = (1_000_000.0 - 2_000_000.0) / 2_000_000.0;
    assert!(
        (fv.depth_change_rate - expected).abs() < 1e-10,
        "depth should halve, got {}",
        fv.depth_change_rate
    );
}

#[test]
fn test_queue_position_zero_when_no_position() {
    let mut ext = default_extractor();
    let event = make_market_event(0, 110.0, 110.005, 1e6, 1e6, 1);
    ext.process_market_event(&event);
    let fv = ext.extract(&event, &make_state_snapshot(), StrategyId::A, NS_BASE);
    assert!((fv.queue_position - 0.0).abs() < 1e-10);
}

#[test]
fn test_realized_volatility_zero_for_constant_price() {
    let mut ext = default_extractor();
    for i in 0..30u64 {
        let event = make_market_event(i * TICK_MS, 110.0, 110.005, 1e6, 1e6, i + 1);
        ext.process_market_event(&event);
    }
    let event = make_market_event(30 * TICK_MS, 110.0, 110.005, 1e6, 1e6, 31);
    ext.process_market_event(&event);
    let fv = ext.extract(
        &event,
        &make_state_snapshot(),
        StrategyId::A,
        NS_BASE + 30 * TICK_MS * 1_000_000,
    );
    assert!(
        fv.realized_volatility.abs() < 1e-12,
        "constant price -> vol ~ 0, got {}",
        fv.realized_volatility
    );
}

#[test]
fn test_realized_volatility_increases_with_movement() {
    let mut ext = default_extractor();
    for i in 0..30u64 {
        let bid = 110.0 + (i as f64) * 0.001;
        let ask = bid + 0.005;
        let event = make_market_event(i * TICK_MS, bid, ask, 1e6, 1e6, i + 1);
        ext.process_market_event(&event);
    }
    let event = make_market_event(30 * TICK_MS, 110.03, 110.035, 1e6, 1e6, 31);
    ext.process_market_event(&event);
    let fv = ext.extract(
        &event,
        &make_state_snapshot(),
        StrategyId::A,
        NS_BASE + 30 * TICK_MS * 1_000_000,
    );
    assert!(
        fv.realized_volatility > 0.0,
        "price movement -> vol > 0, got {}",
        fv.realized_volatility
    );
}

#[test]
fn test_volatility_ratio() {
    let mut ext = default_extractor();
    for i in 0..60u64 {
        let event = make_market_event(i * TICK_MS, 110.0, 110.005, 1e6, 1e6, i + 1);
        ext.process_market_event(&event);
    }
    let event = make_market_event(60 * TICK_MS, 110.0, 110.005, 1e6, 1e6, 61);
    ext.process_market_event(&event);
    let fv = ext.extract(
        &event,
        &make_state_snapshot(),
        StrategyId::A,
        NS_BASE + 60 * TICK_MS * 1_000_000,
    );
    assert!(
        (fv.volatility_ratio - 1.0).abs() < 1e-10,
        "constant price -> vol_ratio = 1.0, got {}",
        fv.volatility_ratio
    );
}

#[test]
fn test_volatility_decay_rate() {
    let mut ext = default_extractor();
    for i in 0..30u64 {
        let event = make_market_event(i * TICK_MS, 110.0, 110.005, 1e6, 1e6, i + 1);
        ext.process_market_event(&event);
    }
    let event = make_market_event(30 * TICK_MS, 110.0, 110.005, 1e6, 1e6, 31);
    ext.process_market_event(&event);
    let fv = ext.extract(
        &event,
        &make_state_snapshot(),
        StrategyId::A,
        NS_BASE + 30 * TICK_MS * 1_000_000,
    );
    assert!(
        fv.volatility_decay_rate.abs() < 1e-10,
        "constant price -> decay_rate ~ 0, got {}",
        fv.volatility_decay_rate
    );
}

#[test]
fn test_session_one_hot() {
    let (t, l, n, s) = marks(Session::Tokyo);
    assert!((t - 1.0).abs() < 1e-10);
    assert!((l - 0.0).abs() < 1e-10);
    assert!((n - 0.0).abs() < 1e-10);
    assert!((s - 0.0).abs() < 1e-10);

    let (t, l, _n, _s) = marks(Session::London);
    assert!((t - 0.0).abs() < 1e-10);
    assert!((l - 1.0).abs() < 1e-10);
}

#[test]
fn test_session_from_utc_hour() {
    let config = FeatureExtractorConfig::default();
    assert_eq!(
        Session::from_utc_hour(3, &config.session_hours_utc),
        Session::Tokyo
    );
    assert_eq!(
        Session::from_utc_hour(10, &config.session_hours_utc),
        Session::London
    );
    assert_eq!(
        Session::from_utc_hour(15, &config.session_hours_utc),
        Session::NewYork
    );
    assert_eq!(
        Session::from_utc_hour(23, &config.session_hours_utc),
        Session::Sydney
    );
}

#[test]
fn test_time_since_open() {
    let mut ext = default_extractor();
    let event = make_market_event(0, 110.0, 110.005, 1e6, 1e6, 1);
    ext.process_market_event(&event);

    let event2 = make_market_event(5000, 110.0, 110.005, 1e6, 1e6, 2);
    ext.process_market_event(&event2);
    let fv = ext.extract(
        &event2,
        &make_state_snapshot(),
        StrategyId::A,
        NS_BASE + 5000 * 1_000_000,
    );
    assert!(
        (fv.time_since_open_ms - 5000.0).abs() < 1e-5,
        "time_since_open should be 5000ms, got {}",
        fv.time_since_open_ms
    );
}

#[test]
fn test_time_since_last_spike_initial() {
    let mut ext = default_extractor();
    let event = make_market_event(0, 110.0, 110.005, 1e6, 1e6, 1);
    ext.process_market_event(&event);
    let fv = ext.extract(&event, &make_state_snapshot(), StrategyId::A, NS_BASE);
    assert_eq!(fv.time_since_last_spike_ms, f64::MAX, "no spike -> MAX");
}

#[test]
fn test_holding_time_no_position() {
    let mut ext = default_extractor();
    let event = make_market_event(0, 110.0, 110.005, 1e6, 1e6, 1);
    ext.process_market_event(&event);
    let fv = ext.extract(&event, &make_state_snapshot(), StrategyId::A, NS_BASE);
    assert!((fv.holding_time_ms - 0.0).abs() < 1e-10);
}

#[test]
fn test_holding_time_with_position() {
    let mut ext = default_extractor();
    let event = make_market_event(0, 110.0, 110.005, 1e6, 1e6, 1);
    ext.process_market_event(&event);
    let entry_ns = NS_BASE;
    let state = make_state_with_position(1000.0, 110.0, 0.0, entry_ns);
    let now_ns = NS_BASE + 10_000_000;
    let fv = ext.extract(&event, &state, StrategyId::A, now_ns);
    assert!((fv.holding_time_ms - 10.0).abs() < 1e-5);
}

#[test]
fn test_position_features_no_position() {
    let mut ext = default_extractor();
    let event = make_market_event(0, 110.0, 110.005, 1e6, 1e6, 1);
    ext.process_market_event(&event);
    let fv = ext.extract(&event, &make_state_snapshot(), StrategyId::A, NS_BASE);
    assert!((fv.position_size - 0.0).abs() < 1e-10);
    assert!((fv.position_direction - 0.0).abs() < 1e-10);
    assert!((fv.entry_price - 0.0).abs() < 1e-10);
    assert!((fv.pnl_unrealized - 0.0).abs() < 1e-10);
}

#[test]
fn test_position_features_long() {
    let mut ext = default_extractor();
    let event = make_market_event(0, 110.0, 110.005, 1e6, 1e6, 1);
    ext.process_market_event(&event);
    let state = make_state_with_position(1000.0, 110.0, 5.0, NS_BASE);
    let fv = ext.extract(&event, &state, StrategyId::A, NS_BASE);
    assert!((fv.position_size - 1000.0).abs() < 1e-10);
    assert!((fv.position_direction - 1.0).abs() < 1e-10);
    assert!((fv.entry_price - 110.0).abs() < 1e-10);
    assert!((fv.pnl_unrealized - 5.0).abs() < 1e-10);
}

#[test]
fn test_position_features_short() {
    let mut ext = default_extractor();
    let event = make_market_event(0, 110.0, 110.005, 1e6, 1e6, 1);
    ext.process_market_event(&event);
    let state = make_state_with_position(-500.0, 110.0, -3.0, NS_BASE);
    let fv = ext.extract(&event, &state, StrategyId::A, NS_BASE);
    assert!((fv.position_size - (-500.0)).abs() < 1e-10);
    assert!((fv.position_direction - (-1.0)).abs() < 1e-10);
}

#[test]
fn test_position_features_wrong_strategy() {
    let mut ext = default_extractor();
    let event = make_market_event(0, 110.0, 110.005, 1e6, 1e6, 1);
    ext.process_market_event(&event);
    let state = make_state_with_position(1000.0, 110.0, 5.0, NS_BASE);
    let fv = ext.extract(&event, &state, StrategyId::B, NS_BASE);
    assert!((fv.position_size - 0.0).abs() < 1e-10);
}

#[test]
fn test_execution_lag_fill_rate_initial() {
    let ext = default_extractor();
    assert!((ext.fill_rate() - 0.0).abs() < 1e-10);
}

#[test]
fn test_execution_lag_fill_rate_after_fill() {
    let mut ext = default_extractor();
    let exec_event =
        make_execution_event(0, FillStatus::Filled, 0.001, 1000.0, 1);
    ext.process_execution_event(&exec_event);

    let market_event = make_market_event(0, 110.0, 110.005, 1e6, 1e6, 1);
    ext.process_market_event(&market_event);

    let fv = ext.extract(
        &market_event,
        &make_state_snapshot(),
        StrategyId::A,
        NS_BASE,
    );
    assert!(
        (fv.recent_fill_rate - 0.0).abs() < 1e-10,
        "within lag window -> fill_rate = 0, got {}",
        fv.recent_fill_rate
    );
}

#[test]
fn test_execution_lag_fill_rate_after_lag_window() {
    let mut ext = default_extractor();
    let exec_event =
        make_execution_event(0, FillStatus::Filled, 0.001, 1000.0, 1);
    ext.process_execution_event(&exec_event);

    let market_event = make_market_event(200, 110.0, 110.005, 1e6, 1e6, 1);
    ext.process_market_event(&market_event);

    let now_ns = NS_BASE + 200 * 1_000_000;
    let fv = ext.extract(&market_event, &make_state_snapshot(), StrategyId::A, now_ns);
    assert!(
        fv.recent_fill_rate > 0.0,
        "after lag window -> fill_rate > 0, got {}",
        fv.recent_fill_rate
    );
}

#[test]
fn test_trade_intensity_counts_fills() {
    let mut ext = default_extractor();
    for i in 0..5u64 {
        let exec = make_execution_event(
            i * TICK_MS,
            FillStatus::Filled,
            0.001,
            100.0,
            i + 1,
        );
        ext.process_execution_event(&exec);
    }
    let market_event = make_market_event(500, 110.0, 110.005, 1e6, 1e6, 10);
    ext.process_market_event(&market_event);
    let now_ns = NS_BASE + 500 * 1_000_000;
    let fv = ext.extract(&market_event, &make_state_snapshot(), StrategyId::A, now_ns);
    assert!(
        (fv.trade_intensity - 5.0).abs() < 1e-10,
        "5 fills -> trade_intensity = 5, got {}",
        fv.trade_intensity
    );
}

#[test]
fn test_signed_volume() {
    let mut ext = default_extractor();
    let exec1 = make_execution_event(0, FillStatus::Filled, 0.001, 1000.0, 1);
    ext.process_execution_event(&exec1);
    let exec2 =
        make_execution_event(TICK_MS, FillStatus::Filled, 0.002, 500.0, 2);
    ext.process_execution_event(&exec2);

    let market_event = make_market_event(200, 110.0, 110.005, 1e6, 1e6, 10);
    ext.process_market_event(&market_event);
    let now_ns = NS_BASE + 200 * 1_000_000;
    let fv = ext.extract(&market_event, &make_state_snapshot(), StrategyId::A, now_ns);
    assert!(
        (fv.signed_volume - 1500.0).abs() < 1e-10,
        "1000 + 500 = 1500, got {}",
        fv.signed_volume
    );
}

#[test]
fn test_rejected_execution_not_counted_in_intensity() {
    let mut ext = default_extractor();
    let exec = make_execution_event(0, FillStatus::Rejected, 0.0, 1000.0, 1);
    ext.process_execution_event(&exec);

    let market_event = make_market_event(200, 110.0, 110.005, 1e6, 1e6, 10);
    ext.process_market_event(&market_event);
    let now_ns = NS_BASE + 200 * 1_000_000;
    let fv = ext.extract(&market_event, &make_state_snapshot(), StrategyId::A, now_ns);
    assert!(
        (fv.trade_intensity - 0.0).abs() < 1e-10,
        "rejected -> trade_intensity = 0, got {}",
        fv.trade_intensity
    );
}

#[test]
fn test_self_impact_zero_no_position() {
    let mut ext = default_extractor();
    let event = make_market_event(0, 110.0, 110.005, 1e6, 1e6, 1);
    ext.process_market_event(&event);
    let fv = ext.extract(&event, &make_state_snapshot(), StrategyId::A, NS_BASE);
    assert!((fv.self_impact - 0.0).abs() < 1e-10);
}

#[test]
fn test_self_impact_scales_with_position() {
    let mut ext = default_extractor();
    for i in 0..30u64 {
        let bid = 110.0 + (i as f64) * 0.001;
        let event = make_market_event(i * TICK_MS, bid, bid + 0.005, 1e6, 1e6, i + 1);
        ext.process_market_event(&event);
    }
    let event = make_market_event(30 * TICK_MS, 110.03, 110.035, 1e6, 1e6, 31);
    ext.process_market_event(&event);

    let state = make_state_with_position(2000.0, 110.0, 0.0, NS_BASE);
    let fv = ext.extract(
        &event,
        &state,
        StrategyId::A,
        NS_BASE + 30 * TICK_MS * 1_000_000,
    );

    let state_small = make_state_with_position(500.0, 110.0, 0.0, NS_BASE);
    let fv_small = ext.extract(
        &event,
        &state_small,
        StrategyId::A,
        NS_BASE + 30 * TICK_MS * 1_000_000,
    );
    assert!(
        fv.self_impact > fv_small.self_impact,
        "larger position -> higher self_impact: {} vs {}",
        fv.self_impact,
        fv_small.self_impact
    );
}

#[test]
fn test_time_decay_at_zero() {
    let mut ext = default_extractor();
    let event = make_market_event(0, 110.0, 110.005, 1e6, 1e6, 1);
    ext.process_market_event(&event);
    let state = make_state_with_position(1000.0, 110.0, 0.0, NS_BASE);
    let fv = ext.extract(&event, &state, StrategyId::A, NS_BASE);
    assert!(
        (fv.time_decay - 1.0).abs() < 1e-10,
        "zero holding time -> decay = 1.0, got {}",
        fv.time_decay
    );
}

#[test]
fn test_time_decay_decreases() {
    let mut ext = default_extractor();
    let event = make_market_event(0, 110.0, 110.005, 1e6, 1e6, 1);
    ext.process_market_event(&event);

    let state = make_state_with_position(1000.0, 110.0, 0.0, NS_BASE);
    let now_ns = NS_BASE + 50_000_000_000;
    let fv = ext.extract(&event, &state, StrategyId::A, now_ns);
    assert!(
        fv.time_decay < 1.0,
        "long holding -> decay < 1.0, got {}",
        fv.time_decay
    );
    assert!(
        fv.time_decay > 0.0,
        "decay should be positive, got {}",
        fv.time_decay
    );
}

#[test]
fn test_dynamic_cost_includes_spread() {
    let mut ext = default_extractor();
    let event = make_market_event(0, 110.0, 110.010, 1e6, 1e6, 1);
    ext.process_market_event(&event);
    let fv = ext.extract(&event, &make_state_snapshot(), StrategyId::A, NS_BASE);
    assert!(
        fv.dynamic_cost >= 0.010,
        "dynamic_cost should include spread (0.010), got {}",
        fv.dynamic_cost
    );
}

#[test]
fn test_p_revert_clamped() {
    let mut ext = default_extractor();
    for i in 0..60u64 {
        let event = make_market_event(i * TICK_MS, 110.0, 110.005, 1e6, 1e6, i + 1);
        ext.process_market_event(&event);
    }
    let event = make_market_event(60 * TICK_MS, 110.0, 110.100, 1e6, 1e6, 61);
    ext.process_market_event(&event);
    let fv = ext.extract(
        &event,
        &make_state_snapshot(),
        StrategyId::A,
        NS_BASE + 60 * TICK_MS * 1_000_000,
    );
    assert!(
        fv.p_revert >= 0.0 && fv.p_revert <= 1.0,
        "p_revert should be in [0, 1], got {}",
        fv.p_revert
    );
}

#[test]
fn test_p_continue_low_vol_constant() {
    let mut ext = default_extractor();
    for i in 0..30u64 {
        let event = make_market_event(i * TICK_MS, 110.0, 110.005, 1e6, 1e6, i + 1);
        ext.process_market_event(&event);
    }
    let event = make_market_event(30 * TICK_MS, 110.0, 110.005, 1e6, 1e6, 31);
    ext.process_market_event(&event);
    let fv = ext.extract(
        &event,
        &make_state_snapshot(),
        StrategyId::A,
        NS_BASE + 30 * TICK_MS * 1_000_000,
    );
    assert!(
        (fv.p_continue - 0.0).abs() < 1e-10,
        "constant price, no trades -> p_continue = 0, got {}",
        fv.p_continue
    );
}

#[test]
fn test_p_trend_depends_on_session() {
    let config = FeatureExtractorConfig::default();
    let ext = FeatureExtractor::new(config);
    let p_tokyo = ext.compute_p_trend(Session::Tokyo, 0.0);
    let p_ny = ext.compute_p_trend(Session::NewYork, 0.0);
    assert!(
        p_ny > p_tokyo,
        "NY should have higher trend prob than Tokyo: {} vs {}",
        p_ny,
        p_tokyo
    );
}

#[test]
fn test_interaction_spread_z_x_vol() {
    let mut ext = default_extractor();
    for i in 0..60u64 {
        let event = make_market_event(i * TICK_MS, 110.0, 110.005, 1e6, 1e6, i + 1);
        ext.process_market_event(&event);
    }
    let event = make_market_event(60 * TICK_MS, 110.0, 110.020, 1e6, 1e6, 61);
    ext.process_market_event(&event);
    let fv = ext.extract(
        &event,
        &make_state_snapshot(),
        StrategyId::A,
        NS_BASE + 60 * TICK_MS * 1_000_000,
    );
    let expected = fv.spread_zscore * fv.realized_volatility;
    assert!(
        (fv.spread_z_x_vol - expected).abs() < 1e-12,
        "spread_z_x_vol = spread_zscore * vol, expected {}, got {}",
        expected,
        fv.spread_z_x_vol
    );
}

#[test]
fn test_interaction_obi_x_session() {
    let mut ext = default_extractor();
    let event = make_market_event(0, 110.0, 110.005, 1e6, 1e6, 1);
    ext.process_market_event(&event);
    let fv = ext.extract(&event, &make_state_snapshot(), StrategyId::A, NS_BASE);
    assert!((fv.obi_x_session - 0.0).abs() < 1e-10);
}

#[test]
fn test_interaction_depth_drop_x_vol_spike_recent() {
    let mut ext = default_extractor();
    let event = make_market_event(0, 110.0, 110.005, 1e6, 1e6, 1);
    ext.process_market_event(&event);

    let fv = ext.extract(&event, &make_state_snapshot(), StrategyId::A, NS_BASE);
    assert!(
        (fv.depth_drop_x_vol_spike - 0.0).abs() < 1e-10,
        "no recent spike -> interaction = 0, got {}",
        fv.depth_drop_x_vol_spike
    );
}

#[test]
fn test_interaction_position_size_x_vol() {
    let mut ext = default_extractor();
    for i in 0..30u64 {
        let bid = 110.0 + (i as f64) * 0.001;
        let event = make_market_event(i * TICK_MS, bid, bid + 0.005, 1e6, 1e6, i + 1);
        ext.process_market_event(&event);
    }
    let event = make_market_event(30 * TICK_MS, 110.03, 110.035, 1e6, 1e6, 31);
    ext.process_market_event(&event);

    let state = make_state_with_position(1000.0, 110.0, 0.0, NS_BASE);
    let fv = ext.extract(
        &event,
        &state,
        StrategyId::A,
        NS_BASE + 30 * TICK_MS * 1_000_000,
    );
    let expected = 1000.0 * fv.realized_volatility;
    assert!(
        (fv.position_size_x_vol - expected).abs() < 1e-12,
        "expected {}, got {}",
        expected,
        fv.position_size_x_vol
    );
}

#[test]
fn test_information_leakage_execution_lag_enforced() {
    let mut ext = default_extractor();
    let exec = make_execution_event(0, FillStatus::Filled, 0.001, 1000.0, 1);
    ext.process_execution_event(&exec);

    let market_event = make_market_event(0, 110.0, 110.005, 1e6, 1e6, 1);
    ext.process_market_event(&market_event);

    let fv = ext.extract(
        &market_event,
        &make_state_snapshot(),
        StrategyId::A,
        NS_BASE,
    );
    assert!(
        (fv.recent_fill_rate - 0.0).abs() < 1e-10,
        "fill rate must be 0 within lag window (leakage prevention), got {}",
        fv.recent_fill_rate
    );
    assert!(
        (fv.recent_slippage - 0.0).abs() < 1e-10,
        "slippage must be 0 within lag window (leakage prevention), got {}",
        fv.recent_slippage
    );
    assert!(
        (fv.recent_reject_rate - 0.0).abs() < 1e-10,
        "reject rate must be 0 within lag window (leakage prevention), got {}",
        fv.recent_reject_rate
    );
    assert!(
        (fv.execution_drift_trend - 0.0).abs() < 1e-10,
        "execution drift must be 0 within lag window (leakage prevention), got {}",
        fv.execution_drift_trend
    );
}

#[test]
fn test_information_leakage_fill_rate_visible_after_lag() {
    let mut ext = default_extractor();
    let exec = make_execution_event(0, FillStatus::Filled, 0.001, 1000.0, 1);
    ext.process_execution_event(&exec);

    let market_event = make_market_event(500, 110.0, 110.005, 1e6, 1e6, 1);
    ext.process_market_event(&market_event);

    let now_ns = NS_BASE + 500 * 1_000_000;
    let fv = ext.extract(&market_event, &make_state_snapshot(), StrategyId::A, now_ns);
    assert!(
        fv.recent_fill_rate > 0.0,
        "fill rate should be visible after lag window, got {}",
        fv.recent_fill_rate
    );
    assert!(
        fv.recent_slippage > 0.0,
        "slippage should be visible after lag window, got {}",
        fv.recent_slippage
    );
    assert!(
        fv.execution_drift_trend > 0.0,
        "execution drift should be visible after lag window, got {}",
        fv.execution_drift_trend
    );
}

#[test]
fn test_information_leakage_reject_rate_visible_after_lag() {
    let mut ext = default_extractor();
    let exec = make_execution_event(0, FillStatus::Rejected, 0.0, 1000.0, 1);
    ext.process_execution_event(&exec);

    let market_event = make_market_event(500, 110.0, 110.005, 1e6, 1e6, 1);
    ext.process_market_event(&market_event);

    let now_ns = NS_BASE + 500 * 1_000_000;
    let fv = ext.extract(&market_event, &make_state_snapshot(), StrategyId::A, now_ns);
    assert!(
        fv.recent_reject_rate > 0.0,
        "reject rate should be visible after lag window, got {}",
        fv.recent_reject_rate
    );
}

#[test]
fn test_information_leakage_unrealized_pnl_uses_state_snapshot() {
    let mut ext = default_extractor();
    let event = make_market_event(0, 110.0, 110.005, 1e6, 1e6, 1);
    ext.process_market_event(&event);

    let state = make_state_with_position(1000.0, 110.0, 5.0, NS_BASE);
    let fv = ext.extract(&event, &state, StrategyId::A, NS_BASE);
    assert!(
        (fv.pnl_unrealized - 5.0).abs() < 1e-10,
        "pnl_unrealized should come from state snapshot (lagged), got {}",
        fv.pnl_unrealized
    );
}

#[test]
fn test_gap_hold_flag() {
    let mut ext = default_extractor();
    assert!(!ext.is_gap_hold());
    ext.set_gap_hold(true);
    assert!(ext.is_gap_hold());
    ext.set_gap_hold(false);
    assert!(!ext.is_gap_hold());
}

#[test]
fn test_extract_produces_valid_flattened_vector() {
    let mut ext = default_extractor();
    for i in 0..10u64 {
        let event = make_market_event(i * TICK_MS, 110.0, 110.005, 1e6, 1e6, i + 1);
        ext.process_market_event(&event);
    }
    let event = make_market_event(10 * TICK_MS, 110.0, 110.005, 1e6, 1e6, 11);
    ext.process_market_event(&event);
    let fv = ext.extract(
        &event,
        &make_state_snapshot(),
        StrategyId::A,
        NS_BASE + 10 * TICK_MS * 1_000_000,
    );
    let flat = fv.flattened();
    assert_eq!(flat.len(), FeatureVector::DIM);

    let restored = FeatureVector::from_flattened(&flat).unwrap();
    assert!((restored.spread - fv.spread).abs() < 1e-15);
    assert!((restored.obi - fv.obi).abs() < 1e-15);
    assert!((restored.realized_volatility - fv.realized_volatility).abs() < 1e-15);
}

#[test]
fn test_all_features_finite() {
    let mut ext = default_extractor();
    for i in 0..30u64 {
        let bid = 110.0 + (i as f64) * 0.001;
        let event = make_market_event(i * TICK_MS, bid, bid + 0.005, 1e6, 1e6, i + 1);
        ext.process_market_event(&event);
    }
    let exec = make_execution_event(0, FillStatus::Filled, 0.001, 1000.0, 1);
    ext.process_execution_event(&exec);

    let event = make_market_event(30 * TICK_MS, 110.03, 110.035, 1e6, 1e6, 31);
    ext.process_market_event(&event);

    let state = make_state_with_position(1000.0, 110.0, 5.0, NS_BASE);
    let now_ns = NS_BASE + 500 * 1_000_000;
    let fv = ext.extract(&event, &state, StrategyId::A, now_ns);
    let flat = fv.flattened();
    for (i, &v) in flat.iter().enumerate() {
        assert!(v.is_finite(), "feature[{}] = {} is not finite", i, v);
    }
}

#[test]
fn test_rolling_window_basic() {
    let mut w = RollingWindow::new(5);
    w.push(1.0);
    w.push(2.0);
    w.push(3.0);
    assert!((w.mean() - 2.0).abs() < 1e-10);
    assert!((w.std_dev() - 1.0).abs() < 1e-10);
}

#[test]
fn test_rolling_window_capacity() {
    let mut w = RollingWindow::new(3);
    w.push(1.0);
    w.push(2.0);
    w.push(3.0);
    w.push(4.0);
    assert_eq!(w.len(), 3);
    assert!((w.mean() - 3.0).abs() < 1e-10);
}

#[test]
fn test_rolling_window_z_score() {
    let mut w = RollingWindow::new(100);
    for i in 0..50_i32 {
        w.push(10.0 + (i % 5) as f64 * 0.1);
    }
    let z = w.z_score(15.0);
    assert!(
        z > 0.0,
        "value above mean should have positive z-score, got {}",
        z
    );
}

#[test]
fn test_rolling_window_latest_prev() {
    let mut w = RollingWindow::new(10);
    w.push(1.0);
    w.push(2.0);
    w.push(3.0);
    assert_eq!(w.latest(), Some(3.0));
    assert_eq!(w.prev(), Some(2.0));
}

#[test]
fn test_rolling_window_single_element() {
    let mut w = RollingWindow::new(10);
    w.push(5.0);
    assert_eq!(w.mean(), 5.0);
    assert_eq!(w.std_dev(), 0.0);
    assert_eq!(w.prev(), None);
}

#[test]
fn test_lagged_exec_pruning() {
    let mut stats = LaggedExecutionStats::new();
    stats.update(FillStatus::Filled, 0.001, 100.0, 0.001, 1000);
    stats.update(FillStatus::Filled, 0.002, 200.0, 0.002, 2000);
    stats.update(FillStatus::Filled, 0.003, 300.0, 0.003, 3000);
    assert_eq!(stats.inner.trade_count_window.len(), 3);
    stats.prune_before(2500);
    assert_eq!(stats.inner.trade_count_window.len(), 1);
}

#[test]
fn test_lagged_exec_reject_not_counted() {
    let mut stats = LaggedExecutionStats::new();
    stats.update(FillStatus::Rejected, 0.0, 1000.0, 0.0, 1000);
    stats.update(FillStatus::Filled, 0.001, 500.0, 0.001, 2000);
    assert!((stats.trade_intensity() - 1.0).abs() < 1e-10);
    assert!((stats.signed_volume() - 500.0).abs() < 1e-10);
}

#[test]
fn test_vol_state_realized_vol_empty() {
    let vs = VolatilityState::new();
    assert!((vs.realized_volatility(10) - 0.0).abs() < 1e-10);
}

#[test]
fn test_vol_state_realized_vol_single_price() {
    let mut vs = VolatilityState::new();
    vs.push_mid(110.0);
    assert!((vs.realized_volatility(10) - 0.0).abs() < 1e-10);
}

#[test]
fn test_session_numeric() {
    assert!((f(Session::Tokyo.numeric()) - 0.0).abs() < 1e-10);
    assert!((f(Session::London.numeric()) - 1.0).abs() < 1e-10);
    assert!((f(Session::NewYork.numeric()) - 2.0).abs() < 1e-10);
    assert!((f(Session::Sydney.numeric()) - 3.0).abs() < 1e-10);
}

#[test]
fn test_zero_bid_ask_sizes() {
    let mut ext = default_extractor();
    let event = make_market_event(0, 110.0, 110.005, 0.0, 0.0, 1);
    ext.process_market_event(&event);
    let fv = ext.extract(&event, &make_state_snapshot(), StrategyId::A, NS_BASE);
    assert!((fv.obi - 0.0).abs() < 1e-10, "zero sizes -> OBI = 0");
    assert!(fv.obi.is_finite());
    assert!(fv.queue_position.is_finite());
}

#[test]
fn test_very_large_spread() {
    let mut ext = default_extractor();
    for i in 0..60u64 {
        let event = make_market_event(i * TICK_MS, 110.0, 110.005, 1e6, 1e6, i + 1);
        ext.process_market_event(&event);
    }
    let event = make_market_event(60 * TICK_MS, 100.0, 120.0, 1e6, 1e6, 61);
    ext.process_market_event(&event);
    let fv = ext.extract(
        &event,
        &make_state_snapshot(),
        StrategyId::A,
        NS_BASE + 60 * TICK_MS * 1_000_000,
    );
    assert!(fv.spread > 0.0);
    assert!(fv.spread_zscore.is_finite());
    assert!(fv.dynamic_cost.is_finite());
}

#[test]
fn test_decode_error_handled_gracefully() {
    let mut ext = default_extractor();
    let event = MarketEvent { quote: None };
    ext.process_market_event(&event);
    assert!(!ext.is_gap_hold());
}

#[test]
fn test_execution_decode_error_handled_gracefully() {
    let mut ext = default_extractor();
    let event = ExecutionEvent {
        report: None,
        timestamp_ns: NS_BASE,
    };
    ext.process_execution_event(&event);
}

#[test]
fn test_extract_with_decode_error_returns_defaults() {
    let ext = default_extractor();
    let event = MarketEvent { quote: None };
    let fv = ext.extract(&event, &make_state_snapshot(), StrategyId::A, NS_BASE);
    let flat = fv.flattened();
    for v in &flat {
        assert!(
            v.is_finite(),
            "all features should be finite even on decode error"
        );
    }
}
