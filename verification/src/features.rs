//! The feature vector that a decision is taken on.

use crate::order;
use crate::scalar::Scalar;
use vstd::prelude::*;

verus! {

/// Features by name. Their order in the flat form is fixed and carries a version; features of
/// one strategy come after these.
#[derive(Debug, Clone, Copy, PartialEq, Eq, Structural)]
pub struct FeatureVector {
    pub spread: Scalar,
    pub spread_zscore: Scalar,
    pub obi: Scalar,
    pub delta_obi: Scalar,
    pub depth_change_rate: Scalar,
    pub queue_position: Scalar,
    pub realized_volatility: Scalar,
    pub volatility_ratio: Scalar,
    pub volatility_decay_rate: Scalar,
    pub session_tokyo: Scalar,
    pub session_london: Scalar,
    pub session_ny: Scalar,
    pub session_sydney: Scalar,
    pub time_since_open_ms: Scalar,
    pub time_since_last_spike_ms: Scalar,
    pub holding_time_ms: Scalar,
    pub position_size: Scalar,
    pub position_direction: Scalar,
    pub entry_price: Scalar,
    pub pnl_unrealized: Scalar,
    pub trade_intensity: Scalar,
    pub signed_volume: Scalar,
    pub recent_fill_rate: Scalar,
    pub recent_slippage: Scalar,
    pub recent_reject_rate: Scalar,
    pub execution_drift_trend: Scalar,
    pub self_impact: Scalar,
    pub time_decay: Scalar,
    pub dynamic_cost: Scalar,
    pub p_revert: Scalar,
    pub p_continue: Scalar,
    pub p_trend: Scalar,
    pub spread_z_x_vol: Scalar,
    pub obi_x_session: Scalar,
    pub depth_drop_x_vol_spike: Scalar,
    pub position_size_x_vol: Scalar,
    pub obi_x_vol: Scalar,
    pub spread_z_x_self_impact: Scalar,
}

/// What feature `index` becomes as input of the regime model: always finite; times are not
/// negative, and the time since the last spike is at most a day.
pub open spec fn regime_input(index: int, value: Scalar) -> Scalar {
    if index == 13 || index == 15 {
        if value.finite() && Scalar::of_int(0).at_most(value) {
            value
        } else {
            Scalar::of_int(0)
        }
    } else if index == 14 {
        if value.finite() {
            value.within(Scalar::of_int(0), Scalar::of_int(86_400_000))
        } else {
            Scalar::of_int(86_400_000)
        }
    } else if value.finite() {
        value
    } else {
        Scalar::of_int(0)
    }
}

impl FeatureVector {
    /// How many features there are.
    pub const DIM: usize = 38;

    /// Version of the order of the features.
    pub const SCHEMA_VERSION: &'static str = "feature_vector_v1_38";

    /// The features in their fixed order.
    pub open spec fn flat(self) -> Seq<Scalar> {
        seq![
            self.spread,
            self.spread_zscore,
            self.obi,
            self.delta_obi,
            self.depth_change_rate,
            self.queue_position,
            self.realized_volatility,
            self.volatility_ratio,
            self.volatility_decay_rate,
            self.session_tokyo,
            self.session_london,
            self.session_ny,
            self.session_sydney,
            self.time_since_open_ms,
            self.time_since_last_spike_ms,
            self.holding_time_ms,
            self.position_size,
            self.position_direction,
            self.entry_price,
            self.pnl_unrealized,
            self.trade_intensity,
            self.signed_volume,
            self.recent_fill_rate,
            self.recent_slippage,
            self.recent_reject_rate,
            self.execution_drift_trend,
            self.self_impact,
            self.time_decay,
            self.dynamic_cost,
            self.p_revert,
            self.p_continue,
            self.p_trend,
            self.spread_z_x_vol,
            self.obi_x_session,
            self.depth_drop_x_vol_spike,
            self.position_size_x_vol,
            self.obi_x_vol,
            self.spread_z_x_self_impact,
        ]
    }

    /// The names of the features in their fixed order.
    pub open spec fn names() -> Seq<&'static str> {
        seq![
        "spread",
        "spread_zscore",
        "obi",
        "delta_obi",
        "depth_change_rate",
        "queue_position",
        "realized_volatility",
        "volatility_ratio",
        "volatility_decay_rate",
        "session_tokyo",
        "session_london",
        "session_ny",
        "session_sydney",
        "time_since_open_ms",
        "time_since_last_spike_ms",
        "holding_time_ms",
        "position_size",
        "position_direction",
        "entry_price",
        "pnl_unrealized",
        "trade_intensity",
        "signed_volume",
        "recent_fill_rate",
        "recent_slippage",
        "recent_reject_rate",
        "execution_drift_trend",
        "self_impact",
        "time_decay",
        "dynamic_cost",
        "p_revert",
        "p_continue",
        "p_trend",
        "spread_z_x_vol",
        "obi_x_session",
        "depth_drop_x_vol_spike",
        "position_size_x_vol",
        "obi_x_vol",
        "spread_z_x_self_impact",
        ]
    }

    /// The longest time since a spike that the regime model is told.
    pub fn time_since_last_spike_cap_ms() -> (r: Scalar)
        ensures
            r == Scalar::of_int(86_400_000),
    {
        Scalar::from_u64(86_400_000)
    }

    /// The features in their fixed order.
    pub fn flattened(&self) -> (r: Vec<Scalar>)
        ensures
            r@ == self.flat(),
    {
        let r = vec![
            self.spread,
            self.spread_zscore,
            self.obi,
            self.delta_obi,
            self.depth_change_rate,
            self.queue_position,
            self.realized_volatility,
            self.volatility_ratio,
            self.volatility_decay_rate,
            self.session_tokyo,
            self.session_london,
            self.session_ny,
            self.session_sydney,
            self.time_since_open_ms,
            self.time_since_last_spike_ms,
            self.holding_time_ms,
            self.position_size,
            self.position_direction,
            self.entry_price,
            self.pnl_unrealized,
            self.trade_intensity,
            self.signed_volume,
            self.recent_fill_rate,
            self.recent_slippage,
            self.recent_reject_rate,
            self.execution_drift_trend,
            self.self_impact,
            self.time_decay,
            self.dynamic_cost,
            self.p_revert,
            self.p_continue,
            self.p_trend,
            self.spread_z_x_vol,
            self.obi_x_session,
            self.depth_drop_x_vol_spike,
            self.position_size_x_vol,
            self.obi_x_vol,
            self.spread_z_x_self_impact,
        ];
        assert(r@ =~= self.flat());
        r
    }

    /// The names of the features in their fixed order.
    pub fn header_names() -> (r: [&'static str; 38])
        ensures
            r@ == FeatureVector::names(),
    {
        let r = [
        "spread",
        "spread_zscore",
        "obi",
        "delta_obi",
        "depth_change_rate",
        "queue_position",
        "realized_volatility",
        "volatility_ratio",
        "volatility_decay_rate",
        "session_tokyo",
        "session_london",
        "session_ny",
        "session_sydney",
        "time_since_open_ms",
        "time_since_last_spike_ms",
        "holding_time_ms",
        "position_size",
        "position_direction",
        "entry_price",
        "pnl_unrealized",
        "trade_intensity",
        "signed_volume",
        "recent_fill_rate",
        "recent_slippage",
        "recent_reject_rate",
        "execution_drift_trend",
        "self_impact",
        "time_decay",
        "dynamic_cost",
        "p_revert",
        "p_continue",
        "p_trend",
        "spread_z_x_vol",
        "obi_x_session",
        "depth_drop_x_vol_spike",
        "position_size_x_vol",
        "obi_x_vol",
        "spread_z_x_self_impact",
        ];
        assert(r@ =~= FeatureVector::names());
        r
    }

    /// The features in their fixed order, made fit for the regime model.
    pub fn flattened_for_regime_model(&self) -> (r: Vec<Scalar>)
        ensures
            r@ == Seq::new(self.flat().len(), |i: int| regime_input(i, self.flat()[i])),
    {
        let values = self.flattened();
        let zero = Scalar::from_u64(0);
        let cap = Self::time_since_last_spike_cap_ms();
        let mut r: Vec<Scalar> = Vec::new();
        let mut i: usize = 0;
        while i < values.len()
            invariant
                values@ == self.flat(),
                zero == Scalar::of_int(0),
                cap == Scalar::of_int(86_400_000),
                i <= values.len(),
                r@ == Seq::new(i as nat, |k: int| regime_input(k, self.flat()[k])),
            decreases values.len() - i,
        {
            let value = values[i];
            let fit = if i == 13 || i == 15 {
                if value.is_finite() && value.ge(zero) {
                    value
                } else {
                    zero
                }
            } else if i == 14 {
                if value.is_finite() {
                    proof {
                        order::int_is_exact(0);
                        order::int_is_exact(86_400_000);
                        order::order_is_order_of_values(zero, cap);
                    }
                    value.clamp(zero, cap)
                } else {
                    cap
                }
            } else if value.is_finite() {
                value
            } else {
                zero
            };
            r.push(fit);
            i = i + 1;
            assert(r@ =~= Seq::new(i as nat, |k: int| regime_input(k, self.flat()[k])));
        }
        r
    }

    /// The features from their flat form; any other length is refused.
    pub fn from_flattened(values: &[Scalar]) -> (r: Option<FeatureVector>)
        ensures
            r is Some <==> values@.len() == FeatureVector::DIM,
            r matches Some(features) ==> features.flat() == values@,
    {
        if values.len() != Self::DIM {
            return None;
        }
        let features = FeatureVector {
            spread: values[0],
            spread_zscore: values[1],
            obi: values[2],
            delta_obi: values[3],
            depth_change_rate: values[4],
            queue_position: values[5],
            realized_volatility: values[6],
            volatility_ratio: values[7],
            volatility_decay_rate: values[8],
            session_tokyo: values[9],
            session_london: values[10],
            session_ny: values[11],
            session_sydney: values[12],
            time_since_open_ms: values[13],
            time_since_last_spike_ms: values[14],
            holding_time_ms: values[15],
            position_size: values[16],
            position_direction: values[17],
            entry_price: values[18],
            pnl_unrealized: values[19],
            trade_intensity: values[20],
            signed_volume: values[21],
            recent_fill_rate: values[22],
            recent_slippage: values[23],
            recent_reject_rate: values[24],
            execution_drift_trend: values[25],
            self_impact: values[26],
            time_decay: values[27],
            dynamic_cost: values[28],
            p_revert: values[29],
            p_continue: values[30],
            p_trend: values[31],
            spread_z_x_vol: values[32],
            obi_x_session: values[33],
            depth_drop_x_vol_spike: values[34],
            position_size_x_vol: values[35],
            obi_x_vol: values[36],
            spread_z_x_self_impact: values[37],
        };
        assert(features.flat() =~= values@);
        Some(features)
    }

    /// All features zero, and the probabilities even.
    pub fn zero() -> (r: FeatureVector)
        ensures
            r.flat() == Seq::new(
                38,
                |i: int|
                    if 29 <= i <= 31 {
                        Scalar::of_ratio(1, 2)
                    } else {
                        Scalar::of_int(0)
                    },
            ),
    {
        let zero = Scalar::from_u64(0);
        let half = Scalar::ratio(1, 2);
        let r = FeatureVector {
            spread: zero,
            spread_zscore: zero,
            obi: zero,
            delta_obi: zero,
            depth_change_rate: zero,
            queue_position: zero,
            realized_volatility: zero,
            volatility_ratio: zero,
            volatility_decay_rate: zero,
            session_tokyo: zero,
            session_london: zero,
            session_ny: zero,
            session_sydney: zero,
            time_since_open_ms: zero,
            time_since_last_spike_ms: zero,
            holding_time_ms: zero,
            position_size: zero,
            position_direction: zero,
            entry_price: zero,
            pnl_unrealized: zero,
            trade_intensity: zero,
            signed_volume: zero,
            recent_fill_rate: zero,
            recent_slippage: zero,
            recent_reject_rate: zero,
            execution_drift_trend: zero,
            self_impact: zero,
            time_decay: zero,
            dynamic_cost: zero,
            p_revert: half,
            p_continue: half,
            p_trend: half,
            spread_z_x_vol: zero,
            obi_x_session: zero,
            depth_drop_x_vol_spike: zero,
            position_size_x_vol: zero,
            obi_x_vol: zero,
            spread_z_x_self_impact: zero,
        };
        assert(r.flat() =~= Seq::new(
            38,
            |i: int|
                if 29 <= i <= 31 {
                    Scalar::of_ratio(1, 2)
                } else {
                    Scalar::of_int(0)
                },
        ));
        r
    }
}

/// The flat form has one entry for each name.
pub proof fn one_entry_for_each_name(features: FeatureVector)
    ensures
        features.flat().len() == FeatureVector::DIM,
        FeatureVector::names().len() == FeatureVector::DIM,
{
}

/// No two feature vectors share a flat form, so reading back what was flattened gives it again.
pub proof fn flat_form_is_faithful(a: FeatureVector, b: FeatureVector)
    ensures
        a.flat() == b.flat() <==> a == b,
{
    if a.flat() == b.flat() {
        assert(a.flat()[0] == b.flat()[0]);
        assert(a.flat()[1] == b.flat()[1]);
        assert(a.flat()[2] == b.flat()[2]);
        assert(a.flat()[3] == b.flat()[3]);
        assert(a.flat()[4] == b.flat()[4]);
        assert(a.flat()[5] == b.flat()[5]);
        assert(a.flat()[6] == b.flat()[6]);
        assert(a.flat()[7] == b.flat()[7]);
        assert(a.flat()[8] == b.flat()[8]);
        assert(a.flat()[9] == b.flat()[9]);
        assert(a.flat()[10] == b.flat()[10]);
        assert(a.flat()[11] == b.flat()[11]);
        assert(a.flat()[12] == b.flat()[12]);
        assert(a.flat()[13] == b.flat()[13]);
        assert(a.flat()[14] == b.flat()[14]);
        assert(a.flat()[15] == b.flat()[15]);
        assert(a.flat()[16] == b.flat()[16]);
        assert(a.flat()[17] == b.flat()[17]);
        assert(a.flat()[18] == b.flat()[18]);
        assert(a.flat()[19] == b.flat()[19]);
        assert(a.flat()[20] == b.flat()[20]);
        assert(a.flat()[21] == b.flat()[21]);
        assert(a.flat()[22] == b.flat()[22]);
        assert(a.flat()[23] == b.flat()[23]);
        assert(a.flat()[24] == b.flat()[24]);
        assert(a.flat()[25] == b.flat()[25]);
        assert(a.flat()[26] == b.flat()[26]);
        assert(a.flat()[27] == b.flat()[27]);
        assert(a.flat()[28] == b.flat()[28]);
        assert(a.flat()[29] == b.flat()[29]);
        assert(a.flat()[30] == b.flat()[30]);
        assert(a.flat()[31] == b.flat()[31]);
        assert(a.flat()[32] == b.flat()[32]);
        assert(a.flat()[33] == b.flat()[33]);
        assert(a.flat()[34] == b.flat()[34]);
        assert(a.flat()[35] == b.flat()[35]);
        assert(a.flat()[36] == b.flat()[36]);
        assert(a.flat()[37] == b.flat()[37]);
    }
}

/// Whatever the features are, the regime model gets finite numbers, and the three times it gets
/// are not negative and, since the last spike, at most a day.
pub proof fn regime_input_is_fit(index: int, value: Scalar)
    ensures
        regime_input(index, value).finite(),
        13 <= index <= 15 ==> regime_input(index, value).value() >= 0,
        index == 14 ==> regime_input(index, value).at_most(Scalar::of_int(86_400_000)),
        value.finite() && !(13 <= index <= 15) ==> regime_input(index, value) == value,
{
    order::int_is_exact(0);
    order::int_is_exact(86_400_000);
    let zero = Scalar::of_int(0);
    let cap = Scalar::of_int(86_400_000);
    order::order_is_order_of_values(zero, cap);
    if value.finite() {
        order::order_is_order_of_values(zero, value);
        order::order_is_order_of_values(value, zero);
        order::order_is_order_of_values(value, cap);
        order::order_is_order_of_values(cap, value);
    }
}

} // verus!
