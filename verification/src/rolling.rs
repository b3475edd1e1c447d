//! Statistics over the most recent values.

use crate::linalg;
use crate::scalar::Scalar;
use std::collections::VecDeque;
use vstd::prelude::*;

verus! {

/// The distance from one to the next number.
pub open spec fn epsilon_of_one() -> Scalar {
    Scalar::of_ratio(1, 4_503_599_627_370_496)
}

/// The distance from one to the next number.
pub fn machine_epsilon() -> (r: Scalar)
    ensures
        r == epsilon_of_one(),
{
    Scalar::ratio(1, 4_503_599_627_370_496)
}

/// What a rolling window holds: the values, oldest first, and running sums of them and of their
/// squares.
pub ghost struct RollingModel {
    pub values: Seq<Scalar>,
    pub capacity: nat,
    pub sum: Scalar,
    pub sum_sq: Scalar,
}

impl RollingModel {
    /// An empty window.
    pub open spec fn empty(capacity: nat) -> RollingModel {
        RollingModel {
            values: Seq::empty(),
            capacity,
            sum: Scalar::of_int(0),
            sum_sq: Scalar::of_int(0),
        }
    }

    /// The window with one more value; a full window loses its oldest first.
    pub open spec fn with(self, v: Scalar) -> RollingModel {
        let room = if self.values.len() >= self.capacity && self.values.len() > 0 {
            let old = self.values[0];
            RollingModel {
                values: self.values.skip(1),
                sum: self.sum.minus(old),
                sum_sq: self.sum_sq.minus(old.times(old)),
                ..self
            }
        } else {
            self
        };
        RollingModel {
            values: room.values.push(v),
            sum: room.sum.plus(v),
            sum_sq: room.sum_sq.plus(v.times(v)),
            ..room
        }
    }

    /// The mean; zero of no values.
    pub open spec fn mean(self) -> Scalar {
        if self.values.len() == 0 {
            Scalar::of_int(0)
        } else {
            self.sum.over(Scalar::of_int(self.values.len()))
        }
    }

    /// The sample variance; zero of fewer than two values.
    pub open spec fn variance(self) -> Scalar {
        let n = self.values.len();
        if n < 2 {
            Scalar::of_int(0)
        } else {
            self.sum_sq.minus(Scalar::of_int(n).times(self.mean()).times(self.mean())).over(
                Scalar::of_int((n - 1) as nat),
            )
        }
    }

    /// The standard deviation.
    pub open spec fn deviation(self) -> Scalar {
        self.variance().root().greater(Scalar::of_int(0))
    }

    /// How many standard deviations `v` is from the mean; zero where there is no deviation.
    pub open spec fn z_score(self, v: Scalar) -> Scalar {
        if self.deviation().below(epsilon_of_one()) {
            Scalar::of_int(0)
        } else {
            v.minus(self.mean()).over(self.deviation())
        }
    }

    /// The window holds no more than its capacity, or one value.
    pub open spec fn valid(self) -> bool {
        self.values.len() <= self.capacity || self.values.len() <= 1
    }
}

/// A window of the most recent values.
#[derive(Debug, Clone)]
pub struct RollingWindow {
    pub values: VecDeque<Scalar>,
    pub capacity: usize,
    pub sum: Scalar,
    pub sum_sq: Scalar,
}

impl View for RollingWindow {
    type V = RollingModel;

    open spec fn view(&self) -> RollingModel {
        RollingModel {
            values: self.values@,
            capacity: self.capacity as nat,
            sum: self.sum,
            sum_sq: self.sum_sq,
        }
    }
}

impl RollingWindow {
    /// An empty window.
    pub fn new(capacity: usize) -> (r: RollingWindow)
        ensures
            r@ == RollingModel::empty(capacity as nat),
            r@.valid(),
    {
        RollingWindow {
            values: VecDeque::new(),
            capacity,
            sum: Scalar::from_u64(0),
            sum_sq: Scalar::from_u64(0),
        }
    }

    /// Adds a value; a full window loses its oldest first.
    pub fn push(&mut self, v: Scalar)
        requires
            old(self)@.valid(),
        ensures
            final(self)@ == old(self)@.with(v),
            final(self)@.valid(),
    {
        if self.values.len() >= self.capacity {
            if let Some(old_value) = self.values.pop_front() {
                self.sum = self.sum.sub(old_value);
                self.sum_sq = self.sum_sq.sub(old_value.mul(old_value));
                assert(self.values@ =~= old(self)@.values.skip(1));
            }
        }
        self.sum = self.sum.add(v);
        self.sum_sq = self.sum_sq.add(v.mul(v));
        self.values.push_back(v);
    }

    /// The mean; zero of no values.
    pub fn mean(&self) -> (r: Scalar)
        ensures
            r == self@.mean(),
    {
        if self.values.len() == 0 {
            return Scalar::from_u64(0);
        }
        self.sum.div(Scalar::from_u64(self.values.len() as u64))
    }

    /// The sample variance; zero of fewer than two values.
    pub fn variance(&self) -> (r: Scalar)
        ensures
            r == self@.variance(),
    {
        let n = self.values.len();
        if n < 2 {
            return Scalar::from_u64(0);
        }
        let mean = self.mean();
        self.sum_sq.sub(Scalar::from_u64(n as u64).mul(mean).mul(mean)).div(
            Scalar::from_u64((n - 1) as u64),
        )
    }

    /// The standard deviation.
    pub fn std_dev(&self) -> (r: Scalar)
        ensures
            r == self@.deviation(),
    {
        self.variance().sqrt().max(Scalar::from_u64(0))
    }

    /// How many standard deviations `v` is from the mean; zero where there is no deviation.
    pub fn z_score(&self, v: Scalar) -> (r: Scalar)
        ensures
            r == self@.z_score(v),
    {
        let deviation = self.std_dev();
        if deviation.lt(machine_epsilon()) {
            return Scalar::from_u64(0);
        }
        v.sub(self.mean()).div(deviation)
    }

    /// How many values there are.
    pub fn len(&self) -> (r: usize)
        ensures
            r == self@.values.len(),
    {
        self.values.len()
    }

    /// The last value.
    pub fn latest(&self) -> (r: Option<Scalar>)
        ensures
            r == if self@.values.len() == 0 {
                None
            } else {
                Some(self@.values.last())
            },
    {
        let n = self.values.len();
        if n == 0 {
            None
        } else {
            Some(self.values[n - 1])
        }
    }

    /// The value before the last.
    pub fn prev(&self) -> (r: Option<Scalar>)
        ensures
            r == if self@.values.len() < 2 {
                None
            } else {
                Some(self@.values[self@.values.len() - 2])
            },
    {
        let n = self.values.len();
        if n >= 2 {
            Some(self.values[n - 2])
        } else {
            None
        }
    }
}

/// How many log returns are kept: one less than the prices they are taken from.
pub const RETURNS_KEPT: usize = 599;

/// The squared distances from `mean`.
pub open spec fn squared_distances(values: Seq<Scalar>, mean: Scalar) -> Seq<Scalar> {
    Seq::new(values.len(), |i: int| values[i].minus(mean).times(values[i].minus(mean)))
}

/// The standard deviation of values around their mean.
pub open spec fn spread_of(values: Seq<Scalar>) -> Scalar {
    let n = Scalar::of_int(values.len());
    let mean = linalg::running_sum(values, values.len() as int).over(n);
    linalg::running_sum(squared_distances(values, mean), values.len() as int).over(n).root()
}

/// What is known of volatility: the last mid price, the log returns up to it, oldest first, and
/// the two volatilities that later ones are held against.
pub ghost struct VolatilityModel {
    pub last_mid: Option<Scalar>,
    pub log_returns: Seq<Scalar>,
    pub prev_realized_vol: Scalar,
    pub vol_ema_long: Scalar,
}

impl VolatilityModel {
    /// No price yet.
    pub open spec fn empty() -> VolatilityModel {
        VolatilityModel {
            last_mid: None,
            log_returns: Seq::empty(),
            prev_realized_vol: Scalar::of_int(0),
            vol_ema_long: Scalar::of_int(0),
        }
    }

    /// After one more mid price. `log_ratio` is the logarithm of that price over the last; a
    /// price that was not positive gives a return of zero.
    pub open spec fn with(self, mid: Scalar, log_ratio: Scalar) -> VolatilityModel {
        match self.last_mid {
            None => VolatilityModel { last_mid: Some(mid), ..self },
            Some(before) => {
                let all = self.log_returns.push(
                    if Scalar::of_int(0).below(before) {
                        log_ratio
                    } else {
                        Scalar::of_int(0)
                    },
                );
                VolatilityModel {
                    last_mid: Some(mid),
                    log_returns: if all.len() > RETURNS_KEPT {
                        all.skip(1)
                    } else {
                        all
                    },
                    ..self
                }
            },
        }
    }

    /// The standard deviation of the last `window` log returns.
    pub open spec fn realized(self, window: nat) -> Scalar {
        let kept = self.log_returns.len();
        let n = if window < kept {
            window
        } else {
            kept
        };
        if n == 0 {
            Scalar::of_int(0)
        } else {
            spread_of(self.log_returns.skip(kept - n))
        }
    }
}

/// Volatility of the mid price.
#[derive(Debug, Clone)]
pub struct VolatilityState {
    pub last_mid: Option<Scalar>,
    pub log_returns: VecDeque<Scalar>,
    pub prev_realized_vol: Scalar,
    pub vol_ema_long: Scalar,
}

impl View for VolatilityState {
    type V = VolatilityModel;

    open spec fn view(&self) -> VolatilityModel {
        VolatilityModel {
            last_mid: self.last_mid,
            log_returns: self.log_returns@,
            prev_realized_vol: self.prev_realized_vol,
            vol_ema_long: self.vol_ema_long,
        }
    }
}

impl VolatilityState {
    /// No price yet.
    pub fn new() -> (r: VolatilityState)
        ensures
            r@ == VolatilityModel::empty(),
    {
        VolatilityState {
            last_mid: None,
            log_returns: VecDeque::new(),
            prev_realized_vol: Scalar::from_u64(0),
            vol_ema_long: Scalar::from_u64(0),
        }
    }

    /// Adds a mid price; `log_ratio` is the logarithm of it over the last.
    pub fn push_mid(&mut self, mid: Scalar, log_ratio: Scalar)
        ensures
            final(self)@ == old(self)@.with(mid, log_ratio),
    {
        if let Some(before) = self.last_mid {
            self.log_returns.push_back(
                if before.gt(Scalar::from_u64(0)) {
                    log_ratio
                } else {
                    Scalar::from_u64(0)
                },
            );
            if self.log_returns.len() > RETURNS_KEPT {
                let ghost all = self.log_returns@;
                self.log_returns.pop_front();
                assert(self.log_returns@ =~= all.skip(1));
            }
        }
        self.last_mid = Some(mid);
    }

    /// The standard deviation of the last `window` log returns.
    pub fn realized_volatility(&self, window: usize) -> (r: Scalar)
        ensures
            r == self@.realized(window as nat),
    {
        let kept = self.log_returns.len();
        let n = if window < kept {
            window
        } else {
            kept
        };
        if n == 0 {
            return Scalar::from_u64(0);
        }
        let start = kept - n;
        let ghost tail = self.log_returns@.skip(start as int);
        let count = Scalar::from_u64(n as u64);
        let mut sum = Scalar::from_u64(0);
        let mut i: usize = 0;
        while i < n
            invariant
                kept == self.log_returns@.len(),
                n <= kept,
                start == kept - n,
                tail == self.log_returns@.skip(start as int),
                i <= n,
                sum == linalg::running_sum(tail, i as int),
            decreases n - i,
        {
            assert(tail[i as int] == self.log_returns@[start + i]);
            sum = sum.add(self.log_returns[start + i]);
            i = i + 1;
        }
        let mean = sum.div(count);
        let mut squares = Scalar::from_u64(0);
        let mut j: usize = 0;
        while j < n
            invariant
                kept == self.log_returns@.len(),
                n <= kept,
                start == kept - n,
                tail == self.log_returns@.skip(start as int),
                j <= n,
                squares == linalg::running_sum(squared_distances(tail, mean), j as int),
            decreases n - j,
        {
            assert(tail[j as int] == self.log_returns@[start + j]);
            let distance = self.log_returns[start + j].sub(mean);
            squares = squares.add(distance.mul(distance));
            j = j + 1;
        }
        squares.div(count).sqrt()
    }
}

/// A window never holds more than its capacity, however many values come.
pub proof fn window_keeps_to_its_capacity(window: RollingModel, v: Scalar)
    requires
        window.valid(),
    ensures
        window.with(v).valid(),
        window.with(v).values.last() == v,
        window.values.len() < window.capacity ==> window.with(v).values == window.values.push(v),
{
}

} // verus!
