//! Online detection of change points with adaptive windows (ADWIN).
//!
//! A window of each feature is split in two wherever the means of the parts differ by more than
//! a Hoeffding bound. A change point widens or resets the posterior of the Q-function, and
//! several close together ask for retraining.

use crate::bayesian_lr::QFunction;
use crate::linalg;
use crate::order;
use crate::relations;
use crate::rounding::EXACT;
use crate::scalar::Scalar;
use std::collections::VecDeque;
use vstd::prelude::*;

verus! {

/// How serious a change is.
#[derive(Debug, Clone, Copy, PartialEq, Eq, Structural)]
pub enum ChangeSeverity {
    /// A small shift: explore more.
    Minor,
    /// A large shift: reset, or explore much more.
    Major,
}

/// A change point.
#[derive(Debug, Clone, Copy, PartialEq, Eq, Structural)]
pub struct ChangePoint {
    /// The feature that changed.
    pub feature_index: usize,
    pub severity: ChangeSeverity,
    /// The Hoeffding bound at the split.
    pub epsilon: Scalar,
    /// How far apart the means of the two parts are.
    pub mean_diff: Scalar,
    /// When it was detected.
    pub timestamp_ns: u64,
    /// How many observations there had been.
    pub total_observations: usize,
}

/// Parameters of the detection.
#[derive(Debug, Clone, Copy, PartialEq, Eq, Structural)]
pub struct ChangePointConfig {
    /// Confidence of the Hoeffding bound.
    pub delta: Scalar,
    /// Least size of each part of a window.
    pub min_window_size: usize,
    /// Greatest size of a window; older observations are dropped.
    pub max_window_size: usize,
    /// How many observations after a change point no other is detected.
    pub grace_period: usize,
    /// Least ratio of mean difference to bound for a minor change.
    pub minor_threshold: Scalar,
    /// Least ratio of mean difference to bound for a major change.
    pub major_threshold: Scalar,
    /// How much a minor change widens the covariances.
    pub minor_inflation_factor: Scalar,
    /// Whether a major change resets everything that was learnt.
    pub major_full_reset: bool,
    /// How much a major change widens the covariances otherwise.
    pub major_inflation_factor: Scalar,
    /// Whether each feature is watched, or only the mean of their magnitudes.
    pub per_feature_monitoring: bool,
    /// How many recent change points ask for retraining.
    pub retraining_trigger_threshold: usize,
}

impl Default for ChangePointConfig {
    fn default() -> (r: ChangePointConfig)
        ensures
            r.delta == Scalar::of_ratio(2, 1000),
            r.min_window_size == 50,
            r.max_window_size == 5000,
            r.grace_period == 100,
            r.minor_threshold == Scalar::of_int(1),
            r.major_threshold == Scalar::of_ratio(5, 2),
            r.minor_inflation_factor == Scalar::of_int(2),
            !r.major_full_reset,
            r.major_inflation_factor == Scalar::of_int(5),
            r.per_feature_monitoring,
            r.retraining_trigger_threshold == 3,
    {
        ChangePointConfig {
            delta: Scalar::ratio(2, 1000),
            min_window_size: 50,
            max_window_size: 5000,
            grace_period: 100,
            minor_threshold: Scalar::from_u64(1),
            major_threshold: Scalar::ratio(5, 2),
            minor_inflation_factor: Scalar::from_u64(2),
            major_full_reset: false,
            major_inflation_factor: Scalar::from_u64(5),
            per_feature_monitoring: true,
            retraining_trigger_threshold: 3,
        }
    }
}

impl ChangePointConfig {
    /// The parameters with which a detector can be made.
    pub open spec fn usable(self) -> bool {
        &&& Scalar::of_int(0).below(self.delta)
        &&& self.delta.below(Scalar::of_int(1))
        &&& 0 < self.min_window_size
        &&& 2 * self.min_window_size <= usize::MAX
        &&& self.min_window_size <= self.max_window_size
    }
}

/// What a window holds: the observations, oldest first, and their running sum.
pub ghost struct WindowModel {
    pub values: Seq<Scalar>,
    pub sum: Scalar,
}

impl WindowModel {
    /// The window with one more observation.
    pub open spec fn with(self, value: Scalar) -> WindowModel {
        WindowModel { values: self.values.push(value), sum: self.sum.plus(value) }
    }

    /// The window without its oldest observation.
    pub open spec fn without_oldest(self) -> WindowModel {
        WindowModel { values: self.values.skip(1), sum: self.sum.minus(self.values[0]) }
    }
}

/// A window of observations with their running sum.
#[derive(Debug, Clone)]
pub struct SubWindow {
    pub values: VecDeque<Scalar>,
    pub sum: Scalar,
}

impl View for SubWindow {
    type V = WindowModel;

    open spec fn view(&self) -> WindowModel {
        WindowModel { values: self.values@, sum: self.sum }
    }
}

impl SubWindow {
    /// An empty window.
    pub fn new() -> (r: SubWindow)
        ensures
            r@ == (WindowModel { values: Seq::empty(), sum: Scalar::of_int(0) }),
    {
        SubWindow { values: VecDeque::new(), sum: Scalar::from_u64(0) }
    }

    /// Adds an observation.
    pub fn push(&mut self, value: Scalar)
        ensures
            final(self)@ == old(self)@.with(value),
    {
        self.sum = self.sum.add(value);
        self.values.push_back(value);
    }

    /// Takes out the oldest observation.
    pub fn pop_front(&mut self) -> (r: Option<Scalar>)
        ensures
            match r {
                Some(value) => old(self)@.values.len() > 0 && value == old(self)@.values[0]
                    && final(self)@ == old(self)@.without_oldest(),
                None => old(self)@.values.len() == 0 && final(self)@ == old(self)@,
            },
    {
        match self.values.pop_front() {
            Some(value) => {
                self.sum = self.sum.sub(value);
                assert(self.values@ =~= old(self)@.values.skip(1));
                Some(value)
            },
            None => None,
        }
    }

    /// The mean of the observations; zero when there are none.
    pub fn mean(&self) -> (r: Scalar)
        ensures
            r == if self@.values.len() == 0 {
                Scalar::of_int(0)
            } else {
                self@.sum.over(Scalar::of_int(self@.values.len()))
            },
            self@.sum.finite() && 0 < self@.values.len() < EXACT ==> relations::rounds(
                r,
                self@.sum.value(),
                self@.values.len(),
            ),
    {
        proof {
            if self@.sum.finite() && 0 < self@.values.len() < EXACT {
                relations::part_of(self@.sum, self@.values.len());
            }
        }
        if self.values.len() == 0 {
            Scalar::from_u64(0)
        } else {
            self.sum.div(Scalar::from_u64(self.values.len() as u64))
        }
    }

    /// How many observations there are.
    pub fn len(&self) -> (r: usize)
        ensures
            r == self@.values.len(),
    {
        self.values.len()
    }

    /// Takes out every observation.
    pub fn clear(&mut self)
        ensures
            final(self)@ == (WindowModel { values: Seq::empty(), sum: Scalar::of_int(0) }),
    {
        self.values.clear();
        self.sum = Scalar::from_u64(0);
    }
}

/// What a detector of one feature knows.
pub ghost struct AdwinModel {
    pub window: WindowModel,
    pub observations_since_change: nat,
    pub in_grace_period: bool,
    pub grace_counter: nat,
    pub consecutive_changes: nat,
}

impl AdwinModel {
    /// Nothing observed.
    pub open spec fn fresh() -> AdwinModel {
        AdwinModel {
            window: WindowModel { values: Seq::empty(), sum: Scalar::of_int(0) },
            observations_since_change: 0,
            in_grace_period: false,
            grace_counter: 0,
            consecutive_changes: 0,
        }
    }

    /// After one more observation: the grace period goes on or ends, and the window keeps to its
    /// greatest size.
    pub open spec fn with(self, value: Scalar, config: ChangePointConfig) -> AdwinModel {
        let wider = self.window.with(value);
        let ends = self.in_grace_period && self.grace_counter + 1 >= config.grace_period;
        AdwinModel {
            window: if wider.values.len() > config.max_window_size {
                wider.without_oldest()
            } else {
                wider
            },
            observations_since_change: self.observations_since_change + 1,
            in_grace_period: self.in_grace_period && !ends,
            grace_counter: if !self.in_grace_period {
                self.grace_counter
            } else if ends {
                0
            } else {
                self.grace_counter + 1
            },
            consecutive_changes: self.consecutive_changes,
        }
    }

    /// After a change point: a grace period begins.
    pub open spec fn changed(self) -> AdwinModel {
        AdwinModel {
            observations_since_change: 0,
            in_grace_period: true,
            grace_counter: 0,
            consecutive_changes: self.consecutive_changes + 1,
            ..self
        }
    }

    /// The counts are at most `n`, and the window is within its greatest size.
    pub open spec fn bounded(self, n: nat, config: ChangePointConfig) -> bool {
        &&& self.window.values.len() <= config.max_window_size
        &&& self.observations_since_change <= n
        &&& self.grace_counter <= n
        &&& self.consecutive_changes <= n
    }
}

/// The detector of one feature.
#[derive(Debug, Clone)]
pub struct FeatureAdwin {
    /// The observations.
    pub window: SubWindow,
    /// How many observations there were since the last change point.
    pub observations_since_change: usize,
    /// Whether detection is suspended.
    pub in_grace_period: bool,
    /// How many observations detection has been suspended for.
    pub grace_counter: usize,
    /// How many change points there were.
    pub consecutive_changes: usize,
}

impl View for FeatureAdwin {
    type V = AdwinModel;

    open spec fn view(&self) -> AdwinModel {
        AdwinModel {
            window: self.window@,
            observations_since_change: self.observations_since_change as nat,
            in_grace_period: self.in_grace_period,
            grace_counter: self.grace_counter as nat,
            consecutive_changes: self.consecutive_changes as nat,
        }
    }
}

impl FeatureAdwin {
    /// A detector that has observed nothing.
    pub fn new() -> (r: FeatureAdwin)
        ensures
            r@ == AdwinModel::fresh(),
    {
        FeatureAdwin {
            window: SubWindow::new(),
            observations_since_change: 0,
            in_grace_period: false,
            grace_counter: 0,
            consecutive_changes: 0,
        }
    }

    /// Takes in an observation.
    pub fn push(&mut self, value: Scalar, config: &ChangePointConfig)
        requires
            old(self)@.window.values.len() <= config.max_window_size,
            old(self).observations_since_change < usize::MAX,
            old(self).grace_counter < usize::MAX,
        ensures
            final(self)@ == old(self)@.with(value, *config),
    {
        self.observations_since_change = self.observations_since_change + 1;
        if self.in_grace_period {
            self.grace_counter = self.grace_counter + 1;
            if self.grace_counter >= config.grace_period {
                self.in_grace_period = false;
                self.grace_counter = 0;
            }
        }
        self.window.push(value);
        if self.window.len() > config.max_window_size {
            self.window.pop_front();
        }
    }

    /// Notes a change point.
    fn note_change(&mut self)
        requires
            old(self).consecutive_changes < usize::MAX,
        ensures
            final(self)@ == old(self)@.changed(),
    {
        self.observations_since_change = 0;
        self.in_grace_period = true;
        self.grace_counter = 0;
        self.consecutive_changes = self.consecutive_changes + 1;
    }
}

/// A place where a window is split, how far the means of its parts are apart, and the bound there.
#[derive(Debug, Clone, Copy, PartialEq, Eq, Structural)]
pub struct Split {
    pub index: usize,
    pub epsilon: Scalar,
    pub mean_diff: Scalar,
}

impl Split {
    /// How many times the bound the means are apart.
    pub open spec fn ratio(self) -> Scalar {
        self.mean_diff.over(self.epsilon)
    }
}

/// The split of a window before observation `index`; `log` is the logarithm of four times the
/// number of splits that are tried, over the confidence.
pub open spec fn split_at(window: WindowModel, log: Scalar, index: usize) -> Split {
    let n = window.values.len();
    let left = linalg::running_sum(window.values, index as int);
    let left_mean = left.over(Scalar::of_int(index as nat));
    let right_mean = window.sum.minus(left).over(Scalar::of_int((n - index) as nat));
    let least = if index <= n - index {
        index as int
    } else {
        n - index
    };
    Split {
        index,
        epsilon: log.over(Scalar::of_int(2).times(Scalar::of_int(least as nat))).root(),
        mean_diff: left_mean.minus(right_mean).magnitude(),
    }
}

/// The means are apart by more than the bound.
pub open spec fn stands_out(split: Split) -> bool {
    &&& !split.mean_diff.below(Scalar::of_ratio(1, 1_000_000_000_000_000))
    &&& Scalar::of_int(1).below(split.ratio())
}

/// Among the splits from `first` up to `last` that stand out, the first with the greatest ratio.
pub open spec fn best_split(window: WindowModel, log: Scalar, first: int, last: int) -> Option<Split>
    decreases last - first + 1,
{
    if last < first {
        None
    } else {
        let before = best_split(window, log, first, last - 1);
        let split = split_at(window, log, last as usize);
        if !stands_out(split) {
            before
        } else {
            match before {
                Some(best) => if best.ratio().below(split.ratio()) {
                    Some(split)
                } else {
                    before
                },
                None => Some(split),
            }
        }
    }
}

/// How serious a split is; a ratio below both thresholds is no change.
pub open spec fn severity_of(split: Split, config: ChangePointConfig) -> Option<ChangeSeverity> {
    if config.major_threshold.at_most(split.ratio()) {
        Some(ChangeSeverity::Major)
    } else if config.minor_threshold.at_most(split.ratio()) {
        Some(ChangeSeverity::Minor)
    } else {
        None
    }
}

/// The change point that a detector sees, if it sees one.
pub open spec fn change_in(
    detector: AdwinModel,
    config: ChangePointConfig,
    log: Scalar,
    feature_index: usize,
    timestamp_ns: u64,
    total_observations: usize,
) -> Option<ChangePoint> {
    let n = detector.window.values.len();
    let least = config.min_window_size as int;
    if detector.in_grace_period || detector.observations_since_change < least || n < 2 * least {
        None
    } else {
        match best_split(detector.window, log, least, n - least) {
            Some(split) => match severity_of(split, config) {
                Some(severity) => Some(
                    ChangePoint {
                        feature_index,
                        severity,
                        epsilon: split.epsilon,
                        mean_diff: split.mean_diff,
                        timestamp_ns,
                        total_observations,
                    },
                ),
                None => None,
            },
            None => None,
        }
    }
}

/// What is watched when features are not watched one by one: the mean of their magnitudes.
pub open spec fn aggregate(features: Seq<Scalar>) -> Scalar {
    linalg::running_sum(magnitudes(features), features.len() as int).over(Scalar::of_int(features.len()))
}

/// The magnitudes of the features.
pub open spec fn magnitudes(features: Seq<Scalar>) -> Seq<Scalar> {
    Seq::new(features.len(), |i: int| features[i].magnitude())
}

/// Watches the features from `i` on, one by one, until one changes.
pub open spec fn watched(
    detectors: Seq<AdwinModel>,
    config: ChangePointConfig,
    features: Seq<Scalar>,
    logs: Seq<Scalar>,
    timestamp_ns: u64,
    total_observations: usize,
    i: int,
) -> (Seq<AdwinModel>, Option<ChangePoint>)
    decreases features.len() - i,
{
    if i < 0 || i >= features.len() {
        (detectors, None)
    } else {
        let next = detectors[i].with(features[i], config);
        match change_in(next, config, logs[i], i as usize, timestamp_ns, total_observations) {
            Some(change) => (detectors.update(i, next.changed()), Some(change)),
            None => watched(
                detectors.update(i, next),
                config,
                features,
                logs,
                timestamp_ns,
                total_observations,
                i + 1,
            ),
        }
    }
}

/// Watches the mean of the magnitudes of the features.
pub open spec fn watched_together(
    detectors: Seq<AdwinModel>,
    config: ChangePointConfig,
    features: Seq<Scalar>,
    logs: Seq<Scalar>,
    timestamp_ns: u64,
    total_observations: usize,
) -> (Seq<AdwinModel>, Option<ChangePoint>) {
    let value = aggregate(features);
    let next = Seq::new(detectors.len(), |i: int| detectors[i].with(value, config));
    match change_in(next[0], config, logs[0], 0, timestamp_ns, total_observations) {
        Some(change) => (next.update(0, next[0].changed()), Some(change)),
        None => (next, None),
    }
}

/// What a detector of change points knows.
pub ghost struct DetectorModel {
    pub config: ChangePointConfig,
    pub detectors: Seq<AdwinModel>,
    pub n_features: nat,
    pub history: Seq<ChangePoint>,
    pub total_observations: nat,
    pub retraining_triggered: bool,
    pub recent_change_count: nat,
    pub last_timestamp_ns: u64,
}

impl DetectorModel {
    /// Nothing observed.
    pub open spec fn fresh(n_features: nat, config: ChangePointConfig) -> DetectorModel {
        DetectorModel {
            config,
            detectors: Seq::new(n_features, |i: int| AdwinModel::fresh()),
            n_features,
            history: Seq::empty(),
            total_observations: 0,
            retraining_triggered: false,
            recent_change_count: 0,
            last_timestamp_ns: 0,
        }
    }

    /// After an observation, and the change point that it brought. Until there have been as many
    /// observations as a part of a window needs, they are only counted.
    pub open spec fn after(
        self,
        features: Seq<Scalar>,
        timestamp_ns: u64,
        logs: Seq<Scalar>,
    ) -> (DetectorModel, Option<ChangePoint>) {
        let total = (self.total_observations + 1) as nat;
        let counted = DetectorModel {
            total_observations: total,
            last_timestamp_ns: timestamp_ns,
            ..self
        };
        if total < self.config.min_window_size {
            (counted, None)
        } else {
            let (detectors, change) = if self.config.per_feature_monitoring {
                watched(
                    self.detectors,
                    self.config,
                    features,
                    logs,
                    timestamp_ns,
                    total as usize,
                    0,
                )
            } else {
                watched_together(
                    self.detectors,
                    self.config,
                    features,
                    logs,
                    timestamp_ns,
                    total as usize,
                )
            };
            match change {
                Some(point) => (
                    DetectorModel {
                        detectors,
                        history: self.history.push(point),
                        recent_change_count: self.recent_change_count + 1,
                        retraining_triggered: self.retraining_triggered || self.recent_change_count
                            + 1 >= self.config.retraining_trigger_threshold,
                        ..counted
                    },
                    change,
                ),
                None => (DetectorModel { detectors, ..counted }, None),
            }
        }
    }
}

/// Detects change points in a stream of feature vectors.
#[derive(Debug, Clone)]
pub struct ChangePointDetector {
    pub config: ChangePointConfig,
    /// One detector for each feature.
    pub feature_detectors: Vec<FeatureAdwin>,
    /// How many features there are.
    pub n_features: usize,
    /// Every change point so far.
    pub change_history: Vec<ChangePoint>,
    /// How many observations there were.
    pub total_observations: usize,
    /// Whether retraining is asked for.
    pub retraining_triggered: bool,
    /// How many change points count as recent.
    pub recent_change_count: usize,
    /// When the last observation was.
    pub last_timestamp_ns: u64,
}

/// What the detectors of the features know.
pub open spec fn models(detectors: Seq<FeatureAdwin>) -> Seq<AdwinModel> {
    Seq::new(detectors.len(), |i: int| detectors[i]@)
}

impl View for ChangePointDetector {
    type V = DetectorModel;

    open spec fn view(&self) -> DetectorModel {
        DetectorModel {
            config: self.config,
            detectors: models(self.feature_detectors@),
            n_features: self.n_features as nat,
            history: self.change_history@,
            total_observations: self.total_observations as nat,
            retraining_triggered: self.retraining_triggered,
            recent_change_count: self.recent_change_count as nat,
            last_timestamp_ns: self.last_timestamp_ns,
        }
    }
}

impl DetectorModel {
    /// One change point less counts as recent; with the last of them the wish to retrain goes.
    pub open spec fn faded(self) -> DetectorModel {
        if self.recent_change_count == 0 {
            self
        } else {
            DetectorModel {
                recent_change_count: (self.recent_change_count - 1) as nat,
                retraining_triggered: self.retraining_triggered && self.recent_change_count != 1,
                ..self
            }
        }
    }
}

impl DetectorModel {
    /// There is a detector for each feature, windows keep to their size, and no count exceeds the
    /// number of observations.
    pub open spec fn valid(self) -> bool {
        &&& self.config.usable()
        &&& self.n_features > 0
        &&& self.detectors.len() == self.n_features
        &&& self.recent_change_count <= self.total_observations
        &&& forall|i: int|
            0 <= i < self.detectors.len() ==> (#[trigger] self.detectors[i]).bounded(
                self.total_observations,
                self.config,
            )
    }

    /// How many observations window `i` will hold after the next observation.
    pub open spec fn next_window(self, i: int) -> nat {
        let n = self.detectors[i].window.values.len();
        if n + 1 > self.config.max_window_size {
            n
        } else {
            n + 1
        }
    }
}

/// The number whose logarithm the Hoeffding bound takes, for a window of `n` observations: four
/// times the number of splits that are tried, over the confidence.
pub open spec fn bound_argument_of(n: nat, config: ChangePointConfig) -> Scalar {
    let cuts = if n >= 2 * config.min_window_size {
        (n - 2 * config.min_window_size + 1) as nat
    } else {
        1
    };
    Scalar::of_int(4).times(Scalar::of_int(cuts)).over(config.delta)
}

impl ChangePointDetector {
    /// A detector for `n_features` features.
    pub fn new(n_features: usize, config: ChangePointConfig) -> (r: ChangePointDetector)
        requires
            n_features > 0,
            config.usable(),
        ensures
            r@ == DetectorModel::fresh(n_features as nat, config),
            r@.valid(),
    {
        let mut feature_detectors: Vec<FeatureAdwin> = Vec::new();
        let mut i: usize = 0;
        while i < n_features
            invariant
                i <= n_features,
                feature_detectors@.len() == i,
                forall|j: int| 0 <= j < i ==> (#[trigger] feature_detectors@[j])@
                    == AdwinModel::fresh(),
            decreases n_features - i,
        {
            feature_detectors.push(FeatureAdwin::new());
            i = i + 1;
        }
        let r = ChangePointDetector {
            config,
            feature_detectors,
            n_features,
            change_history: Vec::new(),
            total_observations: 0,
            retraining_triggered: false,
            recent_change_count: 0,
            last_timestamp_ns: 0,
        };
        assert(r@.detectors =~= DetectorModel::fresh(n_features as nat, config).detectors);
        assert(r@.history =~= Seq::empty());
        r
    }

    /// A detector with the default parameters.
    pub fn new_default(n_features: usize) -> (r: ChangePointDetector)
        requires
            n_features > 0,
        ensures
            r@.valid(),
            r@ == DetectorModel::fresh(n_features as nat, r@.config),
            call_ensures(ChangePointConfig::default, (), r@.config),
    {
        let config = ChangePointConfig::default();
        proof {
            default_is_usable(config);
        }
        Self::new(n_features, config)
    }

    /// The number whose logarithm `observe` takes for feature `i`.
    pub fn bound_argument(&self, i: usize) -> (r: Scalar)
        requires
            self@.valid(),
            i < self.n_features,
        ensures
            r == bound_argument_of(self@.next_window(i as int), self@.config),
    {
        assert(self@.detectors[i as int].bounded(self@.total_observations, self@.config));
        let n = self.feature_detectors[i].window.len();
        let next = if n >= self.config.max_window_size {
            n
        } else {
            n + 1
        };
        let least = 2 * self.config.min_window_size;
        let cuts: u64 = if next >= least {
            (next - least) as u64 + 1
        } else {
            1
        };
        Scalar::from_u64(4).mul(Scalar::from_u64(cuts)).div(self.config.delta)
    }

    /// Among the splits of a window that stand out, the first with the greatest ratio.
    fn find_best_split(&self, window: &SubWindow, log: Scalar) -> (r: Option<Split>)
        requires
            self.config.usable(),
            window@.values.len() >= 2 * self.config.min_window_size,
        ensures
            r == best_split(
                window@,
                log,
                self.config.min_window_size as int,
                window@.values.len() - self.config.min_window_size,
            ),
    {
        let n = window.len();
        let min_size = self.config.min_window_size;
        let one = Scalar::from_u64(1);
        let smallest = Scalar::ratio(1, 1_000_000_000_000_000);
        let mut left_sum = Scalar::from_u64(0);
        let mut k: usize = 0;
        while k < min_size - 1
            invariant
                min_size == self.config.min_window_size,
                0 < min_size,
                n == window@.values.len(),
                n >= 2 * min_size,
                k <= min_size - 1,
                left_sum == linalg::running_sum(window@.values, k as int),
            decreases min_size - k,
        {
            left_sum = left_sum.add(window.values[k]);
            k = k + 1;
        }
        let mut best: Option<Split> = None;
        let mut split: usize = min_size;
        while split <= n - min_size
            invariant
                min_size == self.config.min_window_size,
                0 < min_size,
                n == window@.values.len(),
                n >= 2 * min_size,
                one == Scalar::of_int(1),
                smallest == Scalar::of_ratio(1, 1_000_000_000_000_000),
                min_size <= split <= n - min_size + 1,
                left_sum == linalg::running_sum(window@.values, split - 1),
                best == best_split(window@, log, min_size as int, split - 1),
            decreases n - split,
        {
            left_sum = left_sum.add(window.values[split - 1]);
            let right_sum = window.sum.sub(left_sum);
            let left_mean = left_sum.div(Scalar::from_u64(split as u64));
            let right_mean = right_sum.div(Scalar::from_u64((n - split) as u64));
            let mean_diff = left_mean.sub(right_mean).abs();
            let m: u64 = if split <= n - split {
                split as u64
            } else {
                (n - split) as u64
            };
            let epsilon = log.div(Scalar::from_u64(2).mul(Scalar::from_u64(m))).sqrt();
            let candidate = Split { index: split, epsilon, mean_diff };
            assert(candidate == split_at(window@, log, split));
            let ratio = mean_diff.div(epsilon);
            if !mean_diff.lt(smallest) && ratio.gt(one) {
                match best {
                    Some(found) => {
                        if ratio.gt(found.mean_diff.div(found.epsilon)) {
                            best = Some(candidate);
                        }
                    },
                    None => {
                        best = Some(candidate);
                    },
                }
            }
            split = split + 1;
        }
        best
    }

    /// The change point that the detector of a feature sees, if it sees one.
    fn check_feature_adwin(&self, feature_index: usize, log: Scalar) -> (r: Option<ChangePoint>)
        requires
            self.config.usable(),
            feature_index < self.feature_detectors@.len(),
        ensures
            r == change_in(
                self.feature_detectors@[feature_index as int]@,
                self.config,
                log,
                feature_index,
                self.last_timestamp_ns,
                self.total_observations,
            ),
    {
        let detector = &self.feature_detectors[feature_index];
        if detector.in_grace_period {
            return None;
        }
        if detector.observations_since_change < self.config.min_window_size {
            return None;
        }
        if detector.window.len() < 2 * self.config.min_window_size {
            return None;
        }
        match self.find_best_split(&detector.window, log) {
            Some(split) => {
                let ratio = split.mean_diff.div(split.epsilon);
                let severity = if ratio.ge(self.config.major_threshold) {
                    ChangeSeverity::Major
                } else if ratio.ge(self.config.minor_threshold) {
                    ChangeSeverity::Minor
                } else {
                    return None;
                };
                Some(
                    ChangePoint {
                        feature_index,
                        severity,
                        epsilon: split.epsilon,
                        mean_diff: split.mean_diff,
                        timestamp_ns: self.last_timestamp_ns,
                        total_observations: self.total_observations,
                    },
                )
            },
            None => None,
        }
    }

    /// Watches the features one by one until one changes.
    fn watch(&mut self, features: &[Scalar], logs: &[Scalar]) -> (r: Option<ChangePoint>)
        requires
            old(self).config.usable(),
            features@.len() == old(self).feature_detectors@.len(),
            logs@.len() == features@.len(),
            old(self).total_observations > 0,
            forall|i: int|
                0 <= i < old(self).feature_detectors@.len() ==> (
                #[trigger] old(self).feature_detectors@[i])@.bounded(
                    (old(self).total_observations - 1) as nat,
                    old(self).config,
                ),
        ensures
            final(self)@ == (DetectorModel {
                detectors: models(final(self).feature_detectors@),
                ..old(self)@
            }),
            final(self).feature_detectors@.len() == old(self).feature_detectors@.len(),
            (models(final(self).feature_detectors@), r) == watched(
                models(old(self).feature_detectors@),
                old(self).config,
                features@,
                logs@,
                old(self).last_timestamp_ns,
                old(self).total_observations,
                0,
            ),
            forall|i: int|
                0 <= i < final(self).feature_detectors@.len() ==> (
                #[trigger] final(self).feature_detectors@[i])@.bounded(
                    old(self).total_observations as nat,
                    old(self).config,
                ),
    {
        let ghost before = *self;
        let config = self.config;
        let mut i: usize = 0;
        while i < features.len()
            invariant
                before == *old(self),
                config == self.config,
                config.usable(),
                self@ == (DetectorModel {
                    detectors: models(self.feature_detectors@),
                    ..before@
                }),
                before.total_observations > 0,
                self.total_observations == before.total_observations,
                self.last_timestamp_ns == before.last_timestamp_ns,
                features@.len() == self.feature_detectors@.len(),
                self.feature_detectors@.len() == before.feature_detectors@.len(),
                logs@.len() == features@.len(),
                i <= features@.len(),
                watched(
                    models(before.feature_detectors@),
                    config,
                    features@,
                    logs@,
                    before.last_timestamp_ns,
                    before.total_observations,
                    0,
                ) == watched(
                    models(self.feature_detectors@),
                    config,
                    features@,
                    logs@,
                    before.last_timestamp_ns,
                    before.total_observations,
                    i as int,
                ),
                forall|j: int|
                    i <= j < self.feature_detectors@.len() ==> (
                    #[trigger] self.feature_detectors@[j])@.bounded(
                        (before.total_observations - 1) as nat,
                        config,
                    ),
                forall|j: int|
                    0 <= j < i ==> (#[trigger] self.feature_detectors@[j])@.bounded(
                        before.total_observations as nat,
                        config,
                    ),
            decreases features@.len() - i,
        {
            let ghost here = models(self.feature_detectors@);
            assert(self.feature_detectors@[i as int]@.bounded(
                (before.total_observations - 1) as nat,
                config,
            ));
            self.feature_detectors[i].push(features[i], &config);
            let ghost next = here[i as int].with(features@[i as int], config);
            assert(models(self.feature_detectors@) =~= here.update(i as int, next));
            if let Some(change) = self.check_feature_adwin(i, logs[i]) {
                self.feature_detectors[i].note_change();
                assert(models(self.feature_detectors@) =~= here.update(i as int, next.changed()));
                return Some(change);
            }
            i = i + 1;
        }
        None
    }

    /// Watches the mean of the magnitudes of the features.
    fn watch_together(&mut self, features: &[Scalar], logs: &[Scalar]) -> (r: Option<ChangePoint>)
        requires
            old(self).config.usable(),
            features@.len() == old(self).feature_detectors@.len(),
            features@.len() > 0,
            logs@.len() == features@.len(),
            old(self).total_observations > 0,
            forall|i: int|
                0 <= i < old(self).feature_detectors@.len() ==> (
                #[trigger] old(self).feature_detectors@[i])@.bounded(
                    (old(self).total_observations - 1) as nat,
                    old(self).config,
                ),
        ensures
            final(self)@ == (DetectorModel {
                detectors: models(final(self).feature_detectors@),
                ..old(self)@
            }),
            final(self).feature_detectors@.len() == old(self).feature_detectors@.len(),
            (models(final(self).feature_detectors@), r) == watched_together(
                models(old(self).feature_detectors@),
                old(self).config,
                features@,
                logs@,
                old(self).last_timestamp_ns,
                old(self).total_observations,
            ),
            forall|i: int|
                0 <= i < final(self).feature_detectors@.len() ==> (
                #[trigger] final(self).feature_detectors@[i])@.bounded(
                    old(self).total_observations as nat,
                    old(self).config,
                ),
    {
        let ghost before = *self;
        let config = self.config;
        let mut sum = Scalar::from_u64(0);
        let mut k: usize = 0;
        while k < features.len()
            invariant
                k <= features@.len(),
                sum == linalg::running_sum(magnitudes(features@), k as int),
            decreases features@.len() - k,
        {
            sum = sum.add(features[k].abs());
            k = k + 1;
        }
        let value = sum.div(Scalar::from_u64(features.len() as u64));
        let mut i: usize = 0;
        while i < self.feature_detectors.len()
            invariant
                before == *old(self),
                config == self.config,
                config.usable(),
                self@ == (DetectorModel {
                    detectors: models(self.feature_detectors@),
                    ..before@
                }),
                before.total_observations > 0,
                self.feature_detectors@.len() == before.feature_detectors@.len(),
                i <= self.feature_detectors@.len(),
                forall|j: int|
                    i <= j < self.feature_detectors@.len() ==> self.feature_detectors@[j]
                        == before.feature_detectors@[j],
                forall|j: int|
                    0 <= j < before.feature_detectors@.len() ==> (
                    #[trigger] before.feature_detectors@[j])@.bounded(
                        (before.total_observations - 1) as nat,
                        config,
                    ),
                forall|j: int|
                    0 <= j < i ==> (#[trigger] self.feature_detectors@[j])@
                        == before.feature_detectors@[j]@.with(value, config),
            decreases self.feature_detectors@.len() - i,
        {
            assert(before.feature_detectors@[i as int]@.bounded(
                (before.total_observations - 1) as nat,
                config,
            ));
            self.feature_detectors[i].push(value, &config);
            i = i + 1;
        }
        let ghost next = Seq::new(
            before.feature_detectors@.len(),
            |j: int| models(before.feature_detectors@)[j].with(aggregate(features@), config),
        );
        assert(models(self.feature_detectors@) =~= next);
        let detected = self.check_feature_adwin(0, logs[0]);
        assert forall|j: int| 0 <= j < self.feature_detectors@.len() implies (
        #[trigger] self.feature_detectors@[j])@.bounded(
            before.total_observations as nat,
            config,
        ) by {
            assert(before.feature_detectors@[j]@.bounded(
                (before.total_observations - 1) as nat,
                config,
            ));
        }
        if detected.is_some() {
            assert(before.feature_detectors@[0]@.bounded(
                (before.total_observations - 1) as nat,
                config,
            ));
            self.feature_detectors[0].note_change();
            assert(models(self.feature_detectors@) =~= next.update(0, next[0].changed()));
        }
        detected
    }

    /// Takes in a feature vector. `logs` holds for each feature the logarithm of its
    /// `bound_argument`. The result is the change point that this brought, if it did.
    pub fn observe(&mut self, features: &[Scalar], timestamp_ns: u64, logs: &[Scalar]) -> (r: Option<
        ChangePoint,
    >)
        requires
            old(self)@.valid(),
            features@.len() == old(self).n_features,
            logs@.len() == old(self).n_features,
            old(self).total_observations < usize::MAX,
        ensures
            final(self)@.valid(),
            (final(self)@, r) == old(self)@.after(features@, timestamp_ns, logs@),
    {
        let ghost before = *self;
        proof {
            assert forall|i: int| 0 <= i < before.feature_detectors@.len() implies (
            #[trigger] before.feature_detectors@[i])@.bounded(
                before.total_observations as nat,
                before.config,
            ) by {
                assert(before@.detectors[i] == before.feature_detectors@[i]@);
            }
        }
        self.last_timestamp_ns = timestamp_ns;
        self.total_observations = self.total_observations + 1;
        if self.total_observations < self.config.min_window_size {
            assert(self@.detectors =~= before@.detectors);
            proof {
                assert forall|i: int| 0 <= i < self@.detectors.len() implies (
                #[trigger] self@.detectors[i]).bounded(self@.total_observations, self@.config) by {
                    assert(before@.detectors[i].bounded(before@.total_observations, before@.config));
                }
            }
            return None;
        }
        let detected = if self.config.per_feature_monitoring {
            self.watch(features, logs)
        } else {
            self.watch_together(features, logs)
        };
        proof {
            assert forall|i: int| 0 <= i < self@.detectors.len() implies (
            #[trigger] self@.detectors[i]).bounded(self@.total_observations, self@.config) by {
                assert(self.feature_detectors@[i]@.bounded(
                    self.total_observations as nat,
                    self.config,
                ));
            }
        }
        if let Some(change) = detected {
            self.recent_change_count = self.recent_change_count + 1;
            self.change_history.push(change);
            if self.recent_change_count >= self.config.retraining_trigger_threshold {
                self.retraining_triggered = true;
            }
        }
        detected
    }
}

/// `after` is `before` after the response to a change of this severity.
pub open spec fn responded(
    after: QFunction,
    before: QFunction,
    severity: ChangeSeverity,
    config: ChangePointConfig,
) -> bool {
    match severity {
        ChangeSeverity::Minor => after.inflated(before, config.minor_inflation_factor),
        ChangeSeverity::Major => if config.major_full_reset {
            after.fully_reset(before)
        } else {
            after.inflated(before, config.major_inflation_factor)
        },
    }
}

impl ChangePointConfig {
    /// The response to a change of this severity narrows nothing: a factor that it widens by is at
    /// least one.
    pub open spec fn widens(self, severity: ChangeSeverity) -> bool {
        match severity {
            ChangeSeverity::Minor => Scalar::of_int(1).at_most(self.minor_inflation_factor),
            ChangeSeverity::Major => self.major_full_reset || Scalar::of_int(1).at_most(
                self.major_inflation_factor,
            ),
        }
    }
}

impl ChangePointDetector {
    /// Responds to a change point: a minor one widens the covariances; a major one resets
    /// everything that was learnt or widens the covariances more.
    pub fn apply_change_response(&self, q_function: &mut QFunction, change: &ChangePoint)
        requires
            old(q_function).valid(),
            self.config.widens(change.severity),
        ensures
            final(q_function).valid(),
            responded(*final(q_function), *old(q_function), change.severity, self.config),
    {
        match change.severity {
            ChangeSeverity::Minor => {
                q_function.inflate_covariance(self.config.minor_inflation_factor);
            },
            ChangeSeverity::Major => {
                if self.config.major_full_reset {
                    q_function.reset_all_full();
                } else {
                    q_function.inflate_covariance(self.config.major_inflation_factor);
                }
            },
        }
    }

    /// Takes in a feature vector, and responds if this brought a change point.
    pub fn observe_and_respond(
        &mut self,
        features: &[Scalar],
        timestamp_ns: u64,
        logs: &[Scalar],
        q_function: &mut QFunction,
    ) -> (r: Option<ChangePoint>)
        requires
            old(self)@.valid(),
            features@.len() == old(self).n_features,
            logs@.len() == old(self).n_features,
            old(self).total_observations < usize::MAX,
            old(self)@.after(features@, timestamp_ns, logs@).1 matches Some(change) ==> old(
                self,
            ).config.widens(change.severity),
            old(q_function).valid(),
        ensures
            final(self)@.valid(),
            (final(self)@, r) == old(self)@.after(features@, timestamp_ns, logs@),
            final(q_function).valid(),
            match r {
                Some(change) => responded(
                    *final(q_function),
                    *old(q_function),
                    change.severity,
                    old(self).config,
                ),
                None => *final(q_function) == *old(q_function),
            },
    {
        let ghost before = *self;
        let detected = self.observe(features, timestamp_ns, logs);
        assert(self@.config == before@.config);
        if let Some(change) = detected {
            self.apply_change_response(q_function, &change);
        }
        detected
    }

    /// Whether retraining is asked for.
    pub fn is_retraining_triggered(&self) -> (r: bool)
        ensures
            r == self@.retraining_triggered,
    {
        self.retraining_triggered
    }

    /// Retraining has begun: nothing is asked for, and no change point counts as recent.
    pub fn clear_retraining_trigger(&mut self)
        requires
            old(self)@.valid(),
        ensures
            final(self)@.valid(),
            final(self)@ == (DetectorModel {
                retraining_triggered: false,
                recent_change_count: 0,
                ..old(self)@
            }),
    {
        self.retraining_triggered = false;
        self.recent_change_count = 0;
        assert(self@.detectors == old(self)@.detectors);
    }

    /// Ends the grace period of a feature and forgets how often it changed.
    pub fn reset_feature(&mut self, feature_index: usize)
        requires
            old(self)@.valid(),
            feature_index < old(self).n_features,
        ensures
            final(self)@.valid(),
            final(self)@ == (DetectorModel {
                detectors: old(self)@.detectors.update(
                    feature_index as int,
                    AdwinModel {
                        in_grace_period: false,
                        grace_counter: 0,
                        consecutive_changes: 0,
                        ..old(self)@.detectors[feature_index as int]
                    },
                ),
                ..old(self)@
            }),
    {
        let ghost before = self@;
        assert(before.detectors[feature_index as int].bounded(
            before.total_observations,
            before.config,
        ));
        self.feature_detectors[feature_index].in_grace_period = false;
        self.feature_detectors[feature_index].grace_counter = 0;
        self.feature_detectors[feature_index].consecutive_changes = 0;
        assert(self@.detectors =~= before.detectors.update(
            feature_index as int,
            AdwinModel {
                in_grace_period: false,
                grace_counter: 0,
                consecutive_changes: 0,
                ..before.detectors[feature_index as int]
            },
        ));
        proof {
            assert forall|i: int| 0 <= i < self@.detectors.len() implies (
            #[trigger] self@.detectors[i]).bounded(self@.total_observations, self@.config) by {
                assert(before.detectors[i].bounded(before.total_observations, before.config));
            }
        }
    }

    /// Forgets every observation; the change points that were found stay on record.
    pub fn reset_all(&mut self)
        requires
            old(self)@.valid(),
        ensures
            final(self)@.valid(),
            final(self)@ == (DetectorModel {
                history: old(self)@.history,
                last_timestamp_ns: old(self)@.last_timestamp_ns,
                ..DetectorModel::fresh(old(self)@.n_features, old(self)@.config)
            }),
    {
        let ghost before = *self;
        let mut i: usize = 0;
        while i < self.feature_detectors.len()
            invariant
                before == *old(self),
                self.feature_detectors@.len() == before.feature_detectors@.len(),
                self@ == (DetectorModel {
                    detectors: models(self.feature_detectors@),
                    ..before@
                }),
                i <= self.feature_detectors@.len(),
                forall|j: int| 0 <= j < i ==> (#[trigger] self.feature_detectors@[j])@
                    == AdwinModel::fresh(),
            decreases self.feature_detectors@.len() - i,
        {
            self.feature_detectors[i].window.clear();
            self.feature_detectors[i].observations_since_change = 0;
            self.feature_detectors[i].in_grace_period = false;
            self.feature_detectors[i].grace_counter = 0;
            self.feature_detectors[i].consecutive_changes = 0;
            i = i + 1;
        }
        self.total_observations = 0;
        self.recent_change_count = 0;
        self.retraining_triggered = false;
        assert(self@.detectors =~= DetectorModel::fresh(before@.n_features, before@.config).detectors);
    }

    /// How many change points there were.
    pub fn change_count(&self) -> (r: usize)
        ensures
            r == self@.history.len(),
    {
        self.change_history.len()
    }

    /// The last change point.
    pub fn last_change(&self) -> (r: Option<&ChangePoint>)
        ensures
            r == if self@.history.len() == 0 {
                None
            } else {
                Some(&self@.history.last())
            },
    {
        if self.change_history.len() == 0 {
            None
        } else {
            Some(&self.change_history[self.change_history.len() - 1])
        }
    }

    /// How many observations there were.
    pub fn total_observations(&self) -> (r: usize)
        ensures
            r == self@.total_observations,
    {
        self.total_observations
    }

    pub fn config(&self) -> (r: &ChangePointConfig)
        ensures
            *r == self@.config,
    {
        &self.config
    }

    /// One change point less counts as recent; with the last of them the wish for retraining
    /// goes too.
    pub fn decay_recent_changes(&mut self)
        requires
            old(self)@.valid(),
        ensures
            final(self)@.valid(),
            final(self)@ == (if old(self)@.recent_change_count == 0 {
                old(self)@
            } else {
                DetectorModel {
                    recent_change_count: (old(self)@.recent_change_count - 1) as nat,
                    retraining_triggered: old(self)@.retraining_triggered
                        && old(self)@.recent_change_count != 1,
                    ..old(self)@
                }
            }),
            final(self)@ == old(self)@.faded(),
    {
        if self.recent_change_count > 0 {
            self.recent_change_count = self.recent_change_count - 1;
            if self.recent_change_count == 0 && self.retraining_triggered {
                self.retraining_triggered = false;
            }
        }
        assert(self@.detectors == old(self)@.detectors);
    }
}

/// The default parameters make a detector.
proof fn default_is_usable(config: ChangePointConfig)
    requires
        config.delta == Scalar::of_ratio(2, 1000),
        config.min_window_size == 50,
        config.max_window_size == 5000,
    ensures
        config.usable(),
{
    order::proper_ratio(2, 1000);
}

// ---------------------------------------------------------------------------------------------
// Laws.
// ---------------------------------------------------------------------------------------------

/// The best split stands out, and no split that stands out has a greater ratio.
pub proof fn best_split_is_best(window: WindowModel, log: Scalar, first: int, last: int, other: int)
    requires
        0 <= first,
        last <= usize::MAX,
        first <= other <= last,
        stands_out(split_at(window, log, other as usize)),
    ensures
        best_split(window, log, first, last) matches Some(best) && stands_out(best) && split_at(
            window,
            log,
            other as usize,
        ).ratio().at_most(best.ratio()),
    decreases last - first + 1,
{
    if other < last {
        best_split_is_best(window, log, first, last - 1, other);
    } else {
        best_split_stands_out(window, log, first, last - 1);
    }
}

/// A split is found only where the means are apart by more than the bound.
pub proof fn best_split_stands_out(window: WindowModel, log: Scalar, first: int, last: int)
    requires
        0 <= first,
        last <= usize::MAX,
    ensures
        best_split(window, log, first, last) matches Some(best) ==> stands_out(best) && first
            <= best.index <= last && best == split_at(window, log, best.index),
    decreases last - first + 1,
{
    if first <= last {
        best_split_stands_out(window, log, first, last - 1);
    }
}

/// Where a change point is found with a finite positive bound, the means are apart by more than
/// the bound.
pub proof fn change_exceeds_the_bound(split: Split)
    requires
        stands_out(split),
        split.epsilon.finite(),
        split.epsilon.value() > 0,
        split.mean_diff.finite(),
    ensures
        split.epsilon.below(split.mean_diff),
{
    let a = split.mean_diff;
    let b = split.epsilon;
    order::over_is_near(a, b);
    order::order_is_order_of_values(b, a);
    order::int_is_exact(1);
    let one = crate::scalar::one_unit();
    if a.value() <= b.value() {
        order::near_itself(Scalar::of_int(1), 1);
        assert(a.value() * one * 1 <= one * b.value()) by (nonlinear_arith)
            requires
                a.value() <= b.value(),
                one > 0,
        ;
        order::near_keeps_order(a.value() * one, b.value() as nat, one as int, 1);
    }
}

/// The detector of a feature after several observations.
pub open spec fn fed(detector: AdwinModel, values: Seq<Scalar>, config: ChangePointConfig) -> AdwinModel
    decreases values.len(),
{
    if values.len() == 0 {
        detector
    } else {
        fed(detector, values.drop_last(), config).with(values.last(), config)
    }
}

/// After a change point the feature shows no other until as many observations as the grace
/// period have come.
pub proof fn grace_period_holds(
    detector: AdwinModel,
    values: Seq<Scalar>,
    config: ChangePointConfig,
    log: Scalar,
    feature_index: usize,
    timestamp_ns: u64,
    total_observations: usize,
)
    requires
        values.len() < config.grace_period,
    ensures
        fed(detector.changed(), values, config).in_grace_period,
        fed(detector.changed(), values, config).grace_counter == values.len(),
        change_in(
            fed(detector.changed(), values, config),
            config,
            log,
            feature_index,
            timestamp_ns,
            total_observations,
        ) is None,
    decreases values.len(),
{
    if values.len() > 0 {
        grace_period_holds(
            detector,
            values.drop_last(),
            config,
            log,
            feature_index,
            timestamp_ns,
            total_observations,
        );
    }
}

/// No change point comes before the window can be split in two parts of the least size, nor
/// before as many observations since the last change point.
pub proof fn no_change_without_enough_observations(
    detector: AdwinModel,
    config: ChangePointConfig,
    log: Scalar,
    feature_index: usize,
    timestamp_ns: u64,
    total_observations: usize,
)
    requires
        detector.window.values.len() < 2 * config.min_window_size
            || detector.observations_since_change < config.min_window_size,
    ensures
        change_in(
            detector,
            config,
            log,
            feature_index,
            timestamp_ns,
            total_observations,
        ) is None,
{
}

/// An observation brings a change point exactly when the record grows, and then it is the last
/// on record and carries the time of the observation.
pub proof fn change_points_are_recorded(
    detector: DetectorModel,
    features: Seq<Scalar>,
    timestamp_ns: u64,
    logs: Seq<Scalar>,
)
    requires
        detector.valid(),
        features.len() == detector.n_features,
        detector.total_observations < usize::MAX,
    ensures
        ({
            let (after, change) = detector.after(features, timestamp_ns, logs);
            &&& after.total_observations == detector.total_observations + 1
            &&& change is None ==> after.history == detector.history
            &&& change matches Some(point) ==> after.history == detector.history.push(point)
                && point.timestamp_ns == timestamp_ns && point.total_observations
                == after.total_observations && point.feature_index < detector.n_features
        }),
{
    watched_feature_is_in_range(
        detector.detectors,
        detector.config,
        features,
        logs,
        timestamp_ns,
        (detector.total_observations + 1) as usize,
        0,
    );
}

proof fn watched_feature_is_in_range(
    detectors: Seq<AdwinModel>,
    config: ChangePointConfig,
    features: Seq<Scalar>,
    logs: Seq<Scalar>,
    timestamp_ns: u64,
    total_observations: usize,
    i: int,
)
    ensures
        watched(detectors, config, features, logs, timestamp_ns, total_observations, i).1 matches Some(
            point,
        ) ==> point.timestamp_ns == timestamp_ns && point.total_observations == total_observations
            && point.feature_index < features.len(),
    decreases features.len() - i,
{
    if 0 <= i < features.len() {
        let next = detectors[i].with(features[i], config);
        watched_feature_is_in_range(
            detectors.update(i, next),
            config,
            features,
            logs,
            timestamp_ns,
            total_observations,
            i + 1,
        );
    }
}

} // verus!
