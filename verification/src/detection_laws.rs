//! What a change point says of the observations, and when one is owed.

use crate::change_point;
use crate::change_point::{
    AdwinModel, ChangePointConfig, ChangeSeverity, DetectorModel, Split, WindowModel,
};
use crate::linalg;
use crate::order;
use crate::relations;
use crate::rounding::EXACT;
use crate::scalar;
use crate::scalar::Scalar;
use vstd::arithmetic::mul::*;
use vstd::prelude::*;

verus! {

// ---------------------------------------------------------------------------------------------
// How far the means are apart.
// ---------------------------------------------------------------------------------------------

/// How far the means are apart is never negative.
pub proof fn mean_diff_is_not_negative(window: WindowModel, log: Scalar, index: usize)
    ensures
        change_point::split_at(window, log, index).mean_diff.nan() || Scalar::of_int(0).at_most(
            change_point::split_at(window, log, index).mean_diff,
        ),
        change_point::split_at(window, log, index).index == index,
{
    relations::zero_and_one();
}

/// How far the means are apart is the distance of the two means: that of the observations before
/// the split, and that of the rest.
pub proof fn mean_diff_is_the_distance_of_the_means(
    window: WindowModel,
    log: Scalar,
    index: usize,
    rest: Scalar,
    left_mean: Scalar,
    right_mean: Scalar,
)
    requires
        0 < index < window.values.len() < EXACT,
        linalg::running_sum(window.values, index as int).finite(),
        window.sum.finite(),
        rest.finite(),
        left_mean.finite(),
        right_mean.finite(),
        relations::rounds(
            rest,
            window.sum.value() - linalg::running_sum(window.values, index as int).value(),
            1,
        ),
        relations::rounds(
            left_mean,
            linalg::running_sum(window.values, index as int).value(),
            index as nat,
        ),
        relations::rounds(right_mean, rest.value(), (window.values.len() - index) as nat),
    ensures
        relations::rounds(
            change_point::split_at(window, log, index).mean_diff,
            if left_mean.value() >= right_mean.value() {
                left_mean.value() - right_mean.value()
            } else {
                right_mean.value() - left_mean.value()
            },
            1,
        ),
{
    let left = linalg::running_sum(window.values, index as int);
    let n = window.values.len();
    let right = window.sum.minus(left);
    order::minus_is_near(window.sum, left);
    relations::level_values(right, rest);
    relations::part_of(left, index as nat);
    relations::part_of(right, (n - index) as nat);
    let l = left.over(Scalar::of_int(index as nat));
    let r = right.over(Scalar::of_int((n - index) as nat));
    relations::level_values(l, left_mean);
    relations::level_values(r, right_mean);
    order::minus_is_near(l, r);
    relations::near_turns_sign(l.value() - r.value(), 1);
    relations::magnitudes(l.minus(r));
    relations::zero_and_one();
    order::near_itself(Scalar::of_int(0), 1);
    if l.value() >= r.value() {
        order::near_keeps_order(0, 1, l.value() - r.value(), 1);
    } else {
        order::near_keeps_order(l.value() - r.value(), 1, 0, 1);
    }
}

/// Every observation of one window is that of the other with its sign changed.
pub open spec fn mirrored(a: WindowModel, b: WindowModel) -> bool {
    &&& a.values.len() == b.values.len()
    &&& forall|i: int| 0 <= i < a.values.len() ==> relations::turned(#[trigger] a.values[i], b.values[i])
    &&& relations::turned(a.sum, b.sum)
}

/// There is one result of a sum that is no number.
proof fn sums_that_are_no_numbers(a: Scalar, b: Scalar, c: Scalar, d: Scalar)
    requires
        a.plus(b).nan(),
        c.plus(d).nan(),
    ensures
        a.plus(b) == c.plus(d),
{
    if a.finite() && b.finite() {
        order::plus_is_near(a, b);
    }
    if c.finite() && d.finite() {
        order::plus_is_near(c, d);
    }
    reveal(Scalar::plus);
}

/// Changing the sign of every observation changes no split: a fall of the mean is as far, and
/// counts as much, as the mirrored rise.
pub proof fn mirrored_windows_split_alike(a: WindowModel, b: WindowModel, log: Scalar, index: usize)
    requires
        mirrored(a, b),
        0 < index < a.values.len() <= u64::MAX,
    ensures
        change_point::split_at(a, log, index) == change_point::split_at(b, log, index),
{
    let n = a.values.len();
    let (l1, l2) = (
        linalg::running_sum(a.values, index as int),
        linalg::running_sum(b.values, index as int),
    );
    relations::running_sums_turn(a.values, b.values, index as int);
    relations::sums_turn(a.sum, l1, b.sum, l2);
    relations::parts_turn(l1, l2, index as u64);
    relations::parts_turn(a.sum.minus(l1), b.sum.minus(l2), (n - index) as u64);
    let (m1, m2) = (
        l1.over(Scalar::of_int(index as nat)),
        l2.over(Scalar::of_int(index as nat)),
    );
    let (r1, r2) = (
        a.sum.minus(l1).over(Scalar::of_int((n - index) as nat)),
        b.sum.minus(l2).over(Scalar::of_int((n - index) as nat)),
    );
    relations::sums_turn(m1, r1, m2, r2);
    if m1.minus(r1).nan() {
        sums_that_are_no_numbers(m1, r1.negated(), m2, r2.negated());
    } else {
        relations::opposite_values(m1.minus(r1), m2.minus(r2));
    }
}

proof fn mirrored_windows_have_the_same_best_split(
    a: WindowModel,
    b: WindowModel,
    log: Scalar,
    first: int,
    last: int,
)
    requires
        mirrored(a, b),
        0 < first,
        last < a.values.len() <= usize::MAX,
    ensures
        change_point::best_split(a, log, first, last) == change_point::best_split(
            b,
            log,
            first,
            last,
        ),
    decreases last - first + 1,
{
    if first <= last {
        mirrored_windows_have_the_same_best_split(a, b, log, first, last - 1);
        mirrored_windows_split_alike(a, b, log, last as usize);
    }
}

/// A fall of the mean is detected exactly where the mirrored rise is, and as the same change
/// point.
pub proof fn a_fall_is_detected_like_the_mirrored_rise(
    rise: AdwinModel,
    fall: AdwinModel,
    config: ChangePointConfig,
    log: Scalar,
    feature_index: usize,
    timestamp_ns: u64,
    total_observations: usize,
)
    requires
        mirrored(rise.window, fall.window),
        rise.window.values.len() <= usize::MAX,
        config.min_window_size > 0,
        rise.observations_since_change == fall.observations_since_change,
        rise.in_grace_period == fall.in_grace_period,
    ensures
        change_point::change_in(
            rise,
            config,
            log,
            feature_index,
            timestamp_ns,
            total_observations,
        ) == change_point::change_in(
            fall,
            config,
            log,
            feature_index,
            timestamp_ns,
            total_observations,
        ),
{
    let n = rise.window.values.len();
    let least = config.min_window_size as int;
    if n >= 2 * least {
        mirrored_windows_have_the_same_best_split(
            rise.window,
            fall.window,
            log,
            least,
            n - least,
        );
    }
}

/// Detectors that are fed mirrored observations hold mirrored windows.
pub proof fn mirrored_observations_stay_mirrored(
    rise: AdwinModel,
    fall: AdwinModel,
    value: Scalar,
    opposite: Scalar,
    config: ChangePointConfig,
)
    requires
        mirrored(rise.window, fall.window),
        relations::turned(value, opposite),
    ensures
        mirrored(rise.with(value, config).window, fall.with(opposite, config).window),
{
    let (a, b) = (rise.window, fall.window);
    let (c, d) = (a.with(value), b.with(opposite));
    relations::sums_turn(a.sum, value, b.sum, opposite);
    assert forall|i: int| 0 <= i < c.values.len() implies relations::turned(
        #[trigger] c.values[i],
        d.values[i],
    ) by {
        if i < a.values.len() {
            assert(relations::turned(a.values[i], b.values[i]));
        }
    }
    assert(relations::turned(c.values[0], d.values[0]));
    relations::sums_turn(c.sum, c.values[0], d.sum, d.values[0]);
    let (e, f) = (c.without_oldest(), d.without_oldest());
    assert forall|i: int| 0 <= i < e.values.len() implies relations::turned(
        #[trigger] e.values[i],
        f.values[i],
    ) by {
        assert(relations::turned(c.values[i + 1], d.values[i + 1]));
    }
}

// ---------------------------------------------------------------------------------------------
// The bound.
// ---------------------------------------------------------------------------------------------

/// The bound is the root of the logarithm over twice the size of the smaller part.
pub proof fn the_bound_is_a_root(window: WindowModel, log: Scalar, index: usize, part: Scalar)
    requires
        0 < index < window.values.len(),
        2 * window.values.len() < EXACT,
        log.finite(),
        relations::rounds(
            part,
            log.value(),
            (2 * if index <= window.values.len() - index {
                index as int
            } else {
                window.values.len() - index
            }) as nat,
        ),
        Scalar::of_int(0).below(part),
    ensures
        change_point::split_at(window, log, index).epsilon == part.root(),
{
    let n = window.values.len();
    let least = (if index <= n - index {
        index as int
    } else {
        n - index
    }) as nat;
    double(least);
    relations::part_of(log, 2 * least);
    relations::zero_and_one();
    relations::level_values(log.over(Scalar::of_int(2 * least)), part);
}

/// The bound is the same however the two parts are swapped, and no greater where the smaller part
/// is larger or the logarithm is less.
pub proof fn the_bound_shrinks_with_the_smaller_part(
    window1: WindowModel,
    window2: WindowModel,
    log1: Scalar,
    log2: Scalar,
    index1: usize,
    index2: usize,
)
    requires
        0 < index1 < window1.values.len(),
        0 < index2 < window2.values.len(),
        2 * window1.values.len() < EXACT,
        2 * window2.values.len() < EXACT,
        index2 <= index1 && index2 <= window1.values.len() - index1 || window2.values.len() - index2
            <= index1 && window2.values.len() - index2 <= window1.values.len() - index1,
        Scalar::of_int(0).at_most(log1),
        log1.at_most(log2),
        log2.finite(),
    ensures
        change_point::split_at(window1, log1, index1).epsilon.at_most(
            change_point::split_at(window2, log2, index2).epsilon,
        ),
{
    let n1 = window1.values.len();
    let n2 = window2.values.len();
    let l1 = (if index1 <= n1 - index1 {
        index1 as int
    } else {
        n1 - index1
    }) as nat;
    let l2 = (if index2 <= n2 - index2 {
        index2 as int
    } else {
        n2 - index2
    }) as nat;
    relations::zero_and_one();
    order::order_is_order_of_values(Scalar::of_int(0), log1);
    order::order_is_order_of_values(log1, log2);
    double(l1);
    double(l2);
    relations::part_of(log1, 2 * l1);
    relations::part_of(log2, 2 * l2);
    let (a, b) = (log1.over(Scalar::of_int(2 * l1)), log2.over(Scalar::of_int(2 * l2)));
    order::near_itself(Scalar::of_int(0), 1);
    order::near_keeps_order(0, 1, log1.value(), 2 * l1);
    assert(log1.value() * (2 * l2) <= log2.value() * (2 * l1)) by (nonlinear_arith)
        requires
            0 <= log1.value() <= log2.value(),
            l2 <= l1,
    ;
    order::near_keeps_order(log1.value(), 2 * l1, log2.value(), 2 * l2);
    relations::roots_keep_order(a, b);
}

/// Twice a count is exact.
proof fn double(n: nat)
    requires
        0 < n,
        2 * n < EXACT,
    ensures
        Scalar::of_int(2).times(Scalar::of_int(n)) == Scalar::of_int(2 * n),
{
    let two = Scalar::of_int(2);
    let m = Scalar::of_int(n);
    let one = scalar::one_unit();
    order::int_is_exact(2);
    order::int_is_exact(n);
    order::int_is_exact(2 * n);
    order::times_is_near(two, m);
    let both = Scalar::of_int(2 * n);
    order::near_itself(both, 1);
    let (x, y, z) = (two.value(), m.value(), both.value());
    assert((x * y) * 1 == z * one) by (nonlinear_arith)
        requires
            x == 2 * one,
            y == n * one,
            z == 2 * n * one,
    ;
    relations::near_of_equal_ratios(x * y, one, z, 1);
    relations::level_values(two.times(m), both);
    lemma_mul_strictly_positive(2 * n as int, one as int);
    if both.mag() == 0 {
        assert(crate::rounding::units(0) == 0);
    }
}

/// The number whose logarithm the bound takes is four times the number of splits that are tried,
/// over the confidence; it does not fall as the window grows.
pub proof fn the_bound_argument_counts_the_splits(n: nat, config: ChangePointConfig)
    requires
        config.delta.finite(),
        config.delta.value() > 0,
        4 * (n + 1) < EXACT,
    ensures
        n < 2 * config.min_window_size ==> relations::rounds(
            change_point::bound_argument_of(n, config),
            4int * scalar::one_unit() * scalar::one_unit(),
            config.delta.value() as nat,
        ),
        n >= 2 * config.min_window_size ==> relations::rounds(
            change_point::bound_argument_of(n, config),
            4 * (n - 2 * config.min_window_size + 1) * scalar::one_unit() * scalar::one_unit(),
            config.delta.value() as nat,
        ),
{
    let cuts = if n >= 2 * config.min_window_size {
        (n - 2 * config.min_window_size + 1) as nat
    } else {
        1
    };
    let one = scalar::one_unit() as int;
    double(cuts);
    double(2 * cuts);
    order::int_is_exact(4);
    order::int_is_exact(cuts);
    order::int_is_exact(4 * cuts);
    let (a, b, c) = (Scalar::of_int(4), Scalar::of_int(cuts), Scalar::of_int(4 * cuts));
    order::times_is_near(a, b);
    order::near_itself(c, 1);
    let (x, y, z) = (a.value(), b.value(), c.value());
    assert((x * y) * 1 == z * one) by (nonlinear_arith)
        requires
            x == 4 * one,
            y == cuts * one,
            z == 4 * cuts * one,
    ;
    relations::near_of_equal_ratios(x * y, one as nat, z, 1);
    relations::level_values(a.times(b), c);
    order::over_is_near(a.times(b), config.delta);
}

// ---------------------------------------------------------------------------------------------
// Severity, and when a change point is owed.
// ---------------------------------------------------------------------------------------------

/// A change that stands out further is never less serious.
pub proof fn a_greater_change_is_no_less_serious(less: Split, more: Split, config: ChangePointConfig)
    requires
        Scalar::of_int(0).at_most(less.mean_diff),
        less.mean_diff.at_most(more.mean_diff),
        Scalar::of_int(0).below(more.epsilon),
        more.epsilon.at_most(less.epsilon),
        !less.ratio().nan(),
        !more.ratio().nan(),
    ensures
        less.ratio().at_most(more.ratio()),
        change_point::stands_out(less) ==> change_point::stands_out(more),
        change_point::severity_of(less, config) is Some ==> change_point::severity_of(
            more,
            config,
        ) is Some,
        change_point::severity_of(less, config) == Some(ChangeSeverity::Major)
            ==> change_point::severity_of(more, config) == Some(ChangeSeverity::Major),
{
    relations::zero_and_one();
    let (a, b, c, d) = (less.mean_diff, more.mean_diff, less.epsilon, more.epsilon);
    if a.over(d).nan() {
        reveal(Scalar::over);
        assert(a.infinite() && d.infinite());
    }
    relations::greater_divisors_give_less(a, d, c);
    relations::quotients_keep_order(a, b, d);
    reveal(Scalar::over);
}

/// A change is major exactly if the means are apart by at least the major threshold times the
/// bound, and minor if not so but by at least the minor threshold.
pub proof fn thresholds_tell_the_severity(split: Split, config: ChangePointConfig)
    requires
        !split.ratio().nan(),
        !config.major_threshold.nan(),
        !config.minor_threshold.nan(),
    ensures
        change_point::severity_of(split, config) == Some(ChangeSeverity::Major)
            <==> config.major_threshold.at_most(split.ratio()),
        change_point::severity_of(split, config) is None <==> split.ratio().below(
            config.major_threshold,
        ) && split.ratio().below(config.minor_threshold),
{
}

/// A change point is owed wherever a split of enough observations stands out and is serious, and
/// the feature is not in its grace period; it is at least as serious as that split.
pub proof fn a_change_that_stands_out_is_detected(
    detector: AdwinModel,
    config: ChangePointConfig,
    log: Scalar,
    feature_index: usize,
    timestamp_ns: u64,
    total_observations: usize,
    index: int,
)
    requires
        !detector.in_grace_period,
        detector.observations_since_change >= config.min_window_size,
        config.min_window_size <= index,
        index <= detector.window.values.len() - config.min_window_size,
        detector.window.values.len() <= usize::MAX,
        change_point::stands_out(change_point::split_at(detector.window, log, index as usize)),
        config.minor_threshold.at_most(
            change_point::split_at(detector.window, log, index as usize).ratio(),
        ),
    ensures
        change_point::change_in(
            detector,
            config,
            log,
            feature_index,
            timestamp_ns,
            total_observations,
        ) matches Some(c) && c.feature_index == feature_index && c.timestamp_ns == timestamp_ns
            && c.total_observations == total_observations && change_point::split_at(
            detector.window,
            log,
            index as usize,
        ).ratio().at_most(c.mean_diff.over(c.epsilon)),
{
    let least = config.min_window_size as int;
    let n = detector.window.values.len();
    change_point::best_split_is_best(detector.window, log, least, n - least, index);
}

/// A change point speaks of a split of the window that stands out, with enough observations on
/// both sides.
pub proof fn a_change_point_speaks_of_a_split(
    detector: AdwinModel,
    config: ChangePointConfig,
    log: Scalar,
    feature_index: usize,
    timestamp_ns: u64,
    total_observations: usize,
)
    requires
        detector.window.values.len() <= usize::MAX,
    ensures
        change_point::change_in(
            detector,
            config,
            log,
            feature_index,
            timestamp_ns,
            total_observations,
        ) matches Some(c) ==> exists|index: usize|
            {
                let split = #[trigger] change_point::split_at(detector.window, log, index);
                &&& config.min_window_size <= index <= detector.window.values.len()
                    - config.min_window_size
                &&& change_point::stands_out(split)
                &&& c.mean_diff == split.mean_diff
                &&& c.epsilon == split.epsilon
                &&& c.severity == ChangeSeverity::Major <==> config.major_threshold.at_most(
                    split.ratio(),
                )
            },
{
    let least = config.min_window_size as int;
    let n = detector.window.values.len();
    if n >= 2 * least {
        change_point::best_split_stands_out(detector.window, log, least, n - least);
    }
}

// ---------------------------------------------------------------------------------------------
// What is watched.
// ---------------------------------------------------------------------------------------------

/// What is watched together does not depend on the signs of the features.
pub proof fn what_is_watched_together_has_no_signs(a: Seq<Scalar>, b: Seq<Scalar>)
    requires
        a.len() == b.len(),
        forall|i: int|
            0 <= i < a.len() ==> #[trigger] a[i] == b[i] || relations::opposite(a[i], b[i]),
    ensures
        change_point::aggregate(a) == change_point::aggregate(b),
{
    assert forall|i: int| 0 <= i < a.len() implies a[i].magnitude() == b[i].magnitude() by {
        assert(a[i] == b[i] || relations::opposite(a[i], b[i]));
        if a[i] != b[i] {
            relations::opposite_values(a[i], b[i]);
        }
    }
    assert(change_point::magnitudes(a) =~= change_point::magnitudes(b));
}

/// Features of greater magnitude raise what is watched together.
pub proof fn greater_features_raise_what_is_watched_together(a: Seq<Scalar>, b: Seq<Scalar>)
    requires
        0 < a.len() == b.len() <= u64::MAX,
        forall|i: int|
            0 <= i < a.len() ==> (#[trigger] a[i]).magnitude().at_most(b[i].magnitude()),
    ensures
        change_point::aggregate(a).at_most(change_point::aggregate(b)),
        Scalar::of_int(0).at_most(change_point::aggregate(a)),
{
    let n = a.len() as int;
    sums_of_magnitudes(a, b, n);
    relations::ints_are_finite(n as u64);
    relations::zero_and_one();
    let (x, y) = (
        linalg::running_sum(change_point::magnitudes(a), n),
        linalg::running_sum(change_point::magnitudes(b), n),
    );
    let c = Scalar::of_int(n as nat);
    reveal(Scalar::over);
    if x.finite() {
        order::over_is_near(x, c);
    }
    if y.finite() {
        order::over_is_near(y, c);
    }
    relations::quotients_keep_order(x, y, c);
    let zero = Scalar::of_int(0);
    order::over_is_near(zero, c);
    lemma_mul_basics(scalar::one_unit() as int);
    lemma_mul_basics(c.value());
    order::near_itself(zero, c.value() as nat);
    relations::quotients_keep_order(zero, x, c);
}

proof fn sums_of_magnitudes(a: Seq<Scalar>, b: Seq<Scalar>, k: int)
    requires
        k <= a.len() == b.len(),
        forall|i: int|
            0 <= i < a.len() ==> (#[trigger] a[i]).magnitude().at_most(b[i].magnitude()),
    ensures
        linalg::running_sum(change_point::magnitudes(a), k).at_most(
            linalg::running_sum(change_point::magnitudes(b), k),
        ),
        Scalar::of_int(0).at_most(linalg::running_sum(change_point::magnitudes(a), k)),
    decreases k,
{
    relations::zero_and_one();
    if k > 0 {
        sums_of_magnitudes(a, b, k - 1);
        let (x, y) = (
            linalg::running_sum(change_point::magnitudes(a), k - 1),
            linalg::running_sum(change_point::magnitudes(b), k - 1),
        );
        let (u, v) = (a[k - 1].magnitude(), b[k - 1].magnitude());
        assert(a[k - 1].magnitude().at_most(b[k - 1].magnitude()));
        relations::sum_is_a_number(x, u);
        relations::sum_is_a_number(y, v);
        relations::sums_keep_order(x, y, u, v);
        let zero = Scalar::of_int(0);
        relations::adding_nothing(zero, zero);
        relations::sums_keep_order(zero, x, zero, u);
    }
}

/// A single feature is watched by its magnitude.
pub proof fn a_single_feature_is_watched_by_its_magnitude(feature: Scalar)
    requires
        feature.finite(),
    ensures
        change_point::aggregate(seq![feature]).level(feature.magnitude()),
{
    relations::zero_and_one();
    let m = change_point::magnitudes(seq![feature]);
    reveal_with_fuel(linalg::running_sum, 2);
    assert(m[0] == feature.magnitude());
    relations::magnitudes(feature);
    relations::adding_nothing(feature.magnitude(), Scalar::of_int(0));
    let sum = Scalar::of_int(0).plus(feature.magnitude());
    relations::level_values(sum, feature.magnitude());
    relations::part_of(sum, 1);
    order::near_itself(feature.magnitude(), 1);
    assert(feature.magnitude().value() * 1 == feature.magnitude().value());
}

/// One by one, each feature is taken in by its own detector until one changes: that one begins its
/// grace period, and those after it take in nothing.
pub proof fn each_feature_has_its_own_detector(
    detectors: Seq<AdwinModel>,
    config: ChangePointConfig,
    features: Seq<Scalar>,
    logs: Seq<Scalar>,
    timestamp_ns: u64,
    total_observations: usize,
    i: int,
    j: int,
)
    requires
        detectors.len() == features.len() <= usize::MAX,
        0 <= i <= features.len(),
        0 <= j < features.len(),
    ensures
        ({
            let (after, change) = change_point::watched(
                detectors,
                config,
                features,
                logs,
                timestamp_ns,
                total_observations,
                i,
            );
            &&& after.len() == detectors.len()
            &&& j < i ==> after[j] == detectors[j]
            &&& i <= j && change is None ==> after[j] == detectors[j].with(features[j], config)
            &&& change matches Some(c) ==> {
                &&& i <= c.feature_index < features.len()
                &&& i <= j < c.feature_index ==> after[j] == detectors[j].with(features[j], config)
                &&& j == c.feature_index ==> after[j] == detectors[j].with(
                    features[j],
                    config,
                ).changed()
                &&& j > c.feature_index ==> after[j] == detectors[j]
            }
        }),
    decreases features.len() - i,
{
    if i < features.len() {
        let next = detectors[i].with(features[i], config);
        if change_point::change_in(
            next,
            config,
            logs[i],
            i as usize,
            timestamp_ns,
            total_observations,
        ) is None {
            each_feature_has_its_own_detector(
                detectors.update(i, next),
                config,
                features,
                logs,
                timestamp_ns,
                total_observations,
                i + 1,
                j,
            );
        }
    }
}

/// Together, every detector takes in the mean of the magnitudes, and the first one alone can bring a
/// change point, which begins its grace period.
pub proof fn together_one_number_is_watched(
    detectors: Seq<AdwinModel>,
    config: ChangePointConfig,
    features: Seq<Scalar>,
    logs: Seq<Scalar>,
    timestamp_ns: u64,
    total_observations: usize,
    j: int,
)
    requires
        0 <= j < detectors.len(),
    ensures
        ({
            let (after, change) = change_point::watched_together(
                detectors,
                config,
                features,
                logs,
                timestamp_ns,
                total_observations,
            );
            let taken = detectors[j].with(change_point::aggregate(features), config);
            &&& after.len() == detectors.len()
            &&& change is None || j > 0 ==> after[j] == taken
            &&& change is Some && j == 0 ==> after[j] == taken.changed()
            &&& change matches Some(c) ==> c.feature_index == 0 && c.timestamp_ns == timestamp_ns
        }),
{
}

/// Features are watched one by one or together, as the parameters say, from the observation on that
/// completes a part of a window.
pub proof fn features_are_watched_as_configured(
    detector: DetectorModel,
    features: Seq<Scalar>,
    timestamp_ns: u64,
    logs: Seq<Scalar>,
    j: int,
)
    requires
        detector.valid(),
        features.len() == detector.n_features,
        detector.total_observations < usize::MAX,
        0 <= j < features.len(),
        detector.n_features <= usize::MAX,
        detector.total_observations + 1 >= detector.config.min_window_size,
        detector.after(features, timestamp_ns, logs).1 is None,
    ensures
        detector.config.per_feature_monitoring ==> detector.after(
            features,
            timestamp_ns,
            logs,
        ).0.detectors[j] == detector.detectors[j].with(features[j], detector.config),
        !detector.config.per_feature_monitoring ==> detector.after(
            features,
            timestamp_ns,
            logs,
        ).0.detectors[j] == detector.detectors[j].with(
            change_point::aggregate(features),
            detector.config,
        ),
{
    let total = (detector.total_observations + 1) as usize;
    each_feature_has_its_own_detector(
        detector.detectors,
        detector.config,
        features,
        logs,
        timestamp_ns,
        total,
        0,
        j,
    );
    together_one_number_is_watched(
        detector.detectors,
        detector.config,
        features,
        logs,
        timestamp_ns,
        total,
        j,
    );
}

/// A detector holds its most recent observations: as many as it may, in their order.
pub proof fn a_detector_holds_the_most_recent_observations(
    detector: AdwinModel,
    values: Seq<Scalar>,
    config: ChangePointConfig,
)
    requires
        0 < config.max_window_size,
        detector.window.values.len() <= config.max_window_size,
    ensures
        ({
            let all = detector.window.values + values;
            let held = change_point::fed(detector, values, config).window.values;
            let dropped = if all.len() <= config.max_window_size {
                0
            } else {
                all.len() - config.max_window_size
            };
            &&& held == all.skip(dropped)
            &&& change_point::fed(detector, values, config).observations_since_change
                == detector.observations_since_change + values.len()
            &&& change_point::fed(detector, values, config).consecutive_changes
                == detector.consecutive_changes
        }),
    decreases values.len(),
{
    let all = detector.window.values + values;
    let max = config.max_window_size as int;
    if values.len() == 0 {
        assert(all =~= detector.window.values);
        assert(all.skip(0) =~= all);
    } else {
        let fewer = values.drop_last();
        a_detector_holds_the_most_recent_observations(detector, fewer, config);
        let before = detector.window.values + fewer;
        assert(all =~= before.push(values.last()));
        let held = change_point::fed(detector, fewer, config).window.values;
        let wider = held.push(values.last());
        if all.len() <= max {
            assert(before.skip(0) =~= before);
            assert(all.skip(0) =~= all);
        } else if before.len() <= max {
            assert(before.skip(0) =~= before);
            assert(wider.skip(1) =~= all.skip(1));
        } else {
            let d = before.len() - max;
            assert(wider =~= all.skip(d));
            assert(wider.skip(1) =~= all.skip(d + 1));
        }
    }
}

/// Retraining is asked for once there have been as many change points as the threshold says, and
/// stays asked for; only change points count.
pub proof fn change_points_ask_for_retraining(
    detector: DetectorModel,
    features: Seq<Scalar>,
    timestamp_ns: u64,
    logs: Seq<Scalar>,
)
    ensures
        ({
            let (after, change) = detector.after(features, timestamp_ns, logs);
            &&& after.last_timestamp_ns == timestamp_ns
            &&& after.config == detector.config
            &&& change is None ==> after.recent_change_count == detector.recent_change_count
                && after.retraining_triggered == detector.retraining_triggered
            &&& change is Some ==> after.recent_change_count == detector.recent_change_count + 1
            &&& change is Some && !detector.retraining_triggered ==> (after.retraining_triggered
                <==> after.recent_change_count >= detector.config.retraining_trigger_threshold)
            &&& detector.retraining_triggered ==> after.retraining_triggered
            &&& detector.total_observations + 1 < detector.config.min_window_size ==> change is None
                && after.detectors == detector.detectors
        }),
{
}

/// Of splits with the same ratio the first is kept.
pub proof fn the_first_of_equal_splits_is_kept(
    window: WindowModel,
    log: Scalar,
    first: int,
    last: int,
    other: int,
)
    requires
        0 <= first,
        last <= usize::MAX,
        first <= other <= last,
        change_point::stands_out(change_point::split_at(window, log, other as usize)),
    ensures
        change_point::best_split(window, log, first, last) matches Some(best) && (other
            < best.index ==> change_point::split_at(window, log, other as usize).ratio().below(
            best.ratio(),
        )),
    decreases last - first + 1,
{
    change_point::best_split_is_best(window, log, first, last, other);
    if other < last {
        change_point::best_split_stands_out(window, log, first, last - 1);
        change_point::best_split_is_best(window, log, first, last - 1, other);
        the_first_of_equal_splits_is_kept(window, log, first, last - 1, other);
    } else {
        change_point::best_split_stands_out(window, log, first, last);
    }
}

/// A split stands out exactly if its means are apart by more than the bound, and by more than
/// rounding: at the bound itself it does not.
pub proof fn a_split_at_the_bound_does_not_stand_out(split: Split)
    requires
        order::nonnegative(split.mean_diff),
        split.epsilon.finite(),
        split.epsilon.value() > 0,
    ensures
        split.mean_diff.at_most(split.epsilon) ==> !change_point::stands_out(split),
        split.mean_diff.below(Scalar::of_ratio(1, 1_000_000_000_000_000))
            ==> !change_point::stands_out(split),
        split.epsilon.below(split.mean_diff) && Scalar::of_ratio(
            1,
            1_000_000_000_000_000,
        ).at_most(split.mean_diff) && Scalar::of_int(1).below(split.ratio())
            ==> change_point::stands_out(split),
{
    relations::zero_and_one();
    let (a, b) = (split.mean_diff, split.epsilon);
    let one = scalar::one_unit() as int;
    order::over_is_near(a, b);
    order::near_itself(Scalar::of_int(1), 1);
    if a.at_most(b) {
        order::order_is_order_of_values(a, b);
        lemma_mul_inequality(a.value(), b.value(), one);
        lemma_mul_is_commutative(one, b.value());
        order::near_keeps_order(a.value() * one, b.value() as nat, one, 1);
    }
}

/// A change point starts the count of observations over, is counted itself, and keeps the window.
pub proof fn a_change_point_starts_over(
    detector: AdwinModel,
    values: Seq<Scalar>,
    config: ChangePointConfig,
)
    requires
        0 < config.max_window_size,
        detector.window.values.len() <= config.max_window_size,
    ensures
        change_point::fed(detector.changed(), values, config).observations_since_change
            == values.len(),
        change_point::fed(detector.changed(), values, config).consecutive_changes
            == detector.consecutive_changes + 1,
        detector.changed().window == detector.window,
{
    a_detector_holds_the_most_recent_observations(detector.changed(), values, config);
}

/// Once as many observations as the grace period have come, and one at least, it is over.
pub proof fn the_grace_period_ends(
    detector: AdwinModel,
    values: Seq<Scalar>,
    config: ChangePointConfig,
)
    requires
        values.len() >= config.grace_period,
        values.len() >= 1,
    ensures
        !change_point::fed(detector.changed(), values, config).in_grace_period,
    decreases values.len(),
{
    let fewer = values.drop_last();
    if fewer.len() >= config.grace_period && fewer.len() >= 1 {
        the_grace_period_ends(detector, fewer, config);
    } else if fewer.len() > 0 {
        change_point::grace_period_holds(
            detector,
            fewer,
            config,
            Scalar::of_int(0),
            0,
            0,
            0,
        );
    } else {
        reveal_with_fuel(change_point::fed, 2);
    }
}

/// An observation adds itself to the sum of the window; in a full window the oldest then leaves it.
pub proof fn the_sum_follows_the_window(
    detector: AdwinModel,
    value: Scalar,
    config: ChangePointConfig,
    more: Scalar,
)
    requires
        detector.window.sum.finite(),
        value.finite(),
        more.finite(),
        relations::rounds(more, detector.window.sum.value() + value.value(), 1),
    ensures
        detector.window.values.len() < config.max_window_size ==> detector.with(
            value,
            config,
        ).window.sum.level(more),
        detector.window.values.len() >= config.max_window_size && detector.window.values.len() > 0
            && detector.window.values[0].finite() ==> relations::rounds(
            detector.with(value, config).window.sum,
            more.value() - detector.window.values[0].value(),
            1,
        ),
{
    let sum = detector.window.sum.plus(value);
    order::plus_is_near(detector.window.sum, value);
    relations::level_values(sum, more);
    if detector.window.values.len() > 0 && detector.window.values[0].finite() {
        order::minus_is_near(sum, detector.window.values[0]);
    }
}

/// The detector after change points have faded so often.
pub open spec fn faded_often(detector: DetectorModel, times: nat) -> DetectorModel
    decreases times,
{
    if times == 0 {
        detector
    } else {
        faded_often(detector, (times - 1) as nat).faded()
    }
}

/// Recent change points fade one at a time. The wish to retrain lasts until the last of them has
/// faded and is then gone; what was detected stays on record.
pub proof fn the_wish_to_retrain_fades(detector: DetectorModel, times: nat)
    ensures
        ({
            let after = faded_often(detector, times);
            let n = detector.recent_change_count;
            &&& after.recent_change_count == if times <= n {
                (n - times) as nat
            } else {
                0
            }
            &&& times < n || n == 0 ==> after.retraining_triggered == detector.retraining_triggered
            &&& 0 < n <= times ==> !after.retraining_triggered
            &&& after.history == detector.history
            &&& after.detectors == detector.detectors
            &&& after.total_observations == detector.total_observations
        }),
    decreases times,
{
    if times > 0 {
        the_wish_to_retrain_fades(detector, (times - 1) as nat);
    }
}

} // verus!
