//! What makes a move likely: which signals count, and for how much.

use crate::decision;
use crate::extractor;
use crate::extractor::Session;
use crate::extractor_laws;
use crate::order;
use crate::relations;
use crate::rounding::EXACT;
use crate::scalar;
use crate::scalar::Scalar;
use vstd::prelude::*;

verus! {

// ---------------------------------------------------------------------------------------------
// Signals and their weights.
// ---------------------------------------------------------------------------------------------

/// A number from zero to one stays as it is.
proof fn within_one(x: Scalar)
    requires
        extractor_laws::is_probability(x),
    ensures
        extractor::unit(x) == x,
{
}

/// Moving into the range from zero to one keeps order.
proof fn unit_keeps_order(a: Scalar, b: Scalar)
    requires
        a.at_most(b),
    ensures
        extractor::unit(a).at_most(extractor::unit(b)),
{
    relations::zero_and_one();
}

/// A weight: a fraction above zero, at most one.
pub(crate) open spec fn is_weight(w: Scalar) -> bool {
    w.finite() && 0 < w.rank() <= Scalar::of_int(1).rank()
}

pub(crate) proof fn fractions(x: nat, y: nat)
    requires
        0 < x <= y < EXACT,
    ensures
        is_weight(Scalar::of_ratio(x, y)),
{
    relations::zero_and_one();
    extractor_laws::fraction(x, y);
    order::positive_ratio(x, y);
}

/// A weighed signal: not negative, at most the weight, and in the order of the signals.
pub(crate) proof fn weighed(a: Scalar, b: Scalar, w: Scalar)
    requires
        Scalar::of_int(0).at_most(a),
        a.at_most(b),
        b.at_most(Scalar::of_int(1)),
        is_weight(w),
    ensures
        a.times(w).at_most(b.times(w)),
        Scalar::of_int(0).at_most(a.times(w)),
        a.times(w).finite(),
        b.times(w).finite(),
        b.times(w).at_most(w),
        a.zero() ==> a.times(w).zero(),
        b.level(Scalar::of_int(1)) ==> b.times(w).level(w),
{
    relations::zero_and_one();
    order::order_is_order_of_values(Scalar::of_int(0), w);
    extractor_laws::share(a, w);
    extractor_laws::share(b, w);
    relations::products_keep_order(a, b, w, w);
    if a.zero() {
        relations::nothing_of(w, a);
    }
    if b.level(Scalar::of_int(1)) {
        relations::level_values(b, Scalar::of_int(1));
        crate::bayesian_laws::times_one(w);
        relations::factors_commute(w, Scalar::of_int(1));
    }
}

/// Three weighed signals, added up.
proof fn three_signals(a: Scalar, b: Scalar, c: Scalar, d: Scalar, e: Scalar, f: Scalar)
    requires
        Scalar::of_int(0).at_most(a),
        Scalar::of_int(0).at_most(b),
        Scalar::of_int(0).at_most(c),
        a.at_most(d),
        b.at_most(e),
        c.at_most(f),
    ensures
        a.plus(b).plus(c).at_most(d.plus(e).plus(f)),
        Scalar::of_int(0).at_most(a.plus(b).plus(c)),
        Scalar::of_int(0).at_most(a.plus(b)),
        a.plus(b).at_most(d.plus(e)),
        b.zero() && c.zero() ==> a.plus(b).plus(c).level(a),
        a.zero() && c.zero() ==> a.plus(b).plus(c).level(b),
        a.zero() && b.zero() ==> a.plus(b).plus(c).level(c),
        b.zero() ==> a.plus(b).level(a),
        a.zero() ==> a.plus(b).level(b),
{
    relations::zero_and_one();
    let zero = Scalar::of_int(0);
    relations::sum_is_a_number(a, b);
    relations::sum_is_a_number(d, e);
    relations::sums_keep_order(a, d, b, e);
    relations::adding_nothing(zero, zero);
    relations::sums_keep_order(zero, a, zero, b);
    relations::sum_is_a_number(a.plus(b), c);
    relations::sum_is_a_number(d.plus(e), f);
    relations::sums_keep_order(a.plus(b), d.plus(e), c, f);
    relations::sums_keep_order(zero, a.plus(b), zero, c);
    if b.zero() {
        relations::adding_nothing(a, b);
    }
    if a.zero() {
        relations::adding_nothing(b, a);
    }
    if c.zero() {
        relations::adding_nothing(a.plus(b), c);
    }
    if a.zero() && b.zero() {
        relations::adding_nothing(c, a.plus(b));
    }
}

/// A blend grows with each of its signals.
pub proof fn blends_keep_order(a: Scalar, b: Scalar, c: Scalar, d: Scalar, e: Scalar, f: Scalar)
    requires
        Scalar::of_int(0).at_most(a),
        Scalar::of_int(0).at_most(b),
        Scalar::of_int(0).at_most(c),
        a.at_most(d),
        b.at_most(e),
        c.at_most(f),
        d.at_most(Scalar::of_int(1)),
        e.at_most(Scalar::of_int(1)),
        f.at_most(Scalar::of_int(1)),
    ensures
        decision::blend(a, b, c).at_most(decision::blend(d, e, f)),
{
    fractions(2, 5);
    fractions(7, 20);
    fractions(1, 4);
    weighed(a, d, Scalar::of_ratio(2, 5));
    weighed(b, e, Scalar::of_ratio(7, 20));
    weighed(c, f, Scalar::of_ratio(1, 4));
    let (u, v, w) = (
        a.times(Scalar::of_ratio(2, 5)),
        b.times(Scalar::of_ratio(7, 20)),
        c.times(Scalar::of_ratio(1, 4)),
    );
    let (x, y, z) = (
        d.times(Scalar::of_ratio(2, 5)),
        e.times(Scalar::of_ratio(7, 20)),
        f.times(Scalar::of_ratio(1, 4)),
    );
    three_signals(u, v, w, x, y, z);
    unit_keeps_order(u.plus(v).plus(w), x.plus(y).plus(z));
}

/// In a blend, each signal alone counts for its weight: the first for two fifths, the second for
/// seven twentieths, the third for a quarter.
pub proof fn a_signal_alone_counts_for_its_weight(signal: Scalar, none: Scalar)
    requires
        extractor_laws::is_probability(signal),
        none.zero(),
    ensures
        relations::rounds(
            decision::blend(signal, none, none),
            signal.value() * Scalar::of_ratio(2, 5).value(),
            scalar::one_unit(),
        ),
        relations::rounds(
            decision::blend(none, signal, none),
            signal.value() * Scalar::of_ratio(7, 20).value(),
            scalar::one_unit(),
        ),
        relations::rounds(
            decision::blend(none, none, signal),
            signal.value() * Scalar::of_ratio(1, 4).value(),
            scalar::one_unit(),
        ),
{
    relations::zero_and_one();
    let (p, q, r) = (Scalar::of_ratio(2, 5), Scalar::of_ratio(7, 20), Scalar::of_ratio(1, 4));
    fractions(2, 5);
    fractions(7, 20);
    fractions(1, 4);
    assert(signal.finite());
    weighed(signal, signal, p);
    weighed(signal, signal, q);
    weighed(signal, signal, r);
    weighed(none, none, p);
    weighed(none, none, q);
    weighed(none, none, r);
    order::times_is_near(signal, p);
    order::times_is_near(signal, q);
    order::times_is_near(signal, r);
    let (a, b, c) = (signal.times(p), signal.times(q), signal.times(r));
    let (x, y, z) = (none.times(p), none.times(q), none.times(r));
    three_signals(a, y, z, a, y, z);
    three_signals(x, b, z, x, b, z);
    three_signals(x, y, c, x, y, c);
    within_one(a.plus(y).plus(z));
    within_one(x.plus(b).plus(z));
    within_one(x.plus(y).plus(c));
}

// ---------------------------------------------------------------------------------------------
// Reversion.
// ---------------------------------------------------------------------------------------------

/// How likely the price reverts does not depend on which way the spread or the book leans.
pub proof fn reversion_has_no_direction(
    zscore: Scalar,
    other_zscore: Scalar,
    obi: Scalar,
    other_obi: Scalar,
    depth_change_rate: Scalar,
)
    requires
        relations::opposite(zscore, other_zscore),
        relations::opposite(obi, other_obi),
    ensures
        extractor::p_revert_of(zscore, obi, depth_change_rate) == extractor::p_revert_of(
            other_zscore,
            other_obi,
            depth_change_rate,
        ),
{
    relations::opposite_values(zscore, other_zscore);
    relations::opposite_values(obi, other_obi);
}

/// A magnitude over a whole number, at most one.
pub(crate) proof fn part_signal(a: Scalar, b: Scalar, n: nat)
    requires
        !a.nan(),
        !b.nan(),
        0 <= a.rank() <= b.rank(),
        0 < n < EXACT,
    ensures
        a.over(Scalar::of_int(n)).lesser(Scalar::of_int(1)).at_most(
            b.over(Scalar::of_int(n)).lesser(Scalar::of_int(1)),
        ),
        extractor_laws::is_probability(a.over(Scalar::of_int(n)).lesser(Scalar::of_int(1))),
        extractor_laws::is_probability(b.over(Scalar::of_int(n)).lesser(Scalar::of_int(1))),
        !a.over(Scalar::of_int(n)).nan(),
        a.zero() ==> a.over(Scalar::of_int(n)).lesser(Scalar::of_int(1)).zero(),
{
    relations::zero_and_one();
    relations::ints_are_finite(n as u64);
    let c = Scalar::of_int(n);
    number_over(a, c);
    number_over(b, c);
    relations::quotients_keep_order(a, b, c);
    relations::greater_divisors_give_less(a, c, c);
    if a.zero() {
        assert(crate::rounding::units(0) == 0);
        relations::part_of(a, n);
        order::near_itself(a, n);
        vstd::arithmetic::mul::lemma_mul_basics(n as int);
    }
}

pub(crate) proof fn number_over(a: Scalar, c: Scalar)
    requires
        !a.nan(),
        c.finite(),
        c.value() > 0,
    ensures
        !a.over(c).nan(),
{
    if a.finite() {
        order::over_is_near(a, c);
    } else {
        reveal(Scalar::over);
    }
}

/// A magnitude doubled, at most one.
proof fn doubled_signal(a: Scalar, b: Scalar)
    requires
        !a.nan(),
        !b.nan(),
        0 <= a.rank() <= b.rank(),
    ensures
        a.times(Scalar::of_int(2)).lesser(Scalar::of_int(1)).at_most(
            b.times(Scalar::of_int(2)).lesser(Scalar::of_int(1)),
        ),
        extractor_laws::is_probability(a.times(Scalar::of_int(2)).lesser(Scalar::of_int(1))),
        extractor_laws::is_probability(b.times(Scalar::of_int(2)).lesser(Scalar::of_int(1))),
        !a.times(Scalar::of_int(2)).nan(),
        a.zero() ==> a.times(Scalar::of_int(2)).lesser(Scalar::of_int(1)).zero(),
        a.finite() ==> relations::rounds(a.times(Scalar::of_int(2)), 2 * a.value(), 1),
{
    relations::zero_and_one();
    order::int_is_exact(2);
    let two = Scalar::of_int(2);
    order::order_is_order_of_values(Scalar::of_int(0), two);
    let one = scalar::one_unit() as int;
    if a.finite() {
        order::times_is_near(a, two);
        let v = a.value();
        assert((v * (2 * one)) * 1 == (2 * v) * one) by (nonlinear_arith);
        relations::near_of_equal_ratios(v * (2 * one), one as nat, 2 * v, 1);
    } else {
        reveal(Scalar::times);
    }
    if b.finite() {
        order::times_is_near(b, two);
    } else {
        reveal(Scalar::times);
    }
    relations::products_keep_order(a, b, two, two);
    if a.zero() {
        relations::nothing_of(two, a);
    }
}

/// The price is the more likely to revert the further the spread is from its mean, the more uneven
/// the book, and the further the depth has fallen.
pub proof fn reversion_keeps_order(
    zscore1: Scalar,
    zscore2: Scalar,
    obi1: Scalar,
    obi2: Scalar,
    rate1: Scalar,
    rate2: Scalar,
)
    requires
        zscore1.magnitude().at_most(zscore2.magnitude()),
        obi1.magnitude().at_most(obi2.magnitude()),
        rate2.at_most(rate1),
    ensures
        extractor::p_revert_of(zscore1, obi1, rate1).at_most(
            extractor::p_revert_of(zscore2, obi2, rate2),
        ),
{
    relations::zero_and_one();
    fractions(2, 5);
    fractions(3, 10);
    let full = Scalar::of_int(1);
    let zero = Scalar::of_int(0);
    part_signal(zscore1.magnitude(), zscore2.magnitude(), 3);
    doubled_signal(obi1.magnitude(), obi2.magnitude());
    let (s1, s2) = (
        zscore1.magnitude().over(Scalar::of_int(3)).lesser(full),
        zscore2.magnitude().over(Scalar::of_int(3)).lesser(full),
    );
    let (o1, o2) = (
        obi1.magnitude().times(Scalar::of_int(2)).lesser(full),
        obi2.magnitude().times(Scalar::of_int(2)).lesser(full),
    );
    let drop = Scalar::of_ratio(1, 5).negated();
    let (d1, d2) = (
        if rate1.below(drop) {
            full
        } else {
            zero
        },
        if rate2.below(drop) {
            full
        } else {
            zero
        },
    );
    let (p, q) = (Scalar::of_ratio(2, 5), Scalar::of_ratio(3, 10));
    weighed(s1, s2, p);
    weighed(o1, o2, q);
    weighed(d1, d2, q);
    three_signals(s1.times(p), o1.times(q), d1.times(q), s2.times(p), o2.times(q), d2.times(q));
    unit_keeps_order(
        s1.times(p).plus(o1.times(q)).plus(d1.times(q)),
        s2.times(p).plus(o2.times(q)).plus(d2.times(q)),
    );
}

/// What each sign of reversion counts for alone: three deviations of the spread for two fifths,
/// and less in proportion; an imbalance of a half for three tenths, and less in proportion; a fall
/// of the depth by more than a fifth for three tenths.
pub proof fn signs_of_reversion_count_for_their_weights(
    zscore: Scalar,
    obi: Scalar,
    none: Scalar,
    steady: Scalar,
    falling: Scalar,
    third: Scalar,
    double: Scalar,
)
    requires
        zscore.finite(),
        obi.finite(),
        none.zero(),
        steady.finite(),
        !steady.below(Scalar::of_ratio(1, 5).negated()),
        falling.below(Scalar::of_ratio(1, 5).negated()),
        third.finite(),
        double.finite(),
        relations::rounds(third, zscore.magnitude().value(), 3),
        relations::rounds(double, 2 * obi.magnitude().value(), 1),
    ensures
        third.at_most(Scalar::of_int(1)) ==> relations::rounds(
            extractor::p_revert_of(zscore, none, steady),
            third.value() * Scalar::of_ratio(2, 5).value(),
            scalar::one_unit(),
        ),
        Scalar::of_int(1).at_most(third) ==> extractor::p_revert_of(zscore, none, steady).level(
            Scalar::of_ratio(2, 5),
        ),
        double.at_most(Scalar::of_int(1)) ==> relations::rounds(
            extractor::p_revert_of(none, obi, steady),
            double.value() * Scalar::of_ratio(3, 10).value(),
            scalar::one_unit(),
        ),
        Scalar::of_int(1).at_most(double) ==> extractor::p_revert_of(none, obi, steady).level(
            Scalar::of_ratio(3, 10),
        ),
        extractor::p_revert_of(none, none, falling).level(Scalar::of_ratio(3, 10)),
{
    relations::zero_and_one();
    fractions(2, 5);
    fractions(3, 10);
    relations::magnitudes(zscore);
    relations::magnitudes(obi);
    let full = Scalar::of_int(1);
    let zero = Scalar::of_int(0);
    let (p, q) = (Scalar::of_ratio(2, 5), Scalar::of_ratio(3, 10));
    part_signal(zscore.magnitude(), zscore.magnitude(), 3);
    part_signal(none.magnitude(), none.magnitude(), 3);
    doubled_signal(obi.magnitude(), obi.magnitude());
    doubled_signal(none.magnitude(), none.magnitude());
    relations::part_of(zscore.magnitude(), 3);
    let t = zscore.magnitude().over(Scalar::of_int(3));
    let d = obi.magnitude().times(Scalar::of_int(2));
    relations::level_values(t, third);
    relations::level_values(d, double);
    let (s, n) = (t.lesser(full), none.magnitude().over(Scalar::of_int(3)).lesser(full));
    let (o, m) = (d.lesser(full), none.magnitude().times(Scalar::of_int(2)).lesser(full));
    weighed(s, s, p);
    weighed(n, n, p);
    weighed(o, o, q);
    weighed(m, m, q);
    weighed(zero, zero, q);
    weighed(full, full, q);
    order::times_is_near(s, p);
    order::times_is_near(o, q);
    let z = zero.times(q);
    let f = full.times(q);
    three_signals(s.times(p), m.times(q), z, s.times(p), m.times(q), z);
    three_signals(n.times(p), o.times(q), z, n.times(p), o.times(q), z);
    three_signals(n.times(p), m.times(q), f, n.times(p), m.times(q), f);
    within_one(s.times(p).plus(m.times(q)).plus(z));
    within_one(n.times(p).plus(o.times(q)).plus(z));
    within_one(n.times(p).plus(m.times(q)).plus(f));
}

// ---------------------------------------------------------------------------------------------
// Continuation.
// ---------------------------------------------------------------------------------------------

/// The signal of rising volatility.
proof fn rising_signal(a: Scalar, b: Scalar)
    requires
        a.at_most(b),
    ensures
        ({
            let one = Scalar::of_int(1);
            let x = if one.below(a) {
                a.minus(one).times(Scalar::of_int(2)).lesser(one)
            } else {
                Scalar::of_int(0)
            };
            let y = if one.below(b) {
                b.minus(one).times(Scalar::of_int(2)).lesser(one)
            } else {
                Scalar::of_int(0)
            };
            &&& x.at_most(y)
            &&& extractor_laws::is_probability(x)
            &&& extractor_laws::is_probability(y)
        }),
{
    relations::zero_and_one();
    let one = Scalar::of_int(1);
    let zero = Scalar::of_int(0);
    relations::adding_nothing(one, zero);
    if one.below(b) {
        beyond_one(b);
        doubled_signal(b.minus(one), b.minus(one));
    }
    if one.below(a) {
        beyond_one(a);
        relations::differences_keep_order(a, b, one, one);
        doubled_signal(a.minus(one), b.minus(one));
    }
}

pub(crate) proof fn beyond_one(a: Scalar)
    requires
        Scalar::of_int(1).below(a),
    ensures
        !a.minus(Scalar::of_int(1)).nan(),
        a.minus(Scalar::of_int(1)).rank() >= 0,
        a.finite() ==> relations::rounds(
            a.minus(Scalar::of_int(1)),
            a.value() - scalar::one_unit(),
            1,
        ),
        a.finite() ==> a.minus(Scalar::of_int(1)).finite(),
{
    relations::zero_and_one();
    let one = Scalar::of_int(1);
    if a.finite() {
        order::minus_is_near(a, one);
        order::order_is_order_of_values(one, a);
        order::near_itself(Scalar::of_int(0), 1);
        order::near_keeps_order(0, 1, a.value() - one.value(), 1);
        order::near_itself(a, 1);
        order::near_keeps_order(a.value() - one.value(), 1, a.value(), 1);
    } else {
        reveal(Scalar::plus);
    }
}

/// A move is the more likely to go on the more volatility has risen and the more is traded.
pub proof fn continuation_keeps_order(
    ratio1: Scalar,
    ratio2: Scalar,
    intensity1: Scalar,
    intensity2: Scalar,
)
    requires
        ratio1.at_most(ratio2),
        Scalar::of_int(0).at_most(intensity1),
        intensity1.at_most(intensity2),
    ensures
        extractor::p_continue_of(ratio1, intensity1).at_most(
            extractor::p_continue_of(ratio2, intensity2),
        ),
{
    relations::zero_and_one();
    fractions(3, 5);
    fractions(2, 5);
    let one = Scalar::of_int(1);
    let zero = Scalar::of_int(0);
    rising_signal(ratio1, ratio2);
    part_signal(intensity1, intensity2, 20);
    let x = if one.below(ratio1) {
        ratio1.minus(one).times(Scalar::of_int(2)).lesser(one)
    } else {
        zero
    };
    let y = if one.below(ratio2) {
        ratio2.minus(one).times(Scalar::of_int(2)).lesser(one)
    } else {
        zero
    };
    let (u, v) = (
        intensity1.over(Scalar::of_int(20)).lesser(one),
        intensity2.over(Scalar::of_int(20)).lesser(one),
    );
    let (p, q) = (Scalar::of_ratio(3, 5), Scalar::of_ratio(2, 5));
    weighed(x, y, p);
    weighed(u, v, q);
    three_signals(x.times(p), u.times(q), zero, y.times(p), v.times(q), zero);
    unit_keeps_order(x.times(p).plus(u.times(q)), y.times(p).plus(v.times(q)));
}

/// What each sign of continuation counts for alone: a volatility one half above the long one for
/// three fifths, and less in proportion; twenty trades for two fifths, and less in proportion.
pub proof fn signs_of_continuation_count_for_their_weights(
    ratio: Scalar,
    calm: Scalar,
    intensity: Scalar,
    none: Scalar,
    excess: Scalar,
    double: Scalar,
    part: Scalar,
)
    requires
        ratio.finite(),
        Scalar::of_int(1).below(ratio),
        calm.at_most(Scalar::of_int(1)),
        order::nonnegative(intensity),
        none.zero(),
        excess.finite(),
        double.finite(),
        part.finite(),
        relations::rounds(excess, ratio.value() - scalar::one_unit(), 1),
        relations::rounds(double, 2 * excess.value(), 1),
        relations::rounds(part, intensity.value(), 20),
    ensures
        double.at_most(Scalar::of_int(1)) ==> relations::rounds(
            extractor::p_continue_of(ratio, none),
            double.value() * Scalar::of_ratio(3, 5).value(),
            scalar::one_unit(),
        ),
        Scalar::of_int(1).at_most(double) ==> extractor::p_continue_of(ratio, none).level(
            Scalar::of_ratio(3, 5),
        ),
        part.at_most(Scalar::of_int(1)) ==> relations::rounds(
            extractor::p_continue_of(calm, intensity),
            part.value() * Scalar::of_ratio(2, 5).value(),
            scalar::one_unit(),
        ),
        Scalar::of_int(1).at_most(part) ==> extractor::p_continue_of(calm, intensity).level(
            Scalar::of_ratio(2, 5),
        ),
{
    relations::zero_and_one();
    fractions(3, 5);
    fractions(2, 5);
    let one = Scalar::of_int(1);
    let zero = Scalar::of_int(0);
    let (p, q) = (Scalar::of_ratio(3, 5), Scalar::of_ratio(2, 5));
    beyond_one(ratio);
    let e = ratio.minus(one);
    relations::level_values(e, excess);
    doubled_signal(e, e);
    let d = e.times(Scalar::of_int(2));
    relations::level_values(d, double);
    order::no_negative_rank(intensity);
    part_signal(intensity, intensity, 20);
    part_signal(none.magnitude(), none.magnitude(), 20);
    relations::part_of(intensity, 20);
    let i = intensity.over(Scalar::of_int(20));
    relations::level_values(i, part);
    let (x, y) = (d.lesser(one), i.lesser(one));
    no_trades(none);
    let n = none.over(Scalar::of_int(20)).lesser(one);
    weighed(x, x, p);
    weighed(y, y, q);
    weighed(zero, zero, p);
    weighed(n.magnitude(), n.magnitude(), q);
    relations::nothing_of(q, n);
    order::times_is_near(x, p);
    order::times_is_near(y, q);
    relations::adding_nothing(x.times(p), n.times(q));
    within_one(x.times(p).plus(n.times(q)));
    relations::adding_nothing(y.times(q), zero.times(p));
    within_one(zero.times(p).plus(y.times(q)));
}

/// No trades are no part of twenty.
proof fn no_trades(none: Scalar)
    requires
        none.zero(),
    ensures
        none.over(Scalar::of_int(20)).lesser(Scalar::of_int(1)).zero(),
{
    relations::zero_and_one();
    assert(crate::rounding::units(0) == 0);
    relations::part_of(none, 20);
    order::near_itself(none, 20);
}

// ---------------------------------------------------------------------------------------------
// Trends.
// ---------------------------------------------------------------------------------------------

/// A trend is the more likely the more the book leans to the asking side.
pub proof fn trends_follow_the_book(session: Session, obi1: Scalar, obi2: Scalar)
    requires
        obi1.finite(),
        obi2.finite(),
        obi1.at_most(obi2),
    ensures
        extractor::p_trend_of(session, obi1).at_most(extractor::p_trend_of(session, obi2)),
{
    relations::zero_and_one();
    fractions(3, 10);
    let w = Scalar::of_ratio(3, 10);
    let base = Scalar::of_ratio(1, 2).plus(extractor::session_bias(session));
    fractions(1, 10);
    fractions(3, 20);
    fractions(1, 20);
    fractions(1, 2);
    order::proper_ratio(1, 2);
    extractor_laws::base_is_finite(Scalar::of_ratio(1, 2), extractor::session_bias(session));
    order::times_is_near(obi1, w);
    order::times_is_near(obi2, w);
    relations::scaling_keeps_order(obi1, obi2, w);
    extractor_laws::sum_with_finite(base, obi1.times(w));
    extractor_laws::sum_with_finite(base, obi2.times(w));
    relations::sums_keep_order(base, base, obi1.times(w), obi2.times(w));
    unit_keeps_order(base.plus(obi1.times(w)), base.plus(obi2.times(w)));
}

/// In an even book, trends are least likely in Tokyo, as likely as not in Sydney, and more likely
/// in London and New York: by a tenth and by three twentieths.
pub proof fn sessions_differ_in_their_trends(even: Scalar)
    requires
        even.zero(),
    ensures
        ({
            let half = Scalar::of_ratio(1, 2).value();
            let tokyo = extractor::p_trend_of(Session::Tokyo, even);
            let sydney = extractor::p_trend_of(Session::Sydney, even);
            let london = extractor::p_trend_of(Session::London, even);
            let ny = extractor::p_trend_of(Session::NewYork, even);
            &&& sydney.level(Scalar::of_ratio(1, 2))
            &&& relations::rounds(tokyo, half - Scalar::of_ratio(1, 20).value(), 1)
            &&& relations::rounds(london, half + Scalar::of_ratio(1, 10).value(), 1)
            &&& relations::rounds(ny, half + Scalar::of_ratio(3, 20).value(), 1)
        }),
{
    relations::zero_and_one();
    fractions(3, 10);
    let one = scalar::one_unit() as int;
    let w = Scalar::of_ratio(3, 10);
    relations::nothing_of(w, even);
    let e = even.times(w);
    let half = Scalar::of_ratio(1, 2);
    let full = Scalar::of_int(1);
    let zero = Scalar::of_int(0);
    relations::half_is_exact();
    order::proper_ratio(1, 20);
    order::proper_ratio(1, 10);
    order::proper_ratio(3, 20);
    let (a, b, c) = (Scalar::of_ratio(1, 20), Scalar::of_ratio(1, 10), Scalar::of_ratio(3, 20));
    order::order_is_order_of_values(zero, a);
    order::order_is_order_of_values(zero, b);
    order::order_is_order_of_values(zero, c);
    order::minus_is_near(half, a);
    order::plus_is_near(half, b);
    order::plus_is_near(half, c);
    order::near_itself(zero, 1);
    order::near_itself(full, 1);
    order::near_keeps_order(0, 1, half.value() - a.value(), 1);
    order::near_keeps_order(half.value() - a.value(), 1, full.value(), 1);
    order::near_keeps_order(0, 1, half.value() + b.value(), 1);
    order::near_keeps_order(half.value() + b.value(), 1, full.value(), 1);
    order::near_keeps_order(0, 1, half.value() + c.value(), 1);
    order::near_keeps_order(half.value() + c.value(), 1, full.value(), 1);
    relations::adding_nothing(half.minus(a), e);
    relations::adding_nothing(half.plus(b), e);
    relations::adding_nothing(half.plus(c), e);
    relations::adding_nothing(half, zero);
    relations::adding_nothing(half.plus(zero), e);
    order::proper_ratio(1, 2);
    within_one(half.minus(a).plus(e));
    within_one(half.plus(b).plus(e));
    within_one(half.plus(c).plus(e));
    within_one(half.plus(zero).plus(e));
}

/// In Sydney the lean of the book moves the likelihood of a trend by three tenths of itself.
pub proof fn the_book_moves_a_trend_by_its_weight(obi: Scalar, part: Scalar)
    requires
        obi.finite(),
        part.finite(),
        relations::rounds(
            part,
            obi.value() * Scalar::of_ratio(3, 10).value(),
            scalar::one_unit(),
        ),
    ensures
        ({
            let rank = order::near(Scalar::of_ratio(1, 2).value() + part.value(), 1);
            0 <= rank <= Scalar::of_int(1).rank() ==> extractor::p_trend_of(
                Session::Sydney,
                obi,
            ).rank() == rank
        }),
{
    relations::zero_and_one();
    fractions(3, 10);
    let w = Scalar::of_ratio(3, 10);
    let half = Scalar::of_ratio(1, 2);
    relations::half_is_exact();
    order::times_is_near(obi, w);
    relations::level_values(obi.times(w), part);
    relations::adding_nothing(half, Scalar::of_int(0));
    relations::level_values(half.plus(Scalar::of_int(0)), half);
    order::plus_is_near(half.plus(Scalar::of_int(0)), obi.times(w));
}

} // verus!
