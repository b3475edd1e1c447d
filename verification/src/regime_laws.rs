//! Laws of the regimes.

use crate::decision_laws;
use crate::extractor_laws;
use crate::linalg;
use crate::order;
use crate::regime;
use crate::rounding;
use crate::rounding::BINADE;
use crate::scalar;
use crate::scalar::Scalar;
use vstd::arithmetic::mul::*;
use vstd::arithmetic::power2::*;
use vstd::prelude::*;

verus! {

/// The entropy of probabilities is not negative: their logarithms are at most zero.
pub proof fn entropy_is_not_negative(p: Seq<Scalar>, logs: Seq<Scalar>, k: int)
    requires
        0 <= k <= p.len(),
        p.len() == logs.len(),
        forall|i: int| 0 <= i < p.len() ==> extractor_laws::is_probability(#[trigger] p[i]),
        forall|i: int|
            0 <= i < logs.len() ==> (#[trigger] logs[i]).finite() && logs[i].value() <= 0,
    ensures
        Scalar::of_int(0).at_most(regime::entropy_of(p, logs, k)),
    decreases k,
{
    order::int_is_exact(0);
    let zero = Scalar::of_int(0);
    order::no_negative_rank(zero);
    if k > 0 {
        entropy_is_not_negative(p, logs, k - 1);
        let before = regime::entropy_of(p, logs, k - 1);
        let x = p[k - 1];
        let l = logs[k - 1];
        order::int_is_exact(1);
        assert(x.finite());
        order::order_is_order_of_values(zero, x);
        order::order_is_order_of_values(x, Scalar::of_int(1));
        let part = x.times(l);
        order::times_is_near(x, l);
        let one = scalar::one_unit();
        order::near_itself(l, one);
        order::near_itself(zero, one);
        assert(l.value() * one * one <= x.value() * l.value() * one && x.value() * l.value() * one
            <= 0) by (nonlinear_arith)
            requires
                l.value() <= 0,
                0 <= x.value() <= one,
                one > 0,
        ;
        order::near_keeps_order(l.value() * one, one, x.value() * l.value(), one);
        order::near_keeps_order(x.value() * l.value(), one, 0, one);
        assert(part.finite());
        order::order_is_order_of_values(part, zero);
        if before.finite() {
            order::order_is_order_of_values(zero, before);
            order::minus_is_near(before, part);
            order::near_keeps_order(0, 1, before.value() - part.value(), 1);
            order::near_itself(zero, 1);
        } else {
            reveal(Scalar::plus);
        }
    }
}

/// Zero and a product with zero is zero.
proof fn nothing_added(x: Scalar, l: Scalar)
    requires
        x.finite(),
        l.finite(),
        l.value() == 0,
    ensures
        Scalar::of_int(0).plus(x.times(l)) == Scalar::of_int(0),
        Scalar::of_int(0).plus(l.times(x)) == Scalar::of_int(0),
        l.times(x).finite() && l.times(x).value() == 0,
{
    order::int_is_exact(0);
    order::no_negative_rank(Scalar::of_int(0));
    if l.mag() > 0 {
        rounding::units_increase(0, l.mag());
    }
    lemma_mul_basics(x.count() as int);
    lemma_mul_basics(scalar::one_unit() as int);
    rounding::round_mag_exact(0, scalar::one_unit());
    order::times_is_near(x, l);
    order::times_is_near(l, x);
    reveal(Scalar::times);
    reveal(Scalar::plus);
    reveal(Scalar::of_int);
}

/// A distribution does not diverge from itself: the ratios are one, and where their logarithms are
/// zero, so is the divergence.
pub proof fn nothing_diverges_from_itself(p: Seq<Scalar>, logs: Seq<Scalar>, k: int)
    requires
        0 <= k <= p.len(),
        p.len() == logs.len(),
        forall|i: int| 0 <= i < p.len() ==> (#[trigger] p[i]).finite() && p[i].value() > 0,
        forall|i: int|
            0 <= i < logs.len() ==> (#[trigger] logs[i]).finite() && logs[i].value() == 0,
    ensures
        forall|i: int|
            0 <= i < p.len() ==> #[trigger] p[i].over(regime::reference_at(p, Some(p), i))
                == Scalar::of_int(1),
        regime::divergence_of(p, Some(p), logs, k) == Scalar::of_int(0),
    decreases k,
{
    assert forall|i: int| 0 <= i < p.len() implies #[trigger] p[i].over(
        regime::reference_at(p, Some(p), i),
    ) == Scalar::of_int(1) by {
        assert(p[i].finite());
        order::int_is_exact(1);
        let full = Scalar::of_int(1);
        let one = scalar::one_unit();
        order::over_is_near(p[i], p[i]);
        order::near_itself(full, p[i].value() as nat);
        lemma_mul_is_commutative(one as int, p[i].value());
        let r = p[i].over(p[i]);
        assert(r.rank() == full.rank());
        order::no_negative_rank(full);
        if full.mag() == 0 {
            assert(full.value() == 0);
        }
    }
    if k > 0 {
        nothing_diverges_from_itself(p, logs, k - 1);
        assert(p[k - 1].finite() && logs[k - 1].finite());
        nothing_added(p[k - 1], logs[k - 1]);
    }
}

/// A sum of zeros is zero.
proof fn zeros_add_up_to_zero(posterior: Seq<Scalar>, decayed: Scalar, k: int)
    requires
        0 <= k <= posterior.len(),
        forall|i: int| 0 <= i < posterior.len() ==> (#[trigger] posterior[i]).finite(),
        decayed.finite(),
        decayed.value() == 0,
    ensures
        linalg::running_sum(regime::drift_parts(posterior, decayed), k) == Scalar::of_int(0),
    decreases k,
{
    if k > 0 {
        zeros_add_up_to_zero(posterior, decayed, k - 1);
        assert(posterior[k - 1].finite());
        nothing_added(posterior[k - 1], decayed);
    }
}

/// Without a drift there is none at the next step either.
pub proof fn nothing_drifts_from_rest(posterior: Seq<Scalar>, feature_dim: nat, coeff: Scalar)
    requires
        forall|i: int| 0 <= i < posterior.len() ==> (#[trigger] posterior[i]).finite(),
        coeff.finite(),
    ensures
        regime::next_drift(posterior, linalg::zeros(feature_dim), coeff) == linalg::zeros(
            feature_dim,
        ),
{
    order::int_is_exact(0);
    let zero = Scalar::of_int(0);
    let next = regime::next_drift(posterior, linalg::zeros(feature_dim), coeff);
    assert forall|d: int| 0 <= d < feature_dim implies next[d] == zero by {
        let decayed = coeff.times(zero);
        times_zero(coeff);
        zeros_add_up_to_zero(posterior, decayed, posterior.len() as int);
    }
    assert(next =~= linalg::zeros(feature_dim));
}

/// A product with zero is zero.
proof fn times_zero(x: Scalar)
    requires
        x.finite(),
    ensures
        x.times(Scalar::of_int(0)).finite(),
        x.times(Scalar::of_int(0)).value() == 0,
{
    order::int_is_exact(0);
    let zero = Scalar::of_int(0);
    order::no_negative_rank(zero);
    order::times_is_near(x, zero);
    lemma_mul_basics(x.value());
    order::near_itself(zero, scalar::one_unit());
    let r = x.times(zero);
    assert(r.rank() == 0);
    order::order_is_order_of_values(r, zero);
}

// ---------------------------------------------------------------------------------------------
// Shares.
// ---------------------------------------------------------------------------------------------

/// A greater score gives no smaller exponent, equal scores give equal ones, and no exponent is above
/// zero.
pub proof fn greater_scores_give_greater_exponents(scores: Seq<Scalar>, i: int, j: int)
    requires
        forall|k: int| 0 <= k < scores.len() ==> (#[trigger] scores[k]).finite(),
        0 <= i < scores.len(),
        0 <= j < scores.len(),
        scores[i].at_most(scores[j]),
    ensures
        regime::exponents_of(scores)[i].at_most(regime::exponents_of(scores)[j]),
        scores[i].level(scores[j]) ==> regime::exponents_of(scores)[i].level(
            regime::exponents_of(scores)[j],
        ),
        regime::exponents_of(scores)[j].at_most(Scalar::of_int(0)),
{
    let n = scores.len() as int;
    greatest_is_one_of_them(scores, n, i);
    greatest_is_one_of_them(scores, n, j);
    let top = regime::greatest_of(scores, n);
    let a = scores[i];
    let b = scores[j];
    order::int_is_exact(0);
    let zero = Scalar::of_int(0);
    order::no_negative_rank(zero);
    order::order_is_order_of_values(a, b);
    order::order_is_order_of_values(b, top);
    order::minus_is_near(a, top);
    order::minus_is_near(b, top);
    order::near_itself(zero, 1);
    order::near_keeps_order(a.value() - top.value(), 1, b.value() - top.value(), 1);
    order::near_keeps_order(b.value() - top.value(), 1, 0, 1);
}

/// The greatest of some finite scores is finite, and at least each of them.
proof fn greatest_is_one_of_them(scores: Seq<Scalar>, k: int, i: int)
    requires
        forall|j: int| 0 <= j < scores.len() ==> (#[trigger] scores[j]).finite(),
        0 <= i < k <= scores.len(),
    ensures
        regime::greatest_of(scores, k).finite(),
        scores[i].at_most(regime::greatest_of(scores, k)),
    decreases k,
{
    assert(scores[k - 1].finite());
    if k > 1 {
        let j = if i < k - 1 {
            i
        } else {
            k - 2
        };
        greatest_is_one_of_them(scores, k - 1, j);
    } else {
        assert(regime::greatest_of(scores, 0) == (Scalar { bits: regime::LOWEST_BITS }));
    }
}

/// Scores with a constant added.
pub open spec fn shifted(scores: Seq<Scalar>, constant: Scalar) -> Seq<Scalar> {
    Seq::new(scores.len(), |k: int| scores[k].plus(constant))
}

/// The greatest score moves with the scores.
proof fn greatest_moves_along(scores: Seq<Scalar>, constant: Scalar, k: int)
    requires
        0 < k <= scores.len(),
        forall|j: int| 0 <= j < scores.len() ==> (#[trigger] scores[j]).finite(),
        forall|j: int|
            #![trigger shifted(scores, constant)[j]]
            0 <= j < scores.len() ==> shifted(scores, constant)[j].finite() && shifted(
                scores,
                constant,
            )[j].value() == scores[j].value() + constant.value(),
    ensures
        regime::greatest_of(scores, k).finite(),
        regime::greatest_of(shifted(scores, constant), k).finite(),
        regime::greatest_of(shifted(scores, constant), k).value() == regime::greatest_of(
            scores,
            k,
        ).value() + constant.value(),
    decreases k,
{
    let moved = shifted(scores, constant);
    assert(scores[k - 1].finite() && moved[k - 1].finite());
    if k > 1 {
        greatest_moves_along(scores, constant, k - 1);
        order::order_is_order_of_values(regime::greatest_of(scores, k - 1), scores[k - 1]);
        order::order_is_order_of_values(regime::greatest_of(moved, k - 1), moved[k - 1]);
    } else {
        assert(regime::greatest_of(scores, 0) == (Scalar { bits: regime::LOWEST_BITS }));
        assert(regime::greatest_of(moved, 0) == (Scalar { bits: regime::LOWEST_BITS }));
    }
}

/// A constant that is added to every score leaves the exponents as they are, and with them the
/// posterior, where no addition is rounded.
pub proof fn shifted_scores_give_the_same_exponents(scores: Seq<Scalar>, constant: Scalar, i: int)
    requires
        forall|j: int| 0 <= j < scores.len() ==> (#[trigger] scores[j]).finite(),
        forall|j: int|
            #![trigger shifted(scores, constant)[j]]
            0 <= j < scores.len() ==> shifted(scores, constant)[j].finite() && shifted(
                scores,
                constant,
            )[j].value() == scores[j].value() + constant.value(),
        0 <= i < scores.len(),
    ensures
        regime::exponents_of(shifted(scores, constant))[i].level(regime::exponents_of(scores)[i]),
{
    let n = scores.len() as int;
    let moved = shifted(scores, constant);
    greatest_moves_along(scores, constant, n);
    assert(scores[i].finite() && moved[i].finite());
    order::minus_is_near(scores[i], regime::greatest_of(scores, n));
    order::minus_is_near(moved[i], regime::greatest_of(moved, n));
}

/// A greater part has no smaller share, and equal parts have equal shares.
pub proof fn greater_parts_have_greater_shares(parts: Seq<Scalar>, positive: int, i: int, j: int)
    requires
        regime::all_nonnegative(parts),
        0 <= positive < parts.len(),
        parts[positive].value() > 0,
        0 <= i < parts.len(),
        0 <= j < parts.len(),
        parts[i].at_most(parts[j]),
    ensures
        ({
            let s = regime::shares(parts, linalg::running_sum(parts, parts.len() as int));
            &&& s[i].at_most(s[j])
            &&& parts[i].level(parts[j]) ==> s[i].level(s[j])
        }),
{
    let n = parts.len() as int;
    let whole = linalg::running_sum(parts, n);
    let a = parts[i];
    let b = parts[j];
    assert(order::nonnegative(a) && order::nonnegative(b) && order::nonnegative(parts[positive]));
    regime::sum_is_at_least_each(parts, n, positive);
    order::order_is_order_of_values(a, b);
    if whole.finite() {
        order::order_is_order_of_values(parts[positive], whole);
        order::over_is_near(a, whole);
        order::over_is_near(b, whole);
        let one = scalar::one_unit() as int;
        let w = whole.value();
        assert(a.value() * one * w <= b.value() * one * w) by (nonlinear_arith)
            requires
                a.value() <= b.value(),
                one > 0,
                w > 0,
        ;
        order::near_keeps_order(a.value() * one, w as nat, b.value() * one, w as nat);
    } else {
        reveal(Scalar::over);
    }
}

/// A share is to one as its part is to the whole, as nearly as the format can hold it.
pub open spec fn in_proportion(share: Scalar, part: Scalar, whole: Scalar) -> bool {
    let exact = part.value() * scalar::one_unit();
    let off = order::off_by(share, exact, whole.value() as nat);
    share.finite() && (2 * off <= whole.value() || 2 * off * BINADE <= exact)
}

/// Every share is in proportion to its part: the shares keep the ratios of the parts.
pub proof fn shares_keep_ratios(parts: Seq<Scalar>, positive: int, i: int)
    requires
        regime::all_nonnegative(parts),
        0 <= positive < parts.len(),
        parts[positive].value() > 0,
        linalg::running_sum(parts, parts.len() as int).finite(),
        0 <= i < parts.len(),
    ensures
        ({
            let whole = linalg::running_sum(parts, parts.len() as int);
            in_proportion(regime::shares(parts, whole)[i], parts[i], whole)
        }),
{
    let n = parts.len() as int;
    let whole = linalg::running_sum(parts, n);
    let x = parts[i];
    let share = x.over(whole);
    regime::shares_are_probabilities(parts, positive, i);
    regime::sum_is_at_least_each(parts, n, positive);
    assert(order::nonnegative(x) && order::nonnegative(parts[positive]));
    order::order_is_order_of_values(parts[positive], whole);
    order::over_is_near(x, whole);
    order::int_is_exact(1);
    order::int_is_exact(0);
    order::no_negative_rank(Scalar::of_int(1));
    assert(share.finite());
    lemma_mul_nonnegative(x.value(), scalar::one_unit() as int);
    order::nearest_is_close(share, x.value() * scalar::one_unit(), whole.value() as nat);
}

/// The exact sum of the first `k` numbers, in units.
pub(crate) open spec fn exact_sum(parts: Seq<Scalar>, k: int) -> int
    decreases k,
{
    if k <= 0 {
        0
    } else {
        exact_sum(parts, k - 1) + parts[k - 1].value()
    }
}

pub(crate) open spec fn gap(a: int, b: int) -> int {
    if a >= b {
        a - b
    } else {
        b - a
    }
}

/// A sum is off from the exact one by little.
pub(crate) proof fn sum_is_close(parts: Seq<Scalar>, k: int)
    requires
        regime::all_nonnegative(parts),
        0 <= k <= parts.len(),
        linalg::running_sum(parts, k).finite(),
    ensures
        linalg::running_sum(parts, k).value() >= 0,
        exact_sum(parts, k) >= 0,
        gap(linalg::running_sum(parts, k).value(), exact_sum(parts, k)) * BINADE <= k
            * linalg::running_sum(parts, k).value(),
    decreases k,
{
    order::int_is_exact(0);
    let s = linalg::running_sum(parts, k);
    if k > 0 {
        let before = linalg::running_sum(parts, k - 1);
        let x = parts[k - 1];
        assert(order::nonnegative(x));
        assert(before.finite()) by {
            if !before.finite() {
                reveal(Scalar::plus);
            }
        }
        sum_is_close(parts, k - 1);
        order::plus_is_near(before, x);
        let v = before.value() + x.value();
        order::nearest_is_close(s, v, 1);
        order::near_itself(before, 1);
        order::near_keeps_order(before.value(), 1, v, 1);
        order::order_is_order_of_values(before, s);
        let e = gap(s.value(), v);
        assert(s.value() * 1 == s.value());
        assert(order::off_by(s, v, 1) == e);
        let b = BINADE as int;
        assert(e * b <= s.value()) by (nonlinear_arith)
            requires
                2 * e <= 1 || 2 * e * b <= v,
                v <= s.value() + e,
                e >= 0,
                s.value() >= 0,
                b >= 1,
        ;
        let g0 = gap(before.value(), exact_sum(parts, k - 1));
        let g = gap(s.value(), exact_sum(parts, k));
        assert(g <= g0 + e);
        assert(g * b <= k * s.value()) by (nonlinear_arith)
            requires
                g <= g0 + e,
                g0 * b <= (k - 1) * before.value(),
                e * b <= s.value(),
                0 <= before.value() <= s.value(),
                k >= 1,
                b >= 1,
        ;
    }
}

/// The exact sum of shares is off from the share of the exact sum by little.
proof fn shares_add_up(parts: Seq<Scalar>, whole: Scalar, k: int)
    requires
        regime::all_nonnegative(parts),
        0 <= k <= parts.len(),
        forall|i: int|
            0 <= i < parts.len() ==> in_proportion(
                #[trigger] regime::shares(parts, whole)[i],
                parts[i],
                whole,
            ),
        whole.value() > 0,
    ensures
        gap(
            exact_sum(regime::shares(parts, whole), k) * whole.value(),
            exact_sum(parts, k) * scalar::one_unit(),
        ) * BINADE <= k * BINADE * whole.value() + exact_sum(parts, k) * scalar::one_unit(),
    decreases k,
{
    let s = regime::shares(parts, whole);
    let w = whole.value();
    let one = scalar::one_unit() as int;
    let b = BINADE as int;
    if k > 0 {
        shares_add_up(parts, whole, k - 1);
        let x = parts[k - 1];
        let y = s[k - 1];
        assert(order::nonnegative(x));
        assert(in_proportion(y, x, whole));
        vstd::arithmetic::power2::lemma_pow2_pos(scalar::UNIT_EXPONENT as nat);
        let q0 = exact_sum(s, k - 1);
        let e0 = exact_sum(parts, k - 1);
        let off = gap(y.value() * w, x.value() * one);
        lemma_mul_nonnegative(x.value(), one);
        assert(off * b <= b * w + x.value() * one) by (nonlinear_arith)
            requires
                2 * off <= w || 2 * off * b <= x.value() * one,
                off >= 0,
                w > 0,
                b >= 1,
                x.value() * one >= 0,
        ;
        let g0 = gap(q0 * w, e0 * one);
        let q = q0 + y.value();
        let e = e0 + x.value();
        assert(q * w == q0 * w + y.value() * w) by (nonlinear_arith)
            requires
                q == q0 + y.value(),
        ;
        assert(e * one == e0 * one + x.value() * one) by (nonlinear_arith)
            requires
                e == e0 + x.value(),
        ;
        let g = gap(q * w, e * one);
        assert(g <= g0 + off);
        assert(g * b <= g0 * b + off * b) by (nonlinear_arith)
            requires
                g <= g0 + off,
                b >= 1,
        ;
        assert(k * b * w == (k - 1) * b * w + b * w) by (nonlinear_arith);
    } else {
        assert(0 * w == 0 && 0 * one == 0 && 0 * b * w == 0);
    }
}

/// Sums of a few shares are finite.
proof fn sums_of_shares_are_finite(s: Seq<Scalar>, k: int)
    requires
        0 <= k <= s.len(),
        s.len() <= regime::MAX_REGIMES,
        forall|i: int| 0 <= i < s.len() ==> extractor_laws::is_probability(#[trigger] s[i]),
    ensures
        linalg::running_sum(s, k).finite(),
        0 <= linalg::running_sum(s, k).rank() <= Scalar::of_int(k as nat).rank(),
    decreases k,
{
    order::int_is_exact(0);
    order::int_is_exact(1);
    order::int_is_exact(k as nat);
    order::no_negative_rank(Scalar::of_int(0));
    if k > 0 {
        sums_of_shares_are_finite(s, k - 1);
        order::int_is_exact((k - 1) as nat);
        let before = linalg::running_sum(s, k - 1);
        let x = s[k - 1];
        let zero = Scalar::of_int(0);
        let most = Scalar::of_int(k as nat);
        assert(extractor_laws::is_probability(x));
        assert(x.finite());
        order::order_is_order_of_values(zero, x);
        order::order_is_order_of_values(x, Scalar::of_int(1));
        order::order_is_order_of_values(zero, before);
        order::order_is_order_of_values(before, Scalar::of_int((k - 1) as nat));
        order::plus_is_near(before, x);
        let v = before.value() + x.value();
        let one = scalar::one_unit() as int;
        assert((k - 1) * one + one == k * one) by (nonlinear_arith);
        order::near_itself(zero, 1);
        order::near_itself(most, 1);
        order::near_keeps_order(0, 1, v, 1);
        order::near_keeps_order(v, 1, most.value(), 1);
    }
}

/// The arithmetic behind `shares_sum_to_one`.
proof fn close_to_one(n: int, s: int, e: int, q: int, t: int, one: int, b: int)
    requires
        0 < n <= 16,
        b == BINADE,
        s > 0,
        e >= 0,
        t >= 0,
        16 * b <= one,
        gap(s, e) * b <= n * s,
        gap(q * s, e * one) * b <= n * b * s + e * one,
        gap(t, q) * b <= n * t,
    ensures
        gap(t, one) * 10_000_000_000 <= one,
{
    let g = gap(s, e);
    lemma_mul_inequality(n, b, s);
    lemma_mul_is_commutative(s, b);
    lemma_mul_inequality_converse(g, s, b);
    assert(e <= 2 * s);
    // How far the shares add up from one.
    let u = gap(q, one);
    let h = gap(q * s, e * one);
    assert(u * s <= h + g * one) by {
        lemma_mul_inequality(e - s, g, one);
        lemma_mul_inequality(s - e, g, one);
        assert((e - s) * one == e * one - s * one && (s - e) * one == s * one - e * one)
            by (nonlinear_arith);
        assert((q - one) * s == q * s - s * one && (one - q) * s == s * one - q * s)
            by (nonlinear_arith);
    }
    let most = n * b + (n + 2) * one;
    assert((u * b) * s <= most * s) by {
        lemma_mul_inequality(u * s, h + g * one, b);
        lemma_mul_inequality(g * b, n * s, one);
        lemma_mul_inequality(e, 2 * s, one);
        assert((u * s) * b == (u * b) * s) by (nonlinear_arith);
        assert((h + g * one) * b == h * b + (g * b) * one) by (nonlinear_arith);
        assert(most * s == n * b * s + (n * s) * one + (2 * s) * one) by (nonlinear_arith)
            requires
                most == n * b + (n + 2) * one,
        ;
    }
    lemma_mul_inequality_converse(u * b, most, s);
    lemma_mul_inequality(n, 16, b);
    lemma_mul_inequality(n + 2, 18, one);
    assert(u * b <= 19 * one);
    lemma_mul_inequality(19, b, one);
    lemma_mul_is_commutative(one, b);
    lemma_mul_inequality_converse(u, one, b);
    assert(q <= 2 * one);
    // How far the rounded sum is from the exact one.
    let z = gap(t, q);
    lemma_mul_inequality(n, 16, t);
    lemma_mul_inequality(32, b, z);
    lemma_mul_is_commutative(z, b);
    assert(2 * z <= t);
    assert(t <= 4 * one);
    let d = gap(t, one);
    assert(d <= z + u);
    lemma_mul_inequality(d, z + u, b);
    assert((z + u) * b == z * b + u * b) by (nonlinear_arith);
    assert(d * b <= 83 * one);
    lemma_mul_inequality(830_000_000_000, b, d);
    lemma_mul_is_commutative(d, b);
}

/// Shares sum to one: their sum is off by at most 1e-10.
///
/// Parts whose sum overflows are left out: all their shares are zero.
pub proof fn shares_sum_to_one(parts: Seq<Scalar>, positive: int)
    requires
        regime::all_nonnegative(parts),
        parts.len() <= regime::MAX_REGIMES,
        0 <= positive < parts.len(),
        parts[positive].value() > 0,
        linalg::running_sum(parts, parts.len() as int).finite(),
    ensures
        ({
            let s = regime::shares(parts, linalg::running_sum(parts, parts.len() as int));
            let sum = linalg::running_sum(s, s.len() as int);
            let one = Scalar::of_int(1);
            &&& sum.finite()
            &&& sum.minus(one).magnitude().at_most(Scalar::of_ratio(1, 10_000_000_000))
            &&& sum.minus(one).magnitude().below(Scalar::of_ratio(1, 1_000_000))
        }),
{
    let n = parts.len() as int;
    let whole = linalg::running_sum(parts, n);
    let s = regime::shares(parts, whole);
    let one = scalar::one_unit() as int;
    regime::sum_is_at_least_each(parts, n, positive);
    assert(order::nonnegative(parts[positive]));
    order::order_is_order_of_values(parts[positive], whole);
    assert forall|i: int| 0 <= i < n implies in_proportion(#[trigger] s[i], parts[i], whole) by {
        shares_keep_ratios(parts, positive, i);
    }
    order::int_is_exact(0);
    assert forall|i: int| 0 <= i < n implies extractor_laws::is_probability(#[trigger] s[i]) by {
        regime::shares_are_probabilities(parts, positive, i);
    }
    assert forall|i: int| 0 <= i < n implies order::nonnegative(#[trigger] s[i]) by {
        assert(extractor_laws::is_probability(s[i]));
        assert(in_proportion(s[i], parts[i], whole));
        order::order_is_order_of_values(Scalar::of_int(0), s[i]);
    }
    sum_is_close(parts, n);
    shares_add_up(parts, whole, n);
    sums_of_shares_are_finite(s, n);
    sum_is_close(s, n);
    let sum = linalg::running_sum(s, n);
    lemma2_to64();
    lemma2_to64_rest();
    lemma_pow2_strictly_increases(60, scalar::UNIT_EXPONENT as nat);
    assert(pow2(60) == 0x1000_0000_0000_0000);
    close_to_one(
        n,
        whole.value(),
        exact_sum(parts, n),
        exact_sum(s, n),
        sum.value(),
        one,
        BINADE as int,
    );
    near_one(sum);
}

/// A sum that is near one has a difference to one that is as small.
proof fn near_one(sum: Scalar)
    requires
        sum.finite(),
        gap(sum.value(), scalar::one_unit() as int) * 10_000_000_000 <= scalar::one_unit(),
    ensures
        sum.minus(Scalar::of_int(1)).magnitude().at_most(Scalar::of_ratio(1, 10_000_000_000)),
        sum.minus(Scalar::of_int(1)).magnitude().below(Scalar::of_ratio(1, 1_000_000)),
{
    let full = Scalar::of_int(1);
    let one = scalar::one_unit() as int;
    order::int_is_exact(1);
    let d = gap(sum.value(), one);
    let diff = sum.minus(full);
    order::minus_is_near(sum, full);
    let v = sum.value() - one;
    rounding::round_mag_exact(0, 1);
    // The magnitude is nearest to the magnitude of the difference.
    assert(diff.magnitude().rank() == order::near(d, 1)) by {
        order::negated_value(diff);
    }
    order::int_is_exact(1_000_000);
    order::int_is_exact(10_000_000_000);
    extractor_laws::fraction(1, 1_000_000);
    extractor_laws::fraction(1, 10_000_000_000);
    let small = Scalar::of_int(10_000_000_000);
    let large = Scalar::of_int(1_000_000);
    lemma_mul_strictly_positive(10_000_000_000, one);
    lemma_mul_strictly_positive(1_000_000, one);
    order::over_is_near(full, small);
    order::over_is_near(full, large);
    assert(d * (10_000_000_000 * one) <= (one * one) * 1) by (nonlinear_arith)
        requires
            d * 10_000_000_000 <= one,
            one > 0,
    ;
    order::near_keeps_order(d, 1, one * one, small.value() as nat);
    // A power of two lies strictly between.
    let m = decision_laws::short_numbers_are_exact(1, 1050);
    let h = pow2(1050) as int;
    lemma_pow2_adds(1050, 24);
    lemma2_to64();
    assert(pow2(24) == 0x100_0000);
    assert(one == h * 0x100_0000);
    lemma_pow2_pos(1050);
    if m >= full.mag() {
        if m > full.mag() {
            rounding::units_increase(full.mag(), m);
        }
        assert(false) by (nonlinear_arith)
            requires
                h > 0,
                one == h * 0x100_0000,
                h >= one,
        ;
    }
    let power = Scalar { bits: m as u64 };
    order::near_itself(power, 1);
    let m2 = decision_laws::short_numbers_are_exact(1, 1051);
    lemma_pow2_unfold(1051);
    if m2 <= m {
        if m2 < m {
            rounding::units_increase(m2, m);
        }
    }
    if m2 >= full.mag() {
        if m2 > full.mag() {
            rounding::units_increase(full.mag(), m2);
        }
        assert(false) by (nonlinear_arith)
            requires
                h > 0,
                one == h * 0x100_0000,
                2 * h >= one,
        ;
    }
    let next = Scalar { bits: m2 as u64 };
    order::near_itself(next, 1);
    assert(d * 1 <= h * 1) by (nonlinear_arith)
        requires
            d * 10_000_000_000 <= one,
            one == h * 0x100_0000,
            h > 0,
    ;
    order::near_keeps_order(d, 1, h, 1);
    assert((2 * h) * (1_000_000 * one) <= (one * one) * 1) by (nonlinear_arith)
        requires
            one == h * 0x100_0000,
            h > 0,
    ;
    order::near_keeps_order(2 * h, 1, one * one, large.value() as nat);
}

/// An update makes a posterior of what it is given: it is off from a sum of one by less than 1e-6,
/// keeps the order of its entries, and another update with it changes nothing.
///
/// Entries whose sum overflows are left out: all their shares are zero.
pub proof fn an_update_normalizes(posterior: Seq<Scalar>, positive: int, i: int, j: int)
    requires
        regime::all_nonnegative(posterior),
        posterior.len() <= regime::MAX_REGIMES,
        0 <= positive < posterior.len(),
        posterior[positive].value() > 0,
        linalg::running_sum(posterior, posterior.len() as int).finite(),
        0 <= i < posterior.len(),
        0 <= j < posterior.len(),
        posterior[i].at_most(posterior[j]),
    ensures
        ({
            let p = regime::normal(posterior);
            &&& linalg::running_sum(p, p.len() as int).minus(Scalar::of_int(1)).magnitude().below(
                Scalar::of_ratio(1, 1_000_000),
            )
            &&& regime::normal(p) == p
            &&& p[i].at_most(p[j])
            &&& p == posterior || in_proportion(
                p[i],
                posterior[i],
                linalg::running_sum(posterior, posterior.len() as int),
            )
        }),
{
    shares_sum_to_one(posterior, positive);
    greater_parts_have_greater_shares(posterior, positive, i, j);
    shares_keep_ratios(posterior, positive, i);
}

} // verus!
