//! What entropy and divergence have to do with each other.

use crate::linalg;
use crate::order;
use crate::regime;
use crate::regime_laws;
use crate::rounding;
use crate::rounding::BINADE;
use crate::scalar;
use crate::scalar::Scalar;
use vstd::arithmetic::mul::*;
use vstd::arithmetic::power2::*;
use vstd::prelude::*;

verus! {

/// A unit is far below one.
proof fn one_is_large()
    ensures
        scalar::one_unit() >= 16 * BINADE,
        scalar::one_unit() > 0,
{
    lemma2_to64();
    lemma2_to64_rest();
    lemma_pow2_strictly_increases(60, scalar::UNIT_EXPONENT as nat);
    assert(pow2(60) == 0x1000_0000_0000_0000);
}

/// The number nearest to a ratio is close to it, also where the ratio is negative: it errs by at
/// most one part in `BINADE`, or by one unit.
proof fn nearest_is_close(r: Scalar, v: int, d: nat)
    requires
        d > 0,
        r.finite(),
        r.rank() == order::near(v, d),
    ensures
        2 * regime_laws::gap(r.value() * d, v) <= d || 2 * regime_laws::gap(r.value() * d, v)
            * BINADE <= regime_laws::gap(v, 0),
{
    if v >= 0 {
        order::nearest_is_close(r, v, d);
    } else {
        let s = r.negated();
        order::negated_value(r);
        rounding::round_mag_exact(0, d);
        assert(s.rank() == order::near(-v, d));
        order::nearest_is_close(s, -v, d);
        assert((-r.value()) * d == -(r.value() * d)) by (nonlinear_arith);
    }
}

/// A number whose nearest lies within small integers is finite.
proof fn small_is_finite(r: Scalar, v: int)
    requires
        !r.nan(),
        r.rank() == order::near(v, 1),
        -(4096 * scalar::one_unit()) <= v <= 4096 * scalar::one_unit(),
    ensures
        r.finite(),
{
    order::int_is_exact(4096);
    let most = Scalar::of_int(4096);
    order::negated_value(most);
    order::near_itself(most, 1);
    order::near_itself(most.negated(), 1);
    order::near_keeps_order(v, 1, most.value(), 1);
    order::near_keeps_order(-most.value(), 1, v, 1);
}

/// A product of a number up to two and one up to sixty-four is close to the exact product.
proof fn product_is_close(x: Scalar, l: Scalar)
    requires
        x.finite(),
        l.finite(),
        0 <= x.value() <= 2 * scalar::one_unit(),
        regime_laws::gap(l.value(), 0) <= 64 * scalar::one_unit(),
    ensures
        x.times(l).finite(),
        regime_laws::gap(x.value() * l.value(), 0) <= 128 * (scalar::one_unit()
            * scalar::one_unit()),
        regime_laws::gap(x.times(l).value() * scalar::one_unit(), x.value() * l.value()) * BINADE
            <= 129 * (scalar::one_unit() * scalar::one_unit()),
{
    one_is_large();
    let one = scalar::one_unit() as int;
    let square = one * one;
    let v = x.value() * l.value();
    let t = x.times(l);
    assert(regime_laws::gap(v, 0) <= 128 * square) by (nonlinear_arith)
        requires
            0 <= x.value() <= 2 * one,
            -(64 * one) <= l.value() <= 64 * one,
            square == one * one,
            v == x.value() * l.value(),
            regime_laws::gap(v, 0) == if v >= 0 {
                v
            } else {
                -v
            },
            one > 0,
    ;
    order::times_is_near(x, l);
    order::int_is_exact(128);
    let most = Scalar::of_int(128);
    order::negated_value(most);
    order::near_itself(most, one as nat);
    order::near_itself(most.negated(), one as nat);
    assert(most.value() * one == 128 * square) by (nonlinear_arith)
        requires
            most.value() == 128 * one,
            square == one * one,
    ;
    assert((-most.value()) * one == -(128 * square)) by (nonlinear_arith)
        requires
            most.value() * one == 128 * square,
    ;
    lemma_mul_inequality(v, 128 * square, one);
    lemma_mul_inequality(-(128 * square), v, one);
    order::near_keeps_order(v, one as nat, most.value() * one, one as nat);
    order::near_keeps_order((-most.value()) * one, one as nat, v, one as nat);
    assert(t.finite());
    nearest_is_close(t, v, one as nat);
    let off = regime_laws::gap(t.value() * one, v);
    let b = BINADE as int;
    if 2 * off <= one {
        lemma_mul_inequality(off, one, b);
        lemma_mul_inequality(b, one, one);
        lemma_mul_is_commutative(one, b);
    }
}

/// A running sum is close to the exact one, after `k` products.
spec fn keeps_close(total: Scalar, exact: int, k: int) -> bool {
    let one = scalar::one_unit() as int;
    &&& total.finite()
    &&& regime_laws::gap(exact, 0) <= k * 128 * (one * one)
    &&& regime_laws::gap(total.value() * one, exact) * BINADE <= k * 4400 * (one * one)
}

/// What is close to a multiple of a square is a multiple of its root.
proof fn bounded_by_root(x: int, one: int, m: int)
    requires
        one > 0,
        regime_laws::gap(x * one, 0) <= m * (one * one),
    ensures
        regime_laws::gap(x, 0) <= m * one,
{
    assert(m * (one * one) == (m * one) * one) by (nonlinear_arith);
    assert((-(m * one)) * one == -((m * one) * one)) by (nonlinear_arith);
    lemma_mul_inequality_converse(x, m * one, one);
    lemma_mul_inequality_converse(-(m * one), x, one);
}

/// Adding one more product, or taking it off, keeps a running sum close.
proof fn one_more_product(total: Scalar, exact: int, k: int, x: Scalar, l: Scalar)
    requires
        0 <= k < 16,
        keeps_close(total, exact, k),
        x.finite(),
        l.finite(),
        0 <= x.value() <= 2 * scalar::one_unit(),
        regime_laws::gap(l.value(), 0) <= 64 * scalar::one_unit(),
    ensures
        keeps_close(total.plus(x.times(l)), exact + x.value() * l.value(), k + 1),
        keeps_close(total.minus(x.times(l)), exact - x.value() * l.value(), k + 1),
{
    one_is_large();
    product_is_close(x, l);
    let one = scalar::one_unit() as int;
    let square = one * one;
    let b = BINADE as int;
    let t = x.times(l);
    let w = x.value() * l.value();
    lemma_mul_strictly_positive(one, one);
    // The running sum and the product are small.
    let e0 = regime_laws::gap(total.value() * one, exact);
    let e1 = regime_laws::gap(t.value() * one, w);
    assert(k * 4400 * square <= 70_400 * square) by {
        lemma_mul_inequality(k * 4400, 70_400, square);
    }
    assert(k * 128 * square <= 1_920 * square) by {
        lemma_mul_inequality(k * 128, 1_920, square);
    }
    lemma_mul_inequality(70_400, b, square);
    lemma_mul_is_commutative(square, b);
    lemma_mul_inequality_converse(e0, square, b);
    lemma_mul_inequality(129, b, square);
    lemma_mul_inequality_converse(e1, square, b);
    bounded_by_root(total.value(), one, 1_921);
    bounded_by_root(t.value(), one, 129);
    order::plus_is_near(total, t);
    order::minus_is_near(total, t);
    let up = total.value() + t.value();
    let down = total.value() - t.value();
    small_is_finite(total.plus(t), up);
    small_is_finite(total.minus(t), down);
    nearest_is_close(total.plus(t), up, 1);
    nearest_is_close(total.minus(t), down, 1);
    ends_close(total, t, total.plus(t), up, exact, w, k, 1);
    ends_close(total, t, total.minus(t), down, exact, w, k, -1);
    assert((-1) * w == -w);
}

/// The end of `one_more_product`, with the product added or taken off.
proof fn ends_close(
    total: Scalar,
    t: Scalar,
    after: Scalar,
    v: int,
    exact: int,
    w: int,
    k: int,
    sign: int,
)
    requires
        sign == 1 || sign == -1,
        0 <= k < 16,
        keeps_close(total, exact, k),
        v == total.value() + sign * t.value(),
        regime_laws::gap(v, 0) <= 4096 * scalar::one_unit(),
        after.finite(),
        2 * regime_laws::gap(after.value() * 1, v) <= 1 || 2 * regime_laws::gap(
            after.value() * 1,
            v,
        ) * BINADE <= regime_laws::gap(v, 0),
        regime_laws::gap(w, 0) <= 128 * (scalar::one_unit() * scalar::one_unit()),
        regime_laws::gap(t.value() * scalar::one_unit(), w) * BINADE <= 129 * (scalar::one_unit()
            * scalar::one_unit()),
    ensures
        keeps_close(after, exact + sign * w, k + 1),
{
    one_is_large();
    let one = scalar::one_unit() as int;
    let square = one * one;
    let b = BINADE as int;
    let e0 = regime_laws::gap(total.value() * one, exact);
    let e1 = regime_laws::gap(t.value() * one, w);
    let e2 = regime_laws::gap(after.value(), v);
    assert(after.value() * 1 == after.value());
    assert(e2 * b <= 4096 * one) by {
        if 2 * e2 <= 1 {
            assert(e2 == 0);
        } else {
            lemma_mul_is_associative(2, e2, b);
        }
    }
    assert(after.value() * one == (after.value() - v) * one + total.value() * one + sign * (t.value()
        * one)) by (nonlinear_arith)
        requires
            v == total.value() + sign * t.value(),
    ;
    let off = regime_laws::gap(after.value() * one, exact + sign * w);
    assert(regime_laws::gap((after.value() - v) * one, 0) == e2 * one) by (nonlinear_arith)
        requires
            e2 == (if after.value() >= v {
                after.value() - v
            } else {
                v - after.value()
            }),
            one > 0,
            regime_laws::gap((after.value() - v) * one, 0) == (if (after.value() - v) * one >= 0 {
                (after.value() - v) * one
            } else {
                -((after.value() - v) * one)
            }),
    ;
    let s = t.value() * one;
    assert(sign == 1 ==> sign * s == s && sign * w == w) by (nonlinear_arith);
    assert(sign == -1 ==> sign * s == -s && sign * w == -w) by (nonlinear_arith);
    assert(off <= e2 * one + e0 + e1);
    lemma_mul_inequality(off, e2 * one + e0 + e1, b);
    assert((e2 * one + e0 + e1) * b == (e2 * b) * one + e0 * b + e1 * b) by (nonlinear_arith);
    lemma_mul_inequality(e2 * b, 4096 * one, one);
    assert((4096 * one) * one == 4096 * square) by (nonlinear_arith)
        requires
            square == one * one,
    ;
    assert((k + 1) * 4400 * square == k * 4400 * square + 4400 * square) by (nonlinear_arith);
    assert((k + 1) * 128 * square == k * 128 * square + 128 * square) by (nonlinear_arith);
    lemma_mul_strictly_positive(one, one);
}

/// A probability counts in entropy and divergence.
spec fn counted(p: Seq<Scalar>, i: int) -> bool {
    regime::least_probability().below(p[i])
}

/// The exact sum of the probabilities that count, each times its logarithm.
spec fn weighed(p: Seq<Scalar>, logs: Seq<Scalar>, k: int) -> int
    decreases k,
{
    if k <= 0 {
        0
    } else {
        weighed(p, logs, k - 1) + if counted(p, k - 1) {
            p[k - 1].value() * logs[k - 1].value()
        } else {
            0
        }
    }
}

/// The exact sum of the probabilities that count.
spec fn counted_sum(p: Seq<Scalar>, k: int) -> int
    decreases k,
{
    if k <= 0 {
        0
    } else {
        counted_sum(p, k - 1) + if counted(p, k - 1) {
            p[k - 1].value()
        } else {
            0
        }
    }
}

/// Numbers from zero to two.
spec fn small_parts(p: Seq<Scalar>) -> bool {
    forall|i: int|
        0 <= i < p.len() ==> (#[trigger] p[i]).finite() && 0 <= p[i].value() <= 2
            * scalar::one_unit()
}

/// Logarithms of magnitude at most 64.
pub open spec fn moderate(logs: Seq<Scalar>) -> bool {
    forall|i: int|
        0 <= i < logs.len() ==> (#[trigger] logs[i]).finite() && logs[i].magnitude().at_most(
            Scalar::of_int(64),
        )
}

proof fn moderate_value(l: Scalar)
    requires
        l.finite(),
        l.magnitude().at_most(Scalar::of_int(64)),
    ensures
        regime_laws::gap(l.value(), 0) <= 64 * scalar::one_unit(),
{
    order::int_is_exact(64);
    order::order_is_order_of_values(l.magnitude(), Scalar::of_int(64));
}

/// What is close after fewer products counts as close after more.
proof fn stays_close(total: Scalar, exact: int, k: int)
    requires
        0 <= k,
        keeps_close(total, exact, k),
    ensures
        keeps_close(total, exact, k + 1),
{
    let square = scalar::one_unit() as int * scalar::one_unit() as int;
    assert(square >= 0) by (nonlinear_arith)
        requires
            square == scalar::one_unit() as int * scalar::one_unit() as int,
    ;
    assert((k + 1) * 4400 * square == k * 4400 * square + 4400 * square) by (nonlinear_arith);
    assert((k + 1) * 128 * square == k * 128 * square + 128 * square) by (nonlinear_arith);
}

/// Entropy and divergence are close to what they are in exact arithmetic.
proof fn sums_are_close(p: Seq<Scalar>, entropy_logs: Seq<Scalar>, divergence_logs: Seq<Scalar>, k: int)
    requires
        p.len() <= 16,
        entropy_logs.len() == p.len(),
        divergence_logs.len() == p.len(),
        small_parts(p),
        moderate(entropy_logs),
        moderate(divergence_logs),
        0 <= k <= p.len(),
    ensures
        keeps_close(regime::entropy_of(p, entropy_logs, k), -weighed(p, entropy_logs, k), k),
        keeps_close(
            regime::divergence_of(p, None, divergence_logs, k),
            weighed(p, divergence_logs, k),
            k,
        ),
    decreases k,
{
    if k == 0 {
        order::int_is_exact(0);
        assert(0 * scalar::one_unit() == 0);
        assert(Scalar::of_int(0).value() * scalar::one_unit() == 0);
    } else {
        sums_are_close(p, entropy_logs, divergence_logs, k - 1);
        let h = regime::entropy_of(p, entropy_logs, k - 1);
        let d = regime::divergence_of(p, None, divergence_logs, k - 1);
        if counted(p, k - 1) {
            assert(p[k - 1].finite());
            assert(entropy_logs[k - 1].finite() && divergence_logs[k - 1].finite());
            moderate_value(entropy_logs[k - 1]);
            moderate_value(divergence_logs[k - 1]);
            one_more_product(h, -weighed(p, entropy_logs, k - 1), k - 1, p[k - 1], entropy_logs[k - 1]);
            one_more_product(
                d,
                weighed(p, divergence_logs, k - 1),
                k - 1,
                p[k - 1],
                divergence_logs[k - 1],
            );
        } else {
            stays_close(h, -weighed(p, entropy_logs, k - 1), k - 1);
            stays_close(d, weighed(p, divergence_logs, k - 1), k - 1);
        }
    }
}

/// The least probability that counts is at most 2e-12.
proof fn least_is_small(x: Scalar)
    requires
        order::nonnegative(x),
        !regime::least_probability().below(x),
    ensures
        x.value() * 1_000_000_000_000 <= 2 * scalar::one_unit(),
{
    one_is_large();
    let one = scalar::one_unit() as int;
    let square = one * one;
    let least = regime::least_probability();
    order::int_is_exact(1);
    order::int_is_exact(1_000_000_000_000);
    order::proper_ratio(1, 1_000_000_000_000);
    let a = Scalar::of_int(1);
    let b = Scalar::of_int(1_000_000_000_000);
    lemma_mul_strictly_positive(1_000_000_000_000, one);
    order::over_is_near(a, b);
    order::order_is_order_of_values(least, x);
    let d = b.value();
    lemma_mul_strictly_positive(one, one);
    order::nearest_is_close(least, square, d as nat);
    let y = least.value();
    let off = order::off_by(least, square, d as nat);
    assert(off <= square) by {
        lemma_mul_inequality(1_000_000_000_000, one, one);
        if 2 * off <= d {
        } else {
            lemma_mul_inequality(1, BINADE as int, 2 * off);
            lemma_mul_is_commutative(2 * off, BINADE as int);
        }
    }
    assert(y * d == (y * 1_000_000_000_000) * one) by (nonlinear_arith)
        requires
            d == 1_000_000_000_000 * one,
    ;
    assert((2 * one) * one == 2 * square) by (nonlinear_arith)
        requires
            square == one * one,
    ;
    lemma_mul_inequality_converse(y * 1_000_000_000_000, 2 * one, one);
}

/// What does not count is little.
proof fn little_is_left_out(p: Seq<Scalar>, k: int)
    requires
        0 <= k <= p.len(),
        regime::all_nonnegative(p),
    ensures
        0 <= counted_sum(p, k) <= regime_laws::exact_sum(p, k),
        (regime_laws::exact_sum(p, k) - counted_sum(p, k)) * 1_000_000_000_000 <= k * (2
            * scalar::one_unit()),
    decreases k,
{
    if k > 0 {
        little_is_left_out(p, k - 1);
        assert(order::nonnegative(p[k - 1]));
        let two = 2 * scalar::one_unit() as int;
        assert(k * two == (k - 1) * two + two) by (nonlinear_arith);
        if !counted(p, k - 1) {
            least_is_small(p[k - 1]);
        }
    }
}

/// The two logarithms of each probability that counts differ by `log_n`, but for 1e-9.
pub open spec fn logs_differ_by(
    p: Seq<Scalar>,
    entropy_logs: Seq<Scalar>,
    divergence_logs: Seq<Scalar>,
    log_n: Scalar,
) -> bool {
    forall|i: int|
        #![trigger p[i]]
        0 <= i < p.len() && regime::least_probability().below(p[i]) ==> {
            let off = divergence_logs[i].value() - entropy_logs[i].value() - log_n.value();
            -(scalar::one_unit() as int) <= off * 1_000_000_000 <= scalar::one_unit()
        }
}

/// The exact sums differ by the share that counts, times `log_n`, but for little.
proof fn weighed_differ(
    p: Seq<Scalar>,
    entropy_logs: Seq<Scalar>,
    divergence_logs: Seq<Scalar>,
    log_n: Scalar,
    k: int,
)
    requires
        0 <= k <= p.len(),
        regime::all_nonnegative(p),
        logs_differ_by(p, entropy_logs, divergence_logs, log_n),
    ensures
        regime_laws::gap(
            weighed(p, divergence_logs, k) - weighed(p, entropy_logs, k),
            counted_sum(p, k) * log_n.value(),
        ) * 1_000_000_000 <= counted_sum(p, k) * scalar::one_unit(),
    decreases k,
{
    let big_l = log_n.value();
    let one = scalar::one_unit() as int;
    if k == 0 {
        assert(0 * big_l == 0 && 0 * one == 0);
    } else {
        weighed_differ(p, entropy_logs, divergence_logs, log_n, k - 1);
        if counted(p, k - 1) {
            let x = p[k - 1].value();
            assert(order::nonnegative(p[k - 1]));
            let (d, l) = (divergence_logs[k - 1].value(), entropy_logs[k - 1].value());
            let off = d - l - big_l;
            let w = counted_sum(p, k - 1);
            assert((w + x) * big_l == w * big_l + x * big_l) by (nonlinear_arith);
            assert((w + x) * one == w * one + x * one) by (nonlinear_arith);
            assert(x * d - x * l - x * big_l == x * off) by (nonlinear_arith)
                requires
                    off == d - l - big_l,
            ;
            lemma_mul_inequality(off * 1_000_000_000, one, x);
            lemma_mul_inequality(-one, off * 1_000_000_000, x);
            assert((off * 1_000_000_000) * x == (x * off) * 1_000_000_000) by (nonlinear_arith);
            assert((-one) * x == -(x * one)) by (nonlinear_arith);
            lemma_mul_is_commutative(one, x);
        }
    }
}

/// A sum that counts as one is off from one by less than a millionth.
proof fn counts_as_one(sum: Scalar)
    requires
        !sum.nan(),
        sum.minus(Scalar::of_int(1)).magnitude().below(Scalar::of_ratio(1, 1_000_000)),
    ensures
        sum.finite(),
        regime_laws::gap(sum.value(), scalar::one_unit() as int) * 1_000_000 < scalar::one_unit(),
{
    let full = Scalar::of_int(1);
    let one = scalar::one_unit() as int;
    order::int_is_exact(1);
    order::int_is_exact(1_000_000);
    order::proper_ratio(1, 1_000_000);
    let large = Scalar::of_int(1_000_000);
    if !sum.finite() {
        reveal(Scalar::plus);
    }
    assert(sum.finite());
    order::minus_is_near(sum, full);
    rounding::round_mag_exact(0, 1);
    let d = regime_laws::gap(sum.value(), one);
    assert(sum.minus(full).magnitude().rank() == order::near(d, 1));
    lemma_mul_strictly_positive(1_000_000, one);
    order::over_is_near(full, large);
    if d * 1_000_000 >= one {
        assert((one * one) * 1 <= d * (1_000_000 * one)) by {
            lemma_mul_inequality(one, d * 1_000_000, one);
            assert((d * 1_000_000) * one == d * (1_000_000 * one)) by (nonlinear_arith);
        }
        order::near_keeps_order(one * one, large.value() as nat, d, 1);
    }
}

/// The arithmetic behind `entropy_and_divergence_add_up`.
proof fn adds_up(
    h: int,
    d: int,
    exact_h: int,
    exact_d: int,
    w: int,
    x: int,
    t: int,
    big_l: int,
    one: int,
    n: int,
)
    requires
        0 < n <= 16,
        one >= 16 * BINADE,
        0 <= big_l <= 4 * one,
        regime_laws::gap(h * one, -exact_h) * BINADE <= n * 4400 * (one * one),
        regime_laws::gap(d * one, exact_d) * BINADE <= n * 4400 * (one * one),
        regime_laws::gap(exact_d - exact_h, w * big_l) * 1_000_000_000 <= w * one,
        0 <= w <= x,
        (x - w) * 1_000_000_000_000 <= n * (2 * one),
        0 <= t,
        regime_laws::gap(t, x) * BINADE <= n * t,
        regime_laws::gap(t, one) * 1_000_000 < one,
    ensures
        regime_laws::gap(h + d, big_l) * 100_000 <= one,
{
    let b = BINADE as int;
    let square = one * one;
    lemma_mul_strictly_positive(one, one);
    // The share that counts is close to one.
    lemma_mul_inequality(n, 16, t);
    lemma_mul_inequality(n, 16, 2 * one);
    let r = regime_laws::gap(t, x);
    assert(r * 4_000_000_000_000 <= r * b) by {
        lemma_mul_inequality(4_000_000_000_000, b, r);
        lemma_mul_is_commutative(r, b);
    }
    let u = regime_laws::gap(w, one);
    assert(u * 1_000_000 <= 2 * one);
    assert(w <= 2 * one);
    // The exact sums are close to what they are to add up to.
    let e = regime_laws::gap(w * big_l, one * big_l);
    assert(e * 1_000_000 <= 8 * square) by {
        assert(e == u * big_l) by (nonlinear_arith)
            requires
                e == (if w * big_l >= one * big_l {
                    w * big_l - one * big_l
                } else {
                    one * big_l - w * big_l
                }),
                u == (if w >= one {
                    w - one
                } else {
                    one - w
                }),
                big_l >= 0,
        ;
        lemma_mul_inequality(u * 1_000_000, 2 * one, big_l);
        lemma_mul_inequality(big_l, 4 * one, 2 * one);
        lemma_mul_is_commutative(big_l, 2 * one);
        assert((u * 1_000_000) * big_l == (u * big_l) * 1_000_000) by (nonlinear_arith);
        assert((4 * one) * (2 * one) == 8 * square) by (nonlinear_arith)
            requires
                square == one * one,
        ;
    }
    let f = regime_laws::gap(exact_d - exact_h, w * big_l);
    assert(f * 1_000_000_000 <= 2 * square) by {
        lemma_mul_inequality(w, 2 * one, one);
        assert((2 * one) * one == 2 * square) by (nonlinear_arith)
            requires
                square == one * one,
        ;
    }
    let g1 = regime_laws::gap(h * one, -exact_h);
    let g2 = regime_laws::gap(d * one, exact_d);
    assert(n * 4400 * square <= 70_400 * square) by {
        lemma_mul_inequality(n * 4400, 70_400, square);
    }
    assert(g1 * 1_000_000_000 <= square) by {
        lemma_mul_inequality(70_400_000_000_000, b, g1);
        lemma_mul_is_commutative(g1, b);
    }
    assert(g2 * 1_000_000_000 <= square) by {
        lemma_mul_inequality(70_400_000_000_000, b, g2);
        lemma_mul_is_commutative(g2, b);
    }
    let v = regime_laws::gap(h + d, big_l);
    assert((h + d) * one == h * one + d * one) by (nonlinear_arith);
    lemma_mul_is_commutative(one, big_l);
    assert(v * one == regime_laws::gap((h + d) * one, big_l * one)) by (nonlinear_arith)
        requires
            v == (if h + d >= big_l {
                h + d - big_l
            } else {
                big_l - (h + d)
            }),
            regime_laws::gap((h + d) * one, big_l * one) == (if (h + d) * one >= big_l * one {
                (h + d) * one - big_l * one
            } else {
                big_l * one - (h + d) * one
            }),
            one > 0,
    ;
    assert(v * one <= g1 + g2 + f + e);
    assert((v * 100_000) * one == (v * one) * 100_000) by (nonlinear_arith);
    lemma_mul_inequality_converse(v * 100_000, one, one);
}

/// Entropy and divergence from an even posterior add up to the logarithm of the number of regimes,
/// but for 1e-5, where the logarithms that they are computed from differ by that logarithm.
pub proof fn entropy_and_divergence_add_up(
    p: Seq<Scalar>,
    entropy_logs: Seq<Scalar>,
    divergence_logs: Seq<Scalar>,
    log_n: Scalar,
)
    requires
        0 < p.len() <= regime::MAX_REGIMES,
        entropy_logs.len() == p.len(),
        divergence_logs.len() == p.len(),
        regime::all_nonnegative(p),
        linalg::running_sum(p, p.len() as int).minus(Scalar::of_int(1)).magnitude().below(
            Scalar::of_ratio(1, 1_000_000),
        ),
        moderate(entropy_logs),
        moderate(divergence_logs),
        order::nonnegative(log_n),
        log_n.at_most(Scalar::of_int(4)),
        logs_differ_by(p, entropy_logs, divergence_logs, log_n),
    ensures
        ({
            let n = p.len() as int;
            let h = regime::entropy_of(p, entropy_logs, n);
            let d = regime::divergence_of(p, None, divergence_logs, n);
            let off = h.value() + d.value() - log_n.value();
            &&& h.finite()
            &&& d.finite()
            &&& -(scalar::one_unit() as int) <= off * 100_000 <= scalar::one_unit()
        }),
{
    let n = p.len() as int;
    let one = scalar::one_unit() as int;
    one_is_large();
    let sum = linalg::running_sum(p, n);
    regime::sum_is_at_least_each(p, n, 0);
    counts_as_one(sum);
    regime_laws::sum_is_close(p, n);
    order::int_is_exact(4);
    order::order_is_order_of_values(log_n, Scalar::of_int(4));
    assert(small_parts(p)) by {
        assert forall|i: int| 0 <= i < n implies (#[trigger] p[i]).finite() && 0 <= p[i].value() <= 2
            * one by {
            assert(order::nonnegative(p[i]));
            regime::sum_is_at_least_each(p, n, i);
            order::order_is_order_of_values(p[i], sum);
        }
    }
    sums_are_close(p, entropy_logs, divergence_logs, n);
    little_is_left_out(p, n);
    weighed_differ(p, entropy_logs, divergence_logs, log_n, n);
    adds_up(
        regime::entropy_of(p, entropy_logs, n).value(),
        regime::divergence_of(p, None, divergence_logs, n).value(),
        weighed(p, entropy_logs, n),
        weighed(p, divergence_logs, n),
        counted_sum(p, n),
        regime_laws::exact_sum(p, n),
        sum.value(),
        log_n.value(),
        one,
        n,
    );
}

} // verus!
