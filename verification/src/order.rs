//! The order of numbers, and how rounding respects it.

use crate::rounding;
use crate::rounding::{BINADE, EXACT, INFINITE};
use crate::scalar;
use crate::scalar::Scalar;
use vstd::arithmetic::mul::*;
use vstd::arithmetic::power2::*;
use vstd::prelude::*;

verus! {

/// The rank of the number nearest to `v / d` units.
pub open spec fn near(v: int, d: nat) -> int {
    let mag = rounding::round_mag(
        (if v < 0 {
            -v
        } else {
            v
        }) as nat,
        d,
    );
    let capped = if mag < INFINITE {
        mag as int
    } else {
        INFINITE as int
    };
    if v < 0 {
        -capped
    } else {
        capped
    }
}

/// A finite number that is at least zero.
pub open spec fn nonnegative(a: Scalar) -> bool {
    a.finite() && a.value() >= 0
}

/// Nearness keeps order.
pub proof fn near_keeps_order(v1: int, d1: nat, v2: int, d2: nat)
    requires
        d1 > 0,
        d2 > 0,
        v1 * d2 <= v2 * d1,
    ensures
        near(v1, d1) <= near(v2, d2),
{
    if v1 < 0 && v2 < 0 {
        assert((-v2) * d1 <= (-v1) * d2) by (nonlinear_arith)
            requires
                v1 * d2 <= v2 * d1,
        ;
        rounding::round_mag_keeps_order((-v2) as nat, d2, (-v1) as nat, d1);
    } else if v1 >= 0 {
        lemma_mul_nonnegative(v1, d2 as int);
        assert(v2 >= 0) by (nonlinear_arith)
            requires
                0 <= v1 * d2 <= v2 * d1,
                d1 > 0,
        ;
        rounding::round_mag_keeps_order(v1 as nat, d1, v2 as nat, d2);
    }
}

/// A finite number is the one nearest to itself.
pub proof fn near_itself(a: Scalar, k: nat)
    requires
        a.finite(),
        k > 0,
    ensures
        near(a.value() * k, k) == a.rank(),
        near(a.value(), 1) == a.rank(),
{
    rounding::round_mag_exact(a.mag(), k);
    rounding::round_mag_exact(a.mag(), 1);
    rounding::round_mag_exact(0, k);
    let c = a.count() as int;
    assert((-c) * k == -(c * k)) by (nonlinear_arith);
    assert(c * 1 == c);
    if c == 0 {
        assert(a.mag() == 0) by {
            if a.mag() > 0 {
                rounding::units_increase(0, a.mag());
            }
        }
    } else {
        lemma_mul_strictly_positive(c, k as int);
    }
}

/// The comparisons of finite numbers compare their values.
pub proof fn order_is_order_of_values(a: Scalar, b: Scalar)
    requires
        a.finite(),
        b.finite(),
    ensures
        a.below(b) <==> a.value() < b.value(),
        a.at_most(b) <==> a.value() <= b.value(),
        a.rank() == b.rank() <==> a.value() == b.value(),
{
    if a.mag() < b.mag() {
        rounding::units_increase(a.mag(), b.mag());
    } else if b.mag() < a.mag() {
        rounding::units_increase(b.mag(), a.mag());
    }
    if a.mag() > 0 {
        rounding::units_increase(0, a.mag());
    }
    if b.mag() > 0 {
        rounding::units_increase(0, b.mag());
    }
}

pub(crate) proof fn packed_rank(neg: bool, mag: nat)
    ensures
        !scalar::packed(neg, mag).nan(),
        scalar::packed(neg, mag).rank() == {
            let capped = if mag < INFINITE {
                mag as int
            } else {
                INFINITE as int
            };
            if neg {
                -capped
            } else {
                capped
            }
        },
        mag < INFINITE ==> scalar::packed(neg, mag).finite() && scalar::packed(neg, mag).mag()
            == mag,
{
}

/// A sum is the number nearest to the exact sum.
pub proof fn plus_is_near(a: Scalar, b: Scalar)
    requires
        a.finite(),
        b.finite(),
    ensures
        !a.plus(b).nan(),
        a.plus(b).rank() == near(a.value() + b.value(), 1),
{
    reveal(Scalar::plus);
    let sum = a.value() + b.value();
    rounding::round_mag_exact(0, 1);
    packed_rank(a.neg() && b.neg(), 0);
    packed_rank(true, rounding::round_mag((-sum) as nat, 1));
    packed_rank(false, rounding::round_mag(sum as nat, 1));
}

/// Changing the sign changes the sign of the value.
pub proof fn negated_value(a: Scalar)
    ensures
        a.negated().value() == -a.value(),
        a.negated().rank() == -a.rank(),
        a.negated().mag() == a.mag(),
{
}

/// A difference is the number nearest to the exact difference.
pub proof fn minus_is_near(a: Scalar, b: Scalar)
    requires
        a.finite(),
        b.finite(),
    ensures
        !a.minus(b).nan(),
        a.minus(b).rank() == near(a.value() - b.value(), 1),
{
    negated_value(b);
    plus_is_near(a, b.negated());
}

/// A product is the number nearest to the exact product.
pub proof fn times_is_near(a: Scalar, b: Scalar)
    requires
        a.finite(),
        b.finite(),
    ensures
        !a.times(b).nan(),
        a.times(b).rank() == near(a.value() * b.value(), scalar::one_unit()),
        scalar::one_unit() > 0,
{
    reveal(Scalar::times);
    let p = a.count() * b.count();
    let neg = a.neg() != b.neg();
    lemma_pow2_pos(scalar::UNIT_EXPONENT as nat);
    let x = a.count() as int;
    let y = b.count() as int;
    assert((-x) * y == -(x * y) && x * (-y) == -(x * y) && (-x) * (-y) == x * y)
        by (nonlinear_arith);
    lemma_mul_nonnegative(x, y);
    let one = scalar::one_unit();
    packed_rank(neg, rounding::round_mag(p, one));
    rounding::round_mag_exact(0, one);
    assert(rounding::units(0) == 0);
    lemma_mul_basics(one as int);
    assert(a.value() * b.value() == if neg {
        -(p as int)
    } else {
        p as int
    });
}

/// A quotient is the number nearest to the exact quotient.
pub proof fn over_is_near(a: Scalar, b: Scalar)
    requires
        a.finite(),
        b.finite(),
        b.value() > 0,
    ensures
        !a.over(b).nan(),
        a.over(b).rank() == near(a.value() * scalar::one_unit(), b.value() as nat),
        scalar::one_unit() > 0,
{
    reveal(Scalar::over);
    lemma_pow2_pos(scalar::UNIT_EXPONENT as nat);
    assert(!b.neg() && !b.zero());
    let c = a.count() as int;
    let one = scalar::one_unit() as int;
    assert((-c) * one == -(c * one)) by (nonlinear_arith);
    lemma_mul_nonnegative(c, one);
    packed_rank(a.neg(), rounding::round_mag(a.count() * scalar::one_unit(), b.count()));
    rounding::round_mag_exact(0, b.count());
    lemma_mul_basics(b.count() as int);
    lemma_mul_basics(one);
    assert(rounding::units(0) == 0);
    if c > 0 {
        lemma_mul_strictly_positive(c, one);
    } else {
        assert(rounding::round_mag(0, b.count()) == 0);
    }
    assert(a.value() * one == if a.neg() {
        -(c * one)
    } else {
        c * one
    });
}

/// The number of bits that `x` takes, as a proof.
proof fn length_in_bits(x: nat) -> (l: nat)
    requires
        x > 0,
    ensures
        l > 0,
        pow2((l - 1) as nat) <= x < pow2(l),
    decreases x,
{
    lemma2_to64();
    if x == 1 {
        1
    } else {
        let h = length_in_bits(x / 2);
        lemma_pow2_unfold(h);
        lemma_pow2_unfold(h + 1);
        h + 1
    }
}

/// Integers below 2 to the 53 are numbers of the format.
pub proof fn int_is_exact(x: nat)
    requires
        x < EXACT,
    ensures
        Scalar::of_int(x).finite(),
        !Scalar::of_int(x).neg(),
        Scalar::of_int(x).value() == x * scalar::one_unit(),
        scalar::one_unit() > 0,
{
    reveal(Scalar::of_int);
    lemma_pow2_pos(scalar::UNIT_EXPONENT as nat);
    let n = x * scalar::one_unit();
    if x == 0 {
        rounding::round_mag_exact(0, 1);
    } else {
        let l = length_in_bits(x);
        lemma2_to64();
        lemma2_to64_rest();
        if l > 53 {
            if l > 54 {
                lemma_pow2_strictly_increases(53, (l - 1) as nat);
            }
        }
        let s = (53 - l) as nat;
        let j = (scalar::UNIT_EXPONENT + l - 53) as nat;
        let m = x * pow2(s);
        lemma_pow2_adds((l - 1) as nat, s);
        lemma_pow2_adds(l, s);
        lemma_pow2_adds(s, j);
        lemma_pow2_pos(s);
        assert(pow2((l - 1) as nat) * pow2(s) <= m < pow2(l) * pow2(s)) by (nonlinear_arith)
            requires
                pow2((l - 1) as nat) <= x < pow2(l),
                m == x * pow2(s),
                pow2(s) > 0,
        ;
        assert(l - 1 + s == 52 && l + s == 53 && s + j == scalar::UNIT_EXPONENT);
        rounding::units_in_binade(m, j);
        assert(m * pow2(j) == n) by (nonlinear_arith)
            requires
                m == x * pow2(s),
                pow2(s) * pow2(j) == scalar::one_unit(),
                n == x * scalar::one_unit(),
        ;
        let mag = (m + j * BINADE) as nat;
        rounding::round_mag_exact(mag, 1);
        assert(n * 1 == n);
        assert(mag < INFINITE) by (nonlinear_arith)
            requires
                mag == m + j * BINADE,
                m < EXACT,
                j <= 1074,
                BINADE == 0x10_0000_0000_0000,
                EXACT == 0x20_0000_0000_0000,
                INFINITE == 0x7ff0_0000_0000_0000,
        ;
        packed_rank(false, mag);
    }
}

/// Adding to a larger number does not give a smaller sum.
pub proof fn plus_keeps_order(a: Scalar, b: Scalar, c: Scalar)
    requires
        a.finite(),
        b.finite(),
        c.finite(),
        a.at_most(b),
    ensures
        a.plus(c).at_most(b.plus(c)),
{
    order_is_order_of_values(a, b);
    plus_is_near(a, c);
    plus_is_near(b, c);
    near_keeps_order(a.value() + c.value(), 1, b.value() + c.value(), 1);
}

/// Taking away a larger number does not give a larger difference.
pub proof fn minus_turns_order(a: Scalar, b: Scalar, c: Scalar)
    requires
        a.finite(),
        b.finite(),
        c.finite(),
        a.at_most(b),
    ensures
        c.minus(b).at_most(c.minus(a)),
{
    order_is_order_of_values(a, b);
    minus_is_near(c, a);
    minus_is_near(c, b);
    near_keeps_order(c.value() - b.value(), 1, c.value() - a.value(), 1);
}

/// Scaling by a number that is not negative keeps order.
pub proof fn times_keeps_order(a: Scalar, b: Scalar, c: Scalar)
    requires
        a.finite(),
        b.finite(),
        nonnegative(c),
        a.at_most(b),
    ensures
        a.times(c).at_most(b.times(c)),
{
    order_is_order_of_values(a, b);
    times_is_near(a, c);
    times_is_near(b, c);
    let one = scalar::one_unit();
    assert(a.value() * c.value() * one <= b.value() * c.value() * one) by (nonlinear_arith)
        requires
            a.value() <= b.value(),
            c.value() >= 0,
            one > 0,
    ;
    near_keeps_order(a.value() * c.value(), one, b.value() * c.value(), one);
}

/// A positive fraction is above zero.
pub proof fn positive_ratio(x: nat, y: nat)
    requires
        0 < x < EXACT,
        0 < y < EXACT,
    ensures
        Scalar::of_int(0).below(Scalar::of_ratio(x, y)),
{
    int_is_exact(x);
    int_is_exact(y);
    let one = scalar::one_unit() as int;
    lemma2_to64();
    lemma2_to64_rest();
    lemma_pow2_strictly_increases(53, scalar::UNIT_EXPONENT as nat);
    let a = Scalar::of_int(x);
    let b = Scalar::of_int(y);
    lemma_mul_strictly_positive(y as int, one);
    over_is_near(a, b);
    let v = a.value() * one;
    let d = b.value();
    near_itself(Scalar { bits: 1 }, 1);
    assert(1 * d <= v * 1) by (nonlinear_arith)
        requires
            v == (x * one) * one,
            d == y * one,
            0 < x,
            y < EXACT,
            EXACT <= one,
    ;
    near_keeps_order(1, 1, v, d as nat);
    zero_rank();
}

/// A positive fraction of at most one half lies strictly between zero and one.
pub proof fn proper_ratio(x: nat, y: nat)
    requires
        0 < x,
        2 * x <= y,
        y < EXACT,
    ensures
        Scalar::of_ratio(x, y).finite(),
        Scalar::of_int(0).below(Scalar::of_ratio(x, y)),
        Scalar::of_ratio(x, y).below(Scalar::of_int(1)),
        2 * Scalar::of_ratio(x, y).value() <= scalar::one_unit(),
{
    positive_ratio(x, y);
    int_is_exact(x);
    int_is_exact(y);
    int_is_exact(0);
    int_is_exact(1);
    let one = scalar::one_unit() as int;
    let a = Scalar::of_int(x);
    let b = Scalar::of_int(y);
    lemma_mul_strictly_positive(y as int, one);
    over_is_near(a, b);
    let v = a.value() * one;
    let d = b.value();
    let full = Scalar::of_int(1);
    let half = Scalar { bits: (full.mag() - BINADE) as u64 };
    lemma2_to64();
    lemma2_to64_rest();
    lemma_pow2_strictly_increases(53, scalar::UNIT_EXPONENT as nat);
    assert(full.mag() >= EXACT);
    assert(2 * half.value() == one);
    near_itself(half, 1);
    let h = half.value();
    assert(v * 1 <= h * d) by (nonlinear_arith)
        requires
            v == (x * one) * one,
            d == y * one,
            2 * h == one,
            2 * x <= y,
            0 < x,
            0 < one,
    ;
    near_keeps_order(v, d as nat, h, 1);
    order_is_order_of_values(Scalar::of_ratio(x, y), half);
    order_is_order_of_values(Scalar::of_int(0), full);
    zero_rank();
}

/// What is nearest to a number is at most twice that number; half of it is a number of the format,
/// or it is exact.
pub proof fn nearest_is_at_most_twice(v: int, d: Scalar)
    requires
        v >= 0,
        d.finite(),
        d.rank() == near(v, 1),
    ensures
        d.value() <= 2 * v,
        d.mag() < EXACT ==> d.value() == v,
        d.mag() >= EXACT ==> 2 * (Scalar { bits: (d.mag() - BINADE) as u64 }).value()
            == d.value() && (Scalar { bits: (d.mag() - BINADE) as u64 }).finite(),
{
    zero_rank();
    if d.mag() >= EXACT {
        let half = Scalar { bits: (d.mag() - BINADE) as u64 };
        assert(2 * half.value() == d.value());
        near_itself(half, 1);
        if d.value() > 2 * v {
            near_keeps_order(v, 1, half.value(), 1);
        }
    } else {
        if v >= EXACT {
            let least = Scalar { bits: EXACT };
            lemma2_to64();
            rounding::units_in_binade(BINADE as nat, 1);
            assert(least.mag() == EXACT && least.value() == EXACT);
            near_itself(least, 1);
            near_keeps_order(EXACT as int, 1, v, 1);
        } else {
            let exact = Scalar { bits: v as u64 };
            assert(exact.mag() == v && exact.value() == v);
            near_itself(exact, 1);
            assert(d.rank() == exact.rank());
            order_is_order_of_values(d, exact);
        }
    }
}

/// A number that is not negative has no negative rank.
pub proof fn no_negative_rank(c: Scalar)
    requires
        c.finite(),
        c.value() >= 0,
    ensures
        c.rank() >= 0,
        Scalar::of_int(0).rank() == 0,
{
    int_is_exact(0);
    let zero = Scalar::of_int(0);
    if zero.mag() > 0 {
        rounding::units_increase(0, zero.mag());
    }
    if c.mag() > 0 {
        rounding::units_increase(0, c.mag());
    }
}

/// Zero has rank 0.
proof fn zero_rank()
    ensures
        Scalar::of_int(0).rank() == 0,
{
    int_is_exact(0);
    let zero = Scalar::of_int(0);
    if zero.mag() > 0 {
        rounding::units_increase(0, zero.mag());
    }
}

/// How far a number is from `v / d`, times `d`.
pub open spec fn off_by(r: Scalar, v: int, d: nat) -> int {
    if r.value() * d >= v {
        r.value() * d - v
    } else {
        v - r.value() * d
    }
}

/// The number nearest to a ratio is off by at most half a unit, or else by at most half of what its
/// last place counts.
pub proof fn nearest_is_close(r: Scalar, v: int, d: nat)
    requires
        v >= 0,
        d > 0,
        r.finite(),
        r.rank() == near(v, d),
    ensures
        r.value() >= 0,
        2 * off_by(r, v, d) <= d || 2 * off_by(r, v, d) * BINADE <= v,
{
    rounding::round_mag_error(v as nat, d);
    if r.mag() == 0 {
        assert(rounding::units(0) == 0);
    }
    assert(r.mag() == rounding::round_mag(v as nat, d));
}

} // verus!
