//! How the results of arithmetic relate to each other: their order and their sign, also where they
//! are infinite.

use crate::linalg;
use crate::order;
use crate::rounding;
use crate::rounding::{BINADE, EXACT};
use crate::scalar;
use crate::scalar::Scalar;
use vstd::arithmetic::mul::*;
use vstd::arithmetic::power2::*;
use vstd::prelude::*;

verus! {

/// One number is the other with its sign changed.
pub open spec fn opposite(a: Scalar, b: Scalar) -> bool {
    !a.nan() && !b.nan() && a.rank() == -b.rank()
}

/// A number with its sign changed is its opposite.
pub proof fn negated_is_opposite(a: Scalar)
    requires
        !a.nan(),
    ensures
        opposite(a, a.negated()),
        opposite(a.negated(), a),
{
}

/// The number nearest to the opposite is the opposite of the nearest.
pub proof fn near_turns_sign(v: int, d: nat)
    requires
        d > 0,
    ensures
        order::near(-v, d) == -order::near(v, d),
{
    rounding::round_mag_exact(0, d);
    assert(rounding::units(0) * d == 0) by {
        lemma_mul_basics(d as int);
    }
}

/// Finite numbers that are opposite have opposite values.
pub proof fn opposite_values(a: Scalar, b: Scalar)
    requires
        opposite(a, b),
    ensures
        a.mag() == b.mag(),
        a.finite() ==> b.finite() && a.value() == -b.value(),
        a.magnitude() == b.magnitude(),
{
    if a.mag() == 0 {
        assert(rounding::units(0) == 0);
    }
}

/// Numbers of one rank are of one value.
pub proof fn level_values(a: Scalar, b: Scalar)
    requires
        a.level(b),
    ensures
        a.mag() == b.mag(),
        a.finite() ==> b.finite() && a.value() == b.value(),
        a.magnitude() == b.magnitude(),
        a.rank() != 0 ==> a == b,
{
    if a.mag() == 0 {
        assert(rounding::units(0) == 0);
    }
}

/// Opposite numbers have opposite sums.
pub proof fn sums_turn_sign(a: Scalar, b: Scalar, c: Scalar, d: Scalar)
    requires
        opposite(a, c),
        opposite(b, d),
    ensures
        a.plus(b).nan() == c.plus(d).nan(),
        !a.plus(b).nan() ==> opposite(a.plus(b), c.plus(d)),
{
    opposite_values(a, c);
    opposite_values(b, d);
    if a.finite() && b.finite() {
        order::plus_is_near(a, b);
        order::plus_is_near(c, d);
        near_turns_sign(a.value() + b.value(), 1);
    } else {
        reveal(Scalar::plus);
    }
}

/// Numbers of the same rank have sums of the same rank.
pub proof fn sums_go_by_rank(a: Scalar, b: Scalar, c: Scalar, d: Scalar)
    requires
        a.level(c),
        b.level(d),
    ensures
        a.plus(b).nan() == c.plus(d).nan(),
        !a.plus(b).nan() ==> a.plus(b).level(c.plus(d)),
        a.minus(b).nan() == c.minus(d).nan(),
        !a.minus(b).nan() ==> a.minus(b).level(c.minus(d)),
{
    level_values(a, c);
    level_values(b, d);
    if a.finite() && b.finite() {
        order::plus_is_near(a, b);
        order::plus_is_near(c, d);
        order::minus_is_near(a, b);
        order::minus_is_near(c, d);
    } else {
        reveal(Scalar::plus);
    }
}

/// Changing the sign of one factor changes the sign of the product.
pub proof fn products_turn_sign(a: Scalar, b: Scalar, c: Scalar)
    requires
        opposite(a, c),
        !b.nan(),
    ensures
        a.times(b).nan() == c.times(b).nan(),
        !a.times(b).nan() ==> opposite(a.times(b), c.times(b)) && opposite(b.times(a), b.times(c)),
        b.times(a).nan() == a.times(b).nan(),
        b.times(c).nan() == a.times(b).nan(),
{
    opposite_values(a, c);
    if a.finite() && b.finite() {
        order::times_is_near(a, b);
        order::times_is_near(c, b);
        order::times_is_near(b, a);
        order::times_is_near(b, c);
        let (x, y, z) = (a.value(), b.value(), c.value());
        assert(z * y == -(x * y) && y * z == -(x * y) && y * x == x * y) by (nonlinear_arith)
            requires
                z == -x,
        ;
        near_turns_sign(x * y, scalar::one_unit());
    } else {
        reveal(Scalar::times);
    }
}

/// Changing the sign of the numerator changes the sign of the quotient.
pub proof fn quotients_turn_sign(a: Scalar, b: Scalar, c: Scalar)
    requires
        opposite(a, c),
        !b.nan(),
        b.rank() > 0,
    ensures
        a.over(b).nan() == c.over(b).nan(),
        !a.over(b).nan() ==> opposite(a.over(b), c.over(b)),
{
    opposite_values(a, c);
    if a.finite() && b.finite() {
        rounding::units_increase(0, b.mag());
        order::over_is_near(a, b);
        order::over_is_near(c, b);
        let (x, z, one) = (a.value(), c.value(), scalar::one_unit() as int);
        assert(z * one == -(x * one)) by (nonlinear_arith)
            requires
                z == -x,
        ;
        near_turns_sign(x * one, b.value() as nat);
    } else {
        reveal(Scalar::over);
    }
}

/// Sums keep order.
pub proof fn sums_keep_order(a: Scalar, b: Scalar, c: Scalar, d: Scalar)
    requires
        a.at_most(b),
        c.at_most(d),
        !a.plus(c).nan(),
        !b.plus(d).nan(),
    ensures
        a.plus(c).at_most(b.plus(d)),
{
    reveal(Scalar::plus);
    if a.finite() && b.finite() && c.finite() && d.finite() {
        order::order_is_order_of_values(a, b);
        order::order_is_order_of_values(c, d);
        order::plus_is_near(a, c);
        order::plus_is_near(b, d);
        order::near_keeps_order(a.value() + c.value(), 1, b.value() + d.value(), 1);
    }
}

/// Differences keep the order of the first number and turn that of the second.
pub proof fn differences_keep_order(a: Scalar, b: Scalar, c: Scalar, d: Scalar)
    requires
        a.at_most(b),
        d.at_most(c),
        !a.minus(c).nan(),
        !b.minus(d).nan(),
    ensures
        a.minus(c).at_most(b.minus(d)),
{
    sums_keep_order(a, b, c.negated(), d.negated());
}

/// Products of numbers that are not negative keep order.
pub proof fn products_keep_order(a: Scalar, b: Scalar, c: Scalar, d: Scalar)
    requires
        Scalar::of_int(0).at_most(a),
        Scalar::of_int(0).at_most(c),
        a.at_most(b),
        c.at_most(d),
        !a.times(c).nan(),
        !b.times(d).nan(),
    ensures
        a.times(c).at_most(b.times(d)),
        Scalar::of_int(0).at_most(a.times(c)),
{
    order::int_is_exact(0);
    let zero = Scalar::of_int(0);
    order::no_negative_rank(zero);
    let one = scalar::one_unit();
    if a.finite() && c.finite() {
        order::order_is_order_of_values(zero, a);
        order::order_is_order_of_values(zero, c);
        order::times_is_near(a, c);
        order::near_itself(zero, one);
        lemma_mul_nonnegative(a.value(), c.value());
        lemma_mul_nonnegative(a.value() * c.value(), one as int);
        order::near_keeps_order(0, one, a.value() * c.value(), one);
    } else {
        reveal(Scalar::times);
    }
    if b.finite() && d.finite() {
        order::order_is_order_of_values(a, b);
        order::order_is_order_of_values(c, d);
        order::times_is_near(b, d);
        assert(a.value() * c.value() * one <= b.value() * d.value() * one) by (nonlinear_arith)
            requires
                0 <= a.value() <= b.value(),
                0 <= c.value() <= d.value(),
                one > 0,
        ;
        order::near_keeps_order(a.value() * c.value(), one, b.value() * d.value(), one);
    } else {
        reveal(Scalar::times);
    }
}

/// Scaling by a number that is not negative keeps order, also of negative numbers.
pub proof fn scaling_keeps_order(a: Scalar, b: Scalar, c: Scalar)
    requires
        Scalar::of_int(0).at_most(c),
        a.at_most(b),
        !a.times(c).nan(),
        !b.times(c).nan(),
    ensures
        a.times(c).at_most(b.times(c)),
{
    order::int_is_exact(0);
    order::no_negative_rank(Scalar::of_int(0));
    let one = scalar::one_unit();
    reveal(Scalar::times);
    if a.finite() && b.finite() && c.finite() {
        order::order_is_order_of_values(a, b);
        order::order_is_order_of_values(Scalar::of_int(0), c);
        order::times_keeps_order(a, b, c);
    } else if c.finite() {
        if a.finite() {
            order::times_is_near(a, c);
        }
        if b.finite() {
            order::times_is_near(b, c);
        }
    }
}

/// Quotients by a positive number keep order.
pub proof fn quotients_keep_order(a: Scalar, b: Scalar, c: Scalar)
    requires
        a.at_most(b),
        Scalar::of_int(0).below(c),
        !a.over(c).nan(),
        !b.over(c).nan(),
    ensures
        a.over(c).at_most(b.over(c)),
{
    order::int_is_exact(0);
    let zero = Scalar::of_int(0);
    order::no_negative_rank(zero);
    if a.finite() && b.finite() && c.finite() {
        order::order_is_order_of_values(a, b);
        order::order_is_order_of_values(zero, c);
        order::over_is_near(a, c);
        order::over_is_near(b, c);
        let one = scalar::one_unit() as int;
        let (x, y, z) = (a.value(), b.value(), c.value());
        assert(x * one * z <= y * one * z) by (nonlinear_arith)
            requires
                x <= y,
                one > 0,
                z > 0,
        ;
        order::near_keeps_order(x * one, z as nat, y * one, z as nat);
    } else {
        reveal(Scalar::over);
        if c.finite() {
            order::order_is_order_of_values(zero, c);
            if a.finite() {
                order::over_is_near(a, c);
            }
            if b.finite() {
                order::over_is_near(b, c);
            }
        }
    }
}

/// A quotient of a number that is not negative does not grow with what it is divided by.
pub proof fn greater_divisors_give_less(a: Scalar, c: Scalar, d: Scalar)
    requires
        Scalar::of_int(0).at_most(a),
        Scalar::of_int(0).below(c),
        c.at_most(d),
        !a.over(c).nan(),
        !a.over(d).nan(),
    ensures
        a.over(d).at_most(a.over(c)),
        Scalar::of_int(0).at_most(a.over(d)),
{
    order::int_is_exact(0);
    let zero = Scalar::of_int(0);
    order::no_negative_rank(zero);
    order::near_itself(zero, 1);
    if a.finite() && c.finite() && d.finite() {
        order::order_is_order_of_values(zero, a);
        order::order_is_order_of_values(zero, c);
        order::order_is_order_of_values(c, d);
        order::over_is_near(a, c);
        order::over_is_near(a, d);
        let one = scalar::one_unit() as int;
        let (x, y, z) = (a.value(), c.value(), d.value());
        lemma_mul_nonnegative(x, one);
        assert(x * one * y <= x * one * z) by (nonlinear_arith)
            requires
                x * one >= 0,
                y <= z,
        ;
        order::near_keeps_order(x * one, z as nat, x * one, y as nat);
        order::near_keeps_order(0, 1, x * one, z as nat);
    } else {
        reveal(Scalar::over);
        if a.finite() && c.finite() {
            order::order_is_order_of_values(zero, a);
            order::order_is_order_of_values(zero, c);
            order::over_is_near(a, c);
            lemma_mul_nonnegative(a.value(), scalar::one_unit() as int);
            order::near_keeps_order(0, 1, a.value() * scalar::one_unit(), c.value() as nat);
        }
    }
}

/// What is made of something that is not a number is none either.
pub proof fn nan_spreads(a: Scalar, b: Scalar)
    ensures
        a.nan() || b.nan() ==> a.plus(b).nan() && a.minus(b).nan() && a.times(b).nan() && a.over(
            b,
        ).nan(),
{
    reveal(Scalar::plus);
    reveal(Scalar::times);
    reveal(Scalar::over);
}

/// Roots keep order.
pub proof fn roots_keep_order(a: Scalar, b: Scalar)
    requires
        Scalar::of_int(0).at_most(a),
        a.at_most(b),
    ensures
        a.root().at_most(b.root()),
        Scalar::of_int(0).at_most(a.root()),
{
    order::int_is_exact(0);
    order::no_negative_rank(Scalar::of_int(0));
    reveal(Scalar::root);
    lemma_pow2_pos(scalar::UNIT_EXPONENT as nat);
    if a.mag() > 0 && b.finite() {
        order::order_is_order_of_values(a, b);
        let one = scalar::one_unit() as int;
        let (s, t) = ((a.count() * scalar::one_unit()) as nat, (b.count() * scalar::one_unit()) as nat);
        assert(s <= t) by (nonlinear_arith)
            requires
                s == a.count() * one,
                t == b.count() * one,
                a.count() <= b.count(),
                one > 0,
        ;
        let x = scalar::floor_root_exists(s);
        let y = scalar::floor_root_exists(t);
        assert(x <= y) by (nonlinear_arith)
            requires
                x * x <= s,
                s <= t,
                t < (y + 1) * (y + 1),
        ;
        let u = (2 * x + if x * x == s {
            0nat
        } else {
            1nat
        }) as nat;
        let v = (2 * y + if y * y == t {
            0nat
        } else {
            1nat
        }) as nat;
        assert(u <= v);
        rounding::round_mag_keeps_order(u, 2, v, 2);
        order::packed_rank(false, rounding::round_mag(u, 2));
        order::packed_rank(false, rounding::round_mag(v, 2));
    }
}

/// Zero stands at rank 0, and one above it.
pub proof fn zero_and_one()
    ensures
        Scalar::of_int(0).rank() == 0,
        Scalar::of_int(0).finite(),
        Scalar::of_int(0).value() == 0,
        Scalar::of_int(1).rank() > 0,
        Scalar::of_int(1).finite(),
        Scalar::of_int(1).value() == scalar::one_unit(),
        scalar::one_unit() > 0,
{
    order::int_is_exact(0);
    order::int_is_exact(1);
    lemma_pow2_pos(scalar::UNIT_EXPONENT as nat);
    order::no_negative_rank(Scalar::of_int(0));
    order::order_is_order_of_values(Scalar::of_int(0), Scalar::of_int(1));
}

/// Adding zero, or taking it away, changes no number.
pub proof fn adding_nothing(a: Scalar, z: Scalar)
    requires
        !a.nan(),
        z.zero(),
    ensures
        a.plus(z).level(a),
        z.plus(a).level(a),
        a.minus(z).level(a),
        z.minus(a).level(a.negated()),
{
    assert(rounding::units(0) == 0);
    if a.finite() {
        order::plus_is_near(a, z);
        order::plus_is_near(z, a);
        order::minus_is_near(a, z);
        order::minus_is_near(z, a);
        order::near_itself(a, 1);
        near_turns_sign(a.value(), 1);
    } else {
        reveal(Scalar::plus);
    }
}

/// A finite number times zero is zero.
pub proof fn nothing_of(a: Scalar, z: Scalar)
    requires
        a.finite(),
        z.zero(),
    ensures
        a.times(z).zero(),
        z.times(a).zero(),
{
    assert(rounding::units(0) == 0);
    lemma_pow2_pos(scalar::UNIT_EXPONENT as nat);
    order::times_is_near(a, z);
    order::times_is_near(z, a);
    lemma_mul_basics(a.value());
    order::near_itself(z, scalar::one_unit());
    lemma_mul_basics(scalar::one_unit() as int);
}

/// The order of magnitudes, and that they are not negative.
pub proof fn magnitudes(a: Scalar)
    requires
        !a.nan(),
    ensures
        !a.magnitude().nan(),
        a.magnitude().rank() >= 0,
        a.magnitude().rank() == a.rank() || a.magnitude().rank() == -a.rank(),
        Scalar::of_int(0).at_most(a.magnitude()),
        a.finite() ==> a.magnitude().finite(),
        a.finite() ==> a.magnitude().value() == if a.value() < 0 {
            -a.value()
        } else {
            a.value()
        },
{
    zero_and_one();
}

/// `r` is the number nearest to `v / d` units.
pub open spec fn rounds(r: Scalar, v: int, d: nat) -> bool {
    !r.nan() && r.rank() == order::near(v, d)
}

/// Neighbouring numbers are at least one part in 2 to the 53 apart.
proof fn neighbours_are_apart(m: nat)
    requires
        m > 0,
    ensures
        rounding::units(m) <= EXACT * (rounding::units(m) - rounding::units((m - 1) as nat)),
    decreases m,
{
    if m > EXACT {
        neighbours_are_apart((m - BINADE) as nat);
    } else if m == EXACT {
        assert(rounding::units((EXACT - BINADE) as nat) == BINADE);
    }
}

/// A quotient of numbers that are not negative is at least one exactly if the numerator is at
/// least the denominator, however close they are.
pub proof fn quotients_tell_the_greater(a: Scalar, b: Scalar)
    requires
        order::nonnegative(a),
        b.finite(),
        b.value() > 0,
    ensures
        Scalar::of_int(1).at_most(a.over(b)) <==> b.at_most(a),
        rounds(a.over(b), a.value() * scalar::one_unit(), b.value() as nat),
        Scalar::of_int(0).at_most(a.over(b)),
{
    zero_and_one();
    let full = Scalar::of_int(1);
    let one = scalar::one_unit() as int;
    let (x, y) = (a.value(), b.value());
    order::over_is_near(a, b);
    order::order_is_order_of_values(a, b);
    order::near_itself(full, 1);
    order::near_itself(Scalar::of_int(0), 1);
    lemma_mul_nonnegative(x, one);
    order::near_keeps_order(0, 1, x * one, y as nat);
    if y <= x {
        lemma_mul_inequality(y, x, one);
        lemma_mul_is_commutative(one, y);
        order::near_keeps_order(one, 1, x * one, y as nat);
    } else {
        let j = (scalar::UNIT_EXPONENT - 53) as nat;
        lemma2_to64();
        lemma2_to64_rest();
        lemma_pow2_adds(53, j);
        rounding::units_in_binade((EXACT - 1) as nat, j);
        let u = pow2(j) as int;
        lemma_pow2_pos(j);
        let less = Scalar { bits: (EXACT - 1 + j * BINADE) as u64 };
        assert(less.value() == (EXACT - 1) * u);
        assert(one == EXACT * u);
        assert(less.value() == one - u) by (nonlinear_arith)
            requires
                less.value() == (EXACT - 1) * u,
                one == EXACT * u,
        ;
        order::order_is_order_of_values(less, full);
        neighbours_are_apart(b.mag());
        if a.mag() < b.mag() - 1 {
            rounding::units_increase(a.mag(), (b.mag() - 1) as nat);
        }
        assert(x <= rounding::units((b.mag() - 1) as nat));
        assert(x * EXACT <= (EXACT - 1) * y) by (nonlinear_arith)
            requires
                y <= EXACT * (y - rounding::units((b.mag() - 1) as nat)),
                x <= rounding::units((b.mag() - 1) as nat),
        ;
        order::near_itself(less, 1);
        assert((x * one) * 1 <= less.value() * y) by (nonlinear_arith)
            requires
                less.value() == (EXACT - 1) * u,
                one == EXACT * u,
                x * EXACT <= (EXACT - 1) * y,
                u > 0,
        ;
        order::near_keeps_order(x * one, y as nat, less.value(), 1);
    }
}

/// An integer that a machine word holds is a finite number, also where it has to be rounded.
pub proof fn ints_are_finite(x: u64)
    ensures
        Scalar::of_int(x as nat).finite(),
        Scalar::of_int(x as nat).value() >= 0,
        Scalar::of_int(x as nat).rank() >= 0,
        rounds(Scalar::of_int(x as nat), x * scalar::one_unit(), 1),
        x > 0 ==> Scalar::of_int(x as nat).value() > 0 && Scalar::of_int(0).below(
            Scalar::of_int(x as nat),
        ),
{
    reveal(Scalar::of_int);
    lemma2_to64();
    let one = scalar::one_unit();
    lemma_pow2_pos(scalar::UNIT_EXPONENT as nat);
    lemma_pow2_adds(52, 1086);
    lemma_pow2_adds(64, scalar::UNIT_EXPONENT as nat);
    lemma2_to64_rest();
    assert(pow2(52) == BINADE);
    rounding::units_in_binade(pow2(52), 1086);
    let mag = (pow2(52) + 1086 * BINADE) as nat;
    let n = x * one;
    assert(n <= pow2(64) * one) by {
        lemma_mul_inequality(x as int, pow2(64) as int, one as int);
    }
    assert(0 <= n) by {
        lemma_mul_nonnegative(x as int, one as int);
    }
    rounding::round_mag_exact(mag, 1);
    rounding::round_mag_keeps_order(n as nat, 1, rounding::units(mag), 1);
    order::packed_rank(false, rounding::round_mag(n as nat, 1));
    zero_and_one();
    if x > 0 {
        lemma_mul_inequality(1, x as int, one as int);
        rounding::round_mag_keeps_order(one, 1, n as nat, 1);
        order::near_itself(Scalar::of_int(1), 1);
        order::order_is_order_of_values(Scalar::of_int(1), Scalar::of_int(x as nat));
    }
}

/// What is nearest does not depend on how a ratio is written.
pub proof fn near_of_equal_ratios(v: int, d: nat, w: int, e: nat)
    requires
        d > 0,
        e > 0,
        v * e == w * d,
    ensures
        order::near(v, d) == order::near(w, e),
{
    order::near_keeps_order(v, d, w, e);
    order::near_keeps_order(w, e, v, d);
}

/// A finite number over a count is the number nearest to its part.
pub proof fn part_of(a: Scalar, n: nat)
    requires
        a.finite(),
        0 < n < EXACT,
    ensures
        rounds(a.over(Scalar::of_int(n)), a.value(), n),
{
    order::int_is_exact(n);
    let b = Scalar::of_int(n);
    let one = scalar::one_unit() as int;
    lemma_mul_strictly_positive(n as int, one);
    order::over_is_near(a, b);
    let v = a.value();
    assert((v * one) * n == v * (n * one)) by (nonlinear_arith);
    near_of_equal_ratios(v * one, b.value() as nat, v, n);
}

/// Both are no numbers, or one is the other with its sign changed.
pub open spec fn turned(a: Scalar, b: Scalar) -> bool {
    a.nan() && b.nan() || opposite(a, b)
}

/// Sums and differences turn with their terms.
pub proof fn sums_turn(a: Scalar, b: Scalar, c: Scalar, d: Scalar)
    requires
        turned(a, c),
        turned(b, d),
    ensures
        turned(a.plus(b), c.plus(d)),
        turned(a.minus(b), c.minus(d)),
{
    nan_spreads(a, b);
    nan_spreads(c, d);
    if !a.nan() && !b.nan() {
        sums_turn_sign(a, b, c, d);
        sums_turn_sign(a, b.negated(), c, d.negated());
    }
}

/// Running sums turn with their terms.
pub proof fn running_sums_turn(a: Seq<Scalar>, b: Seq<Scalar>, k: int)
    requires
        k <= a.len() == b.len(),
        forall|i: int| 0 <= i < a.len() ==> turned(#[trigger] a[i], b[i]),
    ensures
        turned(linalg::running_sum(a, k), linalg::running_sum(b, k)),
    decreases k,
{
    zero_and_one();
    if k > 0 {
        running_sums_turn(a, b, k - 1);
        assert(turned(a[k - 1], b[k - 1]));
        sums_turn(
            linalg::running_sum(a, k - 1),
            a[k - 1],
            linalg::running_sum(b, k - 1),
            b[k - 1],
        );
    }
}

/// Parts turn with their wholes.
pub proof fn parts_turn(a: Scalar, b: Scalar, n: u64)
    requires
        turned(a, b),
        n > 0,
    ensures
        turned(a.over(Scalar::of_int(n as nat)), b.over(Scalar::of_int(n as nat))),
{
    let c = Scalar::of_int(n as nat);
    nan_spreads(a, c);
    nan_spreads(b, c);
    ints_are_finite(n);
    zero_and_one();
    if !a.nan() {
        quotients_turn_sign(a, c, b);
    }
}

/// Numbers that are not negative have a sum.
pub proof fn sum_is_a_number(a: Scalar, b: Scalar)
    requires
        !a.nan(),
        !b.nan(),
        a.rank() >= 0,
        b.rank() >= 0,
    ensures
        !a.plus(b).nan(),
{
    if a.finite() && b.finite() {
        order::plus_is_near(a, b);
    } else {
        reveal(Scalar::plus);
    }
}

/// Products turn with one of their factors.
pub proof fn products_turn(a: Scalar, b: Scalar, c: Scalar)
    requires
        turned(a, c),
    ensures
        turned(a.times(b), c.times(b)),
        turned(b.times(a), b.times(c)),
{
    nan_spreads(a, b);
    nan_spreads(b, a);
    nan_spreads(c, b);
    nan_spreads(b, c);
    if !a.nan() && !b.nan() {
        products_turn_sign(a, b, c);
    }
}

/// A sum in which only one term is not zero is that term.
pub proof fn a_single_term(terms: Seq<Scalar>, k: int, j: int)
    requires
        0 <= k <= terms.len(),
        0 <= j < terms.len(),
        !terms[j].nan(),
        forall|i: int| 0 <= i < k && i != j ==> (#[trigger] terms[i]).zero(),
    ensures
        j < k ==> linalg::running_sum(terms, k).level(terms[j]),
        k <= j ==> linalg::running_sum(terms, k).zero(),
    decreases k,
{
    zero_and_one();
    if k > 0 {
        a_single_term(terms, k - 1, j);
        let before = linalg::running_sum(terms, k - 1);
        if k - 1 == j {
            adding_nothing(terms[j], before);
        } else {
            assert(terms[k - 1].zero());
            adding_nothing(before, terms[k - 1]);
        }
    }
}

/// The order of factors does not matter.
pub proof fn factors_commute(a: Scalar, b: Scalar)
    ensures
        a.times(b) == b.times(a),
{
    reveal(Scalar::times);
    lemma_mul_is_commutative(a.count() as int, b.count() as int);
}

/// Exchanging the two sides of a difference turns it.
pub proof fn differences_turn(a: Scalar, b: Scalar)
    ensures
        turned(a.minus(b), b.minus(a)),
{
    nan_spreads(a, b);
    nan_spreads(b, a);
    if !a.nan() && !b.nan() {
        negated_is_opposite(a);
        negated_is_opposite(b);
        sums_turn(a, b.negated(), a.negated(), b);
        scalar::plus_commutes(a.negated(), b);
    }
}

/// Numbers that turn have the same magnitude, or none.
pub proof fn turned_magnitudes(a: Scalar, b: Scalar)
    requires
        turned(a, b),
    ensures
        a.nan() == b.nan(),
        !a.nan() ==> a.magnitude() == b.magnitude(),
{
    if !a.nan() {
        opposite_values(a, b);
    }
}

/// One half is a number of the format.
pub proof fn half_is_exact()
    ensures
        Scalar::of_ratio(1, 2).finite(),
        2 * Scalar::of_ratio(1, 2).value() == scalar::one_unit(),
{
    zero_and_one();
    let full = Scalar::of_int(1);
    let one = scalar::one_unit() as int;
    lemma2_to64();
    lemma2_to64_rest();
    lemma_pow2_strictly_increases(53, scalar::UNIT_EXPONENT as nat);
    assert(full.mag() >= EXACT);
    let half = Scalar { bits: (full.mag() - BINADE) as u64 };
    assert(2 * half.value() == one);
    part_of(full, 2);
    order::near_itself(half, 2);
    assert(half.value() * 2 == one);
    order::proper_ratio(1, 2);
    level_values(Scalar::of_ratio(1, 2), half);
}

/// What a machine word counts is far below the largest numbers.
pub proof fn words_are_small(x: u64)
    ensures
        Scalar::of_int(x as nat).mag() < 0x7fef_ffff_ffff_ffff,
{
    reveal(Scalar::of_int);
    lemma2_to64();
    lemma2_to64_rest();
    let one = scalar::one_unit();
    lemma_pow2_pos(scalar::UNIT_EXPONENT as nat);
    lemma_pow2_adds(52, 1086);
    lemma_pow2_adds(64, scalar::UNIT_EXPONENT as nat);
    assert(pow2(52) == BINADE);
    rounding::units_in_binade(pow2(52), 1086);
    let mag = (pow2(52) + 1086 * BINADE) as nat;
    let n = x * one;
    assert(0 <= n <= pow2(64) * one) by {
        lemma_mul_inequality(x as int, pow2(64) as int, one as int);
        lemma_mul_nonnegative(x as int, one as int);
    }
    rounding::round_mag_exact(mag, 1);
    rounding::round_mag_keeps_order(n as nat, 1, rounding::units(mag), 1);
    order::packed_rank(false, rounding::round_mag(n as nat, 1));
}

/// Minus a product, from the product of the number with its sign changed.
pub proof fn negated_product(a: Scalar, b: Scalar)
    ensures
        a.finite() && b.finite() ==> rounds(
            a.negated().times(b),
            -(a.value() * b.value()),
            scalar::one_unit(),
        ),
{
    if a.finite() && b.finite() {
        order::negated_value(a);
        order::times_is_near(a.negated(), b);
        let (x, y) = (a.value(), b.value());
        assert((-x) * y == -(x * y)) by (nonlinear_arith);
    }
}

} // verus!
