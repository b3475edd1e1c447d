//! Rounding of exact ratios to binary64, as mathematics.
//!
//! A magnitude is the bit pattern of a binary64 number without its sign bit. Read as an
//! integer, the pattern grows with the number it stands for, so the order of magnitudes is the
//! order of the numbers.

use vstd::arithmetic::div_mod::*;
use vstd::arithmetic::mul::*;
use vstd::arithmetic::power2::*;
use vstd::prelude::*;

verus! {

/// Size of one binade of bit patterns: 2 to the 52.
pub const BINADE: u64 = 0x0010_0000_0000_0000;

/// Where the spacing of numbers first doubles: 2 to the 53.
pub const EXACT: u64 = 0x0020_0000_0000_0000;

/// The bit pattern of positive infinity.
pub const INFINITE: u64 = 0x7ff0_0000_0000_0000;

/// The number that a magnitude stands for, counted in units of the smallest positive number
/// (2 to the minus 1074). Below `EXACT` neighbours are one unit apart; each further binade
/// doubles the spacing.
pub open spec fn units(mag: nat) -> nat
    decreases mag,
{
    if mag < EXACT {
        mag
    } else {
        2 * units((mag - BINADE) as nat)
    }
}

/// `n / d` rounded to the nearest integer, a tie going to the even one.
pub open spec fn half_even(n: nat, d: nat) -> nat {
    let q = n / d;
    let r = n % d;
    if 2 * r < d || (2 * r == d && q % 2 == 0) {
        q
    } else {
        q + 1
    }
}

/// The magnitude nearest to `n / d` units, a tie going to the even pattern, if the exponent had
/// no upper limit.
pub open spec fn round_mag(n: nat, d: nat) -> nat
    decreases n - d,
{
    if d == 0 || n < EXACT * d {
        half_even(n, d)
    } else {
        round_mag(n, 2 * d) + BINADE as nat
    }
}

/// Rounding a ratio does not depend on how the ratio is written.
pub proof fn half_even_scale(n: nat, d: nat, k: nat)
    requires
        d > 0,
        k > 0,
    ensures
        half_even(n * k, d * k) == half_even(n, d),
        d * k > 0,
{
    let q = n / d;
    let r = n % d;
    lemma_fundamental_div_mod(n as int, d as int);
    lemma_mul_strictly_positive(d as int, k as int);
    assert(n * k == q * (d * k) + r * k) by (nonlinear_arith)
        requires
            n == d * q + r,
    ;
    assert(0 <= r * k < d * k) by (nonlinear_arith)
        requires
            0 <= r < d,
            k > 0,
    ;
    lemma_fundamental_div_mod_converse((n * k) as int, (d * k) as int, q as int, (r * k) as int);
    assert((2 * r < d <==> 2 * (r * k) < d * k) && (2 * r == d <==> 2 * (r * k) == d * k))
        by (nonlinear_arith)
        requires
            k > 0,
    ;
}

/// In the binade where the ratio lies, rounding is rounding to a multiple of that binade's spacing.
pub proof fn round_mag_in_binade(n: nat, d: nat, j: nat)
    requires
        d > 0,
        n < EXACT * pow2(j) * d,
        j > 0 ==> BINADE * pow2(j) * d <= n,
    ensures
        round_mag(n, d) == half_even(n, d * pow2(j)) + j * BINADE,
    decreases j,
{
    if j == 0 {
        lemma2_to64();
        assert(EXACT * pow2(j) * d == EXACT * d);
    } else {
        lemma_pow2_unfold(j);
        let h = pow2((j - 1) as nat);
        lemma_pow2_pos((j - 1) as nat);
        assert(EXACT * d <= n) by (nonlinear_arith)
            requires
                BINADE * (2 * h) * d <= n,
                h >= 1,
                d > 0,
                EXACT == 2 * BINADE,
                BINADE > 0,
        ;
        assert(EXACT * h * (2 * d) == EXACT * (2 * h) * d) by (nonlinear_arith);
        assert(BINADE * h * (2 * d) == BINADE * (2 * h) * d) by (nonlinear_arith);
        round_mag_in_binade(n, 2 * d, (j - 1) as nat);
        assert((2 * d) * h == d * (2 * h)) by (nonlinear_arith);
        assert((j - 1) * BINADE + BINADE == j * BINADE) by (nonlinear_arith);
    }
}

/// `round_mag` does not depend on how the ratio is written.
pub proof fn round_mag_scale(n: nat, d: nat, k: nat)
    requires
        d > 0,
        k > 0,
    ensures
        round_mag(n * k, d * k) == round_mag(n, d),
        d * k > 0,
    decreases n - d,
{
    lemma_mul_strictly_positive(d as int, k as int);
    assert(n < EXACT * d <==> n * k < EXACT * (d * k)) by (nonlinear_arith)
        requires
            k > 0,
    ;
    if n < EXACT * d {
        half_even_scale(n, d, k);
    } else {
        round_mag_scale(n, 2 * d, k);
        assert((2 * d) * k == 2 * (d * k)) by (nonlinear_arith);
    }
}

/// A magnitude whose pattern is `j` binades above `m` stands for `m` doubled `j` times.
pub proof fn units_in_binade(m: nat, j: nat)
    requires
        m <= EXACT,
        j > 0 ==> BINADE <= m,
    ensures
        units((m + j * BINADE) as nat) == m * pow2(j),
    decreases j,
{
    if j == 0 {
        lemma2_to64();
        assert(m + j * BINADE == m);
        if m == EXACT {
            assert(units((m - BINADE) as nat) == BINADE);
        }
    } else {
        assert(j * BINADE == (j - 1) * BINADE + BINADE) by (nonlinear_arith);
        units_in_binade(m, (j - 1) as nat);
        lemma_pow2_unfold(j);
        let h = pow2((j - 1) as nat);
        assert(m * (2 * h) == 2 * (m * h)) by (nonlinear_arith);
        assert(0 <= (j - 1) * BINADE) by (nonlinear_arith)
            requires
                j >= 1,
        ;
        assert(m + j * BINADE >= EXACT);
    }
}

/// An odd integer stands in for every ratio strictly between its even neighbours: both round
/// the same way to any multiple of four or a higher power of two.
pub proof fn half_even_stand_in(n: nat, d: nat, p: nat, s: nat)
    requires
        d > 0,
        s >= 2,
        p % 2 == 1,
        d * (p - 1) < n < d * (p + 1),
    ensures
        half_even(n, d * pow2(s)) == half_even(p, pow2(s)),
{
    let w = pow2(s);
    let h = pow2((s - 1) as nat);
    lemma_pow2_unfold(s);
    lemma_pow2_unfold((s - 1) as nat);
    lemma_pow2_pos((s - 2) as nat);
    lemma_pow2_pos(s);
    let g = pow2((s - 2) as nat);
    assert(w == 2 * h && h == 2 * g);
    let q = p / w;
    let r = p % w;
    lemma_fundamental_div_mod(p as int, w as int);
    assert(p == q * w + r) by (nonlinear_arith)
        requires
            p == w * q + r,
    ;
    assert(q * w == 2 * (q * h)) by (nonlinear_arith)
        requires
            w == 2 * h,
    ;
    assert(r % 2 == 1);
    assert(1 <= r && r + 1 <= w);
    lemma_mul_strictly_positive(d as int, w as int);
    let t = n - q * (d * w);
    assert(q * (d * w) == d * (q * w)) by (nonlinear_arith);
    assert(d * (r - 1) < t < d * (r + 1)) by (nonlinear_arith)
        requires
            t == n - d * (q * w),
            d * (p - 1) < n < d * (p + 1),
            p == q * w + r,
    ;
    assert(0 <= d * (r - 1)) by (nonlinear_arith)
        requires
            r >= 1,
            d > 0,
    ;
    assert(d * (r + 1) <= d * w) by (nonlinear_arith)
        requires
            r + 1 <= w,
            d > 0,
    ;
    lemma_fundamental_div_mod_converse(n as int, (d * w) as int, q as int, t);
    assert(d * w == 2 * (d * h)) by (nonlinear_arith)
        requires
            w == 2 * h,
    ;
    if r < h {
        assert(d * (r + 1) <= d * h) by (nonlinear_arith)
            requires
                r + 1 <= h,
                d > 0,
        ;
    } else {
        assert(r != h);
        assert(d * h <= d * (r - 1)) by (nonlinear_arith)
            requires
                h <= r - 1,
                d > 0,
        ;
    }
}

/// `n / d` with the power of two `2^e` taken out, as a numerator.
pub open spec fn scaled_num(n: nat, e: int) -> nat {
    if e >= 0 {
        n
    } else {
        n * pow2((-e) as nat)
    }
}

/// `n / d` with the power of two `2^e` taken out, as a denominator.
pub open spec fn scaled_den(d: nat, e: int) -> nat {
    if e >= 0 {
        d * pow2(e as nat)
    } else {
        d
    }
}

/// `p * 2^e` is `n / d`, or `p` is odd, long enough, and `n / d` lies strictly between the two
/// even neighbours of `p`, times `2^e`.
pub open spec fn stands_for(p: nat, e: int, n: nat, d: nat) -> bool {
    let num = scaled_num(n, e);
    let den = scaled_den(d, e);
    ||| num == den * p
    ||| p % 2 == 1 && p >= 2 * EXACT && den * (p - 1) < num < den * (p + 1)
}

/// A product of two powers of two, as one power.
proof fn pow2_sum(a: nat, b: nat)
    ensures
        pow2(a) * pow2(b) == pow2(a + b),
        pow2(a) > 0,
        pow2(b) > 0,
{
    lemma_pow2_adds(a, b);
    lemma_pow2_pos(a);
    lemma_pow2_pos(b);
}

/// Powers of two grow with the exponent.
proof fn pow2_le(a: nat, b: nat)
    requires
        a <= b,
    ensures
        pow2(a) <= pow2(b),
{
    if a < b {
        lemma_pow2_strictly_increases(a, b);
    }
}

/// Rounding `p * 2^e` needs only the length of `p` in bits, one shift and a final rounding.
pub proof fn round_mag_of_stand_in(p: nat, e: int, n: nat, d: nat, l: nat, j: nat)
    requires
        d > 0,
        l >= 1,
        pow2((l - 1) as nat) <= p < pow2(l),
        stands_for(p, e, n, d),
        j == (if l + e > 53 {
            l + e - 53
        } else {
            0
        }),
    ensures
        round_mag(n, d) == j * BINADE + (if j >= e {
            half_even(p, pow2((j - e) as nat))
        } else {
            p * pow2((e - j) as nat)
        }),
        j > 0 ==> half_even(n, d * pow2(j)) >= BINADE,
        half_even(n, d * pow2(j)) <= EXACT,
        round_mag(n, d) == j * BINADE + half_even(n, d * pow2(j)),
{
    let num = scaled_num(n, e);
    let den = scaled_den(d, e);
    let lo = pow2((l - 1) as nat);
    let hi = pow2(l);
    let exact = num == den * p;
    lemma_pow2_unfold(l);
    lemma_pow2_pos(j);
    assert(pow2(52) == BINADE && pow2(53) == EXACT && pow2(54) == 2 * EXACT) by {
        lemma2_to64_rest();
    }
    if e >= 0 {
        lemma_pow2_pos(e as nat);
        lemma_mul_strictly_positive(d as int, pow2(e as nat) as int);
    } else {
        lemma_pow2_pos((-e) as nat);
    }
    if !exact {
        if l < 55 {
            pow2_le(l, 54);
        }
        lemma_pow2_unfold((l - 1) as nat);
        assert(p != lo);
        assert(p + 1 <= hi);
    }
    assert(den * lo <= num < den * hi) by {
        if exact {
            assert(den * lo <= den * p < den * hi) by (nonlinear_arith)
                requires
                    lo <= p < hi,
                    den > 0,
            ;
        } else {
            assert(den * lo <= den * (p - 1) && den * (p + 1) <= den * hi) by (nonlinear_arith)
                requires
                    lo <= p - 1,
                    p + 1 <= hi,
                    den > 0,
            ;
        }
    }
    // The ratio lies in binade `j`.
    pow2_sum(53, j);
    pow2_sum(52, j);
    assert(n < EXACT * pow2(j) * d) by {
        if e >= 0 {
            pow2_sum(e as nat, l);
            pow2_le((l + e) as nat, 53 + j);
            assert(n < pow2(53 + j) * d) by (nonlinear_arith)
                requires
                    n < (d * pow2(e as nat)) * hi,
                    pow2(e as nat) * hi <= pow2(53 + j),
                    d > 0,
            ;
        } else {
            pow2_sum(53 + j, (-e) as nat);
            pow2_le(l, (53 + j - e) as nat);
            assert(n < pow2(53 + j) * d) by (nonlinear_arith)
                requires
                    n * pow2((-e) as nat) < d * hi,
                    pow2(53 + j) * pow2((-e) as nat) >= hi,
                    d > 0,
                    pow2((-e) as nat) > 0,
            ;
        }
    }
    if j > 0 {
        assert(BINADE * pow2(j) * d <= n) by {
            if e >= 0 {
                pow2_sum(e as nat, (l - 1) as nat);
                assert(pow2(52 + j) * d <= n) by (nonlinear_arith)
                    requires
                        (d * pow2(e as nat)) * lo <= n,
                        pow2(e as nat) * lo == pow2(52 + j),
                ;
            } else {
                pow2_sum(52 + j, (-e) as nat);
                assert(pow2(52 + j) * d <= n) by (nonlinear_arith)
                    requires
                        d * lo <= n * pow2((-e) as nat),
                        pow2(52 + j) * pow2((-e) as nat) == lo,
                        pow2((-e) as nat) > 0,
                ;
            }
        }
    }
    round_mag_in_binade(n, d, j);
    half_even_bounds(n, d, j);
    // Rounding in that binade, seen from `p`.
    let dj = d * pow2(j);
    lemma_mul_strictly_positive(d as int, pow2(j) as int);
    if j >= e {
        let s = (j - e) as nat;
        lemma_pow2_pos(s);
        if e < 0 {
            let k = pow2((-e) as nat);
            half_even_scale(n, dj, k);
            pow2_sum(j, (-e) as nat);
            assert(dj * k == d * pow2(s)) by (nonlinear_arith)
                requires
                    dj == d * pow2(j),
                    pow2(j) * k == pow2(s),
            ;
        } else {
            pow2_sum(e as nat, s);
            assert(dj == den * pow2(s)) by (nonlinear_arith)
                requires
                    dj == d * pow2(j),
                    den == d * pow2(e as nat),
                    pow2(e as nat) * pow2(s) == pow2(j),
            ;
        }
        assert(half_even(n, dj) == half_even(num, den * pow2(s)));
        if exact {
            half_even_scale(p, pow2(s), den);
            assert(p * den == num) by (nonlinear_arith)
                requires
                    num == den * p,
            ;
            assert(pow2(s) * den == den * pow2(s)) by (nonlinear_arith);
        } else {
            half_even_stand_in(num, den, p, s);
        }
    } else {
        assert(exact);
        let g = pow2((e - j) as nat);
        let v = p * g;
        half_even_scale(v, 1, dj);
        pow2_sum(j, (e - j) as nat);
        assert(v * dj == n) by (nonlinear_arith)
            requires
                v == p * g,
                dj == d * pow2(j),
                pow2(j) * g == pow2(e as nat),
                n == (d * pow2(e as nat)) * p,
        ;
        assert(1 * dj == dj);
    }
}

/// Rounding in binade `j` gives a significand of that binade, or the first one above it.
proof fn half_even_bounds(n: nat, d: nat, j: nat)
    requires
        d > 0,
        n < EXACT * pow2(j) * d,
        j > 0 ==> BINADE * pow2(j) * d <= n,
    ensures
        half_even(n, d * pow2(j)) <= EXACT,
        j > 0 ==> half_even(n, d * pow2(j)) >= BINADE,
{
    lemma_pow2_pos(j);
    let dj = d * pow2(j);
    lemma_mul_strictly_positive(d as int, pow2(j) as int);
    let q = n / dj;
    lemma_fundamental_div_mod(n as int, dj as int);
    assert(EXACT * pow2(j) * d == EXACT * dj) by (nonlinear_arith)
        requires
            dj == d * pow2(j),
    ;
    assert(BINADE * pow2(j) * d == BINADE * dj) by (nonlinear_arith)
        requires
            dj == d * pow2(j),
    ;
    assert(q < EXACT) by (nonlinear_arith)
        requires
            n < EXACT * dj,
            dj * q <= n,
            dj > 0,
    ;
    if j > 0 {
        assert(q >= BINADE) by (nonlinear_arith)
            requires
                BINADE * dj <= n,
                n < dj * q + dj,
                dj > 0,
        ;
    }
}

/// A larger magnitude stands for a larger number.
pub proof fn units_increase(a: nat, b: nat)
    requires
        a < b,
    ensures
        units(a) < units(b),
    decreases b,
{
    if b >= EXACT {
        if a < EXACT {
            assert(units(BINADE as nat) == BINADE);
            if b - BINADE > BINADE {
                units_increase(BINADE as nat, (b - BINADE) as nat);
            }
        } else {
            units_increase((a - BINADE) as nat, (b - BINADE) as nat);
        }
    }
}

/// With one divisor, `half_even` keeps order.
proof fn half_even_keeps_order(a: nat, b: nat, d: nat)
    requires
        d > 0,
        a <= b,
    ensures
        half_even(a, d) <= half_even(b, d),
{
    lemma_div_is_ordered(a as int, b as int, d as int);
    lemma_fundamental_div_mod(a as int, d as int);
    lemma_fundamental_div_mod(b as int, d as int);
}

/// A number of the format rounds to itself.
pub proof fn round_mag_exact(m: nat, k: nat)
    requires
        k > 0,
    ensures
        round_mag(units(m) * k, k) == m,
    decreases m,
{
    let n = units(m) * k;
    if m < EXACT {
        assert(n < EXACT * k) by (nonlinear_arith)
            requires
                n == m * k,
                m < EXACT,
                k > 0,
        ;
        lemma_div_multiples_vanish(m as int, k as int);
        lemma_mod_multiples_basic(m as int, k as int);
        lemma_mul_is_commutative(m as int, k as int);
    } else {
        let u = units((m - BINADE) as nat);
        if m - BINADE > BINADE {
            units_increase(BINADE as nat, (m - BINADE) as nat);
        }
        assert(n >= EXACT * k && n == u * (2 * k)) by (nonlinear_arith)
            requires
                n == (2 * u) * k,
                u >= BINADE,
                EXACT == 2 * BINADE,
                k > 0,
        ;
        round_mag_exact((m - BINADE) as nat, 2 * k);
    }
}

/// Rounding keeps order: a smaller ratio does not round to a larger magnitude.
pub proof fn round_mag_keeps_order(n1: nat, d1: nat, n2: nat, d2: nat)
    requires
        d1 > 0,
        d2 > 0,
        n1 * d2 <= n2 * d1,
    ensures
        round_mag(n1, d1) <= round_mag(n2, d2),
    decreases n2 - d2,
{
    if n2 < EXACT * d2 {
        assert(n1 < EXACT * d1) by (nonlinear_arith)
            requires
                n1 * d2 <= n2 * d1,
                n2 < EXACT * d2,
                d1 > 0,
                d2 > 0,
        ;
        half_even_scale(n1, d1, d2);
        half_even_scale(n2, d2, d1);
        lemma_mul_is_commutative(d1 as int, d2 as int);
        half_even_keeps_order(n1 * d2, n2 * d1, d1 * d2);
    } else {
        assert(n2 >= 2 * d2) by (nonlinear_arith)
            requires
                n2 >= EXACT * d2,
        ;
        if n1 < EXACT * d1 {
            lemma_fundamental_div_mod(n1 as int, d1 as int);
            assert(n1 / d1 < EXACT) by (nonlinear_arith)
                requires
                    n1 == d1 * (n1 / d1) + n1 % d1,
                    0 <= n1 % d1,
                    n1 < EXACT * d1,
                    d1 > 0,
            ;
            assert(BINADE * (2 * d2) <= n2) by (nonlinear_arith)
                requires
                    n2 >= EXACT * d2,
                    EXACT == 2 * BINADE,
            ;
            round_mag_exact(BINADE as nat, 1);
            round_mag_keeps_order(BINADE as nat, 1, n2, 2 * d2);
        } else {
            assert(n1 * (2 * d2) <= n2 * (2 * d1)) by (nonlinear_arith)
                requires
                    n1 * d2 <= n2 * d1,
            ;
            round_mag_keeps_order(n1, 2 * d1, n2, 2 * d2);
        }
    }
}

/// How far a magnitude is from `n / d` units, times `d`.
pub open spec fn distance(mag: nat, n: nat, d: nat) -> nat {
    (if units(mag) * d >= n {
        units(mag) * d - n
    } else {
        n - units(mag) * d
    }) as nat
}

/// Rounding errs by at most half a unit, or else by at most half of what the last place counts.
pub proof fn round_mag_error(n: nat, d: nat)
    requires
        d > 0,
    ensures
        ({
            let e = distance(round_mag(n, d), n, d);
            2 * e <= d || 2 * e * BINADE <= n
        }),
    decreases n - d,
{
    let m = round_mag(n, d);
    if n < EXACT * d {
        let q = n / d;
        let r = n % d;
        lemma_fundamental_div_mod(n as int, d as int);
        lemma_mod_bound(n as int, d as int);
        assert(q < EXACT) by (nonlinear_arith)
            requires
                n == d * q + r,
                r >= 0,
                n < EXACT * d,
                d > 0,
        ;
        if m == EXACT {
            assert(units(BINADE as nat) == BINADE);
        }
        assert(units(m) == m);
        assert((q + 1) * d == d * q + d && q * d == d * q) by (nonlinear_arith);
    } else {
        let m2 = round_mag(n, 2 * d);
        round_mag_error(n, 2 * d);
        round_mag_exact(BINADE as nat, 2 * d);
        assert(units(BINADE as nat) == BINADE);
        assert((BINADE * (2 * d)) * (2 * d) <= n * (2 * d)) by (nonlinear_arith)
            requires
                EXACT * d <= n,
                EXACT == 2 * BINADE,
                d > 0,
        ;
        round_mag_keeps_order((BINADE * (2 * d)) as nat, 2 * d, n, 2 * d);
        assert(m2 >= BINADE);
        assert(units(m) == 2 * units(m2));
        let u = units(m2);
        assert((2 * u) * d == u * (2 * d)) by (nonlinear_arith);
        let e = distance(m, n, d);
        if 2 * e <= 2 * d {
            assert(2 * e * BINADE <= n) by (nonlinear_arith)
                requires
                    2 * e <= 2 * d,
                    EXACT * d <= n,
                    EXACT == 2 * BINADE,
            ;
        }
    }
}

} // verus!
