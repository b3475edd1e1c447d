//! Numbers in the binary64 format, computed bit for bit on integers.
//!
//! Every operation gives the number that IEEE 754 prescribes (round to nearest, ties to even),
//! so a run can be repeated exactly on any machine.

use crate::rounding;
use crate::rounding::{BINADE, EXACT, INFINITE};
use vstd::arithmetic::div_mod::*;
use vstd::arithmetic::mul::*;
use vstd::arithmetic::power2::*;
use vstd::prelude::*;

verus! {

/// The weight of the sign bit.
pub const SIGN: u64 = 0x8000_0000_0000_0000;

/// The bit pattern that an invalid operation gives.
pub const INVALID: u64 = 0x7ff8_0000_0000_0000;

/// The unit of magnitudes is 2 to the minus this.
pub const UNIT_EXPONENT: u32 = 1074;

/// A number in the binary64 format, held as its bit pattern. `==` compares patterns; the
/// methods `equals`, `lt`, `le`, `gt` and `ge` compare numbers.
#[derive(Clone, Copy, Debug, PartialEq, Eq, Structural)]
pub struct Scalar {
    pub bits: u64,
}

/// The number one unit stands for is `1 / one_unit()`.
pub open spec fn one_unit() -> nat {
    pow2(UNIT_EXPONENT as nat)
}

/// The number with sign `neg` and magnitude `mag`; magnitudes beyond the largest finite one
/// become infinite.
pub open spec fn packed(neg: bool, mag: nat) -> Scalar {
    let m = if mag < INFINITE {
        mag
    } else {
        INFINITE as nat
    };
    Scalar {
        bits: (m + if neg {
            SIGN as nat
        } else {
            0
        }) as u64,
    }
}

/// The number nearest to `n / d` units, negated if `neg`.
pub open spec fn nearest(neg: bool, n: nat, d: nat) -> Scalar {
    packed(neg, rounding::round_mag(n, d))
}

/// The greatest integer whose square is at most `n`.
pub open spec fn floor_root(n: nat) -> nat {
    choose|r: nat| r * r <= n < #[trigger] ((r + 1) * (r + 1))
}

impl Scalar {
    /// The pattern without the sign bit.
    pub open spec fn mag(self) -> nat {
        if self.bits >= SIGN {
            (self.bits - SIGN) as nat
        } else {
            self.bits as nat
        }
    }

    /// The sign bit is set.
    pub open spec fn neg(self) -> bool {
        self.bits >= SIGN
    }

    /// Not a number.
    pub open spec fn nan(self) -> bool {
        self.mag() > INFINITE
    }

    /// Plus or minus infinity.
    pub open spec fn infinite(self) -> bool {
        self.mag() == INFINITE
    }

    /// Neither infinite nor not a number.
    pub open spec fn finite(self) -> bool {
        self.mag() < INFINITE
    }

    /// Plus or minus zero.
    pub open spec fn zero(self) -> bool {
        self.mag() == 0
    }

    /// The magnitude of a finite number, in units.
    pub open spec fn count(self) -> nat {
        rounding::units(self.mag())
    }

    /// A finite number, in units.
    pub open spec fn value(self) -> int {
        if self.neg() {
            -(self.count() as int)
        } else {
            self.count() as int
        }
    }

    /// Where the number stands in the order of all numbers; both zeros stand at 0.
    pub open spec fn rank(self) -> int {
        if self.neg() {
            -(self.mag() as int)
        } else {
            self.mag() as int
        }
    }

    /// `self < other`, as numbers.
    pub open spec fn below(self, other: Scalar) -> bool {
        !self.nan() && !other.nan() && self.rank() < other.rank()
    }

    /// `self <= other`, as numbers.
    pub open spec fn at_most(self, other: Scalar) -> bool {
        !self.nan() && !other.nan() && self.rank() <= other.rank()
    }

    /// `self == other`, as numbers.
    pub open spec fn level(self, other: Scalar) -> bool {
        !self.nan() && !other.nan() && self.rank() == other.rank()
    }

    /// One with the sign of the number.
    pub open spec fn sign(self) -> Scalar {
        if self.nan() {
            Scalar { bits: INVALID }
        } else if self.neg() {
            Scalar::of_int(1).negated()
        } else {
            Scalar::of_int(1)
        }
    }

    /// The number with the other sign.
    pub open spec fn negated(self) -> Scalar {
        Scalar {
            bits: if self.bits >= SIGN {
                (self.bits - SIGN) as u64
            } else {
                (self.bits + SIGN) as u64
            },
        }
    }

    /// The number without its sign.
    pub open spec fn magnitude(self) -> Scalar {
        Scalar { bits: self.mag() as u64 }
    }

    /// `self + other`.
    #[verifier::opaque]
    pub open spec fn plus(self, other: Scalar) -> Scalar {
        if self.nan() || other.nan() {
            Scalar { bits: INVALID }
        } else if self.infinite() {
            if other.infinite() && self.neg() != other.neg() {
                Scalar { bits: INVALID }
            } else {
                self
            }
        } else if other.infinite() {
            other
        } else {
            let sum = self.value() + other.value();
            if sum == 0 {
                packed(self.neg() && other.neg(), 0)
            } else if sum < 0 {
                nearest(true, (-sum) as nat, 1)
            } else {
                nearest(false, sum as nat, 1)
            }
        }
    }

    /// `self - other`.
    pub open spec fn minus(self, other: Scalar) -> Scalar {
        self.plus(other.negated())
    }

    /// `self * other`.
    #[verifier::opaque]
    pub open spec fn times(self, other: Scalar) -> Scalar {
        let neg = self.neg() != other.neg();
        if self.nan() || other.nan() {
            Scalar { bits: INVALID }
        } else if self.infinite() || other.infinite() {
            if self.zero() || other.zero() {
                Scalar { bits: INVALID }
            } else {
                packed(neg, INFINITE as nat)
            }
        } else {
            nearest(neg, self.count() * other.count(), one_unit())
        }
    }

    /// `self / other`.
    #[verifier::opaque]
    pub open spec fn over(self, other: Scalar) -> Scalar {
        let neg = self.neg() != other.neg();
        if self.nan() || other.nan() {
            Scalar { bits: INVALID }
        } else if self.infinite() {
            if other.infinite() {
                Scalar { bits: INVALID }
            } else {
                packed(neg, INFINITE as nat)
            }
        } else if other.infinite() {
            packed(neg, 0)
        } else if other.zero() {
            if self.zero() {
                Scalar { bits: INVALID }
            } else {
                packed(neg, INFINITE as nat)
            }
        } else {
            nearest(neg, self.count() * one_unit(), other.count())
        }
    }

    /// The number nearest to the integer `x`.
    #[verifier::opaque]
    pub open spec fn of_int(x: nat) -> Scalar {
        nearest(false, x * one_unit(), 1)
    }

    /// The number nearest to `x / y`.
    pub open spec fn of_ratio(x: nat, y: nat) -> Scalar {
        Scalar::of_int(x).over(Scalar::of_int(y))
    }

    /// The integer part, kept within `u64`; 0 for what is negative or not a number.
    #[verifier::opaque]
    pub open spec fn whole(self) -> u64 {
        if self.nan() || self.neg() {
            0
        } else if self.infinite() || self.count() / one_unit() > u64::MAX {
            u64::MAX
        } else {
            (self.count() / one_unit()) as u64
        }
    }

    /// The square root. With the integer part of the root of the count in units squared, an
    /// inexact root rounds as half a unit above its integer part does: numbers of that size are
    /// many units apart.
    #[verifier::opaque]
    pub open spec fn root(self) -> Scalar {
        if self.nan() || (self.neg() && !self.zero()) {
            Scalar { bits: INVALID }
        } else if self.infinite() || self.zero() {
            self
        } else {
            let square = self.count() * one_unit();
            let whole = floor_root(square);
            nearest(
                false,
                2 * whole + if whole * whole == square {
                    0nat
                } else {
                    1nat
                },
                2,
            )
        }
    }

    /// The greater of two numbers; what is not a number gives way.
    pub open spec fn greater(self, other: Scalar) -> Scalar {
        if self.nan() || self.below(other) {
            other
        } else {
            self
        }
    }

    /// The lesser of two numbers; what is not a number gives way.
    pub open spec fn lesser(self, other: Scalar) -> Scalar {
        if self.nan() || other.below(self) {
            other
        } else {
            self
        }
    }

    /// The number moved into the range from `lo` to `hi`.
    pub open spec fn within(self, lo: Scalar, hi: Scalar) -> Scalar {
        if self.below(lo) {
            lo
        } else if hi.below(self) {
            hi
        } else {
            self
        }
    }
}

// ---------------------------------------------------------------------------------------------
// Rounding on machine integers.
// ---------------------------------------------------------------------------------------------

/// A power of two.
fn two_to(s: u32) -> (r: u128)
    requires
        s <= 126,
    ensures
        r == pow2(s as nat),
{
    proof {
        lemma2_to64();
        lemma2_to64_rest();
    }
    if s < 64 {
        proof {
            vstd::bits::lemma_u64_pow2_no_overflow(s as nat);
            vstd::bits::lemma_u64_shl_is_mul(1, s as u64);
        }
        (1u64 << (s as u64)) as u128
    } else {
        let h: u32 = s - 64;
        proof {
            vstd::bits::lemma_u64_pow2_no_overflow(h as nat);
            vstd::bits::lemma_u64_shl_is_mul(1, h as u64);
            lemma_pow2_adds(64, h as nat);
            assert(0x1_0000_0000_0000_0000 * pow2(h as nat) <= u128::MAX) by (nonlinear_arith)
                requires
                    pow2(h as nat) <= 0xffff_ffff_ffff_ffff,
            ;
        }
        0x1_0000_0000_0000_0000u128 * ((1u64 << (h as u64)) as u128)
    }
}

/// The number of bits that a positive integer takes.
fn bit_length(p: u128) -> (l: u32)
    requires
        0 < p < 0x4000_0000_0000_0000_0000_0000_0000_0000,
    ensures
        1 <= l <= 126,
        pow2((l - 1) as nat) <= p < pow2(l as nat),
{
    proof {
        lemma2_to64();
        lemma2_to64_rest();
        lemma_pow2_adds(64, 62);
    }
    let mut l: u32 = if p >= 0x10_0000_0000_0000 {
        53
    } else {
        1
    };
    let mut w: u128 = if p >= 0x10_0000_0000_0000 {
        0x20_0000_0000_0000
    } else {
        2
    };
    while w <= p
        invariant
            p < 0x4000_0000_0000_0000_0000_0000_0000_0000,
            pow2(126) == 0x4000_0000_0000_0000_0000_0000_0000_0000,
            1 <= l <= 126,
            w == pow2(l as nat),
            pow2((l - 1) as nat) <= p,
        decreases 126 - l,
    {
        proof {
            lemma_pow2_unfold((l + 1) as nat);
            if l >= 126 {
                assert(false);
            }
        }
        w = w * 2;
        l = l + 1;
    }
    l
}

/// `p / 2^s`, rounded to the nearest integer.
fn shifted(p: u128, s: u32) -> (m: u128)
    requires
        p < 0x4000_0000_0000_0000_0000_0000_0000_0000,
    ensures
        m == rounding::half_even(p as nat, pow2(s as nat)),
        m <= p + 1,
{
    proof {
        lemma2_to64();
        lemma2_to64_rest();
        lemma_pow2_adds(64, 62);
        lemma_pow2_pos(s as nat);
    }
    if s > 126 {
        proof {
            lemma_pow2_strictly_increases(126, s as nat);
            lemma_pow2_unfold(s as nat);
            if s > 127 {
                lemma_pow2_strictly_increases(126, (s - 1) as nat);
            }
            lemma_small_mod(p as nat, pow2(s as nat));
            lemma_basic_div(p as int, pow2(s as nat) as int);
        }
        return 0;
    }
    let w = two_to(s);
    let q = p / w;
    let r = p % w;
    proof {
        lemma_div_is_ordered_by_denominator(p as int, 1, w as int);
        lemma_div_basics(p as int);
        assert(w <= pow2(126)) by {
            if s < 126 {
                lemma_pow2_strictly_increases(s as nat, 126);
            }
        }
    }
    if 2 * r < w || (2 * r == w && q % 2 == 0) {
        q
    } else {
        q + 1
    }
}

/// The magnitude nearest to `p * 2^e` units, or to the ratio that `p * 2^e` stands for.
fn round_scaled(p: u128, e: i32, Ghost(n): Ghost<nat>, Ghost(d): Ghost<nat>) -> (mag: u64)
    requires
        0 < p < 0x4000_0000_0000_0000_0000_0000_0000_0000,
        -4000 <= e <= 4000,
        d > 0,
        rounding::stands_for(p as nat, e as int, n, d),
    ensures
        mag == (if rounding::round_mag(n, d) < INFINITE {
            rounding::round_mag(n, d)
        } else {
            INFINITE as nat
        }),
{
    let l = bit_length(p);
    let t: i32 = l as i32 + e;
    let j: i32 = if t > 53 {
        t - 53
    } else {
        0
    };
    proof {
        rounding::round_mag_of_stand_in(p as nat, e as int, n, d, l as nat, j as nat);
    }
    if j >= 2046 {
        assert(j * BINADE + BINADE >= INFINITE) by (nonlinear_arith)
            requires
                j >= 2046,
        ;
        return INFINITE;
    }
    let m: u128 = if j >= e {
        shifted(p, (j - e) as u32)
    } else {
        let g: u32 = (e - j) as u32;
        proof {
            // The shifted integer fits in 53 bits, so the shift is short.
            if g > 126 {
                lemma_pow2_strictly_increases(126, g as nat);
                lemma2_to64();
                lemma2_to64_rest();
                lemma_pow2_adds(64, 62);
                assert(p * pow2(g as nat) > EXACT) by (nonlinear_arith)
                    requires
                        p >= 1,
                        pow2(g as nat) > EXACT,
                ;
            }
        }
        let w = two_to(g);
        assert(p * w <= EXACT);
        p * w
    };
    assert(m <= EXACT);
    assert(j * BINADE <= 2045 * BINADE) by (nonlinear_arith)
        requires
            j <= 2045,
    ;
    let mag: u64 = m as u64 + (j as u64) * BINADE;
    if mag < INFINITE {
        mag
    } else {
        INFINITE
    }
}

/// The number with a given sign and magnitude.
fn pack(neg: bool, mag: u64) -> (r: Scalar)
    requires
        mag <= INFINITE,
    ensures
        r == packed(neg, mag as nat),
{
    if neg {
        Scalar { bits: mag + SIGN }
    } else {
        Scalar { bits: mag }
    }
}

/// A product of two powers of two, as one power.
proof fn pow2_sum(a: nat, b: nat)
    ensures
        pow2(a) * pow2(b) == pow2(a + b),
        pow2(a) > 0,
        pow2(b) > 0,
{
    lemma_pow2_adds(a, b);
    lemma_pow2_pos(a);
    lemma_pow2_pos(b);
}

/// Rounding zero gives zero.
proof fn round_mag_zero(d: nat)
    requires
        d > 0,
    ensures
        rounding::round_mag(0, d) == 0,
{
    assert(0 < EXACT * d) by (nonlinear_arith)
        requires
            d > 0,
            EXACT > 0,
    ;
    lemma_basic_div(0, d as int);
    lemma_small_mod(0, d);
}

/// Taking a product of two numbers apart.
proof fn product_stands(ma: nat, ea: nat, mb: nat, eb: nat)
    ensures
        rounding::stands_for(
            ma * mb,
            ea + eb - UNIT_EXPONENT,
            (ma * pow2(ea)) * (mb * pow2(eb)),
            one_unit(),
        ),
{
    let e = ea + eb - UNIT_EXPONENT;
    let n = (ma * pow2(ea)) * (mb * pow2(eb));
    let u = one_unit();
    let p = ma * mb;
    pow2_sum(ea, eb);
    assert(n == p * pow2(ea + eb)) by (nonlinear_arith)
        requires
            n == (ma * pow2(ea)) * (mb * pow2(eb)),
            p == ma * mb,
            pow2(ea) * pow2(eb) == pow2(ea + eb),
    ;
    if e >= 0 {
        pow2_sum(UNIT_EXPONENT as nat, e as nat);
        assert(n == (u * pow2(e as nat)) * p) by (nonlinear_arith)
            requires
                n == p * pow2(ea + eb),
                u * pow2(e as nat) == pow2(ea + eb),
        ;
    } else {
        pow2_sum(ea + eb, (-e) as nat);
        assert(n * pow2((-e) as nat) == u * p) by (nonlinear_arith)
            requires
                n == p * pow2(ea + eb),
                pow2(ea + eb) * pow2((-e) as nat) == u,
        ;
    }
}

/// Taking a quotient of two numbers apart: `a` is `ma` shifted up by `k` bits, and `q` and `r`
/// are quotient and remainder of `a * 2^64` by `mb`.
proof fn quotient_stands(
    ma: nat,
    ea: nat,
    k: nat,
    mb: nat,
    eb: nat,
    q: nat,
    r: nat,
    p: nat,
    e: int,
)
    requires
        mb > 0,
        (ma * pow2(k)) * pow2(64) == q * mb + r,
        r < mb,
        p == 2 * q + (if r == 0 {
            0nat
        } else {
            1nat
        }),
        q >= EXACT,
        e == ea - k + UNIT_EXPONENT - eb - 65,
    ensures
        rounding::stands_for(p, e, (ma * pow2(ea)) * one_unit(), mb * pow2(eb)),
{
    let n = (ma * pow2(ea)) * one_unit();
    let d = mb * pow2(eb);
    let num = rounding::scaled_num(n, e);
    let den = rounding::scaled_den(d, e);
    let x = (ma * pow2(k)) * pow2(64);
    lemma_pow2_unfold(65);
    pow2_sum(k, 65);
    pow2_sum(ea, UNIT_EXPONENT as nat);
    assert(num * mb == den * (2 * x)) by {
        let s1 = pow2(ea);
        let s2 = one_unit();
        let w1 = pow2(ea + UNIT_EXPONENT as nat);
        let w2 = pow2(k + 65);
        assert(n == ma * w1) by (nonlinear_arith)
            requires
                n == (ma * s1) * s2,
                s1 * s2 == w1,
        ;
        assert(2 * x == ma * w2) by (nonlinear_arith)
            requires
                x == (ma * pow2(k)) * pow2(64),
                pow2(65) == 2 * pow2(64),
                pow2(k) * pow2(65) == w2,
        ;
        if e >= 0 {
            pow2_sum(eb, e as nat);
            pow2_sum((eb + e) as nat, k + 65);
            let w3 = pow2((eb + e) as nat);
            assert(den == mb * w3) by (nonlinear_arith)
                requires
                    den == (mb * pow2(eb)) * pow2(e as nat),
                    pow2(eb) * pow2(e as nat) == w3,
            ;
            assert((ma * w1) * mb == (mb * w3) * (ma * w2)) by (nonlinear_arith)
                requires
                    w3 * w2 == w1,
            ;
        } else {
            let w4 = pow2((-e) as nat);
            pow2_sum(ea + UNIT_EXPONENT as nat, (-e) as nat);
            pow2_sum(eb, k + 65);
            assert(((ma * w1) * w4) * mb == (mb * pow2(eb)) * (ma * w2)) by (nonlinear_arith)
                requires
                    w1 * w4 == pow2(eb) * w2,
            ;
        }
    }
    if e >= 0 {
        lemma_pow2_pos(e as nat);
        lemma_mul_strictly_positive(mb as int, pow2(eb) as int);
        lemma_mul_strictly_positive(d as int, pow2(e as nat) as int);
    }
    lemma_pow2_pos(eb);
    lemma_mul_strictly_positive(mb as int, pow2(eb) as int);
    assert(den > 0);
    if r == 0 {
        assert(num == den * p) by (nonlinear_arith)
            requires
                num * mb == den * (2 * x),
                x == q * mb,
                p == 2 * q,
                mb > 0,
        ;
    } else {
        assert(den * (2 * q) < num < den * (2 * q + 2)) by (nonlinear_arith)
            requires
                num * mb == den * (2 * x),
                x == q * mb + r,
                0 < r < mb,
                den > 0,
        ;
        assert(den * (p - 1) == den * (2 * q));
        assert(den * (p + 1) == den * (2 * q + 2));
    }
}

impl Scalar {
    /// The number with the bit pattern `bits`.
    pub fn from_bits(bits: u64) -> (r: Scalar)
        ensures
            r.bits == bits,
    {
        Scalar { bits }
    }

    /// The bit pattern of the number.
    pub fn to_bits(self) -> (r: u64)
        ensures
            r == self.bits,
    {
        self.bits
    }

    /// The bit pattern without the sign.
    fn mag_bits(self) -> (r: u64)
        ensures
            r == self.mag(),
    {
        if self.bits >= SIGN {
            self.bits - SIGN
        } else {
            self.bits
        }
    }

    /// Significand and exponent: the number of units is `m * 2^e`.
    fn parts(self) -> (r: (u64, u32))
        requires
            self.finite(),
        ensures
            self.count() == r.0 * pow2(r.1 as nat),
            r.0 < EXACT,
            r.1 <= 2045,
            r.1 > 0 ==> r.0 >= BINADE,
            r.0 == 0 <==> self.zero(),
    {
        let mag = self.mag_bits();
        if mag < EXACT {
            proof {
                lemma2_to64();
            }
            (mag, 0)
        } else {
            let e: u64 = mag / BINADE - 1;
            let m: u64 = mag % BINADE + BINADE;
            proof {
                lemma_fundamental_div_mod(mag as int, BINADE as int);
                assert(mag == m + e * BINADE) by (nonlinear_arith)
                    requires
                        mag == BINADE * (e + 1) + (m - BINADE),
                ;
                rounding::units_in_binade(m as nat, e as nat);
            }
            (m, e as u32)
        }
    }

    /// Whether the number is not a number.
    pub fn is_nan(self) -> (r: bool)
        ensures
            r == self.nan(),
    {
        self.mag_bits() > INFINITE
    }

    /// Whether the number is plus or minus infinity.
    pub fn is_infinite(self) -> (r: bool)
        ensures
            r == self.infinite(),
    {
        self.mag_bits() == INFINITE
    }

    /// Whether the number is neither infinite nor not a number.
    pub fn is_finite(self) -> (r: bool)
        ensures
            r == self.finite(),
    {
        self.mag_bits() < INFINITE
    }

    /// Whether `self < other`.
    pub fn lt(self, other: Scalar) -> (r: bool)
        ensures
            r == self.below(other),
    {
        let a = self.mag_bits();
        let b = other.mag_bits();
        if a > INFINITE || b > INFINITE {
            return false;
        }
        if self.bits >= SIGN {
            if other.bits >= SIGN {
                b < a
            } else {
                a > 0 || b > 0
            }
        } else {
            other.bits < SIGN && a < b
        }
    }

    /// Whether `self <= other`.
    pub fn le(self, other: Scalar) -> (r: bool)
        ensures
            r == self.at_most(other),
    {
        !self.is_nan() && !other.is_nan() && !other.lt(self)
    }

    /// Whether `self > other`.
    pub fn gt(self, other: Scalar) -> (r: bool)
        ensures
            r == other.below(self),
    {
        other.lt(self)
    }

    /// Whether `self >= other`.
    pub fn ge(self, other: Scalar) -> (r: bool)
        ensures
            r == other.at_most(self),
    {
        other.le(self)
    }

    /// `self == other`, as numbers.
    pub fn equals(self, other: Scalar) -> (r: bool)
        ensures
            r == self.level(other),
    {
        self.le(other) && other.le(self)
    }

    /// One with the sign of the number.
    pub fn signum(self) -> (r: Scalar)
        ensures
            r == self.sign(),
    {
        if self.is_nan() {
            Scalar { bits: INVALID }
        } else if self.bits >= SIGN {
            Scalar::from_u64(1).neg_of()
        } else {
            Scalar::from_u64(1)
        }
    }

    /// The number with the other sign.
    pub fn neg_of(self) -> (r: Scalar)
        ensures
            r == self.negated(),
    {
        if self.bits >= SIGN {
            Scalar { bits: self.bits - SIGN }
        } else {
            Scalar { bits: self.bits + SIGN }
        }
    }

    /// The number without its sign.
    pub fn abs(self) -> (r: Scalar)
        ensures
            r == self.magnitude(),
    {
        Scalar { bits: self.mag_bits() }
    }

    /// The greater of two numbers; what is not a number gives way.
    pub fn max(self, other: Scalar) -> (r: Scalar)
        ensures
            r == self.greater(other),
    {
        if self.is_nan() || self.lt(other) {
            other
        } else {
            self
        }
    }

    /// The lesser of two numbers; what is not a number gives way.
    pub fn min(self, other: Scalar) -> (r: Scalar)
        ensures
            r == self.lesser(other),
    {
        if self.is_nan() || other.lt(self) {
            other
        } else {
            self
        }
    }

    /// The number moved into the range from `lo` to `hi`.
    pub fn clamp(self, lo: Scalar, hi: Scalar) -> (r: Scalar)
        requires
            lo.at_most(hi),
        ensures
            r == self.within(lo, hi),
    {
        if self.lt(lo) {
            lo
        } else if hi.lt(self) {
            hi
        } else {
            self
        }
    }

    /// The product of two numbers.
    pub fn mul(self, other: Scalar) -> (r: Scalar)
        ensures
            r == self.times(other),
    {
        proof {
            reveal(Scalar::times);
        }
        let neg = (self.bits >= SIGN) != (other.bits >= SIGN);
        if self.is_nan() || other.is_nan() {
            return Scalar { bits: INVALID };
        }
        if self.is_infinite() || other.is_infinite() {
            if self.mag_bits() == 0 || other.mag_bits() == 0 {
                return Scalar { bits: INVALID };
            }
            return pack(neg, INFINITE);
        }
        let (ma, ea) = self.parts();
        let (mb, eb) = other.parts();
        if ma == 0 || mb == 0 {
            proof {
                lemma_pow2_pos(UNIT_EXPONENT as nat);
                round_mag_zero(one_unit());
                assert(self.count() == 0 || other.count() == 0);
                assert(self.count() * other.count() == 0) by (nonlinear_arith)
                    requires
                        self.count() == 0 || other.count() == 0,
                ;
            }
            return pack(neg, 0);
        }
        proof {
            assert(0 < ma * mb < EXACT * EXACT) by (nonlinear_arith)
                requires
                    0 < ma < EXACT,
                    0 < mb < EXACT,
            ;
            product_stands(ma as nat, ea as nat, mb as nat, eb as nat);
            lemma_pow2_pos(UNIT_EXPONENT as nat);
        }
        let p: u128 = (ma as u128) * (mb as u128);
        let e: i32 = ea as i32 + eb as i32 - UNIT_EXPONENT as i32;
        let mag = round_scaled(p, e, Ghost(self.count() * other.count()), Ghost(one_unit()));
        pack(neg, mag)
    }

    /// The quotient of two numbers.
    pub fn div(self, other: Scalar) -> (r: Scalar)
        ensures
            r == self.over(other),
    {
        proof {
            reveal(Scalar::over);
        }
        let neg = (self.bits >= SIGN) != (other.bits >= SIGN);
        if self.is_nan() || other.is_nan() {
            return Scalar { bits: INVALID };
        }
        if self.is_infinite() {
            if other.is_infinite() {
                return Scalar { bits: INVALID };
            }
            return pack(neg, INFINITE);
        }
        if other.is_infinite() {
            return pack(neg, 0);
        }
        let (ma, ea) = self.parts();
        let (mb, eb) = other.parts();
        if mb == 0 {
            if ma == 0 {
                return Scalar { bits: INVALID };
            }
            return pack(neg, INFINITE);
        }
        proof {
            lemma_pow2_pos(eb as nat);
            lemma_mul_strictly_positive(mb as int, pow2(eb as nat) as int);
        }
        if ma == 0 {
            proof {
                round_mag_zero(other.count());
                assert(self.count() * one_unit() == 0) by (nonlinear_arith)
                    requires
                        self.count() == 0,
                ;
            }
            return pack(neg, 0);
        }
        let la = bit_length(ma as u128);
        proof {
            lemma2_to64();
            lemma2_to64_rest();
            if la > 53 {
                if la > 54 {
                    lemma_pow2_strictly_increases(53, (la - 1) as nat);
                }
                assert(false);
            }
            pow2_sum((la - 1) as nat, (53 - la) as nat);
            pow2_sum(la as nat, (53 - la) as nat);
        }
        let k: u32 = 53 - la;
        let w = two_to(k);
        proof {
            assert(BINADE <= ma * w < EXACT) by (nonlinear_arith)
                requires
                    pow2((la - 1) as nat) <= ma < pow2(la as nat),
                    pow2((la - 1) as nat) * w == BINADE,
                    pow2(la as nat) * w == EXACT,
                    w > 0,
            ;
        }
        let a: u128 = (ma as u128) * w;
        let num: u128 = a * 0x1_0000_0000_0000_0000;
        let den: u128 = mb as u128;
        let q: u128 = num / den;
        let r: u128 = num % den;
        proof {
            lemma_fundamental_div_mod(num as int, den as int);
            assert(num == q * den + r) by (nonlinear_arith)
                requires
                    num == den * q + r,
            ;
            assert(q >= EXACT) by (nonlinear_arith)
                requires
                    num == q * den + r,
                    r < den,
                    den < EXACT,
                    num >= BINADE * 0x1_0000_0000_0000_0000,
            ;
            assert(q <= num) by (nonlinear_arith)
                requires
                    num == q * den + r,
                    den >= 1,
                    r >= 0,
                    q >= 0,
            ;
        }
        let p: u128 = if r == 0 {
            2 * q
        } else {
            2 * q + 1
        };
        let e: i32 = ea as i32 - k as i32 + UNIT_EXPONENT as i32 - eb as i32 - 65;
        proof {
            quotient_stands(
                ma as nat,
                ea as nat,
                k as nat,
                mb as nat,
                eb as nat,
                q as nat,
                r as nat,
                p as nat,
                e as int,
            );
        }
        let mag = round_scaled(p, e, Ghost(self.count() * one_unit()), Ghost(other.count()));
        pack(neg, mag)
    }
}

/// The sum of `±mx * 2^ex` and `±my * 2^ey`, `ex >= ey`, with the exponents close together.
proof fn close_sum_stands(mx: int, ex: nat, my: int, ey: nat, p: int)
    requires
        ex >= ey,
        p == mx * pow2((ex - ey) as nat) + my,
        p >= 0,
    ensures
        mx * pow2(ex) + my * pow2(ey) >= 0,
        rounding::stands_for(
            p as nat,
            ey as int,
            (mx * pow2(ex) + my * pow2(ey)) as nat,
            1,
        ),
{
    let w = pow2((ex - ey) as nat);
    pow2_sum((ex - ey) as nat, ey);
    assert(mx * pow2(ex) + my * pow2(ey) == pow2(ey) * p) by (nonlinear_arith)
        requires
            p == mx * w + my,
            w * pow2(ey) == pow2(ex),
    ;
    assert(pow2(ey) * p >= 0) by (nonlinear_arith)
        requires
            p >= 0,
            pow2(ey) > 0,
    ;
    assert(1 * pow2(ey) == pow2(ey));
}

/// The sum of `mx * 2^ex` and `±my * 2^ey` with the exponents far apart: the second term only
/// decides to which side of the first the sum lies.
proof fn far_sum_stands(mx: int, ex: nat, my: int, ey: nat, p: int)
    requires
        ex > ey + 60,
        BINADE <= mx < EXACT,
        -EXACT < my < EXACT,
        p == 256 * mx + (if my == 0 {
            0int
        } else if my > 0 {
            1int
        } else {
            -1int
        }),
    ensures
        mx * pow2(ex) + my * pow2(ey) > 0,
        rounding::stands_for(
            p as nat,
            ex - 8,
            (mx * pow2(ex) + my * pow2(ey)) as nat,
            1,
        ),
{
    let e = (ex - 8) as nat;
    let g = pow2(e);
    let y = my * pow2(ey);
    pow2_sum(8, e);
    lemma_pow2_pos(ey);
    lemma2_to64();
    lemma2_to64_rest();
    assert(mx * pow2(ex) == g * (256 * mx)) by (nonlinear_arith)
        requires
            256 * g == pow2(ex),
    ;
    assert(-g < y < g) by {
        pow2_sum(53, ey);
        if 53 + ey < e {
            lemma_pow2_strictly_increases(53 + ey, e);
        }
        assert(-(EXACT * pow2(ey)) < y < EXACT * pow2(ey)) by (nonlinear_arith)
            requires
                -EXACT < my < EXACT,
                y == my * pow2(ey),
                pow2(ey) > 0,
        ;
    }
    let n = mx * pow2(ex) + y;
    assert(g * (256 * mx) >= g) by (nonlinear_arith)
        requires
            mx >= 1,
            g > 0,
    ;
    assert(1 * g == g);
    if my == 0 {
        assert(y == 0) by (nonlinear_arith)
            requires
                my == 0,
                y == my * pow2(ey),
        ;
        assert(n == g * p);
    } else {
        assert(my > 0 ==> y > 0) by (nonlinear_arith)
            requires
                y == my * pow2(ey),
                pow2(ey) > 0,
        ;
        assert(my < 0 ==> y < 0) by (nonlinear_arith)
            requires
                y == my * pow2(ey),
                pow2(ey) > 0,
        ;
        let t = 256 * mx;
        assert(g * (t + 2) == g * t + 2 * g) by (nonlinear_arith);
        assert(g * (t - 2) == g * t - 2 * g) by (nonlinear_arith);
        if my > 0 {
            assert(g * (p - 1) == g * t);
            assert(g * (p + 1) == g * (t + 2));
        } else {
            assert(g * (p - 1) == g * (t - 2));
            assert(g * (p + 1) == g * t);
        }
        assert(p % 2 == 1);
    }
}

/// A signed significand times a power of two is a finite number.
proof fn signed_parts(a: Scalar, m: nat, e: nat, x: int)
    requires
        a.count() == m * pow2(e),
        x == (if a.neg() {
            -(m as int)
        } else {
            m as int
        }),
    ensures
        a.value() == x * pow2(e),
        m == 0 ==> a.value() == 0,
{
    if a.neg() {
        assert(-(m * pow2(e)) == x * pow2(e)) by (nonlinear_arith)
            requires
                x == -(m as int),
        ;
    }
    assert(m == 0 ==> m * pow2(e) == 0) by (nonlinear_arith);
}

/// The sum of two finite numbers, the first with the greater exponent.
fn ordered_sum(a: Scalar, b: Scalar, ma: u64, ea: u32, mb: u64, eb: u32) -> (r: Scalar)
    requires
        a.finite(),
        b.finite(),
        a.count() == ma * pow2(ea as nat),
        b.count() == mb * pow2(eb as nat),
        ma < EXACT,
        mb < EXACT,
        eb <= ea <= 2045,
        ea > 0 ==> ma >= BINADE,
    ensures
        r == a.plus(b),
{
    let a_neg = a.bits >= SIGN;
    let b_neg = b.bits >= SIGN;
    let x: i128 = if a_neg {
        -(ma as i128)
    } else {
        ma as i128
    };
    let y: i128 = if b_neg {
        -(mb as i128)
    } else {
        mb as i128
    };
    let gap: u32 = ea - eb;
    proof {
        reveal(Scalar::plus);
        signed_parts(a, ma as nat, ea as nat, x as int);
        signed_parts(b, mb as nat, eb as nat, y as int);
        lemma2_to64();
        lemma2_to64_rest();
    }
    if gap <= 60 {
        let w = two_to(gap);
        proof {
            if gap < 60 {
                lemma_pow2_strictly_increases(gap as nat, 60);
            }
            lemma_pow2_pos(gap as nat);
            assert(-(EXACT * pow2(60)) <= x * w <= EXACT * pow2(60)) by (nonlinear_arith)
                requires
                    -EXACT < x < EXACT,
                    0 < w <= pow2(60),
            ;
        }
        let sum: i128 = x * (w as i128) + y;
        let p: u128 = if sum < 0 {
            (-sum) as u128
        } else {
            sum as u128
        };
        if sum == 0 {
            proof {
                pow2_sum(gap as nat, eb as nat);
                assert(x * pow2(ea as nat) + y * pow2(eb as nat) == 0) by (nonlinear_arith)
                    requires
                        x * w + y == 0,
                        w * pow2(eb as nat) == pow2(ea as nat),
                ;
            }
            return pack(a_neg && b_neg, 0);
        }
        let ghost total = a.value() + b.value();
        let ghost n = if total < 0 {
            (-total) as nat
        } else {
            total as nat
        };
        proof {
            lemma_pow2_pos(eb as nat);
            if sum < 0 {
                assert(p == (-x) * w + (-y)) by (nonlinear_arith)
                    requires
                        p == -(x * w + y),
                ;
                close_sum_stands(-x as int, ea as nat, -y as int, eb as nat, p as int);
                assert((-x) * pow2(ea as nat) + (-y) * pow2(eb as nat) == -total) by (nonlinear_arith)
                    requires
                        total == x * pow2(ea as nat) + y * pow2(eb as nat),
                ;
            } else {
                close_sum_stands(x as int, ea as nat, y as int, eb as nat, p as int);
            }
            assert(n > 0) by {
                if n == 0 {
                    pow2_sum(gap as nat, eb as nat);
                    assert(x * w + y == 0) by (nonlinear_arith)
                        requires
                            x * pow2(ea as nat) + y * pow2(eb as nat) == 0,
                            w * pow2(eb as nat) == pow2(ea as nat),
                            pow2(eb as nat) > 0,
                    ;
                }
            }
        }
        let mag = round_scaled(p, eb as i32, Ghost(n), Ghost(1nat));
        return pack(sum < 0, mag);
    }
    let same = a_neg == b_neg;
    let p: u128 = if mb == 0 {
        256 * (ma as u128)
    } else if same {
        256 * (ma as u128) + 1
    } else {
        256 * (ma as u128) - 1
    };
    let ghost total = a.value() + b.value();
    let ghost n = if total < 0 {
        (-total) as nat
    } else {
        total as nat
    };
    proof {
        if a_neg {
            far_sum_stands(ma as int, ea as nat, -y as int, eb as nat, p as int);
            assert(ma * pow2(ea as nat) + (-y) * pow2(eb as nat) == -total) by (nonlinear_arith)
                requires
                    total == x * pow2(ea as nat) + y * pow2(eb as nat),
                    x == -(ma as int),
            ;
        } else {
            far_sum_stands(ma as int, ea as nat, y as int, eb as nat, p as int);
        }
    }
    let mag = round_scaled(p, ea as i32 - 8, Ghost(n), Ghost(1nat));
    pack(a_neg, mag)
}

impl Scalar {
    /// The sum of two numbers.
    pub fn add(self, other: Scalar) -> (r: Scalar)
        ensures
            r == self.plus(other),
    {
        if !self.is_finite() || !other.is_finite() {
            proof {
                reveal(Scalar::plus);
            }
            if self.is_nan() || other.is_nan() {
                return Scalar { bits: INVALID };
            }
            if self.is_infinite() {
                if other.is_infinite() && (self.bits >= SIGN) != (other.bits >= SIGN) {
                    return Scalar { bits: INVALID };
                }
                return self;
            }
            return other;
        }
        let (ma, ea) = self.parts();
        let (mb, eb) = other.parts();
        if ea >= eb {
            ordered_sum(self, other, ma, ea, mb, eb)
        } else {
            proof {
                plus_commutes(self, other);
            }
            ordered_sum(other, self, mb, eb, ma, ea)
        }
    }

    /// The difference of two numbers.
    pub fn sub(self, other: Scalar) -> (r: Scalar)
        ensures
            r == self.minus(other),
    {
        self.add(other.neg_of())
    }

    /// The number nearest to an integer.
    pub fn from_u64(x: u64) -> (r: Scalar)
        ensures
            r == Scalar::of_int(x as nat),
    {
        proof {
            reveal(Scalar::of_int);
            lemma_pow2_pos(UNIT_EXPONENT as nat);
        }
        if x == 0 {
            proof {
                round_mag_zero(1);
                assert(0 * one_unit() == 0);
            }
            return Scalar { bits: 0 };
        }
        proof {
            assert(x * one_unit() == (1 * one_unit()) * x) by (nonlinear_arith);
        }
        let mag = round_scaled(
            x as u128,
            UNIT_EXPONENT as i32,
            Ghost((x * one_unit()) as nat),
            Ghost(1nat),
        );
        pack(false, mag)
    }

    /// The number nearest to `x / y`.
    pub fn ratio(x: u64, y: u64) -> (r: Scalar)
        ensures
            r == Scalar::of_ratio(x as nat, y as nat),
    {
        Scalar::from_u64(x).div(Scalar::from_u64(y))
    }

    /// The integer part, kept within `u64`; 0 for what is negative or not a number.
    pub fn to_u64(self) -> (r: u64)
        ensures
            r == self.whole(),
    {
        proof {
            reveal(Scalar::whole);
            lemma_pow2_pos(UNIT_EXPONENT as nat);
            lemma2_to64();
            lemma2_to64_rest();
        }
        if self.is_nan() || self.bits >= SIGN {
            return 0;
        }
        if self.is_infinite() {
            return u64::MAX;
        }
        let (m, e) = self.parts();
        let ghost c = self.count();
        let ghost u = one_unit();
        if e >= UNIT_EXPONENT {
            let g: u32 = e - UNIT_EXPONENT;
            proof {
                pow2_sum(g as nat, UNIT_EXPONENT as nat);
                assert(c == (m * pow2(g as nat)) * u) by (nonlinear_arith)
                    requires
                        c == m * pow2(e as nat),
                        pow2(g as nat) * u == pow2(e as nat),
                ;
                lemma_div_multiples_vanish((m * pow2(g as nat)) as int, u as int);
                assert((m * pow2(g as nat)) * u == u * (m * pow2(g as nat))) by (nonlinear_arith);
            }
            if g >= 12 {
                proof {
                    if g > 12 {
                        lemma_pow2_strictly_increases(12, g as nat);
                    }
                    assert(m * pow2(g as nat) > u64::MAX) by (nonlinear_arith)
                        requires
                            m >= BINADE,
                            pow2(g as nat) >= 4096,
                    ;
                }
                return u64::MAX;
            }
            let w = two_to(g);
            proof {
                lemma_pow2_strictly_increases(g as nat, 12);
                assert(m * w <= EXACT * 4096) by (nonlinear_arith)
                    requires
                        0 <= m < EXACT,
                        0 <= w <= 4096,
                ;
            }
            let v: u128 = (m as u128) * w;
            if v > u64::MAX as u128 {
                u64::MAX
            } else {
                v as u64
            }
        } else {
            let s: u32 = UNIT_EXPONENT - e;
            proof {
                pow2_sum(e as nat, s as nat);
                lemma_pow2_pos(s as nat);
                lemma_pow2_pos(e as nat);
                lemma_div_denominator(c as int, pow2(e as nat) as int, pow2(s as nat) as int);
                lemma_div_multiples_vanish(m as int, pow2(e as nat) as int);
                assert(pow2(e as nat) * m == c) by (nonlinear_arith)
                    requires
                        c == m * pow2(e as nat),
                ;
                assert(c / u == m as nat / pow2(s as nat));
            }
            if s > 53 {
                proof {
                    lemma_pow2_strictly_increases(53, s as nat);
                    lemma_basic_div(m as int, pow2(s as nat) as int);
                }
                return 0;
            }
            let w = two_to(s);
            proof {
                lemma_div_is_ordered_by_denominator(m as int, 1, w as int);
                lemma_div_basics(m as int);
            }
            ((m as u128) / w) as u64
        }
    }
}

/// The sum does not depend on the order of its terms, not-a-number patterns aside.
pub proof fn plus_commutes(a: Scalar, b: Scalar)
    ensures
        a.plus(b) == b.plus(a),
{
    reveal(Scalar::plus);
}

/// There is only one integer that can be the integer part of a root.
proof fn floor_root_is(n: nat, r: nat)
    requires
        r * r <= n < (r + 1) * (r + 1),
    ensures
        floor_root(n) == r,
{
    let c = floor_root(n);
    assert(c * c <= n < (c + 1) * (c + 1));
    assert(c == r) by (nonlinear_arith)
        requires
            r * r <= n < (r + 1) * (r + 1),
            c * c <= n < (c + 1) * (c + 1),
            c >= 0,
            r >= 0,
    ;
}

/// Every integer has an integer part of its root.
pub(crate) proof fn floor_root_exists(n: nat) -> (r: nat)
    ensures
        r * r <= n < (r + 1) * (r + 1),
        floor_root(n) == r,
    decreases n,
{
    if n == 0 {
        assert(0 * 0 <= n < (0 + 1) * (0 + 1)) by (nonlinear_arith)
            requires
                n == 0,
        ;
        floor_root_is(0, 0);
        0
    } else {
        let c = floor_root_exists((n - 1) as nat);
        let r = if (c + 1) * (c + 1) <= n {
            c + 1
        } else {
            c
        };
        assert(r * r <= n < (r + 1) * (r + 1)) by (nonlinear_arith)
            requires
                c * c <= n - 1 < (c + 1) * (c + 1),
                r == (if (c + 1) * (c + 1) <= n {
                    c + 1
                } else {
                    c
                }),
                c >= 0,
        ;
        floor_root_is(n, r);
        r
    }
}

/// The integer part of the square root.
fn whole_root(a: u128) -> (r: u64)
    requires
        a < 0x400_0000_0000_0000_0000_0000_0000_0000,
    ensures
        r < 0x2000_0000_0000_0000,
        r as nat * r as nat <= a,
        a < (r + 1) * (r + 1),
{
    let mut r: u128 = 0;
    let mut step: u128 = 0x2000_0000_0000_0000;
    let mut left: u32 = 61;
    assert(0x2000_0000_0000_0000 * 0x2000_0000_0000_0000 == 0x400_0000_0000_0000_0000_0000_0000_0000);
    proof {
        lemma2_to64();
        lemma2_to64_rest();
    }
    while left > 0
        invariant
            left <= 61,
            step == pow2(left as nat),
            step <= 0x2000_0000_0000_0000,
            r + step <= 0x2000_0000_0000_0000,
            r * r <= a,
            a < (r + step) * (r + step),
        decreases left,
    {
        proof {
            lemma_pow2_unfold(left as nat);
        }
        step = step / 2;
        let t: u128 = r + step;
        assert(t * t <= 0x2000_0000_0000_0000 * 0x2000_0000_0000_0000) by (nonlinear_arith)
            requires
                0 <= t <= 0x2000_0000_0000_0000,
        ;
        if t * t <= a {
            r = t;
        }
        left = left - 1;
    }
    proof {
        lemma2_to64();
        assert(step == 1);
    }
    r as u64
}

/// A root computed from the leading bits of the square stands for the root.
proof fn root_stands(square: nat, a: nat, h: nat, r0: nat, p: nat)
    requires
        square == a * pow2(2 * h),
        h >= 1,
        r0 * r0 <= a < (r0 + 1) * (r0 + 1),
        r0 >= EXACT,
        p == 2 * r0 + (if r0 * r0 == a {
            0nat
        } else {
            1nat
        }),
    ensures
        rounding::stands_for(
            p,
            h - 1,
            2 * floor_root(square) + (if floor_root(square) * floor_root(square) == square {
                0nat
            } else {
                1nat
            }),
            2,
        ),
{
    let w = pow2(h);
    pow2_sum(h, h);
    assert(pow2(2 * h) == w * w);
    lemma_pow2_unfold(h);
    assert(2 * pow2((h - 1) as nat) == w);
    let whole = floor_root_exists(square);
    let low = r0 * w;
    let high = (r0 + 1) * w;
    assert(low * low == (r0 * r0) * (w * w)) by (nonlinear_arith)
        requires
            low == r0 * w,
    ;
    assert(high * high == ((r0 + 1) * (r0 + 1)) * (w * w)) by (nonlinear_arith)
        requires
            high == (r0 + 1) * w,
    ;
    assert(w * w > 0) by (nonlinear_arith)
        requires
            w > 0,
    ;
    assert((r0 * r0) * (w * w) <= a * (w * w)) by (nonlinear_arith)
        requires
            r0 * r0 <= a,
            w * w > 0,
    ;
    assert(a * (w * w) < ((r0 + 1) * (r0 + 1)) * (w * w)) by (nonlinear_arith)
        requires
            a < (r0 + 1) * (r0 + 1),
            w * w > 0,
    ;
    assert(low <= whole && whole < high) by (nonlinear_arith)
        requires
            low * low <= square,
            square < high * high,
            whole * whole <= square,
            square < (whole + 1) * (whole + 1),
            low >= 0,
            high >= 0,
            whole >= 0,
    ;
    assert(high == low + w) by (nonlinear_arith)
        requires
            low == r0 * w,
            high == (r0 + 1) * w,
    ;
    assert(w * (2 * r0) == 2 * low) by (nonlinear_arith)
        requires
            low == r0 * w,
    ;
    if r0 * r0 == a {
        assert(low * low <= square < (low + 1) * (low + 1)) by (nonlinear_arith)
            requires
                low * low == square,
                low >= 0,
        ;
        floor_root_is(square, low);
    } else {
        assert((r0 * r0) * (w * w) < a * (w * w)) by (nonlinear_arith)
            requires
                r0 * r0 < a,
                w * w > 0,
        ;
        assert(w * (2 * r0 + 2) == 2 * high) by (nonlinear_arith)
            requires
                high == (r0 + 1) * w,
        ;
        assert(w * (p - 1) == 2 * low);
        assert(w * (p + 1) == 2 * high);
    }
}

impl Scalar {
    /// The square root of a number.
    pub fn sqrt(self) -> (r: Scalar)
        ensures
            r == self.root(),
    {
        proof {
            reveal(Scalar::root);
            lemma2_to64();
            lemma2_to64_rest();
        }
        if self.is_nan() || (self.bits >= SIGN && self.mag_bits() != 0) {
            return Scalar { bits: INVALID };
        }
        if self.is_infinite() || self.mag_bits() == 0 {
            return self;
        }
        let (m, e) = self.parts();
        let l = bit_length(m as u128);
        proof {
            if l > 53 {
                if l > 54 {
                    lemma_pow2_strictly_increases(53, (l - 1) as nat);
                }
                assert(false);
            }
        }
        // Shift the significand to 121 or 122 bits so that an even power of two remains.
        let odd: u32 = (e + UNIT_EXPONENT + 121 - l + 2) % 2;
        let k: u32 = 121 - l + odd;
        let w = two_to(k);
        proof {
            pow2_sum((l - 1) as nat, k as nat);
            pow2_sum(l as nat, k as nat);
            lemma_pow2_adds(60, 60);
            lemma_pow2_adds(61, 61);
            lemma_pow2_adds(60, 61);
            assert(pow2(120) <= m * w < pow2(122)) by (nonlinear_arith)
                requires
                    pow2((l - 1) as nat) <= m < pow2(l as nat),
                    w > 0,
                    pow2((l - 1) as nat) * w == pow2(120) || pow2((l - 1) as nat) * w == pow2(121),
                    pow2(l as nat) * w == pow2(121) || pow2(l as nat) * w == pow2(122),
                    pow2(120) <= pow2(121) <= pow2(122),
            ;
        }
        let a: u128 = (m as u128) * w;
        let r0 = whole_root(a);
        let sq: u128 = (r0 as u128) * (r0 as u128);
        let p: u128 = if sq == a {
            2 * (r0 as u128)
        } else {
            2 * (r0 as u128) + 1
        };
        let h: u32 = (e + UNIT_EXPONENT - k) / 2;
        proof {
            assert(2 * h == e + UNIT_EXPONENT - k);
            assert(r0 >= EXACT) by (nonlinear_arith)
                requires
                    a < (r0 + 1) * (r0 + 1),
                    a >= 0x100_0000_0000_0000_0000_0000_0000_0000,
                    EXACT == 0x20_0000_0000_0000,
            ;
            let square = self.count() * one_unit();
            pow2_sum(e as nat, UNIT_EXPONENT as nat);
            pow2_sum(k as nat, (2 * h) as nat);
            assert(square == a * pow2((2 * h) as nat)) by (nonlinear_arith)
                requires
                    square == (m * pow2(e as nat)) * one_unit(),
                    pow2(e as nat) * one_unit() == pow2((e + UNIT_EXPONENT) as nat),
                    a == m * w,
                    w * pow2((2 * h) as nat) == pow2((e + UNIT_EXPONENT) as nat),
            ;
            root_stands(square, a as nat, h as nat, r0 as nat, p as nat);
        }
        let ghost whole = floor_root(self.count() * one_unit());
        let ghost n = 2 * whole + (if whole * whole == self.count() * one_unit() {
            0nat
        } else {
            1nat
        });
        let mag = round_scaled(p, h as i32 - 1, Ghost(n), Ghost(2nat));
        pack(false, mag)
    }
}

} // verus!
