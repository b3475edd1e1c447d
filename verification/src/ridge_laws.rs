//! Laws of the regression in exact arithmetic.
//!
//! Learning one observation at a time gives what all observations at once give. Rounding aside,
//! this is an identity of matrices over the real numbers.

use crate::bayesian_lr::{BayesianLinearRegression, UpdateResult};
use crate::order;
use crate::scalar;
use crate::scalar::Scalar;
use vstd::prelude::*;

verus! {

// ---------------------------------------------------------------------------------------------
// Products and sums of real numbers.
// ---------------------------------------------------------------------------------------------

/// `a * b`.
#[verifier::opaque]
pub open spec fn times(a: real, b: real) -> real {
    a * b
}

/// `a / b`.
#[verifier::opaque]
pub open spec fn over(a: real, b: real) -> real {
    a / b
}

proof fn distributes(a: real, b: real, c: real)
    ensures
        times(a, b + c) == times(a, b) + times(a, c),
{
    reveal(times);
    assert(a * (b + c) == a * b + a * c) by (nonlinear_arith);
}

proof fn subtracts(a: real, b: real, c: real)
    ensures
        times(a - b, c) == times(a, c) - times(b, c),
{
    reveal(times);
    assert((a - b) * c == a * c - b * c) by (nonlinear_arith);
}

proof fn commutes(a: real, b: real)
    ensures
        times(a, b) == times(b, a),
{
    reveal(times);
    assert(a * b == b * a) by (nonlinear_arith);
}

proof fn associates(a: real, b: real, c: real)
    ensures
        times(a, times(b, c)) == times(times(a, b), c),
{
    reveal(times);
    assert(a * (b * c) == (a * b) * c) by (nonlinear_arith);
}

proof fn with_zero_and_one(a: real)
    ensures
        times(a, 0 as real) == 0 as real,
        times(a, 1 as real) == a,
{
    reveal(times);
    assert(a * (0 as real) == 0 as real) by (nonlinear_arith);
    assert(a * (1 as real) == a) by (nonlinear_arith);
}

proof fn not_negative(a: real, b: real)
    requires
        a >= 0 as real,
        b >= 0 as real,
    ensures
        times(a, b) >= 0 as real,
{
    reveal(times);
    assert(a * b >= 0 as real) by (nonlinear_arith)
        requires
            a >= 0 as real,
            b >= 0 as real,
    ;
}

proof fn square(a: real)
    ensures
        times(a, a) >= 0 as real,
{
    if a >= 0 as real {
        not_negative(a, a);
    } else {
        let b = 0 as real - a;
        not_negative(b, b);
        subtracts(0 as real, a, b);
        commutes(0 as real, b);
        with_zero_and_one(b);
        commutes(a, b);
        subtracts(0 as real, a, a);
        commutes(0 as real, a);
        with_zero_and_one(a);
    }
}

proof fn over_undoes(a: real, d: real)
    requires
        d > 0 as real,
    ensures
        times(over(a, d), d) == a,
{
    reveal(times);
    reveal(over);
    assert((a / d) * d == a) by (nonlinear_arith)
        requires
            d > 0 as real,
    ;
}

proof fn positive(a: real, b: real)
    requires
        a > 0 as real,
        b > 0 as real,
    ensures
        times(a, b) > 0 as real,
{
    reveal(times);
    assert(a * b > 0 as real) by (nonlinear_arith)
        requires
            a > 0 as real,
            b > 0 as real,
    ;
}

/// A quotient of a product is a product with the quotient.
proof fn over_product(a: real, b: real, d: real)
    requires
        d > 0 as real,
    ensures
        over(times(a, b), d) == times(over(a, d), b),
{
    let q = over(times(a, b), d);
    let e = over(a, d);
    let r = times(e, b);
    over_undoes(times(a, b), d);
    over_undoes(a, d);
    // `r * d` is `a * b` too.
    associates(e, b, d);
    commutes(b, d);
    associates(e, d, b);
    assert(times(r, d) == times(a, b));
    subtracts(q, r, d);
    subtracts(r, q, d);
    if q > r {
        positive(q - r, d);
    } else if q < r {
        positive(r - q, d);
    }
}

/// The sum of the first `n` numbers.
pub open spec fn sum(f: spec_fn(int) -> real, n: int) -> real
    decreases n,
{
    if n <= 0 {
        0 as real
    } else {
        sum(f, n - 1) + f(n - 1)
    }
}

/// The product of a matrix and a vector.
pub open spec fn applied(m: spec_fn(int, int) -> real, x: spec_fn(int) -> real, n: int) -> spec_fn(
    int,
) -> real {
    |i: int| sum(|j: int| times(m(i, j), x(j)), n)
}

proof fn same_sum(f: spec_fn(int) -> real, g: spec_fn(int) -> real, n: int)
    requires
        forall|i: int| 0 <= i < n ==> #[trigger] f(i) == g(i),
    ensures
        sum(f, n) == sum(g, n),
    decreases n,
{
    if n > 0 {
        same_sum(f, g, n - 1);
        assert(f(n - 1) == g(n - 1));
    }
}

/// A sum of multiples is the multiple of the sum.
proof fn sum_scales(a: real, f: spec_fn(int) -> real, h: spec_fn(int) -> real, n: int)
    requires
        forall|i: int| 0 <= i < n ==> #[trigger] h(i) == times(a, f(i)),
    ensures
        sum(h, n) == times(a, sum(f, n)),
    decreases n,
{
    if n > 0 {
        sum_scales(a, f, h, n - 1);
        distributes(a, sum(f, n - 1), f(n - 1));
        assert(h(n - 1) == times(a, f(n - 1)));
    } else {
        with_zero_and_one(a);
    }
}

/// A sum of sums is the sum of the sums.
proof fn sum_adds(f: spec_fn(int) -> real, g: spec_fn(int) -> real, h: spec_fn(int) -> real, n: int)
    requires
        forall|i: int| 0 <= i < n ==> #[trigger] h(i) == f(i) + g(i),
    ensures
        sum(h, n) == sum(f, n) + sum(g, n),
    decreases n,
{
    if n > 0 {
        sum_adds(f, g, h, n - 1);
        assert(h(n - 1) == f(n - 1) + g(n - 1));
    }
}

/// A sum of differences is the difference of the sums.
proof fn sum_subtracts(
    f: spec_fn(int) -> real,
    g: spec_fn(int) -> real,
    h: spec_fn(int) -> real,
    n: int,
)
    requires
        forall|i: int| 0 <= i < n ==> #[trigger] h(i) == f(i) - g(i),
    ensures
        sum(h, n) == sum(f, n) - sum(g, n),
    decreases n,
{
    if n > 0 {
        sum_subtracts(f, g, h, n - 1);
        assert(h(n - 1) == f(n - 1) - g(n - 1));
    }
}

/// A sum of zeros is zero.
proof fn sum_of_zeros(f: spec_fn(int) -> real, n: int)
    requires
        forall|i: int| 0 <= i < n ==> #[trigger] f(i) == 0 as real,
    ensures
        sum(f, n) == 0 as real,
    decreases n,
{
    if n > 0 {
        sum_of_zeros(f, n - 1);
        assert(f(n - 1) == 0 as real);
    }
}

/// A sum over rows and columns may be taken either way.
proof fn sums_swap(f: spec_fn(int, int) -> real, n: int, m: int)
    ensures
        sum(|i: int| sum(|j: int| f(i, j), m), n) == sum(|j: int| sum(|i: int| f(i, j), n), m),
    decreases n,
{
    let rows = |i: int| sum(|j: int| f(i, j), m);
    let columns = |j: int| sum(|i: int| f(i, j), n);
    if n > 0 {
        sums_swap(f, n - 1, m);
        let shorter = |j: int| sum(|i: int| f(i, j), n - 1);
        let last = |j: int| f(n - 1, j);
        assert forall|j: int| 0 <= j < m implies #[trigger] columns(j) == shorter(j) + last(j) by {
            let column = |i: int| f(i, j);
            assert(sum(column, n) == sum(column, n - 1) + column(n - 1));
        }
        sum_adds(shorter, last, columns, m);
        assert(rows(n - 1) == sum(last, m));
    } else {
        assert forall|j: int| 0 <= j < m implies #[trigger] columns(j) == 0 as real by {
            assert(sum(|i: int| f(i, j), n) == 0 as real);
        }
        sum_of_zeros(columns, m);
    }
}

/// One on the diagonal, else zero.
pub open spec fn delta(i: int, j: int) -> real {
    if i == j {
        1 as real
    } else {
        0 as real
    }
}

/// A sum against the identity picks one entry.
proof fn sum_picks(f: spec_fn(int) -> real, h: spec_fn(int) -> real, k: int, n: int)
    requires
        0 <= k,
        forall|i: int| 0 <= i < n ==> #[trigger] h(i) == times(f(i), delta(i, k)),
    ensures
        sum(h, n) == if k < n {
            f(k)
        } else {
            0 as real
        },
    decreases n,
{
    if n > 0 {
        sum_picks(f, h, k, n - 1);
        assert(h(n - 1) == times(f(n - 1), delta(n - 1, k)));
        with_zero_and_one(f(n - 1));
    }
}

// ---------------------------------------------------------------------------------------------
// The regression.
// ---------------------------------------------------------------------------------------------

/// One observation: features and what came of them.
pub ghost struct Observation {
    pub phi: spec_fn(int) -> real,
    pub y: real,
}

/// The precision after some observations: the sum of the outer products of their features, and
/// `lambda` on the diagonal.
pub open spec fn precision(lambda: real, observations: Seq<Observation>) -> spec_fn(int, int) -> real
    decreases observations.len(),
{
    if observations.len() == 0 {
        |i: int, j: int| times(lambda, delta(i, j))
    } else {
        let before = precision(lambda, observations.drop_last());
        let phi = observations.last().phi;
        |i: int, j: int| before(i, j) + times(phi(i), phi(j))
    }
}

/// The evidence after some observations: the sum of their features, each times what came of them.
pub open spec fn evidence(observations: Seq<Observation>) -> spec_fn(int) -> real
    decreases observations.len(),
{
    if observations.len() == 0 {
        |i: int| 0 as real
    } else {
        let before = evidence(observations.drop_last());
        let phi = observations.last().phi;
        let y = observations.last().y;
        |i: int| before(i) + times(phi(i), y)
    }
}

/// What the rank-one update divides by.
pub open spec fn denominator(p: spec_fn(int, int) -> real, phi: spec_fn(int) -> real, n: int) -> real {
    let u = applied(p, phi, n);
    1 as real + sum(|i: int| times(phi(i), u(i)), n)
}

/// The rank-one update of an inverse, as one observation makes it.
pub open spec fn rank_one(p: spec_fn(int, int) -> real, phi: spec_fn(int) -> real, n: int) -> spec_fn(
    int,
    int,
) -> real {
    let u = applied(p, phi, n);
    let d = denominator(p, phi, n);
    |i: int, j: int| p(i, j) - over(times(u(i), u(j)), d)
}

/// The inverse as it is kept from one observation to the next.
pub open spec fn online_inverse(lambda: real, observations: Seq<Observation>, n: int) -> spec_fn(
    int,
    int,
) -> real
    decreases observations.len(),
{
    if observations.len() == 0 {
        |i: int, j: int| over(delta(i, j), lambda)
    } else {
        rank_one(
            online_inverse(lambda, observations.drop_last(), n),
            observations.last().phi,
            n,
        )
    }
}

/// Entry `i`, `j` of the product of two matrices.
pub open spec fn product_at(
    p: spec_fn(int, int) -> real,
    a: spec_fn(int, int) -> real,
    n: int,
    i: int,
    j: int,
) -> real {
    sum(|k: int| times(p(i, k), a(k, j)), n)
}

/// `p` is symmetric, and `p` times `a` is the identity.
pub open spec fn inverts(p: spec_fn(int, int) -> real, a: spec_fn(int, int) -> real, n: int) -> bool {
    &&& forall|i: int, j: int| 0 <= i < n && 0 <= j < n ==> #[trigger] p(i, j) == p(j, i)
    &&& forall|i: int, j: int|
        0 <= i < n && 0 <= j < n ==> #[trigger] product_at(p, a, n, i, j) == delta(i, j)
}

/// Entry `j` of a row vector times a matrix.
spec fn row_times(u: spec_fn(int) -> real, a: spec_fn(int, int) -> real, n: int, j: int) -> real {
    sum(|k: int| times(u(k), a(k, j)), n)
}

/// What the inverse makes of a vector, the matrix turns back into it.
proof fn vectors_come_back(
    p: spec_fn(int, int) -> real,
    a: spec_fn(int, int) -> real,
    x: spec_fn(int) -> real,
    n: int,
    j: int,
)
    requires
        inverts(p, a, n),
        0 <= j < n,
    ensures
        row_times(applied(p, x, n), a, n, j) == x(j),
{
    let u = applied(p, x, n);
    let f = |k: int, m: int| times(x(m), times(p(m, k), a(k, j)));
    let lhs = |k: int| times(u(k), a(k, j));
    let by_rows = |k: int| sum(|m: int| f(k, m), n);
    assert forall|k: int| 0 <= k < n implies #[trigger] lhs(k) == by_rows(k) by {
        let row = |m: int| times(p(k, m), x(m));
        let c = a(k, j);
        let terms = |m: int| f(k, m);
        assert forall|m: int| 0 <= m < n implies #[trigger] terms(m) == times(c, row(m)) by {
            assert(p(k, m) == p(m, k));
            // x * (p * c) == c * (p * x)
            associates(x(m), p(m, k), c);
            commutes(x(m), p(m, k));
            commutes(times(p(m, k), x(m)), c);
        }
        sum_scales(c, row, terms, n);
        assert(u(k) == sum(row, n));
        commutes(u(k), c);
    }
    same_sum(lhs, by_rows, n);
    sums_swap(f, n, n);
    let by_columns = |m: int| sum(|k: int| f(k, m), n);
    assert forall|m: int| 0 <= m < n implies #[trigger] by_columns(m) == times(x(m), delta(m, j)) by {
        let row = |k: int| times(p(m, k), a(k, j));
        let terms = |k: int| f(k, m);
        sum_scales(x(m), row, terms, n);
        assert(product_at(p, a, n, m, j) == sum(row, n));
    }
    sum_picks(x, by_columns, j, n);
}

/// A sum of squares is not negative.
proof fn squares_are_not_negative(f: spec_fn(int) -> real, h: spec_fn(int) -> real, n: int)
    requires
        forall|i: int| 0 <= i < n ==> #[trigger] h(i) == times(f(i), f(i)),
    ensures
        sum(h, n) >= 0 as real,
    decreases n,
{
    if n > 0 {
        squares_are_not_negative(f, h, n - 1);
        square(f(n - 1));
        assert(h(n - 1) == times(f(n - 1), f(n - 1)));
    }
}

/// The quadratic form of a matrix.
spec fn form(a: spec_fn(int, int) -> real, u: spec_fn(int) -> real, n: int) -> real {
    sum(|j: int| times(row_times(u, a, n, j), u(j)), n)
}

/// The quadratic form of the precision before any observation is not negative.
proof fn start_is_not_negative(lambda: real, u: spec_fn(int) -> real, n: int)
    requires
        lambda > 0 as real,
    ensures
        form(precision(lambda, Seq::empty()), u, n) >= 0 as real,
{
    let a = precision(lambda, Seq::empty());
    let columns = |j: int| times(row_times(u, a, n, j), u(j));
    let squares = |j: int| times(u(j), u(j));
    assert forall|j: int| 0 <= j < n implies #[trigger] columns(j) == times(lambda, squares(j)) by {
        let column = |k: int| times(u(k), a(k, j));
        let picked = |k: int| times(u(k), delta(k, j));
        assert forall|k: int| 0 <= k < n implies #[trigger] column(k) == times(lambda, picked(k)) by {
            associates(u(k), lambda, delta(k, j));
            commutes(u(k), lambda);
            associates(lambda, u(k), delta(k, j));
        }
        sum_scales(lambda, picked, column, n);
        sum_picks(u, picked, j, n);
        associates(lambda, u(j), u(j));
    }
    sum_scales(lambda, squares, columns, n);
    squares_are_not_negative(u, squares, n);
    not_negative(lambda, sum(squares, n));
}

/// An observation does not take anything off the quadratic form.
proof fn observations_add_to_the_form(
    before: spec_fn(int, int) -> real,
    phi: spec_fn(int) -> real,
    a: spec_fn(int, int) -> real,
    u: spec_fn(int) -> real,
    n: int,
)
    requires
        forall|i: int, j: int| #[trigger] a(i, j) == before(i, j) + times(phi(i), phi(j)),
    ensures
        form(a, u, n) >= form(before, u, n),
{
    let columns = |j: int| times(row_times(u, a, n, j), u(j));
    let parts = |k: int| times(phi(k), u(k));
    let c = sum(parts, n);
    let first_columns = |j: int| times(row_times(u, before, n, j), u(j));
    let more_columns = |j: int| times(c, parts(j));
    assert forall|j: int| 0 <= j < n implies #[trigger] columns(j) == first_columns(j)
        + more_columns(j) by {
        let column = |k: int| times(u(k), a(k, j));
        let first = |k: int| times(u(k), before(k, j));
        let w = phi(j);
        let second = |k: int| times(w, parts(k));
        assert forall|k: int| 0 <= k < n implies #[trigger] column(k) == first(k) + second(k) by {
            assert(a(k, j) == before(k, j) + times(phi(k), phi(j)));
            distributes(u(k), before(k, j), times(phi(k), w));
            // u * (phi * w) == w * (phi * u)
            associates(u(k), phi(k), w);
            commutes(u(k), phi(k));
            commutes(times(phi(k), u(k)), w);
        }
        sum_adds(first, second, column, n);
        sum_scales(w, parts, second, n);
        let s = sum(first, n);
        assert(row_times(u, a, n, j) == s + times(w, c));
        // (s + w * c) * x == s * x + c * (w * x)
        let x = u(j);
        commutes(s + times(w, c), x);
        distributes(x, s, times(w, c));
        commutes(x, s);
        commutes(x, times(w, c));
        commutes(w, c);
        associates(c, w, x);
    }
    sum_adds(first_columns, more_columns, columns, n);
    sum_scales(c, parts, more_columns, n);
    square(c);
}

/// The quadratic form of a precision is not negative.
proof fn precision_is_not_negative(
    lambda: real,
    observations: Seq<Observation>,
    u: spec_fn(int) -> real,
    n: int,
)
    requires
        lambda > 0 as real,
    ensures
        form(precision(lambda, observations), u, n) >= 0 as real,
    decreases observations.len(),
{
    if observations.len() == 0 {
        assert(observations =~= Seq::empty());
        start_is_not_negative(lambda, u, n);
    } else {
        let fewer = observations.drop_last();
        precision_is_not_negative(lambda, fewer, u, n);
        observations_add_to_the_form(
            precision(lambda, fewer),
            observations.last().phi,
            precision(lambda, observations),
            u,
            n,
        );
    }
}

/// What an update divides by is at least one.
proof fn denominators_are_at_least_one(
    lambda: real,
    observations: Seq<Observation>,
    p: spec_fn(int, int) -> real,
    phi: spec_fn(int) -> real,
    n: int,
)
    requires
        lambda > 0 as real,
        inverts(p, precision(lambda, observations), n),
    ensures
        denominator(p, phi, n) >= 1 as real,
{
    let a = precision(lambda, observations);
    let u = applied(p, phi, n);
    precision_is_not_negative(lambda, observations, u, n);
    let columns = |j: int| times(row_times(u, a, n, j), u(j));
    let products = |j: int| times(phi(j), u(j));
    assert forall|j: int| 0 <= j < n implies #[trigger] columns(j) == products(j) by {
        vectors_come_back(p, a, phi, n, j);
    }
    same_sum(columns, products, n);
}

/// One entry of the updated inverse times one of the updated precision, taken apart.
proof fn one_term(p: real, a: real, f: real, w: real, u: real, x: real, d: real)
    requires
        d > 0 as real,
    ensures
        times(p - over(times(x, u), d), a + times(f, w)) == (times(p, a) + times(w, times(p, f)))
            - times(over(x, d), times(u, a) + times(w, times(f, u))),
{
    let e = over(x, d);
    let b = a + times(f, w);
    over_product(x, u, d);
    subtracts(p, times(e, u), b);
    distributes(p, a, times(f, w));
    associates(p, f, w);
    commutes(times(p, f), w);
    associates(e, u, b);
    distributes(u, a, times(f, w));
    associates(u, f, w);
    commutes(u, f);
    commutes(times(f, u), w);
}

/// What the update takes off is what the observation adds.
proof fn changes_cancel(x: real, w: real, c: real)
    requires
        1 as real + c > 0 as real,
    ensures
        times(over(x, 1 as real + c), w + times(w, c)) == times(w, x),
{
    let d = 1 as real + c;
    let e = over(x, d);
    over_undoes(x, d);
    with_zero_and_one(w);
    distributes(w, 1 as real, c);
    commutes(w, d);
    associates(e, d, w);
    commutes(x, w);
}

/// The rank-one update of an inverse, times the updated precision, is the identity, where the
/// update divides by something positive.
pub proof fn rank_one_update_inverts(
    p: spec_fn(int, int) -> real,
    a: spec_fn(int, int) -> real,
    phi: spec_fn(int) -> real,
    b: spec_fn(int, int) -> real,
    n: int,
)
    requires
        inverts(p, a, n),
        forall|i: int, j: int| #[trigger] b(i, j) == a(i, j) + times(phi(i), phi(j)),
        denominator(p, phi, n) > 0 as real,
    ensures
        inverts(rank_one(p, phi, n), b, n),
{
    let u = applied(p, phi, n);
    let products = |i: int| times(phi(i), u(i));
    let c = sum(products, n);
    let d = denominator(p, phi, n);
    assert(d == 1 as real + c);
    let q = rank_one(p, phi, n);
    assert forall|i: int, j: int| 0 <= i < n && 0 <= j < n implies #[trigger] q(i, j) == q(j, i) by {
        commutes(u(i), u(j));
        assert(p(i, j) == p(j, i));
    }
    assert forall|i: int, j: int| 0 <= i < n && 0 <= j < n implies #[trigger] product_at(
        q,
        b,
        n,
        i,
        j,
    ) == delta(i, j) by {
        let (x, w) = (u(i), phi(j));
        let e = over(x, d);
        let first = |k: int| times(p(i, k), a(k, j));
        let second = |k: int| times(p(i, k), phi(k));
        let third = |k: int| times(u(k), a(k, j));
        let more = |k: int| times(w, second(k));
        let most = |k: int| times(w, products(k));
        let left = |k: int| first(k) + more(k);
        let right = |k: int| third(k) + most(k);
        let taken = |k: int| times(e, right(k));
        let terms = |k: int| times(q(i, k), b(k, j));
        assert forall|k: int| 0 <= k < n implies #[trigger] terms(k) == left(k) - taken(k) by {
            assert(b(k, j) == a(k, j) + times(phi(k), phi(j)));
            one_term(p(i, k), a(k, j), phi(k), w, u(k), x, d);
        }
        sum_subtracts(left, taken, terms, n);
        sum_scales(e, right, taken, n);
        sum_adds(first, more, left, n);
        sum_scales(w, second, more, n);
        sum_adds(third, most, right, n);
        sum_scales(w, products, most, n);
        assert(product_at(p, a, n, i, j) == sum(first, n));
        assert(sum(second, n) == x);
        vectors_come_back(p, a, phi, n, j);
        assert(row_times(u, a, n, j) == sum(third, n));
        changes_cancel(x, w, c);
    }
}

/// Before any observation the inverse is the inverse of the precision.
proof fn the_start_inverts(lambda: real, n: int)
    requires
        lambda > 0 as real,
    ensures
        inverts(online_inverse(lambda, Seq::empty(), n), precision(lambda, Seq::empty()), n),
{
    let p = online_inverse(lambda, Seq::empty(), n);
    let a = precision(lambda, Seq::empty());
    assert forall|i: int, j: int| 0 <= i < n && 0 <= j < n implies #[trigger] product_at(
        p,
        a,
        n,
        i,
        j,
    ) == delta(i, j) by {
        let terms = |k: int| times(p(i, k), a(k, j));
        let row = |k: int| delta(i, k);
        assert forall|k: int| 0 <= k < n implies #[trigger] terms(k) == times(row(k), delta(k, j)) by {
            let x = delta(i, k);
            associates(over(x, lambda), lambda, delta(k, j));
            over_undoes(x, lambda);
        }
        sum_picks(row, terms, j, n);
    }
}

/// The inverse that is kept from one observation to the next is the inverse of the precision of
/// all of them.
pub proof fn the_online_inverse_is_the_batch_inverse(
    lambda: real,
    observations: Seq<Observation>,
    n: int,
)
    requires
        lambda > 0 as real,
    ensures
        inverts(online_inverse(lambda, observations, n), precision(lambda, observations), n),
    decreases observations.len(),
{
    if observations.len() == 0 {
        assert(observations =~= Seq::empty());
        the_start_inverts(lambda, n);
    } else {
        let fewer = observations.drop_last();
        let phi = observations.last().phi;
        the_online_inverse_is_the_batch_inverse(lambda, fewer, n);
        let before = online_inverse(lambda, fewer, n);
        denominators_are_at_least_one(lambda, fewer, before, phi, n);
        rank_one_update_inverts(
            before,
            precision(lambda, fewer),
            phi,
            precision(lambda, observations),
            n,
        );
    }
}

/// `w` solves the ridge regression of all observations at once.
pub open spec fn solves(
    w: spec_fn(int) -> real,
    lambda: real,
    observations: Seq<Observation>,
    n: int,
) -> bool {
    forall|i: int|
        0 <= i < n ==> #[trigger] applied(precision(lambda, observations), w, n)(i) == evidence(
            observations,
        )(i)
}

/// The weights as they are kept from one observation to the next.
pub open spec fn online_weights(lambda: real, observations: Seq<Observation>, n: int) -> spec_fn(
    int,
) -> real {
    applied(online_inverse(lambda, observations, n), evidence(observations), n)
}

/// A precision is symmetric.
proof fn precision_is_symmetric(lambda: real, observations: Seq<Observation>, i: int, j: int)
    ensures
        precision(lambda, observations)(i, j) == precision(lambda, observations)(j, i),
    decreases observations.len(),
{
    if observations.len() > 0 {
        precision_is_symmetric(lambda, observations.drop_last(), i, j);
        commutes((observations.last().phi)(i), (observations.last().phi)(j));
    }
}

/// Learning one observation at a time gives a solution of the ridge regression of all observations
/// at once.
pub proof fn the_online_weights_solve_the_batch(
    lambda: real,
    observations: Seq<Observation>,
    n: int,
)
    requires
        lambda > 0 as real,
    ensures
        solves(online_weights(lambda, observations, n), lambda, observations, n),
{
    let p = online_inverse(lambda, observations, n);
    let a = precision(lambda, observations);
    let b = evidence(observations);
    let w = online_weights(lambda, observations, n);
    the_online_inverse_is_the_batch_inverse(lambda, observations, n);
    assert forall|i: int| 0 <= i < n implies #[trigger] applied(a, w, n)(i) == b(i) by {
        vectors_come_back(p, a, b, n, i);
        let back = |k: int| times(w(k), a(k, i));
        let row = |k: int| times(a(i, k), w(k));
        assert forall|k: int| 0 <= k < n implies #[trigger] row(k) == back(k) by {
            precision_is_symmetric(lambda, observations, i, k);
            commutes(a(i, k), w(k));
        }
        same_sum(row, back, n);
    }
}

/// The ridge regression of all observations at once has no other solution than the weights that
/// learning one observation at a time gives.
pub proof fn the_batch_solution_is_unique(
    lambda: real,
    observations: Seq<Observation>,
    w: spec_fn(int) -> real,
    n: int,
    i: int,
)
    requires
        lambda > 0 as real,
        solves(w, lambda, observations, n),
        0 <= i < n,
    ensures
        w(i) == online_weights(lambda, observations, n)(i),
{
    let p = online_inverse(lambda, observations, n);
    let a = precision(lambda, observations);
    let b = evidence(observations);
    the_online_inverse_is_the_batch_inverse(lambda, observations, n);
    let f = |k: int, m: int| times(p(i, k), times(a(k, m), w(m)));
    let row = |k: int| times(p(i, k), b(k));
    let by_rows = |k: int| sum(|m: int| f(k, m), n);
    assert forall|k: int| 0 <= k < n implies #[trigger] row(k) == by_rows(k) by {
        let inner = |m: int| times(a(k, m), w(m));
        let terms = |m: int| f(k, m);
        sum_scales(p(i, k), inner, terms, n);
        assert(applied(a, w, n)(k) == sum(inner, n));
    }
    same_sum(row, by_rows, n);
    sums_swap(f, n, n);
    let by_columns = |m: int| sum(|k: int| f(k, m), n);
    assert forall|m: int| 0 <= m < n implies #[trigger] by_columns(m) == times(w(m), delta(m, i)) by {
        let inner = |k: int| times(p(i, k), a(k, m));
        let terms = |k: int| f(k, m);
        assert forall|k: int| 0 <= k < n implies #[trigger] terms(k) == times(w(m), inner(k)) by {
            associates(p(i, k), a(k, m), w(m));
            commutes(times(p(i, k), a(k, m)), w(m));
        }
        sum_scales(w(m), inner, terms, n);
        assert(product_at(p, a, n, i, m) == sum(inner, n));
    }
    sum_picks(w, by_columns, i, n);
}

/// An observation counts the same wherever it stands.
proof fn observations_count_wherever_they_stand(
    lambda: real,
    observations: Seq<Observation>,
    k: int,
    i: int,
    j: int,
)
    requires
        0 <= k < observations.len(),
    ensures
        ({
            let rest = observations.remove(k);
            let one = observations[k];
            &&& precision(lambda, observations)(i, j) == precision(lambda, rest)(i, j) + times(
                (one.phi)(i),
                (one.phi)(j),
            )
            &&& evidence(observations)(i) == evidence(rest)(i) + times((one.phi)(i), one.y)
        }),
    decreases observations.len(),
{
    let rest = observations.remove(k);
    let fewer = observations.drop_last();
    if k == observations.len() - 1 {
        assert(rest =~= fewer);
    } else {
        observations_count_wherever_they_stand(lambda, fewer, k, i, j);
        assert(rest.drop_last() =~= fewer.remove(k));
        assert(rest.last() == observations.last());
    }
}

/// The same observations in another order have the same precision and evidence.
proof fn sums_do_not_depend_on_the_order(
    lambda: real,
    a: Seq<Observation>,
    b: Seq<Observation>,
    i: int,
    j: int,
)
    requires
        a.to_multiset() == b.to_multiset(),
    ensures
        precision(lambda, a)(i, j) == precision(lambda, b)(i, j),
        evidence(a)(i) == evidence(b)(i),
    decreases a.len(),
{
    a.to_multiset_ensures();
    b.to_multiset_ensures();
    if a.len() == 0 {
        assert(a =~= b);
    } else {
        let last = a.last();
        let n = a.len() - 1;
        assert(a.contains(a[n]));
        assert(a.to_multiset().count(last) > 0);
        assert(b.contains(last));
        let k = choose|k: int| 0 <= k < b.len() && b[k] == last;
        assert(a.remove(n) =~= a.drop_last());
        assert(a.drop_last().to_multiset() == b.remove(k).to_multiset());
        sums_do_not_depend_on_the_order(lambda, a.drop_last(), b.remove(k), i, j);
        observations_count_wherever_they_stand(lambda, b, k, i, j);
    }
}

/// What is learnt does not depend on the order of the observations.
pub proof fn the_order_does_not_matter(
    lambda: real,
    a: Seq<Observation>,
    b: Seq<Observation>,
    n: int,
    i: int,
)
    requires
        lambda > 0 as real,
        a.to_multiset() == b.to_multiset(),
        0 <= i < n,
    ensures
        online_weights(lambda, a, n)(i) == online_weights(lambda, b, n)(i),
{
    let w = online_weights(lambda, a, n);
    the_online_weights_solve_the_batch(lambda, a, n);
    assert forall|m: int| 0 <= m < n implies #[trigger] applied(precision(lambda, b), w, n)(m)
        == evidence(b)(m) by {
        let ours = |k: int| times(precision(lambda, a)(m, k), w(k));
        let theirs = |k: int| times(precision(lambda, b)(m, k), w(k));
        assert forall|k: int| 0 <= k < n implies #[trigger] ours(k) == theirs(k) by {
            sums_do_not_depend_on_the_order(lambda, a, b, m, k);
        }
        same_sum(ours, theirs, n);
        sums_do_not_depend_on_the_order(lambda, a, b, m, m);
        assert(applied(precision(lambda, a), w, n)(m) == sum(ours, n));
    }
    the_batch_solution_is_unique(lambda, b, w, n, i);
}

// ---------------------------------------------------------------------------------------------
// The regression as it is kept.
// ---------------------------------------------------------------------------------------------

/// The real number that a finite number of the format is.
pub open spec fn shown(x: Scalar) -> real {
    over(x.value() as real, scalar::one_unit() as real)
}

/// The numbers of a vector.
pub open spec fn vector_of(v: Seq<Scalar>) -> spec_fn(int) -> real {
    |i: int| shown(v[i])
}

/// The numbers of a square matrix, which is stored by columns.
pub open spec fn matrix_of(m: Seq<Scalar>, n: int) -> spec_fn(int, int) -> real {
    |i: int, j: int| shown(m[j * n + i])
}

/// An observation.
pub open spec fn observation_of(phi: Seq<Scalar>, y: Scalar) -> Observation {
    Observation { phi: vector_of(phi), y: shown(y) }
}

/// The first `k` observations.
pub open spec fn observations_of(phis: Seq<Seq<Scalar>>, ys: Seq<Scalar>, k: int) -> Seq<Observation> {
    Seq::new(k as nat, |m: int| observation_of(phis[m], ys[m]))
}

/// The regression holds what `lambda` and the observations give, with nothing rounded away.
pub open spec fn holds_exactly(
    m: BayesianLinearRegression,
    lambda: real,
    observations: Seq<Observation>,
) -> bool {
    let n = m.dim as int;
    &&& forall|i: int, j: int|
        0 <= i < n && 0 <= j < n ==> #[trigger] matrix_of(m.a_inv@, n)(i, j) == online_inverse(
            lambda,
            observations,
            n,
        )(i, j)
    &&& forall|i: int|
        0 <= i < n ==> #[trigger] vector_of(m.b@)(i) == evidence(observations)(i)
}

/// An observation changed the inverse and the evidence with nothing rounded away.
pub open spec fn learnt_exactly(
    after: BayesianLinearRegression,
    before: BayesianLinearRegression,
    phi: Seq<Scalar>,
    y: Scalar,
) -> bool {
    let n = before.dim as int;
    let x = vector_of(phi);
    &&& forall|i: int, j: int|
        0 <= i < n && 0 <= j < n ==> #[trigger] matrix_of(after.a_inv@, n)(i, j) == rank_one(
            matrix_of(before.a_inv@, n),
            x,
            n,
        )(i, j)
    &&& forall|i: int|
        0 <= i < n ==> #[trigger] vector_of(after.b@)(i) == vector_of(before.b@)(i) + times(
            x(i),
            shown(y),
        )
}

/// A regression that has observed nothing holds exactly what no observations give, where the
/// inverse of its regularization is exact.
pub proof fn a_start_holds_exactly(m: BayesianLinearRegression)
    requires
        m.valid(),
        m.at_prior(),
        Scalar::of_int(0).below(m.lambda_reg),
        m.lambda_reg.finite(),
        shown(Scalar::of_int(1).over(m.lambda_reg)) == over(1 as real, shown(m.lambda_reg)),
    ensures
        holds_exactly(m, shown(m.lambda_reg), Seq::empty()),
        shown(m.lambda_reg) > 0 as real,
{
    let n = m.dim as int;
    let lambda = m.lambda_reg;
    let zero = Scalar::of_int(0);
    order::int_is_exact(0);
    order::no_negative_rank(zero);
    order::order_is_order_of_values(zero, lambda);
    let unit = scalar::one_unit() as real;
    shown_zero(zero);
    assert(shown(lambda) > 0 as real) by {
        over_undoes(lambda.value() as real, unit);
        let x = shown(lambda);
        if x <= 0 as real {
            not_negative(0 as real - x, unit);
            subtracts(0 as real, x, unit);
            commutes(0 as real, unit);
            with_zero_and_one(unit);
        }
    }
    order::over_is_near(zero, lambda);
    let nothing = zero.over(lambda);
    let one = scalar::one_unit();
    vstd::arithmetic::mul::lemma_mul_basics(one as int);
    vstd::arithmetic::mul::lemma_mul_basics(lambda.value());
    order::near_itself(zero, lambda.value() as nat);
    assert(nothing.rank() == 0 && nothing.finite());
    order::order_is_order_of_values(nothing, zero);
    shown_zero(nothing);
    let d = shown(lambda);
    over_undoes(0 as real, d);
    assert(over(0 as real, d) == 0 as real) by {
        let q = over(0 as real, d);
        if q > 0 as real {
            positive(q, d);
        } else if q < 0 as real {
            positive(0 as real - q, d);
            subtracts(0 as real, q, d);
            commutes(0 as real, d);
            with_zero_and_one(d);
        }
    }
    assert forall|i: int, j: int|
        0 <= i < n && 0 <= j < n implies #[trigger] matrix_of(m.a_inv@, n)(i, j) == online_inverse(
        d,
        Seq::empty(),
        n,
    )(i, j) by {
        let p = j * n + i;
        assert(0 <= p < n * n) by (nonlinear_arith)
            requires
                p == j * n + i,
                0 <= i < n,
                0 <= j < n,
        ;
        vstd::arithmetic::div_mod::lemma_fundamental_div_mod_converse(p, n, j, i);
    }
}

/// Zero is zero.
proof fn shown_zero(x: Scalar)
    requires
        x.value() == 0,
    ensures
        shown(x) == 0 as real,
{
    let unit = scalar::one_unit() as real;
    vstd::arithmetic::power2::lemma_pow2_pos(scalar::UNIT_EXPONENT as nat);
    over_undoes(0 as real, unit);
    let q = shown(x);
    if q > 0 as real {
        positive(q, unit);
    } else if q < 0 as real {
        positive(0 as real - q, unit);
        subtracts(0 as real, q, unit);
        commutes(0 as real, unit);
        with_zero_and_one(unit);
    }
}

/// Matrices that agree are updated alike.
proof fn updated_alike(
    p: spec_fn(int, int) -> real,
    q: spec_fn(int, int) -> real,
    phi: spec_fn(int) -> real,
    n: int,
    i: int,
    j: int,
)
    requires
        forall|k: int, m: int| 0 <= k < n && 0 <= m < n ==> #[trigger] p(k, m) == q(k, m),
        0 <= i < n,
        0 <= j < n,
    ensures
        rank_one(p, phi, n)(i, j) == rank_one(q, phi, n)(i, j),
{
    let u = applied(p, phi, n);
    let v = applied(q, phi, n);
    assert forall|k: int| 0 <= k < n implies #[trigger] u(k) == v(k) by {
        let ours = |m: int| times(p(k, m), phi(m));
        let theirs = |m: int| times(q(k, m), phi(m));
        assert forall|m: int| 0 <= m < n implies #[trigger] ours(m) == theirs(m) by {
            assert(p(k, m) == q(k, m));
        }
        same_sum(ours, theirs, n);
    }
    let ours = |k: int| times(phi(k), u(k));
    let theirs = |k: int| times(phi(k), v(k));
    assert forall|k: int| 0 <= k < n implies #[trigger] ours(k) == theirs(k) by {
        assert(u(k) == v(k));
    }
    same_sum(ours, theirs, n);
    assert(u(i) == v(i) && u(j) == v(j) && p(i, j) == q(i, j));
}

/// A regression that learns with nothing rounded away holds what all its observations give, and
/// has counted them.
proof fn learning_keeps_what_is_held(
    trace: Seq<BayesianLinearRegression>,
    lambda: real,
    phis: Seq<Seq<Scalar>>,
    ys: Seq<Scalar>,
    results: Seq<UpdateResult>,
    k: int,
)
    requires
        trace.len() == phis.len() + 1,
        ys.len() == phis.len(),
        results.len() == phis.len(),
        trace[0].n_observations == 0,
        holds_exactly(trace[0], lambda, Seq::empty()),
        forall|m: int|
            #![trigger trace[m + 1]]
            0 <= m < phis.len() ==> trace[m + 1].observed(trace[m], phis[m], ys[m], results[m])
                && learnt_exactly(trace[m + 1], trace[m], phis[m], ys[m]),
        0 <= k <= phis.len(),
    ensures
        trace[k].dim == trace[0].dim,
        trace[k].n_observations == k,
        holds_exactly(trace[k], lambda, observations_of(phis, ys, k)),
    decreases k,
{
    let seen = observations_of(phis, ys, k);
    if k == 0 {
        assert(seen =~= Seq::empty());
    } else {
        learning_keeps_what_is_held(trace, lambda, phis, ys, results, k - 1);
        let m = k - 1;
        assert(trace[m + 1].observed(trace[m], phis[m], ys[m], results[m]));
        let fewer = observations_of(phis, ys, m);
        assert(seen.drop_last() =~= fewer);
        assert(seen.last() == observation_of(phis[m], ys[m]));
        let n = trace[0].dim as int;
        let x = vector_of(phis[m]);
        let p = matrix_of(trace[m].a_inv@, n);
        let q = online_inverse(lambda, fewer, n);
        assert forall|i: int, j: int|
            0 <= i < n && 0 <= j < n implies #[trigger] matrix_of(trace[k].a_inv@, n)(i, j)
            == online_inverse(lambda, seen, n)(i, j) by {
            updated_alike(p, q, x, n, i, j);
        }
        assert forall|i: int| 0 <= i < n implies #[trigger] vector_of(trace[k].b@)(i) == evidence(
            seen,
        )(i) by {
            assert(vector_of(trace[m].b@)(i) == evidence(fewer)(i));
        }
    }
}

/// A regression that learns one observation after the other, with nothing rounded away, ends with
/// the weights of the ridge regression of all its observations at once, and has counted them.
pub proof fn exact_learning_is_batch_learning(
    trace: Seq<BayesianLinearRegression>,
    lambda: real,
    phis: Seq<Seq<Scalar>>,
    ys: Seq<Scalar>,
    results: Seq<UpdateResult>,
)
    requires
        lambda > 0 as real,
        trace.len() == phis.len() + 1,
        ys.len() == phis.len(),
        results.len() == phis.len(),
        trace[0].n_observations == 0,
        holds_exactly(trace[0], lambda, Seq::empty()),
        forall|m: int|
            #![trigger trace[m + 1]]
            0 <= m < phis.len() ==> trace[m + 1].observed(trace[m], phis[m], ys[m], results[m])
                && learnt_exactly(trace[m + 1], trace[m], phis[m], ys[m]),
        ({
            let n = trace[0].dim as int;
            let m = trace.last();
            forall|i: int|
                0 <= i < n ==> #[trigger] vector_of(m.w_hat@)(i) == applied(
                    matrix_of(m.a_inv@, n),
                    vector_of(m.b@),
                    n,
                )(i)
        }),
    ensures
        trace.last().n_observations == phis.len(),
        solves(
            vector_of(trace.last().w_hat@),
            lambda,
            observations_of(phis, ys, phis.len() as int),
            trace[0].dim as int,
        ),
{
    let k = phis.len() as int;
    let n = trace[0].dim as int;
    let all = observations_of(phis, ys, k);
    let m = trace[k];
    assert(m == trace.last());
    learning_keeps_what_is_held(trace, lambda, phis, ys, results, k);
    the_online_weights_solve_the_batch(lambda, all, n);
    let w = vector_of(m.w_hat@);
    let v = online_weights(lambda, all, n);
    let b = evidence(all);
    assert forall|i: int| 0 <= i < n implies #[trigger] w(i) == v(i) by {
        let ours = |j: int| times(matrix_of(m.a_inv@, n)(i, j), vector_of(m.b@)(j));
        let theirs = |j: int| times(online_inverse(lambda, all, n)(i, j), b(j));
        assert forall|j: int| 0 <= j < n implies #[trigger] ours(j) == theirs(j) by {
            assert(matrix_of(m.a_inv@, n)(i, j) == online_inverse(lambda, all, n)(i, j));
            assert(vector_of(m.b@)(j) == b(j));
        }
        same_sum(ours, theirs, n);
        assert(vector_of(m.w_hat@)(i) == sum(ours, n));
    }
    let a = precision(lambda, all);
    assert forall|i: int| 0 <= i < n implies #[trigger] applied(a, w, n)(i) == b(i) by {
        let ours = |j: int| times(a(i, j), w(j));
        let theirs = |j: int| times(a(i, j), v(j));
        assert forall|j: int| 0 <= j < n implies #[trigger] ours(j) == theirs(j) by {
            assert(w(j) == v(j));
        }
        same_sum(ours, theirs, n);
        assert(applied(a, v, n)(i) == sum(theirs, n));
    }
}

} // verus!
