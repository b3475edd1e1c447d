//! What products of vectors and matrices are, apart from rounding.

use crate::linalg;
use crate::order;
use crate::relations;
use crate::scalar;
use crate::scalar::Scalar;
use vstd::arithmetic::mul::*;
use vstd::prelude::*;

verus! {

/// Every entry of one vector is that of the other with its sign changed.
pub open spec fn mirrored(a: Seq<Scalar>, b: Seq<Scalar>) -> bool {
    &&& a.len() == b.len()
    &&& forall|i: int| 0 <= i < a.len() ==> relations::turned(#[trigger] a[i], b[i])
}

/// Every entry is zero but the one at `j`.
pub open spec fn only_at(a: Seq<Scalar>, j: int) -> bool {
    &&& 0 <= j < a.len()
    &&& forall|i: int| 0 <= i < a.len() && i != j ==> (#[trigger] a[i]).zero()
}

/// Every entry is finite.
pub open spec fn all_finite(a: Seq<Scalar>) -> bool {
    forall|i: int| 0 <= i < a.len() ==> (#[trigger] a[i]).finite()
}

/// Both are no numbers, or they are of one value.
pub open spec fn alike(a: Scalar, b: Scalar) -> bool {
    a.nan() && b.nan() || a.level(b)
}

// ---------------------------------------------------------------------------------------------
// Dot products.
// ---------------------------------------------------------------------------------------------

proof fn lanes_turn(a: Seq<Scalar>, b: Seq<Scalar>, c: Seq<Scalar>, k: int, blocks: int)
    requires
        mirrored(a, c),
        a.len() == b.len(),
        0 <= k < 8,
        0 <= blocks,
        8 * blocks <= a.len(),
    ensures
        relations::turned(linalg::lane(a, b, k, blocks), linalg::lane(c, b, k, blocks)),
    decreases blocks,
{
    relations::zero_and_one();
    if blocks > 0 {
        lanes_turn(a, b, c, k, blocks - 1);
        let i = 8 * (blocks - 1) + k;
        assert(relations::turned(a[i], c[i]));
        relations::products_turn(a[i], b[i], c[i]);
        relations::sums_turn(
            linalg::lane(a, b, k, blocks - 1),
            a[i].times(b[i]),
            linalg::lane(c, b, k, blocks - 1),
            c[i].times(b[i]),
        );
    }
}

proof fn trailing_turns(
    s: Scalar,
    t: Scalar,
    a: Seq<Scalar>,
    b: Seq<Scalar>,
    c: Seq<Scalar>,
    from: int,
    to: int,
)
    requires
        relations::turned(s, t),
        mirrored(a, c),
        a.len() == b.len(),
        0 <= from,
        to <= a.len(),
    ensures
        relations::turned(
            linalg::trailing(s, a, b, from, to),
            linalg::trailing(t, c, b, from, to),
        ),
    decreases to - from,
{
    if from < to {
        trailing_turns(s, t, a, b, c, from, to - 1);
        assert(relations::turned(a[to - 1], c[to - 1]));
        relations::products_turn(a[to - 1], b[to - 1], c[to - 1]);
        relations::sums_turn(
            linalg::trailing(s, a, b, from, to - 1),
            a[to - 1].times(b[to - 1]),
            linalg::trailing(t, c, b, from, to - 1),
            c[to - 1].times(b[to - 1]),
        );
    }
}

/// Changing the sign of every entry of one vector changes the sign of the dot product.
pub proof fn dot_products_turn(a: Seq<Scalar>, b: Seq<Scalar>, c: Seq<Scalar>)
    requires
        mirrored(a, c),
        a.len() == b.len(),
    ensures
        relations::turned(linalg::dot_product(a, b), linalg::dot_product(c, b)),
        relations::turned(linalg::dot_product(b, a), linalg::dot_product(b, c)),
{
    let n = a.len() as int;
    let m = n / 8;
    relations::zero_and_one();
    lanes_turn(a, b, c, 0, m);
    lanes_turn(a, b, c, 1, m);
    lanes_turn(a, b, c, 2, m);
    lanes_turn(a, b, c, 3, m);
    lanes_turn(a, b, c, 4, m);
    lanes_turn(a, b, c, 5, m);
    lanes_turn(a, b, c, 6, m);
    lanes_turn(a, b, c, 7, m);
    let (x0, x1, x2, x3, x4, x5, x6, x7) = (
        linalg::lane(a, b, 0, m),
        linalg::lane(a, b, 1, m),
        linalg::lane(a, b, 2, m),
        linalg::lane(a, b, 3, m),
        linalg::lane(a, b, 4, m),
        linalg::lane(a, b, 5, m),
        linalg::lane(a, b, 6, m),
        linalg::lane(a, b, 7, m),
    );
    let (y0, y1, y2, y3, y4, y5, y6, y7) = (
        linalg::lane(c, b, 0, m),
        linalg::lane(c, b, 1, m),
        linalg::lane(c, b, 2, m),
        linalg::lane(c, b, 3, m),
        linalg::lane(c, b, 4, m),
        linalg::lane(c, b, 5, m),
        linalg::lane(c, b, 6, m),
        linalg::lane(c, b, 7, m),
    );
    let zero = Scalar::of_int(0);
    relations::sums_turn(x0, x4, y0, y4);
    relations::sums_turn(x1, x5, y1, y5);
    relations::sums_turn(x2, x6, y2, y6);
    relations::sums_turn(x3, x7, y3, y7);
    relations::sums_turn(zero, x0.plus(x4), zero, y0.plus(y4));
    let (p, q) = (zero.plus(x0.plus(x4)), zero.plus(y0.plus(y4)));
    relations::sums_turn(p, x1.plus(x5), q, y1.plus(y5));
    let (p2, q2) = (p.plus(x1.plus(x5)), q.plus(y1.plus(y5)));
    relations::sums_turn(p2, x2.plus(x6), q2, y2.plus(y6));
    let (p3, q3) = (p2.plus(x2.plus(x6)), q2.plus(y2.plus(y6)));
    relations::sums_turn(p3, x3.plus(x7), q3, y3.plus(y7));
    let (p4, q4) = (p3.plus(x3.plus(x7)), q3.plus(y3.plus(y7)));
    trailing_turns(p4, q4, a, b, c, 8 * m, n);
    dot_products_commute(a, b);
    dot_products_commute(c, b);
}

proof fn lanes_commute(a: Seq<Scalar>, b: Seq<Scalar>, k: int, blocks: int)
    ensures
        linalg::lane(a, b, k, blocks) == linalg::lane(b, a, k, blocks),
    decreases blocks,
{
    if blocks > 0 {
        lanes_commute(a, b, k, blocks - 1);
        let i = 8 * (blocks - 1) + k;
        relations::factors_commute(a[i], b[i]);
    }
}

proof fn trailing_commutes(s: Scalar, a: Seq<Scalar>, b: Seq<Scalar>, from: int, to: int)
    ensures
        linalg::trailing(s, a, b, from, to) == linalg::trailing(s, b, a, from, to),
    decreases to - from,
{
    if from < to {
        trailing_commutes(s, a, b, from, to - 1);
        relations::factors_commute(a[to - 1], b[to - 1]);
    }
}

/// The order of the vectors does not matter.
pub proof fn dot_products_commute(a: Seq<Scalar>, b: Seq<Scalar>)
    requires
        a.len() == b.len(),
    ensures
        linalg::dot_product(a, b) == linalg::dot_product(b, a),
{
    let n = a.len() as int;
    let m = n / 8;
    lanes_commute(a, b, 0, m);
    lanes_commute(a, b, 1, m);
    lanes_commute(a, b, 2, m);
    lanes_commute(a, b, 3, m);
    lanes_commute(a, b, 4, m);
    lanes_commute(a, b, 5, m);
    lanes_commute(a, b, 6, m);
    lanes_commute(a, b, 7, m);
    let zero = Scalar::of_int(0);
    let joined = zero.plus(linalg::lane(a, b, 0, m).plus(linalg::lane(a, b, 4, m))).plus(
        linalg::lane(a, b, 1, m).plus(linalg::lane(a, b, 5, m)),
    ).plus(linalg::lane(a, b, 2, m).plus(linalg::lane(a, b, 6, m))).plus(
        linalg::lane(a, b, 3, m).plus(linalg::lane(a, b, 7, m)),
    );
    trailing_commutes(joined, a, b, 8 * m, n);
}

/// A lane holds the product of the entry that is not zero, if it is in it.
proof fn lane_of_one(a: Seq<Scalar>, b: Seq<Scalar>, j: int, k: int, blocks: int)
    requires
        only_at(a, j),
        all_finite(b),
        a.len() == b.len(),
        !a[j].times(b[j]).nan(),
        0 <= k < 8,
        0 <= blocks,
        8 * blocks <= a.len(),
    ensures
        j % 8 == k && j < 8 * blocks ==> linalg::lane(a, b, k, blocks).level(a[j].times(b[j])),
        j % 8 != k || j >= 8 * blocks ==> linalg::lane(a, b, k, blocks).zero(),
    decreases blocks,
{
    relations::zero_and_one();
    if blocks > 0 {
        lane_of_one(a, b, j, k, blocks - 1);
        let i = 8 * (blocks - 1) + k;
        let before = linalg::lane(a, b, k, blocks - 1);
        assert(i % 8 == k);
        if i == j {
            relations::adding_nothing(a[j].times(b[j]), before);
        } else {
            assert(a[i].zero());
            assert(b[i].finite());
            relations::nothing_of(b[i], a[i]);
            relations::adding_nothing(before, a[i].times(b[i]));
        }
    }
}

proof fn trailing_of_one(s: Scalar, a: Seq<Scalar>, b: Seq<Scalar>, j: int, from: int, to: int)
    requires
        only_at(a, j),
        all_finite(b),
        a.len() == b.len(),
        !a[j].times(b[j]).nan(),
        !s.nan(),
        0 <= from <= to <= a.len(),
        from <= j ==> s.zero(),
    ensures
        j < from || to <= j ==> linalg::trailing(s, a, b, from, to).level(s),
        from <= j < to ==> linalg::trailing(s, a, b, from, to).level(a[j].times(b[j])),
    decreases to - from,
{
    if from < to {
        trailing_of_one(s, a, b, j, from, to - 1);
        let before = linalg::trailing(s, a, b, from, to - 1);
        if to - 1 == j {
            relations::adding_nothing(a[j].times(b[j]), before);
        } else {
            assert(a[to - 1].zero());
            assert(b[to - 1].finite());
            relations::nothing_of(b[to - 1], a[to - 1]);
            relations::adding_nothing(before, a[to - 1].times(b[to - 1]));
        }
    }
}

/// A sum of two of which at most one is not zero.
proof fn sum_of_one(x: Scalar, y: Scalar, p: Scalar)
    requires
        !p.nan(),
        x.zero() || x.level(p),
        y.zero() || y.level(p),
        x.zero() || y.zero(),
    ensures
        x.zero() && y.zero() ==> x.plus(y).zero(),
        !x.zero() || !y.zero() ==> x.plus(y).level(p),
        x.level(p) && y.zero() ==> x.plus(y).level(p),
        y.level(p) && x.zero() ==> x.plus(y).level(p),
        !x.plus(y).nan(),
{
    if y.zero() {
        relations::adding_nothing(x, y);
    } else {
        relations::adding_nothing(y, x);
    }
}

/// An entry alone gives the dot product: its product with the entry at its place.
pub proof fn an_entry_alone_gives_the_dot_product(a: Seq<Scalar>, b: Seq<Scalar>, j: int)
    requires
        only_at(a, j),
        all_finite(b),
        a.len() == b.len(),
        a[j].finite(),
    ensures
        relations::rounds(
            linalg::dot_product(a, b),
            a[j].value() * b[j].value(),
            scalar::one_unit(),
        ),
        linalg::dot_product(a, b).level(a[j].times(b[j])),
{
    let n = a.len() as int;
    let m = n / 8;
    let p = a[j].times(b[j]);
    relations::zero_and_one();
    assert(b[j].finite());
    order::times_is_near(a[j], b[j]);
    lane_of_one(a, b, j, 0, m);
    lane_of_one(a, b, j, 1, m);
    lane_of_one(a, b, j, 2, m);
    lane_of_one(a, b, j, 3, m);
    lane_of_one(a, b, j, 4, m);
    lane_of_one(a, b, j, 5, m);
    lane_of_one(a, b, j, 6, m);
    lane_of_one(a, b, j, 7, m);
    let (x0, x1, x2, x3, x4, x5, x6, x7) = (
        linalg::lane(a, b, 0, m),
        linalg::lane(a, b, 1, m),
        linalg::lane(a, b, 2, m),
        linalg::lane(a, b, 3, m),
        linalg::lane(a, b, 4, m),
        linalg::lane(a, b, 5, m),
        linalg::lane(a, b, 6, m),
        linalg::lane(a, b, 7, m),
    );
    let zero = Scalar::of_int(0);
    let k = j % 8;
    let inside = j < 8 * m;
    sum_of_one(x0, x4, p);
    sum_of_one(x1, x5, p);
    sum_of_one(x2, x6, p);
    sum_of_one(x3, x7, p);
    let (s0, s1, s2, s3) = (x0.plus(x4), x1.plus(x5), x2.plus(x6), x3.plus(x7));
    sum_of_one(zero, s0, p);
    let t0 = zero.plus(s0);
    assert(inside && (k == 0 || k == 4) ==> t0.level(p));
    assert(!(inside && (k == 0 || k == 4)) ==> t0.zero());
    sum_of_one(t0, s1, p);
    let t1 = t0.plus(s1);
    assert(inside && (k == 0 || k == 4 || k == 1 || k == 5) ==> t1.level(p));
    assert(!(inside && (k == 0 || k == 4 || k == 1 || k == 5)) ==> t1.zero());
    sum_of_one(t1, s2, p);
    let t2 = t1.plus(s2);
    assert(inside && k != 3 && k != 7 ==> t2.level(p));
    assert(!(inside && k != 3 && k != 7) ==> t2.zero());
    sum_of_one(t2, s3, p);
    let t3 = t2.plus(s3);
    assert(inside ==> t3.level(p));
    assert(!inside ==> t3.zero());
    trailing_of_one(t3, a, b, j, 8 * m, n);
}

// ---------------------------------------------------------------------------------------------
// Matrices.
// ---------------------------------------------------------------------------------------------

proof fn rows_turn(m: Seq<Scalar>, rows: int, x: Seq<Scalar>, y: Seq<Scalar>, i: int, columns: int)
    requires
        mirrored(x, y),
        columns <= x.len(),
    ensures
        relations::turned(
            linalg::row_product(m, rows, x, i, columns),
            linalg::row_product(m, rows, y, i, columns),
        ),
    decreases columns,
{
    relations::zero_and_one();
    if columns == 1 {
        assert(relations::turned(x[0], y[0]));
        relations::products_turn(x[0], m[i], y[0]);
    } else if columns > 1 {
        rows_turn(m, rows, x, y, i, columns - 1);
        let p = (columns - 1) * rows + i;
        assert(relations::turned(x[columns - 1], y[columns - 1]));
        relations::products_turn(x[columns - 1], m[p], y[columns - 1]);
        relations::sums_turn(
            m[p].times(x[columns - 1]),
            linalg::row_product(m, rows, x, i, columns - 1),
            m[p].times(y[columns - 1]),
            linalg::row_product(m, rows, y, i, columns - 1),
        );
    }
}

/// Changing the sign of a vector changes the sign of its product with a matrix.
pub proof fn matrix_products_turn(m: Seq<Scalar>, x: Seq<Scalar>, y: Seq<Scalar>)
    requires
        mirrored(x, y),
    ensures
        mirrored(linalg::product(m, x), linalg::product(m, y)),
{
    let n = x.len() as int;
    assert forall|i: int| 0 <= i < n implies relations::turned(
        #[trigger] linalg::product(m, x)[i],
        linalg::product(m, y)[i],
    ) by {
        rows_turn(m, n, x, y, i, n);
    }
}

proof fn row_of_one(m: Seq<Scalar>, rows: int, x: Seq<Scalar>, i: int, j: int, columns: int)
    requires
        only_at(x, j),
        all_finite(m),
        x.len() == rows,
        m.len() == rows * rows,
        0 <= i < rows,
        0 <= columns <= rows,
        !m[j * rows + i].times(x[j]).nan(),
    ensures
        j < columns ==> linalg::row_product(m, rows, x, i, columns).level(
            m[j * rows + i].times(x[j]),
        ),
        columns <= j ==> linalg::row_product(m, rows, x, i, columns).zero(),
    decreases columns,
{
    relations::zero_and_one();
    if columns == 1 {
        assert(0 * rows + i == i);
        if j != 0 {
            place(rows, 0, i);
            assert(m[i].finite());
            assert(x[0].zero());
            relations::nothing_of(m[i], x[0]);
        }
    } else if columns > 1 {
        row_of_one(m, rows, x, i, j, columns - 1);
        let p = (columns - 1) * rows + i;
        let before = linalg::row_product(m, rows, x, i, columns - 1);
        place(rows, columns - 1, i);
        assert(m[p].finite());
        if j == columns - 1 {
            relations::adding_nothing(m[p].times(x[j]), before);
        } else {
            assert(x[columns - 1].zero());
            relations::nothing_of(m[p], x[columns - 1]);
            relations::adding_nothing(before, m[p].times(x[columns - 1]));
        }
    }
}

/// The place of an entry is within the matrix.
pub(crate) proof fn place(n: int, column: int, row: int)
    requires
        0 <= column < n,
        0 <= row < n,
    ensures
        0 <= column * n + row < n * n,
{
    lemma_mul_nonnegative(column, n);
    lemma_mul_inequality(column, n - 1, n);
    lemma_mul_is_distributive_sub_other_way(n, n, 1);
}

/// An entry alone picks its column of the matrix, scaled.
pub proof fn an_entry_alone_picks_its_column(m: Seq<Scalar>, x: Seq<Scalar>, i: int, j: int)
    requires
        only_at(x, j),
        all_finite(m),
        m.len() == x.len() * x.len(),
        0 <= i < x.len(),
        x[j].finite(),
    ensures
        linalg::product(m, x).len() == x.len(),
        relations::rounds(
            linalg::product(m, x)[i],
            m[j * x.len() + i].value() * x[j].value(),
            scalar::one_unit(),
        ),
        linalg::product(m, x)[i].level(m[j * x.len() + i].times(x[j])),
{
    let n = x.len() as int;
    place(n, j, i);
    assert(m[j * n + i].finite());
    order::times_is_near(m[j * n + i], x[j]);
    row_of_one(m, n, x, i, j, n);
}

/// Scaling multiplies every entry.
pub proof fn scaling_multiplies_every_entry(a: Seq<Scalar>, k: Scalar, i: int)
    requires
        0 <= i < a.len(),
        a[i].finite(),
        k.finite(),
    ensures
        linalg::scaled(a, k).len() == a.len(),
        relations::rounds(
            linalg::scaled(a, k)[i],
            a[i].value() * k.value(),
            scalar::one_unit(),
        ),
{
    order::times_is_near(a[i], k);
}

/// The identity over a number has the inverse of that number on its diagonal and zero elsewhere.
pub proof fn an_identity_is_diagonal(dim: nat, k: Scalar, column: int, row: int)
    requires
        0 <= column < dim,
        0 <= row < dim,
        k.finite(),
        k.value() > 0,
    ensures
        ({
            let entry = linalg::identity_over(dim, k)[column * dim + row];
            &&& linalg::identity_over(dim, k).len() == dim * dim
            &&& column == row ==> relations::rounds(
                entry,
                scalar::one_unit() * scalar::one_unit() as int,
                k.value() as nat,
            )
            &&& column != row ==> entry.zero()
        }),
{
    let n = dim as int;
    place(n, column, row);
    relations::zero_and_one();
    vstd::arithmetic::div_mod::lemma_fundamental_div_mod_converse(
        column * n + row,
        n,
        column,
        row,
    );
    order::over_is_near(Scalar::of_int(1), k);
    order::over_is_near(Scalar::of_int(0), k);
    lemma_mul_basics(scalar::one_unit() as int);
    lemma_mul_basics(k.value());
    order::near_itself(Scalar::of_int(0), k.value() as nat);
}

/// Weights of opposite sign are as long.
pub proof fn lengths_have_no_sign(a: Seq<Scalar>, b: Seq<Scalar>)
    requires
        mirrored(a, b),
    ensures
        alike(linalg::length(a), linalg::length(b)),
{
    dot_products_turn(a, a, b);
    dot_products_turn(a, b, b);
    let (x, y) = (linalg::dot_product(a, a), linalg::dot_product(b, b));
    assert(alike(x, y));
    roots_alike(x, y);
}

/// Roots of numbers of one value are of one value.
pub(crate) proof fn roots_alike(x: Scalar, y: Scalar)
    requires
        alike(x, y),
    ensures
        alike(x.root(), y.root()),
{
    reveal(Scalar::root);
    if !x.nan() {
        relations::level_values(x, y);
        if x.rank() != 0 {
            assert(x == y);
            if x.rank() > 0 {
                relations::zero_and_one();
                relations::roots_keep_order(x, x);
            }
        }
    }
}

/// The greatest distance is at least each distance and one of them, and it does not matter which
/// vector comes first.
pub proof fn the_greatest_distance_is_reached(a: Seq<Scalar>, b: Seq<Scalar>, n: int, i: int)
    requires
        0 <= i < n <= a.len(),
        a.len() == b.len(),
        all_finite(a),
        all_finite(b),
    ensures
        a[i].minus(b[i]).magnitude().at_most(linalg::greatest_distance(a, b, n)),
        exists|j: int|
            0 <= j < n && linalg::greatest_distance(a, b, n).level(
                (#[trigger] a[j]).minus(b[j]).magnitude(),
            ),
    decreases n,
{
    relations::zero_and_one();
    assert(a[n - 1].finite() && b[n - 1].finite());
    order::minus_is_near(a[n - 1], b[n - 1]);
    relations::magnitudes(a[n - 1].minus(b[n - 1]));
    if n == 1 {
        reveal_with_fuel(linalg::greatest_distance, 2);
        assert(linalg::greatest_distance(a, b, n).level(a[0].minus(b[0]).magnitude()));
    } else {
        let k = if i < n - 1 {
            i
        } else {
            0
        };
        the_greatest_distance_is_reached(a, b, n - 1, k);
        let before = linalg::greatest_distance(a, b, n - 1);
        let last = a[n - 1].minus(b[n - 1]).magnitude();
        if before.below(last) {
            assert(linalg::greatest_distance(a, b, n).level(
                a[n - 1].minus(b[n - 1]).magnitude(),
            ));
        } else {
            let j = choose|j: int|
                0 <= j < n - 1 && before.level((#[trigger] a[j]).minus(b[j]).magnitude());
            assert(linalg::greatest_distance(a, b, n).level(a[j].minus(b[j]).magnitude()));
        }
    }
}

} // verus!
