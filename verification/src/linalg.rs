//! Vectors and column-major matrices of numbers.
//!
//! Sums of rounded products depend on the order in which they are taken. The orders here are
//! fixed, so every result is fixed to the last bit.

use crate::scalar::Scalar;
use vstd::prelude::*;

verus! {

/// The sum of the products at `k`, `k + 8`, `k + 16` and so on, from the first `blocks` blocks of
/// eight.
pub open spec fn lane(a: Seq<Scalar>, b: Seq<Scalar>, k: int, blocks: int) -> Scalar
    decreases blocks,
{
    if blocks <= 0 {
        Scalar::of_int(0)
    } else {
        let i = 8 * (blocks - 1) + k;
        lane(a, b, k, blocks - 1).plus(a[i].times(b[i]))
    }
}

/// `start`, and to it added the products from `from` up to `to`.
pub open spec fn trailing(start: Scalar, a: Seq<Scalar>, b: Seq<Scalar>, from: int, to: int) -> Scalar
    decreases to - from,
{
    if to <= from {
        start
    } else {
        trailing(start, a, b, from, to - 1).plus(a[to - 1].times(b[to - 1]))
    }
}

/// The dot product: eight lanes, joined in pairs, then what is left after the last whole block.
pub open spec fn dot_product(a: Seq<Scalar>, b: Seq<Scalar>) -> Scalar {
    let n = a.len() as int;
    let blocks = n / 8;
    let joined = Scalar::of_int(0).plus(lane(a, b, 0, blocks).plus(lane(a, b, 4, blocks))).plus(
        lane(a, b, 1, blocks).plus(lane(a, b, 5, blocks)),
    ).plus(lane(a, b, 2, blocks).plus(lane(a, b, 6, blocks))).plus(
        lane(a, b, 3, blocks).plus(lane(a, b, 7, blocks)),
    );
    trailing(joined, a, b, 8 * blocks, n)
}

/// Row `i` of a matrix with `rows` rows, times a vector, over the first `columns` columns.
pub open spec fn row_product(m: Seq<Scalar>, rows: int, x: Seq<Scalar>, i: int, columns: int) -> Scalar
    decreases columns,
{
    if columns <= 0 {
        Scalar::of_int(0)
    } else if columns == 1 {
        m[i].times(x[0])
    } else {
        m[(columns - 1) * rows + i].times(x[columns - 1]).plus(
            row_product(m, rows, x, i, columns - 1),
        )
    }
}

/// A square matrix times a vector.
pub open spec fn product(m: Seq<Scalar>, x: Seq<Scalar>) -> Seq<Scalar> {
    Seq::new(x.len(), |i: int| row_product(m, x.len() as int, x, i, x.len() as int))
}

/// The Euclidean norm.
pub open spec fn length(a: Seq<Scalar>) -> Scalar {
    dot_product(a, a).root()
}

/// Every entry times `k`.
pub open spec fn scaled(a: Seq<Scalar>, k: Scalar) -> Seq<Scalar> {
    Seq::new(a.len(), |i: int| a[i].times(k))
}

/// The identity matrix, every entry divided by `k`.
pub open spec fn identity_over(dim: nat, k: Scalar) -> Seq<Scalar> {
    Seq::new(
        dim * dim,
        |p: int|
            if p % (dim as int) == p / (dim as int) {
                Scalar::of_int(1).over(k)
            } else {
                Scalar::of_int(0).over(k)
            },
    )
}

/// The vector of `dim` zeros.
pub open spec fn zeros(dim: nat) -> Seq<Scalar> {
    Seq::new(dim, |i: int| Scalar::of_int(0))
}

/// The greatest distance between entries at the same place, and at least zero.
pub open spec fn greatest_distance(a: Seq<Scalar>, b: Seq<Scalar>, n: int) -> Scalar
    decreases n,
{
    if n <= 0 {
        Scalar::of_int(0)
    } else {
        greatest_distance(a, b, n - 1).greater(a[n - 1].minus(b[n - 1]).magnitude())
    }
}

/// The sum of the first `k` entries, from the first to the last.
pub open spec fn running_sum(a: Seq<Scalar>, k: int) -> Scalar
    decreases k,
{
    if k <= 0 {
        Scalar::of_int(0)
    } else {
        running_sum(a, k - 1).plus(a[k - 1])
    }
}

/// One lane of the dot product.
fn lane_sum(a: &[Scalar], b: &[Scalar], k: usize, blocks: usize) -> (r: Scalar)
    requires
        k < 8,
        blocks == a@.len() / 8,
        a@.len() == b@.len(),
    ensures
        r == lane(a@, b@, k as int, blocks as int),
{
    let n = a.len();
    let mut sum = Scalar::from_u64(0);
    let mut j: usize = 0;
    while j < blocks
        invariant
            n == a@.len(),
            k < 8,
            blocks == a@.len() / 8,
            a@.len() == b@.len(),
            j <= blocks,
            sum == lane(a@, b@, k as int, j as int),
        decreases blocks - j,
    {
        let i: usize = 8 * j + k;
        sum = sum.add(a[i].mul(b[i]));
        j = j + 1;
    }
    sum
}

/// The dot product.
pub fn dot(a: &[Scalar], b: &[Scalar]) -> (r: Scalar)
    requires
        a@.len() == b@.len(),
    ensures
        r == dot_product(a@, b@),
{
    let n = a.len();
    let blocks = n / 8;
    let zero = Scalar::from_u64(0);
    let mut sum = zero.add(lane_sum(a, b, 0, blocks).add(lane_sum(a, b, 4, blocks))).add(
        lane_sum(a, b, 1, blocks).add(lane_sum(a, b, 5, blocks)),
    ).add(lane_sum(a, b, 2, blocks).add(lane_sum(a, b, 6, blocks))).add(
        lane_sum(a, b, 3, blocks).add(lane_sum(a, b, 7, blocks)),
    );
    let ghost joined = sum;
    let mut i: usize = 8 * blocks;
    while i < n
        invariant
            n == a@.len(),
            a@.len() == b@.len(),
            blocks == n / 8,
            8 * blocks <= i <= n,
            sum == trailing(joined, a@, b@, 8 * blocks, i as int),
        decreases n - i,
    {
        sum = sum.add(a[i].mul(b[i]));
        i = i + 1;
    }
    sum
}

/// The Euclidean norm.
pub fn norm(a: &[Scalar]) -> (r: Scalar)
    ensures
        r == length(a@),
{
    dot(a, a).sqrt()
}

/// Where column `j` starts in a matrix with `rows` rows and at least `j + 1` columns.
proof fn entry_in_range(rows: int, columns: int, i: int, j: int)
    requires
        0 <= i < rows,
        0 <= j < columns,
    ensures
        0 <= j * rows,
        0 <= j * rows + i < rows * columns,
{
    assert(0 <= j * rows && j * rows + i < rows * columns) by (nonlinear_arith)
        requires
            0 <= i < rows,
            0 <= j < columns,
    ;
}

/// A square matrix times a vector.
pub fn mat_vec(m: &[Scalar], x: &[Scalar]) -> (r: Vec<Scalar>)
    requires
        m@.len() == x@.len() * x@.len(),
    ensures
        r@ == product(m@, x@),
{
    let n = x.len();
    let size = m.len();
    let mut r: Vec<Scalar> = Vec::new();
    let mut i: usize = 0;
    while i < n
        invariant
            n == x@.len(),
            size == m@.len(),
            m@.len() == n * n,
            i <= n,
            r@ == Seq::new(i as nat, |k: int| row_product(m@, n as int, x@, k, n as int)),
        decreases n - i,
    {
        proof {
            entry_in_range(n as int, n as int, i as int, 0);
        }
        let mut sum = m[i].mul(x[0]);
        let mut j: usize = 1;
        while j < n
            invariant
                n == x@.len(),
                size == m@.len(),
                m@.len() == n * n,
                i < n,
                1 <= j <= n,
                sum == row_product(m@, n as int, x@, i as int, j as int),
            decreases n - j,
        {
            proof {
                entry_in_range(n as int, n as int, i as int, j as int);
            }
            sum = m[j * n + i].mul(x[j]).add(sum);
            j = j + 1;
        }
        r.push(sum);
        i = i + 1;
        assert(r@ =~= Seq::new(i as nat, |k: int| row_product(m@, n as int, x@, k, n as int)));
    }
    r
}

/// Every entry times `k`.
pub fn scale(a: &[Scalar], k: Scalar) -> (r: Vec<Scalar>)
    ensures
        r@ == scaled(a@, k),
{
    let mut r: Vec<Scalar> = Vec::new();
    let mut i: usize = 0;
    while i < a.len()
        invariant
            i <= a@.len(),
            r@ == Seq::new(i as nat, |p: int| a@[p].times(k)),
        decreases a@.len() - i,
    {
        r.push(a[i].mul(k));
        i = i + 1;
        assert(r@ =~= Seq::new(i as nat, |p: int| a@[p].times(k)));
    }
    r
}

/// The vector of `dim` zeros.
pub fn zero_vector(dim: usize) -> (r: Vec<Scalar>)
    ensures
        r@ == zeros(dim as nat),
{
    let mut r: Vec<Scalar> = Vec::new();
    let mut i: usize = 0;
    while i < dim
        invariant
            i <= dim,
            r@ == zeros(i as nat),
        decreases dim - i,
    {
        r.push(Scalar::from_u64(0));
        i = i + 1;
        assert(r@ =~= zeros(i as nat));
    }
    r
}

/// The identity matrix, every entry divided by `k`.
pub fn scaled_identity(dim: usize, k: Scalar) -> (r: Vec<Scalar>)
    requires
        dim * dim <= usize::MAX,
    ensures
        r@ == identity_over(dim as nat, k),
{
    let on = Scalar::from_u64(1).div(k);
    let off = Scalar::from_u64(0).div(k);
    let size: usize = dim * dim;
    let mut r: Vec<Scalar> = Vec::new();
    let mut p: usize = 0;
    while p < size
        invariant
            size == dim * dim,
            on == Scalar::of_int(1).over(k),
            off == Scalar::of_int(0).over(k),
            p <= size,
            r@ == identity_over(dim as nat, k).take(p as int),
        decreases size - p,
    {
        assert(dim > 0) by (nonlinear_arith)
            requires
                0 <= p < size,
                size == dim * dim,
        ;
        r.push(
            if p % dim == p / dim {
                on
            } else {
                off
            },
        );
        p = p + 1;
        assert(r@ =~= identity_over(dim as nat, k).take(p as int));
    }
    assert(r@ =~= identity_over(dim as nat, k));
    r
}

/// The greatest distance between entries at the same place.
pub fn max_abs_diff(a: &[Scalar], b: &[Scalar]) -> (r: Scalar)
    requires
        a@.len() == b@.len(),
    ensures
        r == greatest_distance(a@, b@, a@.len() as int),
{
    let mut greatest = Scalar::from_u64(0);
    let mut i: usize = 0;
    while i < a.len()
        invariant
            a@.len() == b@.len(),
            i <= a@.len(),
            greatest == greatest_distance(a@, b@, i as int),
        decreases a@.len() - i,
    {
        greatest = greatest.max(a[i].sub(b[i]).abs());
        i = i + 1;
    }
    greatest
}

} // verus!
