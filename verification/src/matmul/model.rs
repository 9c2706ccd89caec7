//! What a matrix product is: the model the multiplication contracts refer to.
//!
//! A matrix of side `n` is a sequence of `n * n` entries in row-major order,
//! entry `(i, j)` at position `i * n + j`. Entries of a product are the exact
//! integer dot products, wrapped to `i32`.
use crate::arith::{lemma_sum_pointwise, sum, wrap};
use vstd::arithmetic::div_mod::{lemma_fundamental_div_mod_converse, lemma_mod_bound};
use vstd::prelude::*;

verus! {

/// `s` holds a square matrix of side `n`, `n` at least one.
pub open spec fn is_square(s: Seq<i32>, n: nat) -> bool {
    n > 0 && s.len() == n * n
}

/// The terms `a[i][k] * b[k][j]` of entry `(i, j)` of the product, by `k`.
pub open spec fn terms(a: Seq<i32>, b: Seq<i32>, n: int, i: int, j: int) -> spec_fn(int) -> int {
    |k: int| a[i * n + k] * b[k * n + j]
}

/// The exact dot product of row `i` of `a` and column `j` of `b`.
pub open spec fn dot(a: Seq<i32>, b: Seq<i32>, n: int, i: int, j: int) -> int {
    sum(terms(a, b, n, i, j), n)
}

/// The product of the matrices `a` and `b` of side `n`, in row-major order.
pub open spec fn product(a: Seq<i32>, b: Seq<i32>, n: nat) -> Seq<i32> {
    Seq::new(n * n, |p: int| wrap(dot(a, b, n as int, p / (n as int), p % (n as int))))
}

/// The identity matrix of side `n`.
pub open spec fn identity(n: nat) -> Seq<i32> {
    Seq::new(
        n * n,
        |p: int|
            if p / (n as int) == p % (n as int) {
                1i32
            } else {
                0i32
            },
    )
}

/// The terms of entry `j` of a single row `row` times `b`, by `k`.
pub open spec fn row_terms(row: Seq<i32>, b: Seq<i32>, n: int, j: int) -> spec_fn(int) -> int {
    |k: int| row[k] * b[k * n + j]
}

/// One row of a product: the row vector `row` times the matrix `b`.
pub open spec fn row_product(row: Seq<i32>, b: Seq<i32>, n: nat) -> Seq<i32> {
    Seq::new(n, |j: int| wrap(sum(row_terms(row, b, n as int, j), n as int)))
}

/// Row `i` of the matrix `a` of side `n`.
pub open spec fn row_of(a: Seq<i32>, n: nat, i: int) -> Seq<i32> {
    a.subrange(i * n, i * n + n)
}

/// Position `i * n + j` lies in a matrix of side `n`, and splits back into
/// row `i` and column `j`.
pub proof fn lemma_position(n: int, i: int, j: int)
    requires
        0 <= i < n,
        0 <= j < n,
    ensures
        0 <= i * n + j < n * n,
        i * n + n <= n * n,
        (i * n + j) / n == i,
        (i * n + j) % n == j,
{
    assert(i * n >= 0) by (nonlinear_arith)
        requires
            0 <= i,
            0 < n,
    ;
    assert(i * n + n <= n * n) by (nonlinear_arith)
        requires
            0 <= i < n,
    ;
    lemma_fundamental_div_mod_converse(i * n + j, n, i, j);
}

/// A position `p` of a matrix of side `n` is row `p / n`, column `p % n`.
pub proof fn lemma_coordinates(n: int, p: int)
    requires
        0 < n,
        0 <= p < n * n,
    ensures
        0 <= p / n < n,
        0 <= p % n < n,
        p == (p / n) * n + p % n,
{
    lemma_mod_bound(p, n);
    vstd::arithmetic::div_mod::lemma_fundamental_div_mod(p, n);
    let q = p / n;
    assert(n * q == q * n) by (nonlinear_arith);
    assert(q >= 0) by (nonlinear_arith)
        requires
            q * n + p % n >= 0,
            0 <= p % n < n,
            n > 0,
    ;
    assert(q < n) by (nonlinear_arith)
        requires
            q * n + p % n < n * n,
            0 <= p % n,
            n > 0,
    ;
}

/// Row `i` of a product is the product of row `i` of the left factor with
/// the right factor.
pub proof fn lemma_product_row(a: Seq<i32>, b: Seq<i32>, n: nat, i: int)
    requires
        is_square(a, n),
        0 <= i < n,
    ensures
        row_of(product(a, b, n), n, i) == row_product(row_of(a, n, i), b, n),
{
    let m = n as int;
    let left = row_of(product(a, b, n), n, i);
    let right = row_product(row_of(a, n, i), b, n);
    lemma_position(m, i, 0);
    assert(left.len() == right.len());
    assert forall|j: int| 0 <= j < n implies left[j] == right[j] by {
        lemma_position(m, i, j);
        assert(left[j] == product(a, b, n)[i * m + j]);
        assert forall|k: int| 0 <= k < m implies #[trigger] terms(a, b, m, i, j)(k) == row_terms(
            row_of(a, n, i),
            b,
            m,
            j,
        )(k) by {
            lemma_position(m, i, k);
        }
        lemma_sum_pointwise(terms(a, b, m, i, j), row_terms(row_of(a, n, i), b, m, j), m);
    }
    assert(left =~= right);
}

} // verus!
