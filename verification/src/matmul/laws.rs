//! Laws of the matrix product: the identity is neutral, and products
//! associate. Both hold exactly, overflow included, because wrapping to 32
//! bits is compatible with sums and products.
use crate::arith::{
    congruent, lemma_sum_congruent, lemma_sum_exchange, lemma_sum_pointwise, lemma_sum_scale,
    lemma_sum_single, lemma_wrap_congruent, lemma_wrap_eq, lemma_wrap_fits, modulus, sum, wrap,
};
use crate::matmul::model::{
    dot, identity, is_square, lemma_coordinates, lemma_position, product, terms,
};
use vstd::arithmetic::div_mod::lemma_mul_mod_noop_general;
use vstd::prelude::*;

verus! {

/// Entry `(i, j)` of a product is the wrapped dot product of row `i` and
/// column `j`.
pub proof fn lemma_product_entry(a: Seq<i32>, b: Seq<i32>, n: nat, i: int, j: int)
    requires
        0 <= i < n,
        0 <= j < n,
    ensures
        product(a, b, n).len() == n * n,
        0 <= i * n + j < n * n,
        product(a, b, n)[i * n + j] == wrap(dot(a, b, n as int, i, j)),
{
    lemma_position(n as int, i, j);
}

/// Entry `(i, j)` of the identity is one on the diagonal and zero off it.
pub proof fn lemma_identity_entry(n: nat, i: int, j: int)
    requires
        0 <= i < n,
        0 <= j < n,
    ensures
        identity(n).len() == n * n,
        0 <= i * n + j < n * n,
        identity(n)[i * n + j] == (if i == j { 1i32 } else { 0i32 }),
{
    lemma_position(n as int, i, j);
}

/// A matrix times the identity is the matrix.
pub proof fn lemma_product_identity_right(a: Seq<i32>, n: nat)
    requires
        is_square(a, n),
    ensures
        product(a, identity(n), n) == a,
{
    let m = n as int;
    let p_ = product(a, identity(n), n);
    assert forall|p: int| 0 <= p < n * n implies p_[p] == a[p] by {
        lemma_coordinates(m, p);
        let i = p / m;
        let j = p % m;
        let f = terms(a, identity(n), m, i, j);
        assert forall|k: int| 0 <= k < m && k != j implies #[trigger] f(k) == 0 by {
            lemma_identity_entry(n, k, j);
            assert(a[i * m + k] * 0 == 0);
        }
        lemma_sum_single(f, m, j);
        lemma_identity_entry(n, j, j);
        assert(f(j) == a[i * m + j] * 1);
        lemma_wrap_fits(a[p] as int);
    }
    assert(p_ =~= a);
}

/// The identity times a matrix is the matrix.
pub proof fn lemma_product_identity_left(a: Seq<i32>, n: nat)
    requires
        is_square(a, n),
    ensures
        product(identity(n), a, n) == a,
{
    let m = n as int;
    let p_ = product(identity(n), a, n);
    assert forall|p: int| 0 <= p < n * n implies p_[p] == a[p] by {
        lemma_coordinates(m, p);
        let i = p / m;
        let j = p % m;
        let f = terms(identity(n), a, m, i, j);
        assert forall|k: int| 0 <= k < m && k != i implies #[trigger] f(k) == 0 by {
            lemma_identity_entry(n, i, k);
            assert(0 * a[k * m + j] == 0);
        }
        lemma_sum_single(f, m, i);
        lemma_identity_entry(n, i, i);
        assert(f(i) == 1 * a[i * m + j]);
        lemma_wrap_fits(a[p] as int);
    }
    assert(p_ =~= a);
}

/// A wrapped factor can be replaced by the exact one without leaving the
/// residue class of the product.
proof fn lemma_congruent_factor(x: int, y: int)
    ensures
        congruent(wrap(x) * y, x * y),
        congruent(y * wrap(x), y * x),
{
    let m = modulus();
    lemma_wrap_congruent(x);
    lemma_mul_mod_noop_general(wrap(x) as int, y, m);
    lemma_mul_mod_noop_general(x, y, m);
    lemma_mul_mod_noop_general(y, wrap(x) as int, m);
    lemma_mul_mod_noop_general(y, x, m);
}

/// The triple product `a[i][l] * b[l][k] * c[k][j]`, by `k` and `l`.
spec fn triple(a: Seq<i32>, b: Seq<i32>, c: Seq<i32>, n: int, i: int, j: int) -> spec_fn(
    int,
    int,
) -> int {
    |k: int, l: int| a[i * n + l] * b[l * n + k] * c[k * n + j]
}

/// Entry `(i, j)` of `(a * b) * c` is congruent to the sum of all triple
/// products, summed over `l` first.
proof fn lemma_left_nested(a: Seq<i32>, b: Seq<i32>, c: Seq<i32>, n: nat, i: int, j: int)
    requires
        0 <= i < n,
        0 <= j < n,
    ensures
        congruent(
            dot(product(a, b, n), c, n as int, i, j),
            sum(|k: int| sum(|l: int| triple(a, b, c, n as int, i, j)(k, l), n as int), n as int),
        ),
{
    let m = n as int;
    let g = triple(a, b, c, m, i, j);
    let wrapped = terms(product(a, b, n), c, m, i, j);
    let exact = |k: int| sum(|l: int| g(k, l), m);
    assert forall|k: int| 0 <= k < m implies congruent(#[trigger] wrapped(k), exact(k)) by {
        lemma_product_entry(a, b, n, i, k);
        let x = dot(a, b, m, i, k);
        let y = c[k * m + j] as int;
        lemma_congruent_factor(x, y);
        // y * (sum over l of a[i][l] * b[l][k]) is the sum of the triple products.
        let inner = terms(a, b, m, i, k);
        lemma_sum_scale(y, inner, m);
        assert forall|l: int| 0 <= l < m implies #[trigger] g(k, l) == y * inner(l) by {
            assert(a[i * m + l] * b[l * m + k] * y == y * (a[i * m + l] * b[l * m + k]))
                by (nonlinear_arith);
        }
        lemma_sum_pointwise(|l: int| g(k, l), |l: int| y * inner(l), m);
        assert(x * y == y * x) by (nonlinear_arith);
    }
    lemma_sum_congruent(wrapped, exact, m);
}

/// Entry `(i, j)` of `a * (b * c)` is congruent to the sum of all triple
/// products, summed over `k` first.
proof fn lemma_right_nested(a: Seq<i32>, b: Seq<i32>, c: Seq<i32>, n: nat, i: int, j: int)
    requires
        0 <= i < n,
        0 <= j < n,
    ensures
        congruent(
            dot(a, product(b, c, n), n as int, i, j),
            sum(|l: int| sum(|k: int| triple(a, b, c, n as int, i, j)(k, l), n as int), n as int),
        ),
{
    let m = n as int;
    let g = triple(a, b, c, m, i, j);
    let wrapped = terms(a, product(b, c, n), m, i, j);
    let exact = |l: int| sum(|k: int| g(k, l), m);
    assert forall|l: int| 0 <= l < m implies congruent(#[trigger] wrapped(l), exact(l)) by {
        lemma_product_entry(b, c, n, l, j);
        let x = dot(b, c, m, l, j);
        let y = a[i * m + l] as int;
        lemma_congruent_factor(x, y);
        let inner = terms(b, c, m, l, j);
        lemma_sum_scale(y, inner, m);
        assert forall|k: int| 0 <= k < m implies #[trigger] g(k, l) == y * inner(k) by {
            assert(y * b[l * m + k] * c[k * m + j] == y * (b[l * m + k] * c[k * m + j]))
                by (nonlinear_arith);
        }
        lemma_sum_pointwise(|k: int| g(k, l), |k: int| y * inner(k), m);
    }
    lemma_sum_congruent(wrapped, exact, m);
}

/// Products associate: `(a * b) * c` is `a * (b * c)`, entry for entry.
pub proof fn lemma_product_associative(a: Seq<i32>, b: Seq<i32>, c: Seq<i32>, n: nat)
    requires
        is_square(a, n),
        is_square(b, n),
        is_square(c, n),
    ensures
        product(product(a, b, n), c, n) == product(a, product(b, c, n), n),
{
    let m = n as int;
    let left = product(product(a, b, n), c, n);
    let right = product(a, product(b, c, n), n);
    assert forall|p: int| 0 <= p < n * n implies left[p] == right[p] by {
        lemma_coordinates(m, p);
        let i = p / m;
        let j = p % m;
        lemma_left_nested(a, b, c, n, i, j);
        lemma_right_nested(a, b, c, n, i, j);
        lemma_sum_exchange(triple(a, b, c, m, i, j), m, m);
        lemma_wrap_eq(dot(product(a, b, n), c, m, i, j), dot(a, product(b, c, n), m, i, j));
    }
    assert(left =~= right);
}

} // verus!
