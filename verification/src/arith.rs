//! The arithmetic the contracts speak of: two's-complement wrapping of
//! mathematical integers to `i32`, and finite sums of integer terms.
use vstd::arithmetic::div_mod::{
    lemma_add_mod_noop, lemma_mod_add_multiples_vanish, lemma_mod_bound,
    lemma_mod_sub_multiples_vanish, lemma_small_mod,
};
use vstd::prelude::*;
use vstd::wrapping::i32_specs;

verus! {

/// The number of values an `i32` can take, `2^32`.
pub open spec fn modulus() -> int {
    0x1_0000_0000
}

/// The `i32` that the mathematical integer `x` wraps to in two's complement:
/// the one value of the type that differs from `x` by a multiple of `2^32`.
pub open spec fn wrap(x: int) -> i32 {
    let r = x % modulus();
    if r > i32::MAX {
        (r - modulus()) as i32
    } else {
        r as i32
    }
}

/// `x` and `y` differ by a multiple of `2^32`.
pub open spec fn congruent(x: int, y: int) -> bool {
    x % modulus() == y % modulus()
}

/// A value that already fits in an `i32` wraps to itself.
pub proof fn lemma_wrap_fits(x: int)
    requires
        i32::MIN <= x <= i32::MAX,
    ensures
        wrap(x) == x,
{
    let m = modulus();
    if x >= 0 {
        lemma_small_mod(x as nat, m as nat);
    } else {
        lemma_small_mod((x + m) as nat, m as nat);
        assert((x + m) % m == x % m) by {
            lemma_mod_add_multiples_vanish(x, m);
        }
    }
}

/// Wrapping keeps the residue modulo `2^32`.
pub proof fn lemma_wrap_congruent(x: int)
    ensures
        congruent(wrap(x) as int, x),
{
    let m = modulus();
    let r = x % m;
    lemma_mod_bound(x, m);
    if r > i32::MAX {
        assert((r - m) % m == r % m) by {
            lemma_mod_sub_multiples_vanish(r, m);
        }
    }
    lemma_small_mod(r as nat, m as nat);
}

/// Two integers wrap to the same `i32` exactly when they are congruent.
pub proof fn lemma_wrap_eq(x: int, y: int)
    ensures
        wrap(x) == wrap(y) <==> congruent(x, y),
{
    lemma_wrap_congruent(x);
    lemma_wrap_congruent(y);
    let m = modulus();
    lemma_mod_bound(x, m);
    lemma_mod_bound(y, m);
}

/// The machine's wrapping addition is addition followed by wrapping.
pub proof fn lemma_wrapping_add(x: i32, y: i32)
    ensures
        i32_specs::wrapping_add(x, y) == wrap(x + y),
{
    let m = modulus();
    let s = x + y;
    if s > i32::MAX {
        lemma_wrap_fits(s - m);
        assert((s - m) % m == s % m) by {
            lemma_mod_sub_multiples_vanish(s, m);
        }
    } else if s < i32::MIN {
        lemma_wrap_fits(s + m);
        assert((s + m) % m == s % m) by {
            lemma_mod_add_multiples_vanish(s, m);
        }
    } else {
        lemma_wrap_fits(s);
    }
}

/// The machine's wrapping subtraction is subtraction followed by wrapping.
pub proof fn lemma_wrapping_sub(x: i32, y: i32)
    ensures
        i32_specs::wrapping_sub(x, y) == wrap(x - y),
{
    let m = modulus();
    let s = x - y;
    if s > i32::MAX {
        lemma_wrap_fits(s - m);
        assert((s - m) % m == s % m) by {
            lemma_mod_sub_multiples_vanish(s, m);
        }
    } else if s < i32::MIN {
        lemma_wrap_fits(s + m);
        assert((s + m) % m == s % m) by {
            lemma_mod_add_multiples_vanish(s, m);
        }
    } else {
        lemma_wrap_fits(s);
    }
}

/// The machine's wrapping multiplication is multiplication followed by wrapping.
pub proof fn lemma_wrapping_mul(x: i32, y: i32)
    ensures
        i32_specs::wrapping_mul(x, y) == wrap(x * y),
{
}

/// Wrapping the addends first does not change the wrapped sum.
pub proof fn lemma_wrap_add(x: int, y: int)
    ensures
        wrap(wrap(x) + wrap(y)) == wrap(x + y),
{
    let m = modulus();
    lemma_wrap_congruent(x);
    lemma_wrap_congruent(y);
    lemma_add_mod_noop(wrap(x) as int, wrap(y) as int, m);
    lemma_add_mod_noop(x, y, m);
    lemma_wrap_eq(wrap(x) + wrap(y), x + y);
}

/// The sum `f(0) + f(1) + ... + f(n - 1)`; zero when `n <= 0`.
pub open spec fn sum(f: spec_fn(int) -> int, n: int) -> int
    decreases n,
{
    if n <= 0 {
        0
    } else {
        sum(f, n - 1) + f(n - 1)
    }
}

/// Sums of terms that agree on `0..n` are equal.
pub proof fn lemma_sum_pointwise(f: spec_fn(int) -> int, g: spec_fn(int) -> int, n: int)
    requires
        forall|k: int| 0 <= k < n ==> #[trigger] f(k) == g(k),
    ensures
        sum(f, n) == sum(g, n),
    decreases n,
{
    if n > 0 {
        lemma_sum_pointwise(f, g, n - 1);
    }
}

/// Sums of terms that are congruent on `0..n` are congruent.
pub proof fn lemma_sum_congruent(f: spec_fn(int) -> int, g: spec_fn(int) -> int, n: int)
    requires
        forall|k: int| 0 <= k < n ==> congruent(#[trigger] f(k), g(k)),
    ensures
        congruent(sum(f, n), sum(g, n)),
    decreases n,
{
    if n > 0 {
        lemma_sum_congruent(f, g, n - 1);
        let m = modulus();
        lemma_add_mod_noop(sum(f, n - 1), f(n - 1), m);
        lemma_add_mod_noop(sum(g, n - 1), g(n - 1), m);
    }
}

/// A sum over `0..n` is the sum over `0..m` plus the sum over `m..n`.
pub proof fn lemma_sum_split(f: spec_fn(int) -> int, m: int, n: int)
    requires
        0 <= m <= n,
    ensures
        sum(f, n) == sum(f, m) + sum(|k: int| f(m + k), n - m),
    decreases n,
{
    let tail = |k: int| f(m + k);
    if n > m {
        lemma_sum_split(f, m, n - 1);
        assert(tail(n - 1 - m) == f(n - 1));
    }
}

/// The sum of termwise sums is the sum of the sums.
pub proof fn lemma_sum_add(f: spec_fn(int) -> int, g: spec_fn(int) -> int, n: int)
    ensures
        sum(|k: int| f(k) + g(k), n) == sum(f, n) + sum(g, n),
    decreases n,
{
    if n > 0 {
        lemma_sum_add(f, g, n - 1);
    }
}

/// A constant factor moves out of a sum.
pub proof fn lemma_sum_scale(c: int, f: spec_fn(int) -> int, n: int)
    ensures
        sum(|k: int| c * f(k), n) == c * sum(f, n),
    decreases n,
{
    if n > 0 {
        lemma_sum_scale(c, f, n - 1);
        assert(c * (sum(f, n - 1) + f(n - 1)) == c * sum(f, n - 1) + c * f(n - 1))
            by (nonlinear_arith);
    } else {
        assert(c * 0 == 0);
    }
}

/// A sum in which only the term at `j` can be nonzero equals that term.
pub proof fn lemma_sum_single(f: spec_fn(int) -> int, n: int, j: int)
    requires
        0 <= j < n,
        forall|k: int| 0 <= k < n && k != j ==> #[trigger] f(k) == 0,
    ensures
        sum(f, n) == f(j),
    decreases n,
{
    if n - 1 == j {
        lemma_sum_pointwise(f, |k: int| 0int, n - 1);
        lemma_sum_zero(n - 1);
    } else {
        lemma_sum_single(f, n - 1, j);
    }
}

/// A sum of zeros is zero.
pub proof fn lemma_sum_zero(n: int)
    ensures
        sum(|k: int| 0int, n) == 0,
    decreases n,
{
    if n > 0 {
        lemma_sum_zero(n - 1);
    }
}

/// The order of two nested sums can be exchanged.
pub proof fn lemma_sum_exchange(f: spec_fn(int, int) -> int, m: int, n: int)
    ensures
        sum(|i: int| sum(|j: int| f(i, j), n), m) == sum(|j: int| sum(|i: int| f(i, j), m), n),
    decreases m,
{
    let rows = |i: int| sum(|j: int| f(i, j), n);
    let cols = |j: int| sum(|i: int| f(i, j), m);
    if m <= 0 {
        lemma_sum_pointwise(cols, |j: int| 0int, n);
        lemma_sum_zero(n);
    } else {
        let cols_before = |j: int| sum(|i: int| f(i, j), m - 1);
        let last_row = |j: int| f(m - 1, j);
        lemma_sum_exchange(f, m - 1, n);
        assert(sum(rows, m - 1) == sum(cols_before, n));
        assert(rows(m - 1) == sum(last_row, n)) by {
            lemma_sum_pointwise(|j: int| f(m - 1, j), last_row, n);
        }
        lemma_sum_add(cols_before, last_row, n);
        assert forall|j: int| 0 <= j < n implies #[trigger] cols(j) == cols_before(j) + last_row(
            j,
        ) by {
            let col = |i: int| f(i, j);
            assert(sum(col, m) == sum(col, m - 1) + col(m - 1));
        }
        lemma_sum_pointwise(cols, |j: int| cols_before(j) + last_row(j), n);
    }
}

} // verus!
