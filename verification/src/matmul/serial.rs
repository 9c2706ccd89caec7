//! The serial reference product: the classic triple loop, row by row.
use crate::arith::{
    lemma_wrap_add, lemma_wrap_fits, lemma_wrapping_add, lemma_wrapping_mul, sum, wrap,
};
use crate::matmul::model::{
    is_square, lemma_position, lemma_product_row, product, row_of, row_product, row_terms, terms,
};
use crate::matmul::side::{lemma_side_squared, multipliable, shifted_index, side, side_bits};
use vstd::arithmetic::power2::pow2;
use vstd::prelude::*;
use vstd::slice::slice_subrange;

verus! {

/// Entry `col` of the row vector `a_row` times the matrix `m_b` of side
/// `size`: the dot product of the row with column `col`, wrapping on overflow.
pub fn row_entry(size: usize, a_row: &[i32], m_b: &[i32], col: usize) -> (r: i32)
    requires
        a_row@.len() == size,
        is_square(m_b@, size as nat),
        col < size,
    ensures
        r == wrap(sum(row_terms(a_row@, m_b@, size as int, col as int), size as int)),
{
    let ghost f = row_terms(a_row@, m_b@, size as int, col as int);
    let mut acc: i32 = 0;
    let mut k: usize = 0;
    let len = m_b.len();
    proof {
        lemma_wrap_fits(0);
    }
    while k < size
        invariant
            k <= size,
            size * size == len,
            col < size,
            a_row@.len() == size,
            is_square(m_b@, size as nat),
            f == row_terms(a_row@, m_b@, size as int, col as int),
            acc == wrap(sum(f, k as int)),
        decreases size - k,
    {
        proof {
            lemma_position(size as int, k as int, col as int);
        }
        let x = a_row[k];
        let y = m_b[k * size + col];
        let t = x.wrapping_mul(y);
        proof {
            lemma_wrapping_mul(x, y);
            lemma_wrapping_add(acc, t);
            lemma_wrap_add(sum(f, k as int), x * y);
            assert(f(k as int) == x * y);
        }
        acc = acc.wrapping_add(t);
        k += 1;
    }
    acc
}

/// Fills `c_row` with the row vector `a_row` times the matrix `m_b` of side
/// `size`.
pub fn multiply_row(size: usize, a_row: &[i32], m_b: &[i32], c_row: &mut [i32])
    requires
        a_row@.len() == size,
        old(c_row)@.len() == size,
        is_square(m_b@, size as nat),
    ensures
        final(c_row)@ == row_product(a_row@, m_b@, size as nat),
{
    let mut col: usize = 0;
    while col < size
        invariant
            col <= size,
            a_row@.len() == size,
            c_row@.len() == size,
            is_square(m_b@, size as nat),
            forall|j: int| 0 <= j < col ==> c_row@[j] == row_product(a_row@, m_b@, size as nat)[j],
        decreases size - col,
    {
        let v = row_entry(size, a_row, m_b, col);
        c_row[col] = v;
        col += 1;
    }
    assert(c_row@ =~= row_product(a_row@, m_b@, size as nat));
}

/// The product of two square matrices by the classic triple loop.
///
/// `m_a`, `m_b` and `m_c` hold matrices of side `size` in row-major order.
/// On return `m_c` holds `m_a * m_b`; what it held before is overwritten.
/// Arithmetic is 32-bit and wraps on overflow.
pub fn matmul_serial(size: usize, m_a: &[i32], m_b: &[i32], m_c: &mut [i32])
    requires
        is_square(m_a@, size as nat),
        is_square(m_b@, size as nat),
        is_square(old(m_c)@, size as nat),
    ensures
        final(m_c)@ == product(m_a@, m_b@, size as nat),
{
    let ghost want = product(m_a@, m_b@, size as nat);
    let len = m_a.len();
    let mut row: usize = 0;
    while row < size
        invariant
            row <= size,
            size * size == len,
            is_square(m_a@, size as nat),
            is_square(m_b@, size as nat),
            is_square(m_c@, size as nat),
            want == product(m_a@, m_b@, size as nat),
            forall|p: int| 0 <= p < row * size ==> m_c@[p] == want[p],
        decreases size - row,
    {
        proof {
            lemma_position(size as int, row as int, 0);
            lemma_product_row(m_a@, m_b@, size as nat, row as int);
        }
        let start = row * size;
        let a_row = slice_subrange(m_a, start, start + size);
        let ghost before = m_c@;
        let (_, tail) = m_c.split_at_mut(start);
        let (c_row, _) = tail.split_at_mut(size);
        multiply_row(size, a_row, m_b, c_row);
        proof {
            assert(m_c@.len() == before.len());
            assert(forall|p: int| 0 <= p < start ==> m_c@[p] == before[p]);
            let want_row = row_of(want, size as nat, row as int);
            assert(forall|j: int| 0 <= j < size ==> m_c@[start + j] == want_row[j]);
            assert forall|p: int| 0 <= p < (row + 1) * size implies m_c@[p] == want[p] by {
                assert((row + 1) * size == start + size) by (nonlinear_arith)
                    requires
                        start == row * size,
                ;
                if p >= start {
                    assert(m_c@[start + (p - start)] == want_row[p - start]);
                }
            }
        }
        row += 1;
    }
    assert(m_c@ =~= want);
}

/// The product of two square matrices whose side is a power of two, by the
/// triple loop, with the side taken from the length of `dest` and positions
/// put together by shifting.
///
/// `m_a`, `m_b` and `dest` hold matrices in row-major order. On return
/// `dest` holds `m_a * m_b`; what it held before is overwritten. Arithmetic
/// is 32-bit and wraps on overflow.
pub fn matmul_seq(m_a: &[i32], m_b: &[i32], dest: &mut [i32])
    requires
        multipliable(m_a@, m_b@, old(dest)@),
    ensures
        final(dest)@ == product(m_a@, m_b@, side(m_a@.len())),
{
    // Multiply in row-major order.
    // D[i,j] = sum for all k A[i,k] * B[k,j]
    let len = dest.len();
    let bits = side_bits(len);
    let n = 1usize << bits;
    let ghost want = product(m_a@, m_b@, side(m_a@.len()));
    proof {
        lemma_side_squared(len as nat);
        let s = side(len as nat);
        assert(s <= s * s) by (nonlinear_arith)
            requires
                s >= 1,
        ;
        vstd::bits::lemma_usize_shl_is_mul(1usize, bits as usize);
    }
    let mut i: usize = 0;
    while i < n
        invariant
            i <= n,
            n == pow2(bits as nat),
            n == side(len as nat),
            n * n == len,
            bits < usize::BITS,
            m_a@.len() == len,
            m_b@.len() == len,
            dest@.len() == len,
            want == product(m_a@, m_b@, n as nat),
            forall|p: int| 0 <= p < i * n ==> dest@[p] == want[p],
        decreases n - i,
    {
        let mut j: usize = 0;
        while j < n
            invariant
                i < n,
                j <= n,
                n == pow2(bits as nat),
                n * n == len,
                bits < usize::BITS,
                m_a@.len() == len,
                m_b@.len() == len,
                dest@.len() == len,
                want == product(m_a@, m_b@, n as nat),
                forall|p: int| 0 <= p < i * n + j ==> dest@[p] == want[p],
            decreases n - j,
        {
            let ghost f = terms(m_a@, m_b@, n as int, i as int, j as int);
            let mut sum: i32 = 0;
            let mut k: usize = 0;
            proof {
                lemma_wrap_fits(0);
            }
            while k < n
                invariant
                    i < n,
                    j < n,
                    k <= n,
                    n == pow2(bits as nat),
                    n * n == len,
                    bits < usize::BITS,
                    m_a@.len() == len,
                    m_b@.len() == len,
                    f == terms(m_a@, m_b@, n as int, i as int, j as int),
                    sum == wrap(crate::arith::sum(f, k as int)),
                decreases n - k,
            {
                proof {
                    lemma_position(n as int, i as int, k as int);
                    lemma_position(n as int, k as int, j as int);
                }
                let x = m_a[shifted_index(i, bits, k)];
                let y = m_b[shifted_index(k, bits, j)];
                let t = x.wrapping_mul(y);
                proof {
                    lemma_wrapping_mul(x, y);
                    lemma_wrapping_add(sum, t);
                    lemma_wrap_add(crate::arith::sum(f, k as int), x * y);
                    assert(f(k as int) == x * y);
                }
                sum = sum.wrapping_add(t);
                k += 1;
            }
            proof {
                lemma_position(n as int, i as int, j as int);
            }
            dest[shifted_index(i, bits, j)] = sum;
            j += 1;
        }
        proof {
            assert((i + 1) * n == i * n + n) by (nonlinear_arith);
        }
        i += 1;
    }
    assert(dest@ =~= want);
}

} // verus!
