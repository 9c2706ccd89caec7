//! The row-parallel product: every row of the result is computed on its
//! own, rows in parallel.
use crate::matmul::model::{
    is_square, lemma_coordinates, lemma_position, lemma_product_row, product, row_of, row_product,
};
use crate::matmul::serial::multiply_row;
use rayon::iter::{IndexedParallelIterator, ParallelIterator};
use rayon::slice::{ParallelSlice, ParallelSliceMut};
use vstd::prelude::*;

verus! {

/// Computes the rows of a product in parallel with rayon's `par_chunks_mut`,
/// `par_chunks`, `zip`, `enumerate` and `for_each`.
///
/// The two chunk iterators cut `m_c` and `m_a` into their rows, consecutive
/// chunks of `size` elements that do not overlap; `zip` pairs the rows of
/// equal number, and `for_each` runs the closure once on every pair. The
/// closure is one call of [`multiply_row`], so on return every row of `m_c`
/// holds what that call leaves in it.
#[verifier::external_body]
fn for_each_row(size: usize, m_a: &[i32], m_b: &[i32], m_c: &mut [i32])
    requires
        is_square(m_a@, size as nat),
        is_square(m_b@, size as nat),
        is_square(old(m_c)@, size as nat),
    ensures
        final(m_c)@.len() == old(m_c)@.len(),
        forall|i: int|
            0 <= i < size ==> #[trigger] row_of(final(m_c)@, size as nat, i) == row_product(
                row_of(m_a@, size as nat, i),
                m_b@,
                size as nat,
            ),
{
    m_c.par_chunks_mut(size).zip(m_a.par_chunks(size)).enumerate().for_each(
        |(_, (c_row, a_row))| multiply_row(size, a_row, m_b, c_row),
    );
}

/// The product of two square matrices, one row of the result per parallel
/// task.
///
/// `m_a`, `m_b` and `m_c` hold matrices of side `size` in row-major order.
/// On return `m_c` holds `m_a * m_b`; what it held before is overwritten.
/// Arithmetic is 32-bit and wraps on overflow.
pub fn matmul_par_row(size: usize, m_a: &[i32], m_b: &[i32], m_c: &mut [i32])
    requires
        is_square(m_a@, size as nat),
        is_square(m_b@, size as nat),
        is_square(old(m_c)@, size as nat),
    ensures
        final(m_c)@ == product(m_a@, m_b@, size as nat),
{
    for_each_row(size, m_a, m_b, m_c);
    proof {
        let n = size as nat;
        let want = product(m_a@, m_b@, n);
        assert forall|p: int| 0 <= p < n * n implies m_c@[p] == want[p] by {
            let i = p / (n as int);
            let j = p % (n as int);
            lemma_coordinates(n as int, p);
            lemma_position(n as int, i, j);
            lemma_product_row(m_a@, m_b@, n, i);
            assert(row_of(m_c@, n, i)[j] == m_c@[p]);
            assert(row_of(want, n, i)[j] == want[p]);
        }
        assert(m_c@ =~= want);
    }
}

} // verus!
