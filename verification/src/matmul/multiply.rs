//! The product as a value: the recursive engine behind an interface that
//! returns the product instead of writing it into a buffer of the caller.
use crate::matmul::model::product;
use crate::matmul::recursive::matmulz;
use crate::matmul::side::{is_power_of_four, side};
use vstd::prelude::*;

verus! {

/// The product of two square matrices whose side is a power of two.
///
/// `a` and `b` hold matrices in row-major order, entry `(i, j)` at
/// `i * n + j`; the result holds `a * b` in the same order, and equals,
/// entry for entry, what the serial triple loop computes. Arithmetic is
/// 32-bit and wraps on overflow.
pub fn multiply(a: &[i32], b: &[i32]) -> (c: Vec<i32>)
    requires
        is_power_of_four(a@.len()),
        b@.len() == a@.len(),
    ensures
        c@ == product(a@, b@, side(a@.len())),
{
    let mut c: Vec<i32> = vec![0; a.len()];
    matmulz(a, b, c.as_mut_slice());
    c
}

} // verus!
