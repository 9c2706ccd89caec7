//! Data-parallel numeric kernels with machine-checked contracts.
//!
//! The centre of the crate is the product of dense square matrices of
//! 32-bit integers stored by rows ([`matmul`]): a serial triple loop, a
//! row-parallel variant, and a recursive fork-join engine that cuts its
//! factors and its result into quadrants, multiplies the quadrants in
//! parallel and adds the partial products up. Every variant is proved to
//! compute the same product, overflow included.
//!
//! Around it stand the arithmetic the contracts are written in ([`arith`]),
//! the fork-join primitives ([`join`]), the smaller kernels, Fibonacci
//! numbers ([`fibonacci`]) and integer sorting ([`quick_sort`]), and the
//! rules by which the benchmark drivers read their options ([`harness`],
//! [`mandelbrot`], [`reduction`]).
//!
//! Parallelism comes from rayon. Verus reads neither rayon nor closures that
//! write through a mutable reference, so the few functions that hand work to
//! rayon are trusted: each is marked, makes one kind of call, and says in
//! its documentation what is assumed of it. Everything else is verified.
pub mod arith;
pub mod fibonacci;
pub mod harness;
pub mod join;
pub mod mandelbrot;
pub mod matmul;
pub mod quick_sort;
pub mod reduction;
