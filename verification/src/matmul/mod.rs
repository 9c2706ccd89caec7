//! Dense square matrices of `i32` held in flat buffers by rows, and their
//! products.
//!
//! - [`model`] says what a product is; [`laws`] proves that the identity is
//!   neutral and that products associate.
//! - [`serial`] and [`rows`] multiply by the triple loop, serially and one
//!   row per parallel task.
//! - [`view`] has the square windows into a matrix and the splitter that
//!   cuts a window into its four quadrants, for reading and for writing.
//! - [`recursive`] is the fork-join engine: it multiplies the quadrants of
//!   its factors in parallel and adds the partial products up with the
//!   elementwise combinator ([`combine`]).
//! - [`multiply`] returns the product as a value.
//! - [`side`] has the arithmetic of sides and lengths, [`config`] the
//!   options of the benchmark driver.
pub mod combine;
pub mod config;
pub mod laws;
pub mod model;
pub mod multiply;
pub mod recursive;
pub mod rows;
pub mod serial;
pub mod side;
pub mod view;

pub use combine::{rcopy, rmatsub, rmatsum};
pub use config::MatMulConfig;
pub use multiply::multiply;
pub use recursive::{matmulz, matmulz_with_chunk};
pub use rows::matmul_par_row;
pub use serial::{matmul_seq, matmul_serial};
pub use view::{quarter_chunks, quarter_chunks_mut, MatrixView, MatrixViewMut};
