//! A small dense-matrix library, verified with Verus.
//!
//! A `Matrix` is an immutable-shape, mutable-content container of `i64`
//! elements in row-major order.  All arithmetic wraps around on overflow
//! (two's-complement, modulo 2^64), which keeps every operation total.
//! Contracts are stated over the mathematical model in [`model`], and the
//! algebraic laws of the operations are proved in [`laws`].

pub mod algebra;
pub mod laws;
pub mod matrix;
pub mod model;
pub mod text;

pub use matrix::Matrix;
pub use model::MatModel;
