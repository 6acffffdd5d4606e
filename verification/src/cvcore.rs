//! Core data structures and element-wise operations.

pub mod arith_spec;
pub mod element;
pub mod error;
pub mod matrix;
pub mod types;

pub use matrix::Matrix;
pub mod arithm;
pub mod gemm;
pub mod simd;
