//! Kernels that compute arrays from arrays.
pub mod concat;
pub mod sort;
