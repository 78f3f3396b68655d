//! From the pages of a column to arrays.
pub mod boolean;
