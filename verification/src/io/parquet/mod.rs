//! The Parquet format.
pub mod read;
