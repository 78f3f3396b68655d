//! Reading arrays from storage formats.
pub mod parquet;
