//! Reading Parquet pages into arrays.
pub mod deserialize;
