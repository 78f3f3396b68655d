//! Columnar arrays and their exchange through the C data interface.
//!
//! The crate keeps the semantic side (data types, fields, arrays) apart from
//! the exported side (schema and array nodes) and proves that what is
//! exported can be imported again.
pub mod array;
pub mod bitmap;
pub mod compute;
pub mod datatypes;
pub mod error;
pub mod ffi;
pub mod io;
pub mod scalar;
pub mod text;
pub mod types;
