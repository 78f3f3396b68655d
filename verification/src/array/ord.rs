//! Orders of the values of arrays.
pub use crate::compute::sort::order::{is_total_order, lemma_total_cmp, natural_order, total_cmp};
