//! Sorting arrays of fixed-width values.
mod partial_sort;
mod sort;

pub use partial_sort::{partial_sort_by, partial_sort_inner};
pub use sort::{
    laid_out, nulls_before, slots_kept, sort_by, sort_inner, sorted_selection, valid_upto,
    valid_values, values_kept,
};
