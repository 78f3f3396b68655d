//! Sorting.
use vstd::prelude::*;

pub mod order;
pub mod primitive;

pub use primitive::{partial_sort_by, sort_by};


verus! {

/// How to sort: in which direction, and where nulls go.
#[derive(Debug, Clone, Copy, PartialEq, Eq)]
pub struct SortOptions {
    /// Whether the greatest value comes first.
    pub descending: bool,
    /// Whether nulls come before all values.
    pub nulls_first: bool,
}

impl Default for SortOptions {
    fn default() -> (options: Self)
        ensures
            !options.descending,
            options.nulls_first,
    {
        SortOptions { descending: false, nulls_first: true }
    }
}

} // verus!
