//! Arrays: columns of values of one type.
pub mod binary;
pub mod boolean;
pub mod fixed_size_binary;
pub mod list;
pub mod null;
pub mod ord;
pub mod primitive;

pub use fixed_size_binary::{
    item_views, FixedSizeBinaryArray, FixedSizeBinaryView, MutableFixedSizeBinaryArray,
};
pub use primitive::{slots_of, PrimitiveArray, SlotsView};
pub use binary::{numbers, opt_bits, repeated, BinaryArray, BinaryView, Utf8Array};
pub use boolean::BooleanArray;
pub use null::NullArray;
pub use list::{
    append_range, array_wf, empty_view, join_offsets, lemma_appended_kind, lemma_appended_len, lemma_same_kind_reflexive, same_kind, outgrown_bytes, outgrown_lists, outgrown_offsets, rising, lemma_whole_slice, new_empty_array, Array, ArrayView, EmptyArray, ListArray, ListView,
};
