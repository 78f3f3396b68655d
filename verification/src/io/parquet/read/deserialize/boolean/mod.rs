//! Pages of booleans.
mod basic;

pub use basic::{
    array_validity, ascending, chunk_views, chunk_wf, chunked, count_true, extend_from_new_page,
    finish, fits, hybrid_rle_levels, joined, least, level_bits, page_levels, page_rows, refused,
    selected_of, selection, split, spread, state_rows, took_rows, BooleanDecoder, ChunkView, DataPages,
    Decoded, Encoding, FilteredRequired, Interval, Iter, MaybeNext, OptionalRows, Page, Required,
    RowsView, State, Values,
};
