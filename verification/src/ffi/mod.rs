//! The C data interface: exported schema nodes and how fields become
//! nodes and nodes become fields again.
mod array;
mod format;
mod laws;
mod metadata;
mod schema;
mod stream;

pub use format::{
    can_format, fixed_type, format_of, integer_format, integer_type_of, numerals, to_format,
    to_integer_type, type_ids_text, unit_letter,
};
pub use metadata::{
    collect, entries_bytes, entries_fit, entries_to_bytes, extension_entries,
    extension_entries_of, extension_metadata_key, extension_name_key, extension_view,
    fits_block, import_metadata, is_read_of, metadata_bytes, metadata_from_bytes, metadata_from_bytes_in,
    metadata_to_bytes, metadata_to_bytes_in, native_little_endian, number_at, number_bytes,
    parse_block, parse_entries, parse_text, text_bytes, unbound_entries, Collected,
};
pub use laws::{
    below_representable, stored_type, has_fixed_format, is_leaf, lemma_export_import, lemma_metadata_round_trip,
    lemma_release_once, lemma_representable_exportable, lemma_round_trip_parts, no_reserved_key,
    read_children, representable, representable_parts,
};
pub use schema::{
    all_fields, below_exportable, child_fields, child_type, decimal_type, empty_schema, export,
    export_children, export_dictionary, export_parts, timestamp_of,
    export_field_to_c, exportable, exportable_parts, exported_entries, fits_in_block, flags_of,
    get_child, has_format, import_children, import_field_from_c, is_exportable, is_importable,
    import_data_type, import_field, import_stored_type, importable, metadata_block, needs_child,
    nullable_flag, ordered_flag, released, sorted_flag, timestamp_unit, to_data_type,
    to_data_type_in, to_field, to_field_in, try_export_field, type_ids, union_mode, ArrowSchema,
    SchemaView,
};
pub use array::{
    buffer_bytes, buffer_count, buffer_len, byte_width, byte_width_of, offset_width,
    offset_width_of, buffer_views, buffers_of, child_types, children_of, conforms, empty_array,
    export_array, export_array_to_c, first_refusal, fits_machine, import_array,
    import_array_children, import_array_from_c, is_live, lemma_array_release_once,
    lemma_array_round_trip,
    live, opt_buffer, opt_buffer_views, physical, refusal_of, released_array, says, to_physical,
    values_type, ArrayData, ArrayDataView, ArrayNodeView, ArrowArray, Buffer, Refusal,
};
pub use stream::{
    check_readable, failure, failure_text, lemma_reader_of_arrays, next_step, step_after,
    ReadStep, gives_array, is_conforming, lemma_stream_of_arrays, pulled_view, pulls_of, state_after,
    status_of, written, ArraySource, ArrowArrayStream, Pulled, StreamState, StreamView,
    STATUS_ERROR, STATUS_OK,
};
