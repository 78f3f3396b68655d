//! What is exported can be imported again.
use vstd::prelude::*;
use vstd::utf8::{encode_utf8, encode_utf8_decode_utf8, encode_utf8_valid_utf8};

use super::format::{
    can_format, fixed_type, format_of, integer_format, integer_type_of, numerals, type_ids_text,
    unit_letter,
};
use super::metadata::{
    collect, entries_bytes, extension_metadata_key, extension_name_key, fits_block,
    import_metadata, lemma_number_at_prefix, lemma_number_round_trip, metadata_bytes,
    number_bytes, parse_block, parse_entries, parse_text, text_bytes, unbound_entries, Collected,
};
use super::schema::{
    all_fields, below_exportable, child_fields, decimal_type, export, export_children,
    export_dictionary, export_parts, exportable, exportable_parts, exported_entries, flags_of, import_children, import_data_type, import_field,
    import_stored_type, importable, metadata_block, needs_child, nullable_flag, ordered_flag,
    released, sorted_flag, timestamp_of, type_ids, union_mode, SchemaView,
};
use crate::datatypes::{
    lex_lt, sorted_by_key, upsert, DataTypeView, FieldView, IntegerType, TimeUnit, UnionMode,
};
use crate::text::{
    all_digits, decimal, decimal_int, digit_value, has_char, join, lemma_decimal,
    lemma_decimal_int, lemma_split_append, lemma_split_join, lemma_split_one, parse_i32_spec,
    split,
};

verus! {

/// Whether `data_type` has no field below it and is neither a dictionary
/// nor an extension.
pub open spec fn is_leaf(data_type: DataTypeView) -> bool {
    child_fields(data_type).len() == 0 && !(data_type is Dictionary) && !(data_type is Extension)
}

/// Whether no entry has one of the two reserved keys.
pub open spec fn no_reserved_key(metadata: Seq<(Seq<char>, Seq<char>)>) -> bool {
    forall|i: int|
        0 <= i < metadata.len() ==> (#[trigger] metadata[i]).0 != extension_name_key()
            && metadata[i].0 != extension_metadata_key()
}

/// Whether a type that is no extension comes back from a node with its
/// format, its children and its dictionary:
///
/// - sizes, precision and scale fit in a `usize`;
/// - the time zone of a timestamp, where there is one, is not empty;
/// - a union has type ids;
/// - the fields below and the values of a dictionary are representable.
pub open spec fn below_representable(data_type: DataTypeView) -> bool
    decreases data_type, 0int,
{
    match data_type {
        DataTypeView::Timestamp(_, tz) => tz != Some(Seq::<char>::empty()),
        DataTypeView::FixedSizeBinary(size) => size <= usize::MAX,
        DataTypeView::Decimal(precision, scale) => precision <= usize::MAX && scale
            <= usize::MAX,
        DataTypeView::List(field) => representable_parts(field.data_type, field.metadata),
        DataTypeView::FixedSizeList(field, size) => size <= usize::MAX && representable_parts(
            field.data_type,
            field.metadata,
        ),
        DataTypeView::LargeList(field) => representable_parts(field.data_type, field.metadata),
        DataTypeView::MapType(field, _) => representable_parts(field.data_type, field.metadata),
        DataTypeView::Struct(fields) => fields.len() <= i64::MAX && forall|i: int|
            0 <= i < fields.len() ==> representable_parts(
                (#[trigger] fields[i]).data_type,
                fields[i].metadata,
            ),
        DataTypeView::Union(fields, ids, _) => ids is Some && fields.len() <= i64::MAX
            && forall|i: int|
            0 <= i < fields.len() ==> representable_parts(
                (#[trigger] fields[i]).data_type,
                fields[i].metadata,
            ),
        DataTypeView::Dictionary(_, values, _) => representable_parts(*values, Seq::empty()),
        DataTypeView::Extension(_, _, _) => false,
        _ => true,
    }
}

/// The type that a node of `data_type` describes before its metadata are
/// looked at: the type under an extension, else the type itself.
pub open spec fn stored_type(data_type: DataTypeView) -> DataTypeView {
    match data_type {
        DataTypeView::Extension(_, inner, _) => *inner,
        _ => data_type,
    }
}

/// Whether a field of this type and metadata comes back from its node:
///
/// - the type has a format string, and counts and lengths fit the interface;
/// - the metadata are in the order of their keys and use no reserved key;
/// - an extension does not lie over another extension;
/// - the type, or the type under the extension, comes back from its node.
pub open spec fn representable_parts(
    data_type: DataTypeView,
    metadata: Seq<(Seq<char>, Seq<char>)>,
) -> bool
    decreases data_type, 1int,
{
    &&& can_format(data_type)
    &&& fits_block(exported_entries(data_type, metadata))
    &&& sorted_by_key(metadata)
    &&& no_reserved_key(metadata)
    &&& match data_type {
        DataTypeView::Extension(_, inner, _) => below_representable(*inner),
        _ => below_representable(data_type),
    }
}

/// Whether `field` comes back from its node.
pub open spec fn representable(field: FieldView) -> bool {
    representable_parts(field.data_type, field.metadata)
}

/// The characters of the words of the format grammar.
proof fn lemma_words()
    ensures
        "n"@.len() == 1 && "n"@[0] == 'n',
        "b"@.len() == 1 && "b"@[0] == 'b',
        "c"@.len() == 1 && "c"@[0] == 'c',
        "C"@.len() == 1 && "C"@[0] == 'C',
        "s"@.len() == 1 && "s"@[0] == 's',
        "S"@.len() == 1 && "S"@[0] == 'S',
        "i"@.len() == 1 && "i"@[0] == 'i',
        "I"@.len() == 1 && "I"@[0] == 'I',
        "l"@.len() == 1 && "l"@[0] == 'l',
        "L"@.len() == 1 && "L"@[0] == 'L',
        "e"@.len() == 1 && "e"@[0] == 'e',
        "f"@.len() == 1 && "f"@[0] == 'f',
        "g"@.len() == 1 && "g"@[0] == 'g',
        "z"@.len() == 1 && "z"@[0] == 'z',
        "Z"@.len() == 1 && "Z"@[0] == 'Z',
        "u"@.len() == 1 && "u"@[0] == 'u',
        "U"@.len() == 1 && "U"@[0] == 'U',
        "w"@.len() == 1 && "w"@[0] == 'w',
        "d"@.len() == 1 && "d"@[0] == 'd',
        ","@.len() == 1 && ","@[0] == ',',
        "tt"@.len() == 2 && "tt"@[0] == 't' && "tt"@[1] == 't',
        "tD"@.len() == 2 && "tD"@[0] == 't' && "tD"@[1] == 'D',
        "ts"@.len() == 2 && "ts"@[0] == 't' && "ts"@[1] == 's',
        "w:"@.len() == 2 && "w:"@[0] == 'w' && "w:"@[1] == ':',
        "d:"@.len() == 2 && "d:"@[0] == 'd' && "d:"@[1] == ':',
        "+l"@.len() == 2 && "+l"@[0] == '+' && "+l"@[1] == 'l',
        "+L"@.len() == 2 && "+L"@[0] == '+' && "+L"@[1] == 'L',
        "+s"@.len() == 2 && "+s"@[0] == '+' && "+s"@[1] == 's',
        "+m"@.len() == 2 && "+m"@[0] == '+' && "+m"@[1] == 'm',
        "+w"@.len() == 2 && "+w"@[0] == '+' && "+w"@[1] == 'w',
        "tdD"@.len() == 3 && "tdD"@[0] == 't' && "tdD"@[1] == 'd' && "tdD"@[2] == 'D',
        "tdm"@.len() == 3 && "tdm"@[0] == 't' && "tdm"@[1] == 'd' && "tdm"@[2] == 'm',
        "tts"@.len() == 3 && "tts"@[0] == 't' && "tts"@[1] == 't' && "tts"@[2] == 's',
        "ttm"@.len() == 3 && "ttm"@[0] == 't' && "ttm"@[1] == 't' && "ttm"@[2] == 'm',
        "ttu"@.len() == 3 && "ttu"@[0] == 't' && "ttu"@[1] == 't' && "ttu"@[2] == 'u',
        "ttn"@.len() == 3 && "ttn"@[0] == 't' && "ttn"@[1] == 't' && "ttn"@[2] == 'n',
        "tDs"@.len() == 3 && "tDs"@[0] == 't' && "tDs"@[1] == 'D' && "tDs"@[2] == 's',
        "tDm"@.len() == 3 && "tDm"@[0] == 't' && "tDm"@[1] == 'D' && "tDm"@[2] == 'm',
        "tDu"@.len() == 3 && "tDu"@[0] == 't' && "tDu"@[1] == 'D' && "tDu"@[2] == 'u',
        "tDn"@.len() == 3 && "tDn"@[0] == 't' && "tDn"@[1] == 'D' && "tDn"@[2] == 'n',
        "tiM"@.len() == 3 && "tiM"@[0] == 't' && "tiM"@[1] == 'i' && "tiM"@[2] == 'M',
        "tiD"@.len() == 3 && "tiD"@[0] == 't' && "tiD"@[1] == 'i' && "tiD"@[2] == 'D',
        "tss"@.len() == 3 && "tss"@[0] == 't' && "tss"@[1] == 's' && "tss"@[2] == 's',
        "tsm"@.len() == 3 && "tsm"@[0] == 't' && "tsm"@[1] == 's' && "tsm"@[2] == 'm',
        "tsu"@.len() == 3 && "tsu"@[0] == 't' && "tsu"@[1] == 's' && "tsu"@[2] == 'u',
        "tsn"@.len() == 3 && "tsn"@[0] == 't' && "tsn"@[1] == 's' && "tsn"@[2] == 'n',
        "+us"@.len() == 3 && "+us"@[0] == '+' && "+us"@[1] == 'u' && "+us"@[2] == 's',
        "+ud"@.len() == 3 && "+ud"@[0] == '+' && "+ud"@[1] == 'u' && "+ud"@[2] == 'd',
        "+w:"@.len() == 3 && "+w:"@[0] == '+' && "+w:"@[1] == 'w' && "+w:"@[2] == ':',
        "+us:"@.len() == 4 && "+us:"@[0] == '+' && "+us:"@[1] == 'u' && "+us:"@[2] == 's' && "+us:"@[3] == ':',
        "+ud:"@.len() == 4 && "+ud:"@[0] == '+' && "+ud:"@[1] == 'u' && "+ud:"@[2] == 'd' && "+ud:"@[3] == ':',
{
    reveal_strlit("n");
    reveal_strlit("b");
    reveal_strlit("c");
    reveal_strlit("C");
    reveal_strlit("s");
    reveal_strlit("S");
    reveal_strlit("i");
    reveal_strlit("I");
    reveal_strlit("l");
    reveal_strlit("L");
    reveal_strlit("e");
    reveal_strlit("f");
    reveal_strlit("g");
    reveal_strlit("z");
    reveal_strlit("Z");
    reveal_strlit("u");
    reveal_strlit("U");
    reveal_strlit("w");
    reveal_strlit("d");
    reveal_strlit(",");
    reveal_strlit("tt");
    reveal_strlit("tD");
    reveal_strlit("ts");
    reveal_strlit("w:");
    reveal_strlit("d:");
    reveal_strlit("+l");
    reveal_strlit("+L");
    reveal_strlit("+s");
    reveal_strlit("+m");
    reveal_strlit("+w");
    reveal_strlit("tdD");
    reveal_strlit("tdm");
    reveal_strlit("tts");
    reveal_strlit("ttm");
    reveal_strlit("ttu");
    reveal_strlit("ttn");
    reveal_strlit("tDs");
    reveal_strlit("tDm");
    reveal_strlit("tDu");
    reveal_strlit("tDn");
    reveal_strlit("tiM");
    reveal_strlit("tiD");
    reveal_strlit("tss");
    reveal_strlit("tsm");
    reveal_strlit("tsu");
    reveal_strlit("tsn");
    reveal_strlit("+us");
    reveal_strlit("+ud");
    reveal_strlit("+w:");
    reveal_strlit("+us:");
    reveal_strlit("+ud:");
}

/// A text of digits, minus signs and commas holds no colon; a text of digits
/// and minus signs holds no comma either.
proof fn lemma_numeral_chars(i: int)
    ensures
        !has_char(decimal_int(i), ':'),
        !has_char(decimal_int(i), ','),
        i >= 0 ==> all_digits(decimal_int(i)),
{
    lemma_decimal_int(i);
    if i >= 0 {
        lemma_decimal(i as nat);
    }
    let s = decimal_int(i);
    if has_char(s, ':') {
        let k = choose|k: int| 0 <= k < s.len() && s[k] == ':';
        assert(digit_value(s[k]) is Some || s[k] == '-');
    }
    if has_char(s, ',') {
        let k = choose|k: int| 0 <= k < s.len() && s[k] == ',';
        assert(digit_value(s[k]) is Some || s[k] == '-');
    }
}

/// The join of texts without `c`, with a separator other than `c`, holds
/// no `c`.
proof fn lemma_join_without(parts: Seq<Seq<char>>, sep: char, c: char)
    requires
        sep != c,
        forall|i: int| 0 <= i < parts.len() ==> !has_char(#[trigger] parts[i], c),
    ensures
        !has_char(join(parts, sep), c),
    decreases parts.len(),
{
    if parts.len() == 0 {
    } else if parts.len() == 1 {
    } else {
        let init = parts.drop_last();
        assert forall|i: int| 0 <= i < init.len() implies !has_char(#[trigger] init[i], c) by {
            assert(init[i] == parts[i]);
        }
        lemma_join_without(init, sep, c);
        let a = join(init, sep);
        let w = a + seq![sep] + parts.last();
        if has_char(w, c) {
            let k = choose|k: int| 0 <= k < w.len() && w[k] == c;
            if k < a.len() {
                assert(a[k] == c);
            } else if k > a.len() {
                assert(parts.last()[k - a.len() - 1] == c);
                assert(has_char(parts[parts.len() - 1], c));
            }
        }
    }
}

/// The flags of a node tell what went into them.
proof fn lemma_flags(data_type: DataTypeView, is_nullable: bool)
    ensures
        nullable_flag(flags_of(data_type, is_nullable)) == is_nullable,
        flags_of(data_type, is_nullable) == flags_of(stored_type(data_type), is_nullable),
        data_type matches DataTypeView::MapType(_, sorted) ==> sorted_flag(
            flags_of(data_type, is_nullable),
        ) == sorted,
        data_type matches DataTypeView::Dictionary(_, _, ordered) ==> ordered_flag(
            flags_of(data_type, is_nullable),
        ) == ordered,
    decreases data_type,
{
    assert(0i64 & 2 == 0 && 1i64 & 2 == 0 && 4i64 & 2 == 0 && 2i64 & 2 != 0 && 3i64 & 2 != 0 && 6i64
        & 2 != 0 && 0i64 & 4 == 0 && 2i64 & 4 == 0 && 4i64 & 4 != 0 && 6i64 & 4 != 0 && 0i64 & 1
        == 0 && 2i64 & 1 == 0 && 1i64 & 1 != 0 && 3i64 & 1 != 0) by (bit_vector);
    match data_type {
        DataTypeView::Extension(_, inner, _) => lemma_flags(*inner, is_nullable),
        _ => {},
    }
}

/// A text is read back from its bytes, whatever follows them.
proof fn lemma_parse_text(s: Seq<char>, rest: Seq<u8>, little: bool)
    requires
        encode_utf8(s).len() <= i32::MAX,
    ensures
        parse_text(text_bytes(s, little) + rest, little) == Some(
            (s, text_bytes(s, little).len() as int),
        ),
        (text_bytes(s, little) + rest).skip(text_bytes(s, little).len() as int) == rest,
{
    let body = encode_utf8(s);
    let n = body.len() as int;
    let head = number_bytes(n, little);
    let all = text_bytes(s, little) + rest;
    lemma_number_round_trip(n, little);
    assert(all =~= head + (body + rest));
    lemma_number_at_prefix(head, body + rest, little);
    assert(all.subrange(4, 4 + n) =~= body);
    assert(all.skip(text_bytes(s, little).len() as int) =~= rest);
    encode_utf8_valid_utf8(s);
    encode_utf8_decode_utf8(s);
}

/// One entry is read back from its bytes, whatever follows them.
proof fn lemma_parse_entry(key: Seq<char>, value: Seq<char>, rest: Seq<u8>, little: bool)
    requires
        encode_utf8(key).len() <= i32::MAX,
        encode_utf8(value).len() <= i32::MAX,
    ensures
        ({
            let all = text_bytes(key, little) + text_bytes(value, little) + rest;
            &&& parse_text(all, little) matches Some((k, used))
            &&& k == key
            &&& parse_text(all.skip(used), little) matches Some((v, more))
            &&& v == value
            &&& all.skip(used).skip(more) == rest
        }),
{
    let k = text_bytes(key, little);
    let v = text_bytes(value, little);
    let all = k + v + rest;
    assert(all =~= k + (v + rest));
    lemma_parse_text(key, v + rest, little);
    lemma_parse_text(value, rest, little);
}

/// Entries are read back from their bytes, whatever follows them.
proof fn lemma_parse_entries(entries: Seq<(Seq<char>, Seq<char>)>, rest: Seq<u8>, little: bool)
    requires
        fits_block(entries),
    ensures
        parse_entries(entries_bytes(entries, little) + rest, entries.len(), little) == Some(
            entries,
        ),
    decreases entries.len(),
{
    if entries.len() == 0 {
        assert(entries =~= Seq::empty());
    } else {
        let (key, value) = entries[0];
        let tail = entries.drop_first();
        let t = entries_bytes(tail, little);
        let all = entries_bytes(entries, little) + rest;
        assert(all =~= text_bytes(key, little) + text_bytes(value, little) + (t + rest));
        lemma_parse_entry(key, value, t + rest, little);
        assert forall|i: int| 0 <= i < tail.len() implies encode_utf8(
            (#[trigger] tail[i]).0,
        ).len() <= i32::MAX && encode_utf8(tail[i].1).len() <= i32::MAX by {
            assert(tail[i] == entries[i + 1]);
        }
        lemma_parse_entries(tail, rest, little);
        assert(seq![(key, value)] + tail =~= entries);
    }
}

/// Entries are read back from their block.
proof fn lemma_parse_block(entries: Seq<(Seq<char>, Seq<char>)>, little: bool)
    requires
        fits_block(entries),
    ensures
        parse_block(metadata_bytes(entries, little), little) == Some(entries),
{
    let head = number_bytes(entries.len() as int, little);
    let body = entries_bytes(entries, little);
    let all = metadata_bytes(entries, little);
    lemma_number_round_trip(entries.len() as int, little);
    lemma_number_at_prefix(head, body, little);
    assert(all.skip(4) =~= body + Seq::<u8>::empty());
    lemma_parse_entries(entries, Seq::empty(), little);
}

/// Entries in the order of their keys, none of them reserved, that follow
/// entries without plain metadata are the plain metadata as they stand.
proof fn lemma_collect_after(
    ahead: Seq<(Seq<char>, Seq<char>)>,
    entries: Seq<(Seq<char>, Seq<char>)>,
)
    requires
        collect(ahead).metadata == Seq::<(Seq<char>, Seq<char>)>::empty(),
        sorted_by_key(entries),
        no_reserved_key(entries),
    ensures
        collect(ahead + entries) == (Collected { metadata: entries, ..collect(ahead) }),
    decreases entries.len(),
{
    if entries.len() == 0 {
        assert(ahead + entries =~= ahead);
        assert(entries =~= Seq::empty());
    } else {
        let init = entries.drop_last();
        assert forall|i: int, j: int| 0 <= i < j < init.len() implies lex_lt(
            #[trigger] init[i].0,
            #[trigger] init[j].0,
        ) by {
            assert(lex_lt(entries[i].0, entries[j].0));
        }
        assert forall|i: int| 0 <= i < init.len() implies (#[trigger] init[i]).0
            != extension_name_key() && init[i].0 != extension_metadata_key() by {
            assert(init[i] == entries[i]);
        }
        lemma_collect_after(ahead, init);
        let last = entries.last();
        assert(last == entries[entries.len() - 1]);
        assert((ahead + entries).drop_last() =~= ahead + init);
        assert((ahead + entries).last() == last);
        if init.len() > 0 {
            assert(lex_lt(entries[init.len() - 1].0, entries[entries.len() - 1].0));
            crate::text::lemma_lex_irreflexive(last.0);
            assert(init.last().0 != last.0);
        }
        assert(upsert(init, last.0, last.1) =~= entries);
    }
}

/// Metadata that use no reserved key travel whole with an extension type.
proof fn lemma_unbound_plain(metadata: Seq<(Seq<char>, Seq<char>)>, has_extra: bool)
    requires
        no_reserved_key(metadata),
    ensures
        unbound_entries(metadata, has_extra) == metadata,
    decreases metadata.len(),
{
    if metadata.len() == 0 {
        assert(metadata =~= Seq::empty());
    } else {
        let init = metadata.drop_last();
        assert forall|i: int| 0 <= i < init.len() implies (#[trigger] init[i]).0
            != extension_name_key() && init[i].0 != extension_metadata_key() by {
            assert(init[i] == metadata[i]);
        }
        lemma_unbound_plain(init, has_extra);
        assert(metadata.last() == metadata[metadata.len() - 1]);
        assert(init.push(metadata.last()) =~= metadata);
    }
}

/// What the entries under the reserved keys say: the name of the
/// extension, its metadata if there are some, and no plain metadata.
proof fn lemma_collect_reserved(name: Seq<char>, extra: Option<Seq<char>>)
    ensures
        collect(
            seq![(extension_name_key(), name)] + (match extra {
                Some(e) => seq![(extension_metadata_key(), e)],
                None => Seq::empty(),
            }),
        ) == (Collected { metadata: Seq::empty(), name: Some(name), extra }),
{
    reveal_strlit("ARROW:extension:name");
    reveal_strlit("ARROW:extension:metadata");
    assert(extension_name_key() != extension_metadata_key()) by {
        assert(extension_name_key().len() != extension_metadata_key().len());
    }
    let first = seq![(extension_name_key(), name)];
    assert(first.drop_last() =~= Seq::<(Seq<char>, Seq<char>)>::empty());
    assert(collect(first.drop_last()) == (Collected {
        metadata: Seq::empty(),
        name: None,
        extra: None,
    }));
    assert(first.last() == (extension_name_key(), name));
    assert(collect(first) == (Collected { metadata: Seq::empty(), name: Some(name), extra: None }));
    match extra {
        Some(e) => {
            let both = first + seq![(extension_metadata_key(), e)];
            assert(both.drop_last() =~= first);
            assert(both.last() == (extension_metadata_key(), e));
        },
        None => {
            assert(first + Seq::<(Seq<char>, Seq<char>)>::empty() =~= first);
        },
    }
}

/// The metadata block of a node says the metadata of the field and, for an
/// extension type, its name and its metadata.
pub proof fn lemma_metadata_round_trip(
    data_type: DataTypeView,
    metadata: Seq<(Seq<char>, Seq<char>)>,
    little: bool,
)
    requires
        fits_block(exported_entries(data_type, metadata)),
        sorted_by_key(metadata),
        no_reserved_key(metadata),
    ensures
        import_metadata(metadata_block(data_type, metadata, little), little) == Some(
            Collected {
                metadata,
                name: match data_type {
                    DataTypeView::Extension(name, _, _) => Some(name),
                    _ => None,
                },
                extra: match data_type {
                    DataTypeView::Extension(_, _, extra) => extra,
                    _ => None,
                },
            },
        ),
{
    let entries = exported_entries(data_type, metadata);
    match data_type {
        DataTypeView::Extension(name, _, extra) => {
            let ahead = seq![(extension_name_key(), name)] + (match extra {
                Some(e) => seq![(extension_metadata_key(), e)],
                None => Seq::empty(),
            });
            lemma_parse_block(entries, little);
            lemma_unbound_plain(metadata, extra is Some);
            lemma_collect_reserved(name, extra);
            lemma_collect_after(ahead, metadata);
            assert(entries == ahead + metadata);
        },
        _ => {
            if metadata.len() > 0 {
                lemma_parse_block(entries, little);
                let none = Seq::<(Seq<char>, Seq<char>)>::empty();
                assert(none + metadata =~= metadata);
                lemma_collect_after(none, metadata);
            } else {
                assert(metadata =~= Seq::empty());
            }
        },
    }
}

} // verus!

verus! {

/// Whether `data_type` is named by a fixed word of the grammar.
pub open spec fn has_fixed_format(data_type: DataTypeView) -> bool {
    match data_type {
        DataTypeView::Null => true,
        DataTypeView::Boolean => true,
        DataTypeView::Int8 => true,
        DataTypeView::UInt8 => true,
        DataTypeView::Int16 => true,
        DataTypeView::UInt16 => true,
        DataTypeView::Int32 => true,
        DataTypeView::UInt32 => true,
        DataTypeView::Int64 => true,
        DataTypeView::UInt64 => true,
        DataTypeView::Float16 => true,
        DataTypeView::Float32 => true,
        DataTypeView::Float64 => true,
        DataTypeView::Binary => true,
        DataTypeView::LargeBinary => true,
        DataTypeView::Utf8 => true,
        DataTypeView::LargeUtf8 => true,
        DataTypeView::Date32 => true,
        DataTypeView::Date64 => true,
        DataTypeView::Time32(_) => true,
        DataTypeView::Time64(_) => true,
        DataTypeView::Duration(_) => true,
        DataTypeView::Interval(_) => true,
        _ => false,
    }
}

/// A fixed word names the type that it is the format of.
proof fn lemma_fixed(data_type: DataTypeView)
    requires
        has_fixed_format(data_type),
        can_format(data_type),
    ensures
        fixed_type(format_of(data_type)) == Some(data_type),
        integer_type_of(format_of(data_type)) is Some ==> integer_type_of(format_of(data_type))->0.data_type() == data_type,
{
    lemma_words();
    match data_type {
        DataTypeView::Time32(unit) => {
            assert("tt"@.push(unit_letter(unit)) =~= (if unit == TimeUnit::Second {
                "tts"@
            } else {
                "ttm"@
            }));
        },
        DataTypeView::Time64(unit) => {
            assert("tt"@.push(unit_letter(unit)) =~= (if unit == TimeUnit::Microsecond {
                "ttu"@
            } else {
                "ttn"@
            }));
        },
        DataTypeView::Duration(unit) => {
            assert("tD"@.push(unit_letter(unit)) =~= (match unit {
                TimeUnit::Second => "tDs"@,
                TimeUnit::Millisecond => "tDm"@,
                TimeUnit::Microsecond => "tDu"@,
                TimeUnit::Nanosecond => "tDn"@,
            }));
        },
        _ => {},
    }
}

/// No fixed word is longer than three characters, and the longer ones
/// begin with `t`.
proof fn lemma_not_fixed(format: Seq<char>)
    requires
        format.len() >= 4 || (format.len() >= 2 && format[0] != 't'),
    ensures
        fixed_type(format) is None,
        integer_type_of(format) is None,
{
    lemma_words();
}

/// The format of an integer type names it.
proof fn lemma_integer_format(index: IntegerType)
    ensures
        integer_type_of(integer_format(index)) == Some(index),
{
    lemma_words();
}

/// What the format of a leaf type that is not a fixed word splits into at
/// the colon: the head, and the rest, which holds no further colon.
proof fn lemma_leaf_parts(data_type: DataTypeView) -> (parts: (Seq<char>, Seq<char>))
    requires
        data_type is FixedSizeBinary || data_type is Decimal || data_type is FixedSizeList
            || data_type is Union,
        can_format(data_type),
    ensures
        split(format_of(data_type), ':') == seq![parts.0, parts.1],
        format_of(data_type).len() >= 3,
        format_of(data_type)[0] != 't' || format_of(data_type).len() >= 4,
        format_of(data_type) != "+l"@,
        format_of(data_type) != "+L"@,
        format_of(data_type) != "+m"@,
        format_of(data_type) != "+s"@,
        match data_type {
            DataTypeView::FixedSizeBinary(size) => parts.0 == "w"@ && parts.1 == decimal(size),
            DataTypeView::FixedSizeList(_, size) => parts.0 == "+w"@ && parts.1 == decimal(size),
            DataTypeView::Decimal(precision, scale) => parts.0 == "d"@ && parts.1 == decimal(
                precision,
            ) + ","@ + decimal(scale),
            DataTypeView::Union(fields, ids, mode) => union_mode(parts.0) == Some(mode) && parts.1
                == type_ids_text(fields.len() as int, ids),
            _ => true,
        },
        timestamp_of(format_of(data_type)) is None,
        parts.0 == "w"@ ==> data_type is FixedSizeBinary,
        parts.0 == "+w"@ ==> data_type is FixedSizeList,
        parts.0 == "d"@ ==> data_type is Decimal,
{
    lemma_words();
    let f = format_of(data_type);
    assert(f.len() >= 3 ==> f.take(3)[0] == f[0]);
    match data_type {
        DataTypeView::FixedSizeBinary(size) => {
            let head = "w"@;
            let rest = decimal(size);
            lemma_numeral_chars(size as int);
            assert(f =~= head + seq![':'] + rest);
            lemma_split_append(head, ':', rest);
            assert(!has_char(head, ':'));
            lemma_split_one(head, ':');
            lemma_split_one(rest, ':');
            assert(split(f, ':') =~= seq![head, rest]);
            (head, rest)
        },
        DataTypeView::FixedSizeList(_, size) => {
            let head = "+w"@;
            let rest = decimal(size);
            lemma_numeral_chars(size as int);
            assert(f =~= head + seq![':'] + rest);
            lemma_split_append(head, ':', rest);
            assert(!has_char(head, ':'));
            lemma_split_one(head, ':');
            lemma_split_one(rest, ':');
            assert(split(f, ':') =~= seq![head, rest]);
            (head, rest)
        },
        DataTypeView::Decimal(precision, scale) => {
            let head = "d"@;
            let rest = decimal(precision) + ","@ + decimal(scale);
            lemma_numeral_chars(precision as int);
            lemma_numeral_chars(scale as int);
            assert(f =~= head + seq![':'] + rest);
            lemma_split_append(head, ':', rest);
            assert(!has_char(head, ':'));
            lemma_split_one(head, ':');
            assert(rest =~= join(seq![decimal(precision), decimal(scale)], ',')) by {
                let two = seq![decimal(precision), decimal(scale)];
                assert(two.drop_last() =~= seq![decimal(precision)]);
                assert(join(two.drop_last(), ',') == decimal(precision));
            }
            lemma_join_without(seq![decimal(precision), decimal(scale)], ',', ':');
            lemma_split_one(rest, ':');
            assert(split(f, ':') =~= seq![head, rest]);
            (head, rest)
        },
        DataTypeView::Union(fields, ids, mode) => {
            let head = if mode == UnionMode::Sparse {
                "+us"@
            } else {
                "+ud"@
            };
            let all = numerals(fields.len() as int, ids);
            let rest = type_ids_text(fields.len() as int, ids);
            assert forall|i: int| 0 <= i < all.len() implies !has_char(#[trigger] all[i], ':') by {
                match ids {
                    Some(ids) => lemma_numeral_chars(ids[i] as int),
                    None => lemma_numeral_chars(i),
                }
            }
            lemma_join_without(all, ',', ':');
            assert(f =~= head + seq![':'] + rest);
            lemma_split_append(head, ':', rest);
            assert(!has_char(head, ':'));
            lemma_split_one(head, ':');
            lemma_split_one(rest, ':');
            assert(split(f, ':') =~= seq![head, rest]);
            (head, rest)
        },
        _ => (Seq::empty(), Seq::empty()),
    }
}

/// The format of a timestamp is read as that timestamp, whatever its time
/// zone holds, and asks for no child.
proof fn lemma_timestamp(unit: TimeUnit, tz: Option<Seq<char>>)
    requires
        tz != Some(Seq::<char>::empty()),
    ensures
        timestamp_of(format_of(DataTypeView::Timestamp(unit, tz))) == Some(
            DataTypeView::Timestamp(unit, tz),
        ),
        fixed_type(format_of(DataTypeView::Timestamp(unit, tz))) is None,
        integer_type_of(format_of(DataTypeView::Timestamp(unit, tz))) is None,
        !needs_child(format_of(DataTypeView::Timestamp(unit, tz))),
        format_of(DataTypeView::Timestamp(unit, tz)) != "+l"@,
        format_of(DataTypeView::Timestamp(unit, tz)) != "+L"@,
        format_of(DataTypeView::Timestamp(unit, tz)) != "+m"@,
        format_of(DataTypeView::Timestamp(unit, tz)) != "+s"@,
{
    lemma_words();
    let f = format_of(DataTypeView::Timestamp(unit, tz));
    let head = "ts"@.push(unit_letter(unit));
    let rest = match tz {
        Some(tz) => tz,
        None => Seq::empty(),
    };
    assert(f =~= head + seq![':'] + rest);
    assert(f.len() >= 4);
    assert(f[3] == ':');
    assert(f.take(3) =~= head);
    assert(head =~= (match unit {
        TimeUnit::Second => "tss"@,
        TimeUnit::Millisecond => "tsm"@,
        TimeUnit::Microsecond => "tsu"@,
        TimeUnit::Nanosecond => "tsn"@,
    }));
    assert(f.skip(4) =~= rest);
    if tz is Some && rest.len() == 0 {
        assert(rest =~= Seq::<char>::empty());
    }
    lemma_not_fixed(f);
    crate::text::lemma_first_index_is(f, ':', 3);
    assert(split(f, ':')[0] == f.take(3));
}

/// Precision and scale come back from their text.
proof fn lemma_decimal_text(precision: nat, scale: nat)
    requires
        precision <= usize::MAX,
        scale <= usize::MAX,
    ensures
        decimal_type(decimal(precision) + ","@ + decimal(scale)) == Some(
            DataTypeView::Decimal(precision, scale),
        ),
{
    lemma_words();
    let p = decimal(precision);
    let s = decimal(scale);
    lemma_numeral_chars(precision as int);
    lemma_numeral_chars(scale as int);
    lemma_decimal(precision);
    lemma_decimal(scale);
    let text = p + ","@ + s;
    assert(text =~= p + seq![','] + s);
    lemma_split_append(p, ',', s);
    lemma_split_one(p, ',');
    lemma_split_one(s, ',');
    assert(split(text, ',') =~= seq![p, s]);
}

/// Type ids come back from their text.
proof fn lemma_type_ids_text(fields: int, ids: Seq<i32>)
    requires
        ids.len() > 0,
    ensures
        type_ids(type_ids_text(fields, Some(ids))) == Some(ids),
{
    let all = numerals(fields, Some(ids));
    assert forall|i: int| 0 <= i < all.len() implies !has_char(#[trigger] all[i], ',') by {
        lemma_numeral_chars(ids[i] as int);
    }
    lemma_split_join(all, ',');
    assert forall|i: int| 0 <= i < all.len() implies parse_i32_spec(#[trigger] all[i]) == Some(
        ids[i],
    ) by {
        lemma_decimal_int(ids[i] as int);
    }
    assert(type_ids(type_ids_text(fields, Some(ids)))->0 =~= ids);
}

} // verus!

verus! {

/// A node without children whose format is that of a leaf type is read as
/// that type.
proof fn lemma_leaf_import(node: SchemaView, data_type: DataTypeView, little: bool)
    requires
        node.format == Some(format_of(data_type)),
        node.children.len() == 0,
        is_leaf(data_type),
        can_format(data_type),
        below_representable(data_type),
    ensures
        import_data_type(node, little) == Some(data_type),
        !needs_child(format_of(data_type)),
{
    let f = format_of(data_type);
    assert(import_children(node, little) =~= Seq::empty());
    assert(all_fields(import_children(node, little)) == Some(Seq::<FieldView>::empty()));
    if has_fixed_format(data_type) {
        lemma_fixed(data_type);
        lemma_words();
        assert(f.len() <= 3);
        assert(!has_char(f, ':')) by {
            if has_char(f, ':') {
                let k = choose|k: int| 0 <= k < f.len() && f[k] == ':';
                assert(k == 0 || k == 1 || k == 2);
            }
        }
        lemma_split_one(f, ':');
    } else {
        match data_type {
            DataTypeView::Struct(fields) => {
                lemma_words();
                lemma_not_fixed(f);
                assert(!has_char(f, ':')) by {
                    if has_char(f, ':') {
                        let k = choose|k: int| 0 <= k < f.len() && f[k] == ':';
                        assert(k == 0 || k == 1);
                    }
                }
                lemma_split_one(f, ':');
                assert(fields =~= Seq::<FieldView>::empty());
            },
            DataTypeView::Union(fields, ids, mode) => {
                lemma_words();
                let parts = lemma_leaf_parts(data_type);
                lemma_not_fixed(f);
                lemma_type_ids_text(fields.len() as int, ids->0);
                assert(fields =~= Seq::<FieldView>::empty());
            },
            DataTypeView::Timestamp(unit, tz) => {
                lemma_timestamp(unit, tz);
            },
            DataTypeView::FixedSizeBinary(size) => {
                lemma_words();
                let parts = lemma_leaf_parts(data_type);
                lemma_not_fixed(f);
                lemma_decimal(size);
            },
            DataTypeView::Decimal(precision, scale) => {
                lemma_words();
                let parts = lemma_leaf_parts(data_type);
                lemma_not_fixed(f);
                lemma_decimal_text(precision, scale);
            },
            _ => {},
        }
    }
}

/// The fields below `data_type`, each as what reading its node gives.
pub open spec fn read_children(data_type: DataTypeView) -> Seq<Option<FieldView>> {
    Seq::new(child_fields(data_type).len(), |i: int| Some(child_fields(data_type)[i]))
}

/// A node with the format of a type that has fields below it, whose
/// children are read as these fields, is read as that type.
proof fn lemma_nested_import(node: SchemaView, data_type: DataTypeView, little: bool)
    requires
        node.format == Some(format_of(data_type)),
        !is_leaf(data_type),
        !(data_type is Dictionary),
        !(data_type is Extension),
        can_format(data_type),
        below_representable(data_type),
        import_children(node, little) == read_children(data_type),
        data_type is MapType ==> sorted_flag(node.flags) == data_type->MapType_1,
    ensures
        import_data_type(node, little) == Some(data_type),
{
    let f = format_of(data_type);
    let children = import_children(node, little);
    lemma_words();
    match data_type {
        DataTypeView::List(field) => {
            lemma_not_fixed(f);
            assert(children[0] == Some(*field));
        },
        DataTypeView::LargeList(field) => {
            lemma_not_fixed(f);
            assert(children[0] == Some(*field));
        },
        DataTypeView::MapType(field, _) => {
            lemma_not_fixed(f);
            assert(children[0] == Some(*field));
        },
        DataTypeView::FixedSizeList(field, size) => {
            let parts = lemma_leaf_parts(data_type);
            lemma_not_fixed(f);
            lemma_decimal(size);
            assert(children[0] == Some(*field));
        },
        DataTypeView::Struct(fields) => {
            lemma_not_fixed(f);
            assert(all_fields(children)->0 =~= fields);
        },
        DataTypeView::Union(fields, ids, mode) => {
            let parts = lemma_leaf_parts(data_type);
            lemma_not_fixed(f);
            lemma_type_ids_text(fields.len() as int, ids->0);
            assert(all_fields(children)->0 =~= fields);
        },
        _ => {},
    }
}

/// A node with the format, the children, the dictionary and the flags of
/// a type that is no extension is read as that type, before its metadata
/// are looked at, and what lies below it can be read.
proof fn lemma_stored_round_trip(
    node: SchemaView,
    data_type: DataTypeView,
    is_nullable: bool,
    little: bool,
)
    requires
        !(data_type is Extension),
        can_format(data_type),
        below_representable(data_type),
        node.format == Some(format_of(data_type)),
        node.flags == flags_of(data_type, is_nullable),
        node.children == export_children(data_type, little),
        node.dictionary == export_dictionary(data_type, little),
    ensures
        import_stored_type(node, little) == Some(data_type),
        needs_child(node.format->0) ==> node.children.len() >= 1,
        node.children.len() <= i64::MAX,
        forall|i: int| 0 <= i < node.children.len() ==> importable(#[trigger] node.children[i]),
        node.dictionary matches Some(d) ==> importable(*d),
    decreases data_type, 0int,
{
    let below = child_fields(data_type);
    lemma_flags(data_type, is_nullable);
    assert(sorted_by_key(Seq::<(Seq<char>, Seq<char>)>::empty()));
    assert(no_reserved_key(Seq::<(Seq<char>, Seq<char>)>::empty()));
    assert(node.children.len() == below.len());
    // the children are read as the fields below
    assert forall|i: int| 0 <= i < below.len() implies importable(#[trigger] node.children[i])
        && import_field(node.children[i], little) == Some(below[i]) by {
        let c = below[i];
        match data_type {
            DataTypeView::List(field) => {
                lemma_round_trip_parts(c.name, c.data_type, c.is_nullable, c.metadata, little);
            },
            DataTypeView::FixedSizeList(field, _) => {
                lemma_round_trip_parts(c.name, c.data_type, c.is_nullable, c.metadata, little);
            },
            DataTypeView::LargeList(field) => {
                lemma_round_trip_parts(c.name, c.data_type, c.is_nullable, c.metadata, little);
            },
            DataTypeView::MapType(field, _) => {
                lemma_round_trip_parts(c.name, c.data_type, c.is_nullable, c.metadata, little);
            },
            DataTypeView::Struct(fields) => {
                lemma_round_trip_parts(c.name, c.data_type, c.is_nullable, c.metadata, little);
            },
            DataTypeView::Union(fields, _, _) => {
                lemma_round_trip_parts(c.name, c.data_type, c.is_nullable, c.metadata, little);
            },
            _ => {},
        }
    }
    assert(import_children(node, little) =~= read_children(data_type));
    match data_type {
        DataTypeView::Dictionary(index, values, ordered) => {
            lemma_round_trip_parts(Seq::empty(), *values, true, Seq::empty(), little);
            lemma_integer_format(index);
            lemma_words();
            let f = format_of(data_type);
            assert(!has_char(f, ':')) by {
                if has_char(f, ':') {
                    let k = choose|k: int| 0 <= k < f.len() && f[k] == ':';
                    assert(k == 0);
                }
            }
            lemma_split_one(f, ':');
            assert(import_stored_type(node, little) == Some(data_type));
        },
        _ => {
            if is_leaf(data_type) {
                lemma_leaf_import(node, data_type, little);
            } else {
                lemma_nested_import(node, data_type, little);
                lemma_words();
                if data_type is FixedSizeList || data_type is Union {
                    let parts = lemma_leaf_parts(data_type);
                } else {
                    let f = format_of(data_type);
                    assert(!has_char(f, ':')) by {
                        if has_char(f, ':') {
                            let k = choose|k: int| 0 <= k < f.len() && f[k] == ':';
                            assert(k == 0 || k == 1);
                        }
                    }
                    lemma_split_one(f, ':');
                }
            }
            assert(import_stored_type(node, little) == Some(data_type));
        },
    }
}

/// A field that is representable comes back from its node: the node can be
/// read, and reading it gives the field.
pub proof fn lemma_round_trip_parts(
    name: Seq<char>,
    data_type: DataTypeView,
    is_nullable: bool,
    metadata: Seq<(Seq<char>, Seq<char>)>,
    little: bool,
)
    requires
        representable_parts(data_type, metadata),
    ensures
        importable(export_parts(name, data_type, is_nullable, metadata, little)),
        import_field(export_parts(name, data_type, is_nullable, metadata, little), little) == Some(
            FieldView { name, data_type, is_nullable, metadata },
        ),
    decreases data_type, 1int,
{
    let node = export_parts(name, data_type, is_nullable, metadata, little);
    let stored = stored_type(data_type);
    lemma_flags(data_type, is_nullable);
    lemma_metadata_round_trip(data_type, metadata, little);
    lemma_stored_round_trip(node, stored, is_nullable, little);
}

/// Importing what was exported gives the field back: for every
/// representable field its node can be read, and reading it gives the
/// field, with its name, its type, its nullability and its metadata.
pub proof fn lemma_export_import(field: FieldView, little: bool)
    requires
        representable(field),
    ensures
        exportable(field),
        importable(export(field, little)),
        import_field(export(field, little), little) == Some(field),
{
    lemma_round_trip_parts(
        field.name,
        field.data_type,
        field.is_nullable,
        field.metadata,
        little,
    );
    lemma_representable_exportable(field.data_type, field.metadata);
}

/// What comes back from a node has a node below it.
proof fn lemma_below_exportable(data_type: DataTypeView)
    requires
        below_representable(data_type),
    ensures
        below_exportable(data_type),
    decreases data_type, 0int,
{
    match data_type {
        DataTypeView::List(field) => lemma_representable_exportable(
            field.data_type,
            field.metadata,
        ),
        DataTypeView::FixedSizeList(field, _) => lemma_representable_exportable(
            field.data_type,
            field.metadata,
        ),
        DataTypeView::LargeList(field) => lemma_representable_exportable(
            field.data_type,
            field.metadata,
        ),
        DataTypeView::MapType(field, _) => lemma_representable_exportable(
            field.data_type,
            field.metadata,
        ),
        DataTypeView::Struct(fields) => {
            assert forall|i: int| 0 <= i < fields.len() implies exportable_parts(
                (#[trigger] fields[i]).data_type,
                fields[i].metadata,
            ) by {
                lemma_representable_exportable(fields[i].data_type, fields[i].metadata);
            }
        },
        DataTypeView::Union(fields, _, _) => {
            assert forall|i: int| 0 <= i < fields.len() implies exportable_parts(
                (#[trigger] fields[i]).data_type,
                fields[i].metadata,
            ) by {
                lemma_representable_exportable(fields[i].data_type, fields[i].metadata);
            }
        },
        DataTypeView::Dictionary(_, values, _) => lemma_representable_exportable(
            *values,
            Seq::empty(),
        ),
        _ => {},
    }
}

/// What is representable is exportable.
pub proof fn lemma_representable_exportable(
    data_type: DataTypeView,
    metadata: Seq<(Seq<char>, Seq<char>)>,
)
    requires
        representable_parts(data_type, metadata),
    ensures
        exportable_parts(data_type, metadata),
    decreases data_type, 1int,
{
    lemma_below_exportable(stored_type(data_type));
}

/// Releasing a released node changes nothing, and a released node owns
/// nothing: a second release has nothing to free.
pub proof fn lemma_release_once(node: SchemaView)
    ensures
        !released(node).release,
        released(released(node)) == released(node),
        node.release ==> released(node).children.len() == 0 && released(node).dictionary is None
            && released(node).format is None && released(node).name is None && released(
            node,
        ).metadata is None,
        !node.release ==> released(node) == node,
{
}

} // verus!
