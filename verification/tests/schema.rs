use arrow2::datatypes::{
    DataType, Field, IntegerType, IntervalUnit, Metadata, TimeUnit, UnionMode,
};
use arrow2::error::ArrowError;
use arrow2::ffi::{
    export_field_to_c, get_child, import_field_from_c, is_exportable, is_importable,
    to_field, to_field_in, to_format, to_integer_type, try_export_field, ArrowSchema,
};

fn node_with_format(format: &str) -> ArrowSchema {
    ArrowSchema::from_parts(
        Some(format.to_string()),
        Some("a".to_string()),
        None,
        2,
        vec![],
        None,
        true,
    )
}

fn round_trip(field: Field) {
    assert!(is_exportable(&field));
    let node = ArrowSchema::new(&field);
    assert!(is_importable(&node));
    let back = to_field(&node).unwrap();
    assert_eq!(back, field);
}

#[test]
fn list_of_int32_named_xs() {
    let field = Field::new(
        "xs",
        DataType::List(Box::new(Field::new("item", DataType::Int32, true))),
        true,
    );
    let node = ArrowSchema::new(&field);
    assert_eq!(node.format(), "+l");
    assert_eq!(node.flags() & 2, 2);
    assert!(node.nullable());
    assert_eq!(node.n_children(), 1);
    assert_eq!(node.child(0).format(), "i");
    assert_eq!(node.child(0).name(), "item");
    assert!(node.dictionary().is_none());
    assert!(node.metadata().is_none());
    assert_eq!(to_field(&node).unwrap(), field);
}

#[test]
fn fixed_words_round_trip() {
    let types = vec![
        (DataType::Null, "n"),
        (DataType::Boolean, "b"),
        (DataType::Int8, "c"),
        (DataType::UInt8, "C"),
        (DataType::Int16, "s"),
        (DataType::UInt16, "S"),
        (DataType::Int32, "i"),
        (DataType::UInt32, "I"),
        (DataType::Int64, "l"),
        (DataType::UInt64, "L"),
        (DataType::Float16, "e"),
        (DataType::Float32, "f"),
        (DataType::Float64, "g"),
        (DataType::Binary, "z"),
        (DataType::LargeBinary, "Z"),
        (DataType::Utf8, "u"),
        (DataType::LargeUtf8, "U"),
        (DataType::Date32, "tdD"),
        (DataType::Date64, "tdm"),
        (DataType::Time32(TimeUnit::Second), "tts"),
        (DataType::Time32(TimeUnit::Millisecond), "ttm"),
        (DataType::Time64(TimeUnit::Microsecond), "ttu"),
        (DataType::Time64(TimeUnit::Nanosecond), "ttn"),
        (DataType::Duration(TimeUnit::Second), "tDs"),
        (DataType::Duration(TimeUnit::Millisecond), "tDm"),
        (DataType::Duration(TimeUnit::Microsecond), "tDu"),
        (DataType::Duration(TimeUnit::Nanosecond), "tDn"),
        (DataType::Interval(IntervalUnit::YearMonth), "tiM"),
        (DataType::Interval(IntervalUnit::DayTime), "tiD"),
    ];
    for (data_type, format) in types {
        assert_eq!(to_format(&data_type), format);
        round_trip(Field::new("a", data_type.clone(), true));
        round_trip(Field::new("", data_type, false));
    }
}

#[test]
fn formats_with_numbers() {
    assert_eq!(to_format(&DataType::FixedSizeBinary(16)), "w:16");
    assert_eq!(to_format(&DataType::Decimal(10, 2)), "d:10,2");
    assert_eq!(to_format(&DataType::Decimal(0, 38)), "d:0,38");
    assert_eq!(
        to_format(&DataType::FixedSizeList(
            Box::new(Field::new("a", DataType::Int8, true)),
            1203
        )),
        "+w:1203"
    );
    assert_eq!(
        to_format(&DataType::Timestamp(TimeUnit::Millisecond, Some("UTC".to_string()))),
        "tsm:UTC"
    );
    assert_eq!(
        to_format(&DataType::Timestamp(TimeUnit::Nanosecond, None)),
        "tsn:"
    );
    assert_eq!(
        to_format(&DataType::Union(vec![], Some(vec![5, -7, 10]), UnionMode::Dense)),
        "+ud:5,-7,10"
    );
    assert_eq!(
        to_format(&DataType::Union(
            vec![
                Field::new("a", DataType::Int8, true),
                Field::new("b", DataType::Int8, true),
                Field::new("c", DataType::Int8, true)
            ],
            None,
            UnionMode::Sparse
        )),
        "+us:0,1,2"
    );
    assert_eq!(
        to_format(&DataType::Union(
            vec![],
            Some(vec![i32::MIN, i32::MAX]),
            UnionMode::Sparse
        )),
        "+us:-2147483648,2147483647"
    );
}

#[test]
fn decimal_round_trip() {
    let field = Field::new("d", DataType::Decimal(10, 2), true);
    let node = ArrowSchema::new(&field);
    assert_eq!(node.format(), "d:10,2");
    assert_eq!(to_field(&node).unwrap(), field);
}

#[test]
fn decimal_with_bit_width_128_is_read() {
    let node = node_with_format("d:10,2,128");
    assert_eq!(
        to_field(&node).unwrap(),
        Field::new("a", DataType::Decimal(10, 2), true)
    );
}

#[test]
fn decimal_with_bit_width_256_is_out_of_spec() {
    let node = node_with_format("d:10,2,256");
    assert!(matches!(to_field(&node), Err(ArrowError::OutOfSpec(_))));
}

#[test]
fn decimal_with_wrong_parts_is_out_of_spec() {
    for format in ["d:10", "d:10,2,128,1", "d:a,2", "d:10,b", "d:10,2,c", "d:", "d:-1,2"] {
        let node = node_with_format(format);
        assert!(
            matches!(to_field(&node), Err(ArrowError::OutOfSpec(_))),
            "{}",
            format
        );
    }
}

#[test]
fn unknown_formats_are_out_of_spec() {
    for format in ["", "x", "tdx", "+x", "ts:UTC", "tss", "w", "w:", "w:x", "+us", "+ud", "vu"] {
        let node = node_with_format(format);
        assert!(is_importable(&node));
        assert!(
            matches!(to_field(&node), Err(ArrowError::OutOfSpec(_))),
            "{}",
            format
        );
    }
}

#[test]
fn union_ids_must_be_integers() {
    for format in ["+us:a", "+ud:1,,2", "+us:1,2147483648", "+us:"] {
        let node = node_with_format(format);
        assert!(
            matches!(to_field(&node), Err(ArrowError::OutOfSpec(_))),
            "{}",
            format
        );
    }
    let node = node_with_format("+ud:+3,-0,007");
    assert_eq!(
        to_field(&node).unwrap(),
        Field::new(
            "a",
            DataType::Union(vec![], Some(vec![3, 0, 7]), UnionMode::Dense),
            true
        )
    );
}

#[test]
fn timestamp_with_colon_in_zone_round_trips() {
    let field = Field::new(
        "t",
        DataType::Timestamp(TimeUnit::Second, Some("+01:00".to_string())),
        true,
    );
    let node = ArrowSchema::new(&field);
    assert_eq!(node.format(), "tss:+01:00");
    assert_eq!(to_field(&node).unwrap(), field);
    round_trip(Field::new(
        "t",
        DataType::Timestamp(TimeUnit::Nanosecond, Some(":".to_string())),
        false,
    ));
    round_trip(Field::new(
        "t",
        DataType::Timestamp(TimeUnit::Millisecond, Some("a:b:c,d".to_string())),
        false,
    ));
}

#[test]
fn timestamps_round_trip() {
    for unit in [
        TimeUnit::Second,
        TimeUnit::Millisecond,
        TimeUnit::Microsecond,
        TimeUnit::Nanosecond,
    ] {
        round_trip(Field::new(
            "t",
            DataType::Timestamp(unit, Some("Europe/Zürich".to_string())),
            false,
        ));
        round_trip(Field::new("t", DataType::Timestamp(unit, None), true));
    }
}

#[test]
fn timestamp_without_zone_comes_back_without_one() {
    let field = Field::new("t", DataType::Timestamp(TimeUnit::Second, None), true);
    let node = ArrowSchema::new(&field);
    assert_eq!(node.format(), "tss:");
    assert_eq!(to_field(&node).unwrap(), field);
    // the empty zone is written as no zone
    let empty = Field::new(
        "t",
        DataType::Timestamp(TimeUnit::Second, Some("".to_string())),
        true,
    );
    let node = ArrowSchema::new(&empty);
    assert_eq!(node.format(), "tss:");
    assert_eq!(to_field(&node).unwrap(), field);
    // the unit needs its colon
    for format in ["tss", "ts:", "tsx:UTC", "ts", "tssUTC"] {
        assert!(matches!(
            to_field(&node_with_format(format)),
            Err(ArrowError::OutOfSpec(_))
        ));
    }
}

#[test]
fn extensions_over_nested_types_round_trip() {
    let list = DataType::List(Box::new(Field::new("item", DataType::Int32, true)));
    let field = Field::new(
        "e",
        DataType::Extension("my.list".to_string(), Box::new(list), Some("m".to_string())),
        true,
    );
    let node = ArrowSchema::new(&field);
    assert_eq!(node.format(), "+l");
    assert_eq!(node.n_children(), 1);
    assert_eq!(node.child(0).format(), "i");
    assert_eq!(node.child(0).name(), "item");
    assert_eq!(to_field(&node).unwrap(), field);

    let record = DataType::Struct(vec![
        Field::new("a", DataType::Int32, true),
        Field::new(
            "b",
            DataType::Extension("inner".to_string(), Box::new(DataType::Utf8), None),
            false,
        ),
    ]);
    round_trip(Field::new(
        "e",
        DataType::Extension("my.struct".to_string(), Box::new(record), None),
        false,
    ));

    let dictionary = DataType::Dictionary(IntegerType::Int8, Box::new(DataType::Utf8), true);
    let field = Field::new(
        "e",
        DataType::Extension("my.dictionary".to_string(), Box::new(dictionary), None),
        true,
    );
    let node = ArrowSchema::new(&field);
    assert_eq!(node.format(), "c");
    assert_eq!(node.flags(), 3);
    assert_eq!(node.dictionary().unwrap().format(), "u");
    assert_eq!(to_field(&node).unwrap(), field);

    let entries = Field::new(
        "entries",
        DataType::Struct(vec![
            Field::new("key", DataType::Utf8, false),
            Field::new("value", DataType::Int64, true),
        ]),
        false,
    );
    let field = Field::new(
        "e",
        DataType::Extension(
            "my.map".to_string(),
            Box::new(DataType::MapType(Box::new(entries), true)),
            None,
        ),
        false,
    );
    let node = ArrowSchema::new(&field);
    assert_eq!(node.flags(), 4);
    assert_eq!(to_field(&node).unwrap(), field);

    round_trip(Field::new(
        "e",
        DataType::Extension(
            "my.union".to_string(),
            Box::new(DataType::Union(
                vec![Field::new("a", DataType::Int32, true)],
                Some(vec![7]),
                UnionMode::Dense,
            )),
            None,
        ),
        false,
    ));
}

#[test]
fn struct_round_trip() {
    let field = Field::new(
        "s",
        DataType::Struct(vec![
            Field::new("a", DataType::Int32, true),
            Field::new("b", DataType::Utf8, false),
        ]),
        false,
    );
    let node = ArrowSchema::new(&field);
    assert_eq!(node.format(), "+s");
    assert!(!node.nullable());
    assert_eq!(node.flags(), 0);
    assert_eq!(node.n_children(), 2);
    assert_eq!(node.child(0).name(), "a");
    assert_eq!(node.child(0).format(), "i");
    assert!(node.child(0).nullable());
    assert_eq!(node.child(1).name(), "b");
    assert_eq!(node.child(1).format(), "u");
    assert!(!node.child(1).nullable());
    let back = to_field(&node).unwrap();
    assert_eq!(back, field);
    match back.data_type() {
        DataType::Struct(fields) => {
            assert_eq!(fields[0].name(), "a");
            assert_eq!(fields[1].name(), "b");
        }
        _ => panic!("not a struct"),
    }
}

#[test]
fn dictionary_round_trip() {
    let field = Field::new(
        "d",
        DataType::Dictionary(IntegerType::Int32, Box::new(DataType::Utf8), true),
        false,
    );
    let node = ArrowSchema::new(&field);
    assert_eq!(node.format(), "i");
    assert_eq!(node.flags(), 1);
    let values = node.dictionary().unwrap();
    assert_eq!(values.format(), "u");
    assert_eq!(values.name(), "");
    assert!(values.nullable());
    assert_eq!(to_field(&node).unwrap(), field);

    round_trip(Field::new(
        "d",
        DataType::Dictionary(
            IntegerType::UInt8,
            Box::new(DataType::List(Box::new(Field::new(
                "item",
                DataType::Int64,
                false,
            )))),
            false,
        ),
        true,
    ));
}

#[test]
fn dictionary_with_other_indices_is_out_of_spec() {
    let values = node_with_format("u");
    let node = ArrowSchema::from_parts(
        Some("u".to_string()),
        Some("d".to_string()),
        None,
        2,
        vec![],
        Some(values),
        true,
    );
    assert!(matches!(to_field(&node), Err(ArrowError::OutOfSpec(_))));
    assert!(matches!(to_integer_type("u"), Err(ArrowError::OutOfSpec(_))));
    assert_eq!(to_integer_type("L").unwrap(), IntegerType::UInt64);
}

#[test]
fn nested_types_round_trip() {
    let item = Field::new("item", DataType::Int32, true);
    round_trip(Field::new("a", DataType::LargeList(Box::new(item.clone())), true));
    round_trip(Field::new(
        "a",
        DataType::FixedSizeList(Box::new(item.clone()), 3),
        true,
    ));
    round_trip(Field::new("a", DataType::FixedSizeBinary(7), true));
    let entries = Field::new(
        "entries",
        DataType::Struct(vec![
            Field::new("key", DataType::Utf8, false),
            Field::new("value", DataType::Int32, true),
        ]),
        false,
    );
    round_trip(Field::new(
        "m",
        DataType::MapType(Box::new(entries.clone()), true),
        true,
    ));
    round_trip(Field::new(
        "m",
        DataType::MapType(Box::new(entries), false),
        false,
    ));
    round_trip(Field::new(
        "u",
        DataType::Union(
            vec![item.clone(), Field::new("b", DataType::Utf8, true)],
            Some(vec![4, 9]),
            UnionMode::Sparse,
        ),
        true,
    ));
    round_trip(Field::new(
        "u",
        DataType::Union(vec![item], Some(vec![-1]), UnionMode::Dense),
        true,
    ));
    round_trip(Field::new("s", DataType::Struct(vec![]), true));
}

#[test]
fn map_sets_the_sorted_flag() {
    let entries = Field::new("entries", DataType::Struct(vec![]), false);
    let node = ArrowSchema::new(&Field::new(
        "m",
        DataType::MapType(Box::new(entries), true),
        true,
    ));
    assert_eq!(node.format(), "+m");
    assert_eq!(node.flags(), 6);
}

#[test]
fn metadata_round_trip() {
    let mut metadata = Metadata::new();
    metadata.insert("key".to_string(), "value".to_string());
    metadata.insert("a".to_string(), "".to_string());
    metadata.insert("ключ".to_string(), "значение".to_string());
    let field = Field::new("a", DataType::Int32, true).with_metadata(metadata);
    let node = ArrowSchema::new(&field);
    assert!(node.metadata().is_some());
    assert_eq!(to_field(&node).unwrap(), field);
}

#[test]
fn extension_round_trip() {
    let mut metadata = Metadata::new();
    metadata.insert("key".to_string(), "value".to_string());
    metadata.insert("zzz".to_string(), "last".to_string());
    let field = Field::new(
        "e",
        DataType::Extension(
            "my.type".to_string(),
            Box::new(DataType::Int64),
            Some("with metadata".to_string()),
        ),
        true,
    )
    .with_metadata(metadata.clone());
    let node = ArrowSchema::new(&field);
    assert_eq!(node.format(), "l");
    let back = to_field(&node).unwrap();
    assert_eq!(back, field);
    assert_eq!(back.metadata(), &metadata);
    assert!(!back.metadata().contains_key("ARROW:extension:name"));

    round_trip(Field::new(
        "e",
        DataType::Extension("other".to_string(), Box::new(DataType::Utf8), None),
        false,
    ));
}

fn text_entry(out: &mut Vec<u8>, text: &str) {
    out.extend_from_slice(&(text.len() as i32).to_ne_bytes());
    out.extend_from_slice(text.as_bytes());
}

#[test]
fn extension_keys_travel_ahead_of_the_metadata() {
    let mut metadata = Metadata::new();
    metadata.insert("AAA".to_string(), "first in order".to_string());
    metadata.insert("zzz".to_string(), "last".to_string());
    let field = Field::new(
        "e",
        DataType::Extension(
            "my.type".to_string(),
            Box::new(DataType::Int64),
            Some("extra".to_string()),
        ),
        true,
    )
    .with_metadata(metadata.clone());
    let node = ArrowSchema::new(&field);
    let mut want: Vec<u8> = Vec::new();
    want.extend_from_slice(&4i32.to_ne_bytes());
    for text in [
        "ARROW:extension:name",
        "my.type",
        "ARROW:extension:metadata",
        "extra",
        "AAA",
        "first in order",
        "zzz",
        "last",
    ] {
        text_entry(&mut want, text);
    }
    assert_eq!(node.metadata().unwrap(), want.as_slice());
    assert_eq!(to_field(&node).unwrap(), field);

    let plain = Field::new(
        "e",
        DataType::Extension("other".to_string(), Box::new(DataType::Int64), None),
        true,
    );
    let node = ArrowSchema::new(&plain);
    let mut want: Vec<u8> = Vec::new();
    want.extend_from_slice(&1i32.to_ne_bytes());
    text_entry(&mut want, "ARROW:extension:name");
    text_entry(&mut want, "other");
    assert_eq!(node.metadata().unwrap(), want.as_slice());
}

#[test]
fn extension_binds_the_reserved_keys_itself() {
    let mut metadata = Metadata::new();
    metadata.insert("ARROW:extension:name".to_string(), "not this".to_string());
    metadata.insert("ARROW:extension:metadata".to_string(), "kept".to_string());
    metadata.insert("key".to_string(), "value".to_string());
    let mut rest = Metadata::new();
    rest.insert("key".to_string(), "value".to_string());

    let without = Field::new(
        "e",
        DataType::Extension("my.type".to_string(), Box::new(DataType::Int64), None),
        true,
    )
    .with_metadata(metadata.clone());
    assert_eq!(
        to_field(&ArrowSchema::new(&without)).unwrap(),
        Field::new(
            "e",
            DataType::Extension(
                "my.type".to_string(),
                Box::new(DataType::Int64),
                Some("kept".to_string())
            ),
            true,
        )
        .with_metadata(rest.clone())
    );

    let with = Field::new(
        "e",
        DataType::Extension(
            "my.type".to_string(),
            Box::new(DataType::Int64),
            Some("extra".to_string()),
        ),
        true,
    )
    .with_metadata(metadata);
    assert_eq!(
        to_field(&ArrowSchema::new(&with)).unwrap(),
        Field::new(
            "e",
            DataType::Extension(
                "my.type".to_string(),
                Box::new(DataType::Int64),
                Some("extra".to_string())
            ),
            true,
        )
        .with_metadata(rest)
    );
}

#[test]
fn reserved_keys_make_an_extension() {
    let mut metadata = Metadata::new();
    metadata.insert("ARROW:extension:name".to_string(), "n".to_string());
    metadata.insert("other".to_string(), "o".to_string());
    let field = Field::new("a", DataType::Int32, true).with_metadata(metadata);
    let node = ArrowSchema::new(&field);
    let back = to_field(&node).unwrap();
    let mut rest = Metadata::new();
    rest.insert("other".to_string(), "o".to_string());
    assert_eq!(
        back,
        Field::new(
            "a",
            DataType::Extension("n".to_string(), Box::new(DataType::Int32), None),
            true
        )
        .with_metadata(rest)
    );
}

#[test]
fn malformed_metadata_is_out_of_spec() {
    let blocks: Vec<Vec<u8>> = vec![
        vec![],
        vec![1, 0, 0],
        vec![1, 0, 0, 0],
        vec![1, 0, 0, 0, 1, 0, 0, 0, 0x61],
        vec![1, 0, 0, 0, 9, 0, 0, 0, 0x61],
        vec![1, 0, 0, 0, 1, 0, 0, 0, 0xff, 0, 0, 0, 0],
        vec![0, 0, 0, 1, 0, 0, 0, 1, 0xff, 0, 0, 0, 0],
    ];
    for block in blocks {
        let node = ArrowSchema::from_parts(
            Some("i".to_string()),
            Some("a".to_string()),
            Some(block.clone()),
            2,
            vec![],
            None,
            true,
        );
        assert!(
            matches!(to_field_in(&node, true), Err(ArrowError::OutOfSpec(_))),
            "{:?}",
            block
        );
    }
}

#[test]
fn metadata_with_negative_count_is_empty() {
    let node = ArrowSchema::from_parts(
        Some("i".to_string()),
        Some("a".to_string()),
        Some(vec![0xff, 0xff, 0xff, 0xff]),
        2,
        vec![],
        None,
        true,
    );
    assert_eq!(
        to_field(&node).unwrap(),
        Field::new("a", DataType::Int32, true)
    );
}

#[test]
fn flags_are_read_as_bits() {
    for (flags, nullable) in [(0i64, false), (1, false), (2, true), (3, true), (4, false), (6, true), (-2, true), (-1, true), (-3, false)] {
        let node = ArrowSchema::from_parts(
            Some("i".to_string()),
            Some("a".to_string()),
            None,
            flags,
            vec![],
            None,
            true,
        );
        assert_eq!(node.nullable(), nullable, "{}", flags);
        assert_eq!(to_field(&node).unwrap().is_nullable(), nullable);
    }
}

#[test]
fn release_is_idempotent() {
    let field = Field::new(
        "xs",
        DataType::List(Box::new(Field::new("item", DataType::Int32, true))),
        true,
    );
    let mut node = ArrowSchema::new(&field);
    assert!(!node.is_released());
    assert!(is_importable(&node));
    node.release();
    assert!(node.is_released());
    assert!(!is_importable(&node));
    assert!(node.dictionary().is_none());
    assert!(node.metadata().is_none());
    node.release();
    assert!(node.is_released());

    let mut empty = ArrowSchema::empty();
    assert!(empty.is_released());
    assert_eq!(empty.flags(), 0);
    assert_eq!(empty.n_children(), 0);
    assert!(!is_importable(&empty));
    empty.release();
    assert!(empty.is_released());
}

#[test]
fn nodes_without_their_children_cannot_be_read() {
    assert!(!is_importable(&node_with_format("+l")));
    assert!(!is_importable(&node_with_format("+L")));
    assert!(!is_importable(&node_with_format("+m")));
    assert!(!is_importable(&node_with_format("+w:3")));
    assert!(is_importable(&node_with_format("+w:x")));
    assert!(is_importable(&node_with_format("+s")));
    let nameless = ArrowSchema::from_parts(
        Some("i".to_string()),
        None,
        None,
        0,
        vec![],
        None,
        true,
    );
    assert!(!is_importable(&nameless));
}

#[test]
fn types_without_format_cannot_be_exported() {
    assert!(!is_exportable(&Field::new(
        "a",
        DataType::Time32(TimeUnit::Nanosecond),
        true
    )));
    assert!(!is_exportable(&Field::new(
        "a",
        DataType::Time64(TimeUnit::Second),
        true
    )));
    assert!(!is_exportable(&Field::new(
        "a",
        DataType::Interval(IntervalUnit::MonthDayNano),
        true
    )));
    assert!(!is_exportable(&Field::new(
        "a",
        DataType::Union(vec![], None, UnionMode::Dense),
        true
    )));
    assert!(!is_exportable(&Field::new(
        "a",
        DataType::Union(vec![], Some(vec![]), UnionMode::Dense),
        true
    )));
    assert!(!is_exportable(&Field::new(
        "a",
        DataType::List(Box::new(Field::new(
            "item",
            DataType::Interval(IntervalUnit::MonthDayNano),
            true
        ))),
        true
    )));
    assert!(is_exportable(&Field::new(
        "a",
        DataType::Interval(IntervalUnit::DayTime),
        true
    )));
}

#[test]
fn export_and_import_through_slots() {
    let field = Field::new("a", DataType::Utf8, true);
    let mut slot = ArrowSchema::empty();
    export_field_to_c(&field, &mut slot);
    assert!(!slot.is_released());
    assert_eq!(import_field_from_c(&slot).unwrap(), field);
}

#[test]
fn children_of_types() {
    let item = Field::new("item", DataType::Int32, true);
    assert_eq!(
        get_child(&DataType::List(Box::new(item.clone())), 0).unwrap(),
        DataType::Int32
    );
    assert!(matches!(
        get_child(&DataType::List(Box::new(item.clone())), 1),
        Err(ArrowError::OutOfSpec(_))
    ));
    assert!(matches!(
        get_child(&DataType::Int32, 0),
        Err(ArrowError::OutOfSpec(_))
    ));
    assert_eq!(
        get_child(
            &DataType::Struct(vec![item.clone(), Field::new("b", DataType::Utf8, true)]),
            1
        )
        .unwrap(),
        DataType::Utf8
    );
    assert_eq!(
        get_child(&DataType::MapType(Box::new(item), true), 0).unwrap(),
        DataType::Int32
    );
    let e = get_child(&DataType::Int32, 12).unwrap_err();
    assert_eq!(e.message(), "Requested child 12 to a type that has no such child");
}

#[test]
fn fields_that_cannot_be_exported_are_out_of_spec() {
    let interval = Field::new("a", DataType::Interval(IntervalUnit::MonthDayNano), true);
    assert!(matches!(try_export_field(&interval), Err(ArrowError::OutOfSpec(_))));
    let below = Field::new("a", DataType::Struct(vec![interval]), false);
    assert!(matches!(try_export_field(&below), Err(ArrowError::OutOfSpec(_))));

    let field = Field::new("a", DataType::Interval(IntervalUnit::YearMonth), true);
    let node = try_export_field(&field).unwrap();
    assert_eq!(node.format(), "tiM");
    assert_eq!(to_field(&node).unwrap(), field);
}
