use arrow2::datatypes::Metadata;
use arrow2::error::ArrowError;
use arrow2::ffi::{
    metadata_from_bytes, metadata_from_bytes_in, metadata_to_bytes, metadata_to_bytes_in,
    native_little_endian,
};

fn sample() -> Metadata {
    let mut metadata = Metadata::new();
    metadata.insert("b".to_string(), "second".to_string());
    metadata.insert("a".to_string(), "first".to_string());
    metadata
}

#[test]
fn entries_are_kept_in_the_order_of_their_keys() {
    let mut metadata = Metadata::new();
    assert!(metadata.is_empty());
    assert_eq!(metadata.insert("m".to_string(), "1".to_string()), None);
    assert_eq!(metadata.insert("z".to_string(), "2".to_string()), None);
    assert_eq!(metadata.insert("a".to_string(), "3".to_string()), None);
    assert_eq!(metadata.insert("ma".to_string(), "4".to_string()), None);
    assert_eq!(metadata.insert("".to_string(), "5".to_string()), None);
    assert_eq!(metadata.len(), 5);
    let keys: Vec<&str> = (0..metadata.len()).map(|i| metadata.key(i)).collect();
    assert_eq!(keys, vec!["", "a", "m", "ma", "z"]);
    let values: Vec<&str> = (0..metadata.len()).map(|i| metadata.value(i)).collect();
    assert_eq!(values, vec!["5", "3", "1", "4", "2"]);
}

#[test]
fn inserting_a_bound_key_replaces_its_value() {
    let mut metadata = sample();
    assert_eq!(
        metadata.insert("a".to_string(), "again".to_string()),
        Some("first".to_string())
    );
    assert_eq!(metadata.len(), 2);
    assert_eq!(metadata.get("a"), Some("again"));
    assert_eq!(metadata.get("b"), Some("second"));
    assert_eq!(metadata.get("c"), None);
    assert!(metadata.contains_key("b"));
    assert!(!metadata.contains_key(""));
}

#[test]
fn keys_are_ordered_by_code_point() {
    let mut metadata = Metadata::new();
    metadata.insert("é".to_string(), "1".to_string());
    metadata.insert("z".to_string(), "2".to_string());
    metadata.insert("Z".to_string(), "3".to_string());
    metadata.insert("€".to_string(), "4".to_string());
    let keys: Vec<&str> = (0..metadata.len()).map(|i| metadata.key(i)).collect();
    let mut sorted: Vec<&str> = keys.clone();
    sorted.sort();
    assert_eq!(keys, sorted);
    assert_eq!(keys, vec!["Z", "z", "é", "€"]);
}

#[test]
fn metadata_compare_and_clone() {
    let a = sample();
    let b = a.clone();
    assert_eq!(a, b);
    assert!(a.same_as(&b));
    let mut c = a.clone();
    c.insert("a".to_string(), "other".to_string());
    assert_ne!(a, c);
    assert!(!a.same_as(&c));
    assert_eq!(Metadata::default(), Metadata::new());
}

#[test]
fn bytes_of_metadata_low_byte_first() {
    let bytes = metadata_to_bytes_in(&sample(), true);
    let expected: Vec<u8> = vec![
        2, 0, 0, 0, // two entries
        1, 0, 0, 0, b'a', 5, 0, 0, 0, b'f', b'i', b'r', b's', b't', // a -> first
        1, 0, 0, 0, b'b', 6, 0, 0, 0, b's', b'e', b'c', b'o', b'n', b'd', // b -> second
    ];
    assert_eq!(bytes, expected);
}

#[test]
fn bytes_of_metadata_high_byte_first() {
    let bytes = metadata_to_bytes_in(&sample(), false);
    let expected: Vec<u8> = vec![
        0, 0, 0, 2, // two entries
        0, 0, 0, 1, b'a', 0, 0, 0, 5, b'f', b'i', b'r', b's', b't', // a -> first
        0, 0, 0, 1, b'b', 0, 0, 0, 6, b's', b'e', b'c', b'o', b'n', b'd', // b -> second
    ];
    assert_eq!(bytes, expected);
}

#[test]
fn bytes_of_long_values_carry_their_length() {
    let mut metadata = Metadata::new();
    metadata.insert("k".to_string(), "v".repeat(258));
    let bytes = metadata_to_bytes_in(&metadata, true);
    assert_eq!(&bytes[..13], &[1, 0, 0, 0, 1, 0, 0, 0, b'k', 2, 1, 0, 0]);
    assert_eq!(bytes.len(), 13 + 258);
    let (back, extension) = metadata_from_bytes_in(Some(&bytes), true).unwrap();
    assert_eq!(back, metadata);
    assert_eq!(extension, None);
}

#[test]
fn bytes_in_the_order_of_the_machine() {
    let little = native_little_endian();
    assert_eq!(little, 1u32.to_ne_bytes()[0] == 1);
    let bytes = metadata_to_bytes(&sample());
    assert_eq!(bytes, metadata_to_bytes_in(&sample(), little));
    assert_eq!(&bytes[..4], &2i32.to_ne_bytes());
    let (back, extension) = metadata_from_bytes(Some(&bytes)).unwrap();
    assert_eq!(back, sample());
    assert_eq!(extension, None);
}

#[test]
fn metadata_come_back_from_their_bytes() {
    for little in [true, false] {
        let bytes = metadata_to_bytes_in(&sample(), little);
        let (back, extension) = metadata_from_bytes_in(Some(&bytes), little).unwrap();
        assert_eq!(back, sample());
        assert_eq!(extension, None);
    }
    let (none, extension) = metadata_from_bytes_in(None, true).unwrap();
    assert!(none.is_empty());
    assert_eq!(extension, None);
}

#[test]
fn reserved_keys_are_taken_out() {
    let mut metadata = sample();
    metadata.insert("ARROW:extension:name".to_string(), "my.type".to_string());
    metadata.insert("ARROW:extension:metadata".to_string(), "extra".to_string());
    let bytes = metadata_to_bytes_in(&metadata, true);
    let (back, extension) = metadata_from_bytes_in(Some(&bytes), true).unwrap();
    assert_eq!(back, sample());
    assert_eq!(
        extension,
        Some(("my.type".to_string(), Some("extra".to_string())))
    );

    let mut only_extra = sample();
    only_extra.insert("ARROW:extension:metadata".to_string(), "extra".to_string());
    let bytes = metadata_to_bytes_in(&only_extra, false);
    let (back, extension) = metadata_from_bytes_in(Some(&bytes), false).unwrap();
    assert_eq!(back, sample());
    assert_eq!(extension, None);
}

#[test]
fn later_entries_count() {
    let bytes: Vec<u8> = vec![
        2, 0, 0, 0, //
        1, 0, 0, 0, b'a', 1, 0, 0, 0, b'x', //
        1, 0, 0, 0, b'a', 1, 0, 0, 0, b'y',
    ];
    let (back, _) = metadata_from_bytes_in(Some(&bytes), true).unwrap();
    assert_eq!(back.len(), 1);
    assert_eq!(back.get("a"), Some("y"));
}

#[test]
fn bytes_that_are_not_text_are_out_of_spec() {
    let bytes: Vec<u8> = vec![1, 0, 0, 0, 2, 0, 0, 0, 0xc3, 0x28, 0, 0, 0, 0];
    assert!(matches!(
        metadata_from_bytes_in(Some(&bytes), true),
        Err(ArrowError::OutOfSpec(_))
    ));
    let bytes: Vec<u8> = vec![1, 0, 0, 0, 2, 0, 0, 0, 0xc3, 0xa9, 0, 0, 0, 0];
    let (back, _) = metadata_from_bytes_in(Some(&bytes), true).unwrap();
    assert_eq!(back.get("é"), Some(""));
    let bytes: Vec<u8> = vec![1, 0, 0, 0, 0xff, 0xff, 0xff, 0xff];
    assert!(matches!(
        metadata_from_bytes_in(Some(&bytes), true),
        Err(ArrowError::OutOfSpec(_))
    ));
}
