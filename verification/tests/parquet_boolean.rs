use arrow2::array::BooleanArray;
use arrow2::bitmap::{Bitmap, MutableBitmap};
use arrow2::datatypes::DataType;
use arrow2::error::ArrowError;
use arrow2::io::parquet::read::deserialize::boolean::{
    finish, BooleanDecoder, DataPages, Encoding, Interval, Iter, MaybeNext, Page, State,
};

struct Pages {
    pages: Vec<Result<Page, ArrowError>>,
}

impl DataPages for Pages {
    fn next_page(&mut self) -> Result<Option<Page>, ArrowError> {
        if self.pages.is_empty() {
            Ok(None)
        } else {
            self.pages.remove(0).map(Some)
        }
    }
}

fn levels(valid: &[bool]) -> Vec<u8> {
    let mut buffer = vec![];
    parquet2::encoding::hybrid_rle::encode_bool(&mut buffer, valid.iter().copied()).unwrap();
    buffer
}

fn required(bits: u8, num_values: usize) -> Page {
    Page {
        encoding: Encoding::Plain,
        is_optional: false,
        num_values,
        buffer: vec![bits],
        def_levels: vec![],
        values: vec![bits],
        selected_rows: None,
    }
}

fn optional(valid: &[bool], values: u8) -> Page {
    Page {
        encoding: Encoding::Plain,
        is_optional: true,
        num_values: valid.len(),
        buffer: vec![],
        def_levels: levels(valid),
        values: vec![values],
        selected_rows: None,
    }
}

fn rows(array: &BooleanArray) -> Vec<Option<bool>> {
    (0..array.len())
        .map(|i| {
            if array.is_valid(i) {
                Some(array.value(i))
            } else {
                None
            }
        })
        .collect()
}

fn collect(iter: &mut Iter<Pages>) -> Vec<Vec<Option<bool>>> {
    let mut chunks = vec![];
    loop {
        match iter.poll() {
            MaybeNext::Ready(array) => chunks.push(rows(&array.unwrap())),
            MaybeNext::More => {}
            MaybeNext::Done => return chunks,
        }
    }
}

#[test]
fn required_page_in_chunks() {
    let pages = Pages {
        pages: vec![Ok(required(0b0000_1101, 4))],
    };
    let mut iter = Iter::new(pages, DataType::Boolean, 3);
    match iter.poll() {
        MaybeNext::Ready(Ok(array)) => {
            assert_eq!(array.len(), 3);
            assert!(array.validity().is_none());
            assert_eq!(array.data_type(), &DataType::Boolean);
            assert_eq!(
                rows(&array),
                vec![Some(true), Some(false), Some(true)]
            );
        }
        _ => panic!("no chunk"),
    }
    match iter.poll() {
        MaybeNext::Ready(Ok(array)) => assert_eq!(rows(&array), vec![Some(true)]),
        _ => panic!("no chunk"),
    }
    assert!(matches!(iter.poll(), MaybeNext::Done));
    assert!(matches!(iter.poll(), MaybeNext::Done));
}

#[test]
fn optional_page_spreads_the_values() {
    let pages = Pages {
        pages: vec![Ok(optional(&[true, false, true, false, true], 0b0000_0101))],
    };
    let mut iter = Iter::new(pages, DataType::Boolean, 10);
    assert_eq!(
        collect(&mut iter),
        vec![vec![Some(true), None, Some(false), None, Some(true)]]
    );
}

#[test]
fn optional_page_without_nulls_has_no_validity() {
    let pages = Pages {
        pages: vec![Ok(optional(&[true, true], 0b10))],
    };
    let mut iter = Iter::new(pages, DataType::Boolean, 2);
    match iter.poll() {
        MaybeNext::Ready(Ok(array)) => {
            assert!(array.validity().is_none());
            assert_eq!(rows(&array), vec![Some(false), Some(true)]);
        }
        _ => panic!("no chunk"),
    }
}

#[test]
fn chunks_span_pages() {
    let pages = Pages {
        pages: vec![
            Ok(required(0b0000_0001, 2)),
            Ok(required(0b0000_0010, 2)),
            Ok(required(0b0000_0111, 3)),
        ],
    };
    let mut iter = Iter::new(pages, DataType::Boolean, 3);
    assert!(matches!(iter.poll(), MaybeNext::More));
    assert_eq!(
        collect(&mut iter),
        vec![
            vec![Some(true), Some(false), Some(false)],
            vec![Some(true), Some(true), Some(true)],
            vec![Some(true)],
        ]
    );
}

#[test]
fn selected_rows_of_required_page() {
    let mut page = required(0b0110_1101, 8);
    page.selected_rows = Some(vec![
        Interval { start: 1, length: 2 },
        Interval { start: 5, length: 3 },
    ]);
    let pages = Pages { pages: vec![Ok(page)] };
    let mut iter = Iter::new(pages, DataType::Boolean, 100);
    assert_eq!(
        collect(&mut iter),
        vec![vec![Some(false), Some(true), Some(true), Some(true), Some(false)]]
    );
}

#[test]
fn selected_rows_of_optional_page() {
    // rows: T, null, F, T, null, F
    let mut page = optional(&[true, false, true, true, false, true], 0b0000_0101);
    page.selected_rows = Some(vec![
        Interval { start: 1, length: 3 },
        Interval { start: 5, length: 1 },
    ]);
    let pages = Pages { pages: vec![Ok(page)] };
    let mut iter = Iter::new(pages, DataType::Boolean, 100);
    assert_eq!(
        collect(&mut iter),
        vec![vec![None, Some(false), Some(true), Some(false)]]
    );
}

#[test]
fn states_of_pages() {
    let decoder = BooleanDecoder::default();
    assert!(matches!(
        decoder.build_state(&required(1, 3)),
        Ok(State::Required(_))
    ));
    assert!(matches!(
        decoder.build_state(&optional(&[true], 1)),
        Ok(State::Optional(_))
    ));
    let mut page = required(1, 3);
    page.selected_rows = Some(vec![Interval { start: 0, length: 1 }]);
    assert!(matches!(
        decoder.build_state(&page),
        Ok(State::FilteredRequired(_))
    ));
    let mut page = optional(&[true], 1);
    page.selected_rows = Some(vec![]);
    let state = decoder.build_state(&page).unwrap();
    assert!(matches!(state, State::FilteredOptional(_)));
    assert_eq!(state.len(), 0);
    assert_eq!(decoder.build_state(&required(1, 8)).unwrap().len(), 8);
}

#[test]
fn other_encodings_are_not_implemented() {
    let decoder = BooleanDecoder::default();
    for encoding in [
        Encoding::PlainDictionary,
        Encoding::Rle,
        Encoding::BitPacked,
        Encoding::DeltaBinaryPacked,
        Encoding::DeltaLengthByteArray,
        Encoding::DeltaByteArray,
        Encoding::RleDictionary,
        Encoding::ByteStreamSplit,
    ] {
        let mut page = required(1, 1);
        page.encoding = encoding;
        assert!(matches!(
            decoder.build_state(&page),
            Err(ArrowError::NotYetImplemented(_))
        ));
    }
}

#[test]
fn pages_whose_parts_do_not_fit_are_refused() {
    let decoder = BooleanDecoder::default();
    // more rows than bits
    assert!(matches!(
        decoder.build_state(&required(1, 9)),
        Err(ArrowError::ExternalFormat(_))
    ));
    // more valid rows than values
    let mut page = optional(&[true; 9], 0xff);
    assert!(matches!(
        decoder.build_state(&page),
        Err(ArrowError::ExternalFormat(_))
    ));
    page.values = vec![0xff, 0x01];
    assert!(decoder.build_state(&page).is_ok());
    // intervals that overlap, are empty, or leave the page
    for rows in [
        vec![Interval { start: 0, length: 2 }, Interval { start: 1, length: 1 }],
        vec![Interval { start: 0, length: 0 }],
        vec![Interval { start: 2, length: 2 }],
        vec![Interval { start: usize::MAX, length: 2 }],
    ] {
        let mut page = required(1, 3);
        page.selected_rows = Some(rows);
        assert!(matches!(
            decoder.build_state(&page),
            Err(ArrowError::ExternalFormat(_))
        ));
    }
    // levels given are not as many as the rows
    let page = optional(&[true, false], 1);
    assert!(matches!(
        decoder.state_from_levels(&page, Some(vec![1])),
        Err(ArrowError::ExternalFormat(_))
    ));
    assert!(matches!(
        decoder.state_from_levels(&page, None),
        Err(ArrowError::ExternalFormat(_))
    ));
    assert!(decoder.state_from_levels(&page, Some(vec![0, 1])).is_ok());
}

#[test]
fn rows_move_from_the_state() {
    let decoder = BooleanDecoder::default();
    let mut state = decoder.build_state(&required(0b0010_1101, 6)).unwrap();
    let mut decoded = decoder.with_capacity(4);
    decoder.extend_from_state(&mut state, &mut decoded, 4);
    assert_eq!(state.len(), 2);
    assert_eq!(decoded.0, MutableBitmap::from_bools(&[true, false, true, true]));
    assert_eq!(decoded.1.len(), 0);
    decoder.extend_from_state(&mut state, &mut decoded, 4);
    assert_eq!(state.len(), 0);
    assert_eq!(
        decoded.0,
        MutableBitmap::from_bools(&[true, false, true, true, false, true])
    );
    decoder.extend_from_state(&mut state, &mut decoded, 4);
    assert_eq!(decoded.0.len(), 6);

    let mut state = decoder
        .build_state(&optional(&[false, true, true], 0b10))
        .unwrap();
    let mut decoded = decoder.with_capacity(0);
    decoder.extend_from_state(&mut state, &mut decoded, 2);
    assert_eq!(decoded.0, MutableBitmap::from_bools(&[false, false]));
    assert_eq!(decoded.1, MutableBitmap::from_bools(&[false, true]));
    assert_eq!(state.len(), 1);
}

#[test]
fn failures_of_the_source_are_handed_on() {
    let pages = Pages {
        pages: vec![
            Ok(required(1, 1)),
            Err(ArrowError::ExternalFormat("broken file".to_string())),
            Ok(required(1, 1)),
        ],
    };
    let mut iter = Iter::new(pages, DataType::Boolean, 5);
    assert!(matches!(iter.poll(), MaybeNext::More));
    match iter.poll() {
        MaybeNext::Ready(Err(e)) => assert_eq!(e.message(), "broken file"),
        _ => panic!("no failure"),
    }
    assert!(matches!(iter.poll(), MaybeNext::More));
    match iter.poll() {
        MaybeNext::Ready(Ok(array)) => assert_eq!(array.len(), 2),
        _ => panic!("no chunk"),
    }
}

#[test]
fn rows_of_two_kinds_do_not_share_a_chunk() {
    let pages = Pages {
        pages: vec![Ok(required(1, 1)), Ok(optional(&[false], 0))],
    };
    let mut iter = Iter::new(pages, DataType::Boolean, 5);
    assert!(matches!(iter.poll(), MaybeNext::More));
    assert!(matches!(
        iter.poll(),
        MaybeNext::Ready(Err(ArrowError::ExternalFormat(_)))
    ));
}

#[test]
fn arrays_of_decoded_rows() {
    let array = finish(
        &DataType::Boolean,
        MutableBitmap::from_bools(&[true, false]),
        MutableBitmap::from_bools(&[true, true]),
    );
    assert!(array.validity().is_none());
    let array = finish(
        &DataType::Boolean,
        MutableBitmap::from_bools(&[true, false]),
        MutableBitmap::from_bools(&[true, false]),
    );
    assert_eq!(array.validity(), Some(&Bitmap::from_bools(&[true, false])));
    assert_eq!(array.values(), &Bitmap::from_bools(&[true, false]));
    let array = finish(
        &DataType::Boolean,
        MutableBitmap::from_bools(&[true, false]),
        MutableBitmap::new(),
    );
    assert!(array.validity().is_none());
    assert_eq!(array.len(), 2);
}

fn with_levels(def_levels: Vec<u8>, num_values: usize, values: Vec<u8>) -> Page {
    Page {
        encoding: Encoding::Plain,
        is_optional: true,
        num_values,
        buffer: vec![],
        def_levels,
        values,
        selected_rows: None,
    }
}

fn all_rows(page: Page) -> Vec<Option<bool>> {
    let n = page.num_values;
    let mut iter = Iter::new(Pages { pages: vec![Ok(page)] }, DataType::Boolean, n.max(1));
    collect(&mut iter).into_iter().flatten().collect()
}

#[test]
fn levels_in_repeated_runs() {
    // four times the level one, then three times the level zero
    let page = with_levels(vec![8, 1, 6, 0], 7, vec![0b0101]);
    assert_eq!(
        all_rows(page),
        vec![Some(true), Some(false), Some(true), Some(false), None, None, None]
    );
}

#[test]
fn levels_in_long_packed_runs() {
    let valid = vec![true; 200];
    let page = with_levels(levels(&valid), 200, vec![0xff; 25]);
    assert_eq!(all_rows(page), vec![Some(true); 200]);

    // a repeated run, then a packed group of eight levels
    let page = with_levels(vec![4, 1, 3, 0b0000_0101], 5, vec![0b1111]);
    assert_eq!(
        all_rows(page),
        vec![Some(true), Some(true), Some(true), None, Some(true)]
    );
}

#[test]
fn levels_with_broken_headers_are_refused() {
    let decoder = BooleanDecoder::default();
    let mut broken = vec![0x80u8; 9];
    broken.push(2);
    broken.push(1);
    assert!(matches!(
        decoder.build_state(&with_levels(broken, 4, vec![0b1111])),
        Err(ArrowError::ExternalFormat(_))
    ));

    // a good run first, the broken header after it
    let mut later = vec![8, 1];
    later.extend_from_slice(&[0xff; 9]);
    later.push(0x7f);
    later.push(0);
    assert!(matches!(
        decoder.build_state(&with_levels(later, 4, vec![0b1111])),
        Err(ArrowError::ExternalFormat(_))
    ));

    // runs that count nothing
    assert!(matches!(
        decoder.build_state(&with_levels(vec![0, 1, 8, 1], 4, vec![0b1111])),
        Err(ArrowError::ExternalFormat(_))
    ));
    assert!(matches!(
        decoder.build_state(&with_levels(vec![1, 8, 1], 4, vec![0b1111])),
        Err(ArrowError::ExternalFormat(_))
    ));
}

#[test]
fn levels_with_long_headers_are_read() {
    let decoder = BooleanDecoder::default();
    // the count of four, written in three bytes
    let state = decoder
        .build_state(&with_levels(vec![0x88, 0x80, 0x00, 1], 4, vec![0b1010]))
        .unwrap();
    assert_eq!(state.len(), 4);
    // a header of ten bytes whose last is one: a packed run of all that follows
    let mut long = vec![0x81u8; 9];
    long.push(1);
    long.push(0b0000_0011);
    let state = decoder
        .build_state(&with_levels(long, 2, vec![0b01]))
        .unwrap();
    assert_eq!(state.len(), 2);
    // a header at the very end stands for no run
    assert!(decoder.build_state(&with_levels(vec![8, 1, 0x80], 4, vec![0b1111])).is_ok());
}
