use arrow2::array::{
    new_empty_array, Array, BinaryArray, BooleanArray, FixedSizeBinaryArray, ListArray, NullArray,
    PrimitiveArray, Utf8Array,
};
use arrow2::bitmap::Bitmap;
use arrow2::datatypes::{DataType, Field, IntegerType, IntervalUnit, TimeUnit, UnionMode};
use arrow2::types::days_ms;
use arrow2::scalar::{new_scalar, DynScalar, ListScalar, ListScalarNew, Scalar};

fn list_of_numbers() -> ListArray<i32> {
    let values = Array::Int32(PrimitiveArray::<i32>::from_options(&[
        Some(1),
        None,
        Some(3),
        Some(4),
    ]));
    ListArray::<i32>::from_data(
        ListArray::<i32>::default_datatype(DataType::Int32),
        vec![0, 2, 2, 4],
        values,
        Some(Bitmap::from_bools(&[true, false, true])),
    )
}

#[test]
fn slices_of_arrays() {
    let numbers = PrimitiveArray::<i32>::from_options(&[Some(1), None, Some(3), Some(4)]);
    let part = numbers.slice(1, 2);
    assert_eq!(part, PrimitiveArray::<i32>::from_options(&[None, Some(3)]));
    assert_eq!(numbers.slice(4, 0).len(), 0);

    let bits = BooleanArray::from_data(
        Bitmap::from_bools(&[true, false, true]),
        Some(Bitmap::from_bools(&[true, true, false])),
    );
    let part = bits.slice(1, 2);
    assert_eq!(part.len(), 2);
    assert!(!part.value(0));
    assert!(part.is_valid(0));
    assert!(!part.is_valid(1));

    let texts = Utf8Array::<i32>::from_data(vec![0, 1, 3, 6], b"abcdef".to_vec(), None);
    assert_eq!(texts.value(2), "def");
    let part = texts.slice(1, 2);
    assert_eq!(part.len(), 2);
    assert_eq!(part.value(0), "bc");
    assert_eq!(part.value(1), "def");

    let bytes = BinaryArray::<i64>::from_data(vec![0, 1, 3], vec![7, 8, 9], None);
    assert_eq!(bytes.slice(1, 1).value(0), &[8, 9]);
    assert_eq!(bytes.data_type(), &DataType::LargeBinary);

    let fixed = FixedSizeBinaryArray::new(
        DataType::FixedSizeBinary(2),
        vec![1, 2, 3, 4, 5, 6],
        Some(Bitmap::from_bools(&[true, false, true])),
    );
    let part = fixed.slice(1, 2);
    assert_eq!(part.len(), 2);
    assert_eq!(part.values(), &vec![3, 4, 5, 6]);
    assert_eq!(part.validity().unwrap(), &Bitmap::from_bools(&[false, true]));

    assert_eq!(Bitmap::from_bools(&[true, false, true, true]).slice(1, 3), Bitmap::from_bools(&[false, true, true]));
    assert_eq!(NullArray::from_data(5).slice(2, 3).len(), 3);
}

#[test]
fn lists_are_runs_of_the_array_below() {
    let list = list_of_numbers();
    assert_eq!(list.len(), 3);
    assert!(list.is_valid(0));
    assert!(!list.is_valid(1));
    match list.value(0) {
        Array::Int32(a) => assert_eq!(a, PrimitiveArray::<i32>::from_options(&[Some(1), None])),
        _ => panic!("not numbers"),
    }
    match list.value(2) {
        Array::Int32(a) => assert_eq!(a, PrimitiveArray::<i32>::from_options(&[Some(3), Some(4)])),
        _ => panic!("not numbers"),
    }
    assert_eq!(list.value(1).len(), 0);
    assert_eq!(
        list.data_type(),
        &DataType::List(Box::new(Field::new("item", DataType::Int32, true)))
    );
    let all = Array::List(list);
    let part = all.slice(1, 2);
    assert_eq!(part.len(), 2);
    assert!(!part.is_valid(0));
    assert!(part.is_valid(1));
    match part {
        Array::List(l) => assert_eq!(l.value(1).len(), 2),
        _ => panic!("not a list"),
    }
}

#[test]
fn empty_arrays_of_types() {
    for data_type in [
        DataType::Null,
        DataType::Boolean,
        DataType::Int8,
        DataType::UInt64,
        DataType::Date32,
        DataType::Timestamp(TimeUnit::Second, None),
        DataType::Utf8,
        DataType::LargeBinary,
        DataType::FixedSizeBinary(3),
        DataType::List(Box::new(Field::new("item", DataType::Utf8, true))),
        DataType::LargeList(Box::new(Field::new(
            "item",
            DataType::List(Box::new(Field::new("item", DataType::Int8, true))),
            true,
        ))),
    ] {
        let array = new_empty_array(data_type.clone());
        assert_eq!(array.len(), 0);
        assert_eq!(array.data_type(), data_type);
        assert!(!matches!(array, Array::Empty(_)));
    }
    // types whose slots have no kind of their own still have an empty array
    for data_type in [
        DataType::Float32,
        DataType::FixedSizeBinary(0),
        DataType::Struct(vec![Field::new("a", DataType::Int32, true)]),
        DataType::Union(vec![], None, UnionMode::Dense),
        DataType::MapType(
            Box::new(Field::new("entries", DataType::Struct(vec![]), false)),
            false,
        ),
        DataType::Dictionary(IntegerType::Int8, Box::new(DataType::Utf8), false),
        DataType::FixedSizeList(Box::new(Field::new("item", DataType::Int8, true)), 2),
        DataType::Extension("e".to_string(), Box::new(DataType::Int8), None),
    ] {
        let array = new_empty_array(data_type.clone());
        assert_eq!(array.len(), 0);
        assert_eq!(array.data_type(), data_type);
        assert!(matches!(array, Array::Empty(_)));
    }
    let nested = DataType::List(Box::new(Field::new("item", DataType::Struct(vec![]), true)));
    match new_empty_array(nested.clone()) {
        Array::List(list) => {
            assert_eq!(list.len(), 0);
            assert_eq!(list.data_type(), &nested);
            assert_eq!(list.values().data_type(), DataType::Struct(vec![]));
        }
        _ => panic!("not a list"),
    }
    match new_empty_array(DataType::Decimal(10, 2)) {
        Array::Int128(a) => assert_eq!(a.data_type(), &DataType::Decimal(10, 2)),
        _ => panic!("not decimal"),
    }
    match new_empty_array(DataType::Interval(IntervalUnit::DayTime)) {
        Array::DaysMs(a) => assert_eq!(a.len(), 0),
        _ => panic!("not intervals"),
    }
}

#[test]
fn scalars_of_decimals_and_intervals() {
    let decimals = Array::Int128(
        PrimitiveArray::<i128>::from_options(&[Some(12345), None, Some(-1)])
            .to(DataType::Decimal(10, 2)),
    );
    match *new_scalar(&decimals, 0) {
        DynScalar::Int128(s) => {
            assert!(s.is_valid());
            assert_eq!(s.value(), 12345);
            assert_eq!(s.data_type(), DataType::Decimal(10, 2));
        }
        _ => panic!("not a decimal"),
    }
    assert!(!new_scalar(&decimals, 1).is_valid());
    assert_eq!(new_scalar(&decimals, 1).data_type(), DataType::Decimal(10, 2));

    let intervals = Array::DaysMs(PrimitiveArray::<days_ms>::from_options(&[
        None,
        Some(days_ms::new(3, 500)),
    ]));
    match *new_scalar(&intervals, 1) {
        DynScalar::DaysMs(s) => {
            assert!(s.is_valid());
            assert_eq!(s.value(), days_ms::new(3, 500));
            assert_eq!(s.value().days(), 3);
            assert_eq!(s.value().milliseconds(), 500);
            assert_eq!(s.data_type(), DataType::Interval(IntervalUnit::DayTime));
        }
        _ => panic!("not an interval"),
    }
    assert!(!new_scalar(&intervals, 0).is_valid());
}

#[test]
fn null_list_scalars_of_any_item_type() {
    for item in [
        DataType::Struct(vec![Field::new("a", DataType::Int32, true)]),
        DataType::Union(vec![], None, UnionMode::Sparse),
        DataType::Dictionary(IntegerType::UInt8, Box::new(DataType::Utf8), true),
        DataType::FixedSizeList(Box::new(Field::new("item", DataType::Int8, true)), 4),
        DataType::Decimal(5, 1),
        DataType::Interval(IntervalUnit::DayTime),
        DataType::Int16,
    ] {
        let scalar = ListScalar::<i32>::new(ListScalarNew::DataType(item.clone()));
        assert!(!scalar.is_valid());
        assert_eq!(scalar.values().len(), 0);
        assert_eq!(scalar.values().data_type(), item);
        assert_eq!(
            scalar.data_type(),
            DataType::List(Box::new(Field::new("item", item.clone(), true)))
        );
        let large = ListScalar::<i64>::new(ListScalarNew::DataType(item.clone()));
        assert_eq!(
            large.data_type(),
            DataType::LargeList(Box::new(Field::new("item", item, true)))
        );
        let array = large.to_boxed_array(2);
        assert_eq!(array.len(), 2);
        assert!(!array.is_valid(0) && !array.is_valid(1));
    }
}

#[test]
fn scalars_of_slots() {
    let numbers = Array::Int32(
        PrimitiveArray::<i32>::from_options(&[Some(7), None]).to(DataType::Date32),
    );
    match *new_scalar(&numbers, 0) {
        DynScalar::Int32(s) => {
            assert!(s.is_valid());
            assert_eq!(s.value(), 7);
            assert_eq!(s.data_type(), DataType::Date32);
        }
        _ => panic!("not a number"),
    }
    let null = new_scalar(&numbers, 1);
    assert!(!null.is_valid());
    assert_eq!(null.data_type(), DataType::Date32);

    let texts = Array::Utf8(Utf8Array::<i32>::from_data(
        vec![0, 1, 3],
        b"abc".to_vec(),
        Some(Bitmap::from_bools(&[false, true])),
    ));
    match *new_scalar(&texts, 1) {
        DynScalar::Utf8(s) => assert_eq!(s.value(), "bc"),
        _ => panic!("not a text"),
    }
    assert!(!new_scalar(&texts, 0).is_valid());
    assert_eq!(new_scalar(&texts, 0).data_type(), DataType::Utf8);

    let bytes = Array::LargeBinary(BinaryArray::<i64>::from_data(vec![0, 2], vec![5, 6], None));
    match *new_scalar(&bytes, 0) {
        DynScalar::LargeBinary(s) => assert_eq!(s.value(), &[5, 6]),
        _ => panic!("not bytes"),
    }
    let bits = Array::Boolean(BooleanArray::from_data(Bitmap::from_bools(&[true]), None));
    match *new_scalar(&bits, 0) {
        DynScalar::Boolean(s) => assert!(s.value()),
        _ => panic!("not a boolean"),
    }
    assert!(!new_scalar(&Array::Null(NullArray::from_data(2)), 1).is_valid());
    assert_eq!(
        new_scalar(&Array::Null(NullArray::from_data(2)), 1).data_type(),
        DataType::Null
    );
}

#[test]
fn scalars_of_lists() {
    let lists = Array::List(list_of_numbers());
    match *new_scalar(&lists, 2) {
        DynScalar::List(s) => {
            assert!(s.is_valid());
            assert_eq!(s.values().len(), 2);
            assert_eq!(
                s.data_type(),
                DataType::List(Box::new(Field::new("item", DataType::Int32, true)))
            );
        }
        _ => panic!("not a list"),
    }
    let null = new_scalar(&lists, 1);
    assert!(!null.is_valid());

    let made = ListScalar::<i64>::new(ListScalarNew::DataType(DataType::Utf8));
    assert!(!made.is_valid());
    assert_eq!(made.values().len(), 0);
    assert_eq!(
        made.data_type(),
        DataType::LargeList(Box::new(Field::new("item", DataType::Utf8, true)))
    );
    let made = ListScalar::<i32>::new(ListScalarNew::Array(Array::Boolean(
        BooleanArray::from_data(Bitmap::from_bools(&[true, false]), None),
    )));
    assert!(made.is_valid());
    assert_eq!(made.values().len(), 2);
}
