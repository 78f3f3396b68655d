use arrow2::array::{
    append_range, join_offsets, same_kind, Array, BinaryArray, BooleanArray, FixedSizeBinaryArray,
    ListArray, NullArray, PrimitiveArray, Utf8Array,
};
use arrow2::bitmap::{merge_validity, Bitmap};
use arrow2::compute::concat::concatenate;
use arrow2::datatypes::DataType;
use arrow2::error::ArrowError;
use arrow2::scalar::{ListScalar, ListScalarNew, Scalar};

fn numbers(values: &[Option<i32>]) -> Array {
    Array::Int32(PrimitiveArray::<i32>::from_options(values))
}

fn lists(offsets: Vec<i32>, values: &[Option<i32>], validity: Option<&[bool]>) -> Array {
    Array::List(ListArray::<i32>::from_data(
        ListArray::<i32>::default_datatype(DataType::Int32),
        offsets,
        numbers(values),
        validity.map(Bitmap::from_bools),
    ))
}

#[test]
fn validity_of_two_runs() {
    assert_eq!(merge_validity(None, 2, None, 3), None);
    let first = Bitmap::from_bools(&[true, false]);
    let second = Bitmap::from_bools(&[false, true, true]);
    assert_eq!(
        merge_validity(Some(&first), 2, None, 1),
        Some(Bitmap::from_bools(&[true, false, true]))
    );
    assert_eq!(
        merge_validity(None, 1, Some(&second), 3),
        Some(Bitmap::from_bools(&[true, false, true, true]))
    );
    assert_eq!(
        merge_validity(Some(&first), 2, Some(&second), 3),
        Some(Bitmap::from_bools(&[true, false, false, true, true]))
    );
}

#[test]
fn appends_slots_of_numbers_and_booleans() {
    let a = PrimitiveArray::<i32>::from_options(&[Some(1), None]);
    let b = PrimitiveArray::<i32>::from_options(&[Some(3)]);
    assert_eq!(
        a.append(&b).unwrap(),
        PrimitiveArray::<i32>::from_options(&[Some(1), None, Some(3)])
    );
    assert_eq!(
        b.append(&a).unwrap(),
        PrimitiveArray::<i32>::from_options(&[Some(3), Some(1), None])
    );
    let dates = PrimitiveArray::<i32>::from_options(&[Some(1)]).to(DataType::Date32);
    assert_eq!(dates.append(&b).unwrap().data_type(), &DataType::Date32);

    let x = BooleanArray::from_data(Bitmap::from_bools(&[true, false]), None);
    let y = BooleanArray::from_data(
        Bitmap::from_bools(&[true]),
        Some(Bitmap::from_bools(&[false])),
    );
    let all = x.append(&y).unwrap();
    assert_eq!(all.len(), 3);
    assert!(all.value(0));
    assert!(!all.value(1));
    assert!(all.is_valid(0) && all.is_valid(1));
    assert!(!all.is_valid(2));

    let nulls = NullArray::from_data(2).append(&NullArray::from_data(3)).unwrap();
    assert_eq!(nulls.len(), 5);
    assert!(NullArray::from_data(usize::MAX).append(&NullArray::from_data(1)).is_none());
}

#[test]
fn appends_slots_of_bytes() {
    let a = BinaryArray::<i32>::from_data(vec![1, 2, 4], vec![9, 1, 2, 3, 9], None);
    let b = BinaryArray::<i32>::from_data(
        vec![0, 0, 2],
        vec![7, 8],
        Some(Bitmap::from_bools(&[false, true])),
    );
    let all = a.append(&b).unwrap();
    assert_eq!(all.len(), 4);
    assert_eq!(all.value(0), &[1]);
    assert_eq!(all.value(1), &[2, 3]);
    assert_eq!(all.value(2), &[] as &[u8]);
    assert_eq!(all.value(3), &[7, 8]);
    assert!(all.is_valid(0) && all.is_valid(1) && all.is_valid(3));
    assert!(!all.is_valid(2));

    let s = Utf8Array::<i64>::from_data(vec![0, 2], b"ab".to_vec(), None);
    let t = Utf8Array::<i64>::from_data(vec![1, 2, 4], b"xcde".to_vec(), None);
    let all = s.append(&t).unwrap();
    assert_eq!(all.len(), 3);
    assert_eq!(all.value(0), "ab");
    assert_eq!(all.value(1), "c");
    assert_eq!(all.value(2), "de");

    let f = FixedSizeBinaryArray::new(DataType::FixedSizeBinary(2), vec![1, 2], None);
    let g = FixedSizeBinaryArray::new(
        DataType::FixedSizeBinary(2),
        vec![3, 4, 5, 6],
        Some(Bitmap::from_bools(&[true, false])),
    );
    let all = f.append(&g).unwrap();
    assert_eq!(all.len(), 3);
    assert_eq!(all.values(), &vec![1, 2, 3, 4, 5, 6]);
    assert_eq!(all.validity().unwrap(), &Bitmap::from_bools(&[true, true, false]));
}

#[test]
fn joins_offsets_from_zero() {
    assert_eq!(join_offsets::<i32>(&[2, 3, 5], &[4, 4, 7]), Some(vec![0, 1, 3, 3, 6]));
    assert_eq!(join_offsets::<i64>(&[0], &[9]), Some(vec![0]));
    assert_eq!(join_offsets::<i32>(&[0, i32::MAX], &[0, 1]), None);
    assert_eq!(
        join_offsets::<i64>(&[0, i32::MAX as i64], &[0, 1]),
        Some(vec![0, i32::MAX as i64, i32::MAX as i64 + 1])
    );
}

#[test]
fn kinds_of_arrays() {
    assert!(same_kind(&numbers(&[]), &numbers(&[Some(1)])));
    assert!(!same_kind(&numbers(&[]), &Array::Null(NullArray::from_data(1))));
    assert!(same_kind(&lists(vec![0], &[], None), &lists(vec![0, 1], &[Some(1)], None)));
    let two = Array::FixedSizeBinary(FixedSizeBinaryArray::new(
        DataType::FixedSizeBinary(2),
        vec![],
        None,
    ));
    let three = Array::FixedSizeBinary(FixedSizeBinaryArray::new(
        DataType::FixedSizeBinary(3),
        vec![],
        None,
    ));
    assert!(same_kind(&two, &two));
    assert!(!same_kind(&two, &three));
    let of_bytes = Array::List(ListArray::<i32>::from_data(
        ListArray::<i32>::default_datatype(DataType::Binary),
        vec![0],
        Array::Binary(BinaryArray::<i32>::new_empty()),
        None,
    ));
    assert!(!same_kind(&lists(vec![0], &[], None), &of_bytes));
}

#[test]
fn appends_ranges_of_lists() {
    let a = lists(
        vec![0, 2, 2, 4],
        &[Some(1), None, Some(3), Some(4)],
        Some(&[true, false, true]),
    );
    let b = lists(vec![1, 2, 3], &[Some(9), Some(5), Some(6)], None);
    let all = match append_range(&a, 1, 3, &b, 0, 2).unwrap() {
        Array::List(all) => all,
        _ => panic!("not lists"),
    };
    assert_eq!(all.offsets(), &vec![0, 0, 2, 3, 4]);
    match all.values() {
        Array::Int32(v) => assert_eq!(
            v,
            &PrimitiveArray::<i32>::from_options(&[Some(3), Some(4), Some(5), Some(6)])
        ),
        _ => panic!("not numbers"),
    }
    assert!(!all.is_valid(0));
    assert!(all.is_valid(1) && all.is_valid(2) && all.is_valid(3));
    assert_eq!(all.data_type(), &ListArray::<i32>::default_datatype(DataType::Int32));
}

#[test]
fn concatenates_arrays_in_order() {
    let a = numbers(&[Some(1), None]);
    let b = numbers(&[]);
    let c = numbers(&[Some(3)]);
    match concatenate(&[&a, &b, &c]).unwrap() {
        Array::Int32(all) => assert_eq!(
            all,
            PrimitiveArray::<i32>::from_options(&[Some(1), None, Some(3)])
        ),
        _ => panic!("not numbers"),
    }
    match concatenate(&[&a]).unwrap() {
        Array::Int32(all) => assert_eq!(
            all,
            PrimitiveArray::<i32>::from_options(&[Some(1), None])
        ),
        _ => panic!("not numbers"),
    }
}

#[test]
fn concatenate_refuses_no_arrays_and_mixed_types() {
    assert_eq!(
        concatenate(&[]).unwrap_err(),
        ArrowError::InvalidArgumentError("concat requires input of at least one array".to_string())
    );
    let a = numbers(&[Some(1)]);
    let b = Array::Int64(PrimitiveArray::<i64>::from_options(&[Some(1)]));
    assert_eq!(
        concatenate(&[&a, &b]).unwrap_err(),
        ArrowError::InvalidArgumentError(
            "It is not possible to concatenate arrays of different data types.".to_string()
        )
    );
    let dates = Array::Int32(PrimitiveArray::<i32>::from_options(&[Some(1)]).to(DataType::Date32));
    assert!(concatenate(&[&a, &dates]).is_err());
    let many = Array::Null(NullArray::from_data(usize::MAX));
    let one = Array::Null(NullArray::from_data(1));
    assert_eq!(concatenate(&[&many, &one]).unwrap_err(), ArrowError::Overflow);
}

#[test]
fn list_scalar_as_array() {
    let scalar = ListScalar::<i32>::new(ListScalarNew::Array(numbers(&[Some(7), Some(8)])));
    let array = scalar.to_boxed_array(2);
    assert_eq!(array.len(), 2);
    assert_eq!(array.offsets(), &vec![2, 3, 4]);
    match array.values() {
        Array::Int32(v) => assert_eq!(
            v,
            &PrimitiveArray::<i32>::from_options(&[Some(7), Some(8), Some(7), Some(8)])
        ),
        _ => panic!("not numbers"),
    }
    assert!(array.is_valid(0) && array.is_valid(1));
    assert_eq!(array.data_type(), &scalar.data_type());

    let null = ListScalar::<i64>::new(ListScalarNew::DataType(DataType::Utf8));
    let array = null.to_boxed_array(3);
    assert_eq!(array.len(), 3);
    assert_eq!(array.offsets(), &vec![0, 0, 0, 0]);
    assert_eq!(array.values().len(), 0);
    assert!(!array.is_valid(0) && !array.is_valid(1) && !array.is_valid(2));
    assert_eq!(array.data_type(), &ListArray::<i64>::default_datatype(DataType::Utf8));
    assert_eq!(null.to_boxed_array(0).len(), 0);
}
