use arrow2::array::ord;
use arrow2::array::PrimitiveArray;
use arrow2::compute::sort::{partial_sort_by, sort_by, SortOptions};
use arrow2::datatypes::DataType;

fn test_partial_sort_primitive_arrays(
    data: &[Option<i8>],
    data_type: DataType,
    options: SortOptions,
    limit: usize,
    expected_data: &[Option<i8>],
) {
    let input = PrimitiveArray::<i8>::from_options(data).to(data_type.clone());
    let expected = PrimitiveArray::<i8>::from_options(expected_data).to(data_type);
    let output = partial_sort_by(&input, ord::total_cmp, &options, limit);
    assert_eq!(expected, output)
}

#[test]
fn ascending_nulls_last_limit() {
    test_partial_sort_primitive_arrays(
        &[Some(2), None, None, Some(1)],
        DataType::Int8,
        SortOptions {
            descending: false,
            nulls_first: false,
        },
        3,
        &[Some(1), Some(2), None],
    );
}

#[test]
fn descending_nulls_last_limit() {
    test_partial_sort_primitive_arrays(
        &[Some(2), None, None, Some(1)],
        DataType::Int8,
        SortOptions {
            descending: true,
            nulls_first: false,
        },
        3,
        &[Some(2), Some(1), None],
    );
}

#[test]
fn ascending_nulls_first_limit() {
    test_partial_sort_primitive_arrays(
        &[Some(2), None, None, Some(1)],
        DataType::Int8,
        SortOptions {
            descending: false,
            nulls_first: true,
        },
        3,
        &[None, None, Some(1)],
    );
}

#[test]
fn descending_nulls_first_limit() {
    test_partial_sort_primitive_arrays(
        &[Some(2), None, None, Some(1)],
        DataType::Int8,
        SortOptions {
            descending: true,
            nulls_first: true,
        },
        3,
        &[None, None, Some(2)],
    );
}

#[test]
fn partial_sort_keeps_the_smallest_values() {
    let input = PrimitiveArray::<i32>::from_data(
        DataType::Int32,
        vec![9, 4, 7, 1, 8, 3, 5],
        None,
    );
    let options = SortOptions {
        descending: false,
        nulls_first: true,
    };
    let output = partial_sort_by(&input, ord::total_cmp, &options, 3);
    assert_eq!(output.len(), 3);
    assert_eq!(output.values(), &vec![1, 3, 4]);
    assert!(output.validity().is_none());

    let options = SortOptions {
        descending: true,
        nulls_first: true,
    };
    let output = partial_sort_by(&input, ord::total_cmp, &options, 2);
    assert_eq!(output.values(), &vec![9, 8]);
}

#[test]
fn partial_sort_with_limit_equal_to_the_valid_values() {
    test_partial_sort_primitive_arrays(
        &[Some(2), None, None, Some(1)],
        DataType::Int8,
        SortOptions {
            descending: false,
            nulls_first: false,
        },
        2,
        &[Some(1), Some(2)],
    );
}

#[test]
fn partial_sort_with_limit_zero_is_empty() {
    test_partial_sort_primitive_arrays(
        &[Some(2), None, Some(1)],
        DataType::Int8,
        SortOptions {
            descending: false,
            nulls_first: false,
        },
        0,
        &[],
    );
}

#[test]
fn partial_sort_with_large_limit_sorts_everything() {
    test_partial_sort_primitive_arrays(
        &[Some(2), None, None, Some(1)],
        DataType::Int8,
        SortOptions {
            descending: false,
            nulls_first: true,
        },
        10,
        &[None, None, Some(1), Some(2)],
    );
}

#[test]
fn sort_by_sorts_all_slots() {
    let input = PrimitiveArray::<i8>::from_options(&[Some(3), None, Some(-1), Some(2)]);
    let options = SortOptions {
        descending: true,
        nulls_first: false,
    };
    let output = sort_by(&input, ord::total_cmp, &options);
    let expected = PrimitiveArray::<i8>::from_options(&[Some(3), Some(2), Some(-1), None]);
    assert_eq!(expected, output);
    assert_eq!(output.null_count(), 1);
}

#[test]
fn sort_keeps_the_logical_type() {
    let input =
        PrimitiveArray::<i32>::from_options(&[Some(3), Some(1)]).to(DataType::Date32);
    let output = sort_by(&input, ord::total_cmp, &SortOptions::default());
    assert_eq!(output.data_type(), &DataType::Date32);
    assert_eq!(output.values(), &vec![1, 3]);
}

#[test]
fn arrays_with_other_types_differ() {
    let a = PrimitiveArray::<i32>::from_options(&[Some(3), None]);
    let b = PrimitiveArray::<i32>::from_options(&[Some(3), None]).to(DataType::Date32);
    assert_ne!(a, b);
    let c = PrimitiveArray::<i32>::from_options(&[Some(3), None]);
    assert_eq!(a, c);
    assert!(a.is_valid(0));
    assert!(!a.is_valid(1));
    assert_eq!(a.value(0), 3);
}
