use arrow2::array::{FixedSizeBinaryArray, MutableFixedSizeBinaryArray};
use arrow2::bitmap::{Bitmap, MutableBitmap};
use arrow2::datatypes::DataType;
use arrow2::error::ArrowError;

#[test]
fn push_values_and_nulls() {
    let mut a = MutableFixedSizeBinaryArray::new(2);
    assert_eq!(a.size(), 2);
    assert_eq!(a.len(), 0);
    a.push(Some(&[1, 2]));
    assert!(a.validity().is_none());
    a.push(None);
    a.push(Some(&[3, 4]));
    assert_eq!(a.len(), 3);
    assert_eq!(a.values(), &vec![1, 2, 0, 0, 3, 4]);
    assert_eq!(
        a.validity(),
        Some(&MutableBitmap::from_bools(&[true, false, true]))
    );
    assert!(a.is_valid(0));
    assert!(!a.is_valid(1));
    assert_eq!(a.value(0), &[1, 2]);
    assert_eq!(a.value(2), &[3, 4]);
    assert_eq!(a.value_unchecked(0), &[1, 2]);
    assert_eq!(a.value_unchecked(2), &[3, 4]);
    assert_eq!(a.data_type(), &DataType::FixedSizeBinary(2));
}

#[test]
fn try_push_refuses_other_sizes() {
    let mut a = MutableFixedSizeBinaryArray::new(2);
    assert!(a.try_push(Some(&[1, 2])).is_ok());
    let r = a.try_push(Some(&[1, 2, 3]));
    assert!(matches!(r, Err(ArrowError::InvalidArgumentError(_))));
    assert!(matches!(
        a.try_push(Some(&[])),
        Err(ArrowError::InvalidArgumentError(_))
    ));
    assert_eq!(a.len(), 1);
    assert_eq!(a.values(), &vec![1, 2]);
    assert!(a.try_push(None).is_ok());
    assert_eq!(a.len(), 2);
}

#[test]
fn pop_returns_values_and_nulls() {
    let mut a = MutableFixedSizeBinaryArray::new(1);
    a.push(Some(&[1]));
    a.push(None);
    a.push(Some(&[2]));
    a.push(None);
    assert_eq!(a.pop(), None);
    assert_eq!(a.pop(), Some(vec![2]));
    assert_eq!(a.pop(), None);
    assert!(a.is_valid(0));
    assert_eq!(a.values(), &vec![1]);
    assert_eq!(a.pop(), Some(vec![1]));
    assert_eq!(a.len(), 0);
    assert_eq!(a.pop(), None);
    assert_eq!(a.len(), 0);
}

#[test]
fn pop_without_validity() {
    let mut a = MutableFixedSizeBinaryArray::new(3);
    a.push(Some(&[1, 2, 3]));
    a.push(Some(&[4, 5, 6]));
    assert_eq!(a.pop(), Some(vec![4, 5, 6]));
    assert!(a.validity().is_none());
    assert_eq!(a.values(), &vec![1, 2, 3]);
}

#[test]
fn from_data_and_items() {
    let a = MutableFixedSizeBinaryArray::from_data(
        DataType::FixedSizeBinary(2),
        vec![1, 2, 9, 9, 5, 6],
        Some(MutableBitmap::from_bools(&[true, false, true])),
    );
    assert_eq!(a.len(), 3);
    assert_eq!(a.size(), 2);
    let mut b = MutableFixedSizeBinaryArray::new(2);
    b.push(Some(&[1, 2]));
    b.push(None);
    b.push(Some(&[5, 6]));
    // what a null slot holds does not count
    assert_eq!(a, b);
    b.push(None);
    assert_ne!(a, b);
}

#[test]
fn from_items() {
    let items: Vec<Option<&[u8]>> = vec![Some(&[1, 2]), None, Some(&[3, 4])];
    let a = MutableFixedSizeBinaryArray::try_from_iter(&items, 2).unwrap();
    assert_eq!(a.len(), 3);
    assert_eq!(a.values(), &vec![1, 2, 0, 0, 3, 4]);
    assert!(!a.is_valid(1));
    let items: Vec<Option<&[u8]>> = vec![Some(&[1, 2]), Some(&[3])];
    assert!(matches!(
        MutableFixedSizeBinaryArray::try_from_iter(&items, 2),
        Err(ArrowError::InvalidArgumentError(_))
    ));
    let none: Vec<Option<&[u8]>> = vec![];
    let a = MutableFixedSizeBinaryArray::try_from_iter(&none, 5).unwrap();
    assert_eq!(a.len(), 0);
    assert_eq!(a.size(), 5);
}

#[test]
fn room_of_the_array() {
    let mut a = MutableFixedSizeBinaryArray::with_capacity(4, 100);
    a.push(Some(&[1, 2, 3, 4]));
    a.push(None);
    assert!(a.capacity() >= 100);
    a.shrink_to_fit();
    assert!(a.capacity() >= 2);
    assert!(a.capacity() < 100);
    assert_eq!(a.values(), &vec![1, 2, 3, 4, 0, 0, 0, 0]);
    assert_eq!(a.len(), 2);
}

#[test]
fn values_changed_in_place() {
    let mut a = MutableFixedSizeBinaryArray::from_data(
        DataType::FixedSizeBinary(2),
        vec![1, 0, 2, 0],
        Some(MutableBitmap::from_bools(&[true, false])),
    );
    let values = a.values_mut_slice();
    values[0] = 10;
    assert_eq!(a.values()[0], 10);
    assert_eq!(a.value(0), &[10, 0]);
    assert_eq!(a.len(), 2);
}

#[test]
fn into_the_frozen_array() {
    let mut a = MutableFixedSizeBinaryArray::new(2);
    a.push(Some(&[1, 2]));
    a.push(None);
    let frozen: FixedSizeBinaryArray = a.into_array();
    assert_eq!(frozen.len(), 2);
    assert_eq!(frozen.size(), 2);
    assert_eq!(frozen.value(0), &[1, 2]);
    assert_eq!(frozen.values(), &vec![1, 2, 0, 0]);
    assert_eq!(frozen.validity().unwrap().null_count(), 1);
    assert_eq!(frozen.data_type(), &DataType::FixedSizeBinary(2));
    assert_eq!(
        FixedSizeBinaryArray::get_size(&DataType::FixedSizeBinary(9)),
        9
    );
}

#[test]
fn taken_as_box_and_as_arc() {
    let mut a = MutableFixedSizeBinaryArray::new(2);
    a.push(Some(&[1, 2]));
    a.push(None);
    let boxed = a.as_box();
    assert_eq!(boxed.len(), 2);
    assert_eq!(boxed.values(), &vec![1, 2, 0, 0]);
    assert_eq!(boxed.validity().unwrap(), &Bitmap::from_bools(&[true, false]));
    assert_eq!(boxed.data_type(), &DataType::FixedSizeBinary(2));
    assert_eq!(a.len(), 0);
    assert_eq!(a.size(), 2);
    assert!(a.validity().is_none());

    a.push(Some(&[5, 6]));
    let shared = a.as_arc();
    assert_eq!(shared.len(), 1);
    assert_eq!(shared.value(0), &[5, 6]);
    assert!(shared.validity().is_none());
    assert_eq!(a.len(), 0);
    assert!(a.values().is_empty());
}

#[test]
fn frozen_from_the_growable_array() {
    let mut a = MutableFixedSizeBinaryArray::new(3);
    a.push(Some(&[1, 2, 3]));
    a.push(None);
    a.push(Some(&[7, 8, 9]));
    a.push_null();
    assert_eq!(a.len(), 4);
    assert!(!a.is_valid(3));
    assert_eq!(a.pop(), None);
    let frozen = FixedSizeBinaryArray::from(a);
    assert_eq!(frozen.len(), 3);
    assert_eq!(frozen.size(), 3);
    assert_eq!(frozen.values(), &vec![1, 2, 3, 0, 0, 0, 7, 8, 9]);
    assert_eq!(
        frozen.validity().unwrap(),
        &Bitmap::from_bools(&[true, false, true])
    );
    assert_eq!(frozen.data_type(), &DataType::FixedSizeBinary(3));

    let mut b = MutableFixedSizeBinaryArray::new(1);
    b.push(Some(&[5]));
    let other: FixedSizeBinaryArray = b.into();
    assert_eq!(other.value(0), &[5]);
    assert!(other.validity().is_none());
}
