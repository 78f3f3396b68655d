use arrow2::datatypes::DataType;
use arrow2::scalar::{
    BinaryScalar, BooleanScalar, NullScalar, PrimitiveScalar, Scalar, Utf8Scalar,
};

#[test]
fn boolean_scalars() {
    let a = BooleanScalar::new(Some(true));
    assert!(a.value());
    assert!(a.is_valid());
    assert_eq!(a.data_type(), DataType::Boolean);
    let b = BooleanScalar::new(None);
    assert!(!b.value());
    assert!(!b.is_valid());
    assert_ne!(a, b);
    assert_eq!(a, BooleanScalar::new(Some(true)));

    let array = a.to_boxed_array(3);
    assert_eq!(array.len(), 3);
    assert!(array.validity().is_none());
    assert!((0..3).all(|i| array.value(i) && array.is_valid(i)));
    let array = b.to_boxed_array(2);
    assert_eq!(array.len(), 2);
    assert!((0..2).all(|i| !array.is_valid(i)));
    assert_eq!(BooleanScalar::new(Some(false)).to_boxed_array(0).len(), 0);
}

#[test]
fn null_scalars() {
    let a = NullScalar::new();
    assert!(!a.is_valid());
    assert_eq!(a.data_type(), DataType::Null);
    assert_eq!(a, NullScalar::default());
    let array = a.to_boxed_array(4);
    assert_eq!(array.len(), 4);
    assert_eq!(array.data_type(), DataType::Null);
}

#[test]
fn binary_scalars() {
    let a = BinaryScalar::<i32>::new(Some(&[1, 2, 3]));
    assert_eq!(a.value(), &[1, 2, 3]);
    assert!(a.is_valid());
    assert_eq!(a.data_type(), DataType::Binary);
    let b = BinaryScalar::<i64>::new(None);
    assert_eq!(b.value(), &[] as &[u8]);
    assert!(!b.is_valid());
    assert_eq!(b.data_type(), DataType::LargeBinary);

    let array = a.to_boxed_array(3);
    assert_eq!(array.len(), 3);
    for i in 0..3 {
        assert!(array.is_valid(i));
        assert_eq!(array.value(i), &[1, 2, 3]);
    }
    let array = b.to_boxed_array(2);
    assert_eq!(array.len(), 2);
    assert!(!array.is_valid(0));
    assert!(!array.is_valid(1));
    assert_eq!(array.value(1), &[] as &[u8]);
    let array = BinaryScalar::<i32>::new(Some(&[])).to_boxed_array(5);
    assert_eq!(array.len(), 5);
    assert!(array.is_valid(4));
    assert_eq!(array.value(4), &[] as &[u8]);
}

#[test]
fn utf8_scalars() {
    let a = Utf8Scalar::<i32>::new(Some("añb"));
    assert_eq!(a.value(), "añb");
    assert!(a.is_valid());
    assert_eq!(a.data_type(), DataType::Utf8);
    let b = Utf8Scalar::<i64>::new(None);
    assert_eq!(b.value(), "");
    assert!(!b.is_valid());
    assert_eq!(b.data_type(), DataType::LargeUtf8);

    let array = a.to_boxed_array(2);
    assert_eq!(array.len(), 2);
    assert_eq!(array.value(0), "añb");
    assert_eq!(array.value(1), "añb");
    assert!(array.is_valid(1));
    let array = b.to_boxed_array(1);
    assert_eq!(array.len(), 1);
    assert!(!array.is_valid(0));
}

#[test]
fn primitive_scalars() {
    let a = PrimitiveScalar::<i32>::new(DataType::Date32, Some(7));
    assert_eq!(a.value(), 7);
    assert!(a.is_valid());
    assert_eq!(a.data_type(), DataType::Date32);
    let b = PrimitiveScalar::<u64>::new(DataType::UInt64, None);
    assert_eq!(b.value(), 0);
    assert!(!b.is_valid());
}
