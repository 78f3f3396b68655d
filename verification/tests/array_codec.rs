use arrow2::datatypes::{DataType, Field, IntegerType};
use arrow2::error::ArrowError;
use arrow2::ffi::{
    buffers_of, children_of, export_array_to_c, import_array_from_c, is_conforming, is_live,
    ArrayData, ArrowArray, Buffer,
};

fn int32_array() -> ArrayData {
    ArrayData {
        data_type: DataType::Int32,
        length: 3,
        null_count: 1,
        offset: 0,
        validity: Some(Buffer::from_vec(vec![0b101])),
        buffers: vec![Buffer::from_vec(vec![1, 0, 0, 0, 0, 0, 0, 0, 3, 0, 0, 0])],
        children: vec![],
        dictionary: None,
    }
}

fn list_array() -> ArrayData {
    ArrayData {
        data_type: DataType::List(Box::new(Field::new("item", DataType::Int32, true))),
        length: 2,
        null_count: 0,
        offset: 0,
        validity: None,
        buffers: vec![Buffer::from_vec(vec![0, 0, 0, 0, 1, 0, 0, 0, 3, 0, 0, 0])],
        children: vec![int32_array()],
        dictionary: None,
    }
}

fn same(a: &ArrayData, b: &ArrayData) -> bool {
    a.data_type == b.data_type
        && a.length == b.length
        && a.null_count == b.null_count
        && a.offset == b.offset
        && a.validity.as_ref().map(|v| v.as_slice().to_vec())
            == b.validity.as_ref().map(|v| v.as_slice().to_vec())
        && a.buffers.len() == b.buffers.len()
        && a.buffers
            .iter()
            .zip(b.buffers.iter())
            .all(|(x, y)| x.as_slice() == y.as_slice())
        && a.children.len() == b.children.len()
        && a.children.iter().zip(b.children.iter()).all(|(x, y)| same(x, y))
        && match (&a.dictionary, &b.dictionary) {
            (Some(x), Some(y)) => same(x, y),
            (None, None) => true,
            _ => false,
        }
}

#[test]
fn layout_of_types() {
    let item = Field::new("item", DataType::Int32, true);
    assert_eq!(buffers_of(&DataType::Null), 0);
    assert_eq!(buffers_of(&DataType::Int32), 2);
    assert_eq!(buffers_of(&DataType::Boolean), 2);
    assert_eq!(buffers_of(&DataType::Utf8), 3);
    assert_eq!(buffers_of(&DataType::LargeBinary), 3);
    assert_eq!(buffers_of(&DataType::FixedSizeBinary(3)), 2);
    assert_eq!(buffers_of(&DataType::List(Box::new(item.clone()))), 2);
    assert_eq!(buffers_of(&DataType::FixedSizeList(Box::new(item.clone()), 2)), 1);
    assert_eq!(buffers_of(&DataType::Struct(vec![item.clone()])), 1);
    assert_eq!(
        buffers_of(&DataType::Extension(
            "e".to_string(),
            Box::new(DataType::Utf8),
            None
        )),
        3
    );
    assert_eq!(children_of(&DataType::Int32), 0);
    assert_eq!(children_of(&DataType::List(Box::new(item.clone()))), 1);
    assert_eq!(
        children_of(&DataType::Struct(vec![item.clone(), item.clone()])),
        2
    );
    assert_eq!(
        children_of(&DataType::Extension(
            "e".to_string(),
            Box::new(DataType::Struct(vec![item.clone(), item])),
            None
        )),
        2
    );
}

#[test]
fn primitive_array_round_trip() {
    let array = int32_array();
    assert!(is_conforming(&array));
    let node = ArrowArray::new(&array);
    assert!(is_live(&node));
    assert_eq!(node.length(), 3);
    assert_eq!(node.null_count(), 1);
    assert_eq!(node.offset(), 0);
    assert_eq!(node.n_buffers(), 2);
    assert_eq!(node.n_children(), 0);
    assert_eq!(node.buffer(0).unwrap().as_slice(), &[0b101]);
    assert_eq!(node.buffer(1).unwrap().len(), 12);
    assert!(node.dictionary().is_none());
    let back = import_array_from_c(&node, DataType::Int32).unwrap();
    assert!(same(&back, &array));
}

#[test]
fn nested_array_round_trip() {
    let array = list_array();
    assert!(is_conforming(&array));
    let node = ArrowArray::new(&array);
    assert_eq!(node.n_buffers(), 2);
    assert!(node.buffer(0).is_none());
    assert_eq!(node.n_children(), 1);
    assert_eq!(node.child(0).length(), 3);
    let back = import_array_from_c(&node, array.data_type.clone()).unwrap();
    assert!(same(&back, &array));
}

#[test]
fn dictionary_array_round_trip() {
    let array = ArrayData {
        data_type: DataType::Dictionary(IntegerType::Int32, Box::new(DataType::Int32), false),
        length: 1,
        null_count: 0,
        offset: 0,
        validity: None,
        buffers: vec![Buffer::from_vec(vec![2, 0, 0, 0])],
        children: vec![],
        dictionary: Some(Box::new(int32_array())),
    };
    assert!(is_conforming(&array));
    let mut slot = ArrowArray::empty();
    export_array_to_c(&array, &mut slot);
    assert_eq!(slot.dictionary().unwrap().length(), 3);
    let back = import_array_from_c(&slot, array.data_type.clone()).unwrap();
    assert!(same(&back, &array));
}

#[test]
fn buffers_are_shared_not_copied() {
    let array = int32_array();
    let node = ArrowArray::new(&array);
    let values = array.buffers[0].as_slice().as_ptr();
    assert_eq!(node.buffer(1).unwrap().as_slice().as_ptr(), values);
    let back = import_array_from_c(&node, DataType::Int32).unwrap();
    assert_eq!(back.buffers[0].as_slice().as_ptr(), values);
    // the bytes outlive the array and the node that shared them
    drop(array);
    drop(node);
    assert_eq!(back.buffers[0].as_slice(), &[1, 0, 0, 0, 0, 0, 0, 0, 3, 0, 0, 0]);
    let other = back.buffers[0].share();
    assert_eq!(other.as_slice().as_ptr(), values);
}

#[test]
fn arrays_against_their_type_do_not_conform() {
    let mut array = int32_array();
    array.buffers.push(Buffer::from_vec(vec![]));
    assert!(!is_conforming(&array));
    let mut array = int32_array();
    array.validity = None;
    assert!(!is_conforming(&array));
    array.null_count = 0;
    assert!(is_conforming(&array));
    let mut array = list_array();
    array.children[0].data_type = DataType::Int64;
    assert!(!is_conforming(&array));
    let mut array = list_array();
    array.children.clear();
    assert!(!is_conforming(&array));
    let mut array = int32_array();
    array.dictionary = Some(Box::new(int32_array()));
    assert!(!is_conforming(&array));
    let null = ArrayData {
        data_type: DataType::Null,
        length: 5,
        null_count: 0,
        offset: 0,
        validity: None,
        buffers: vec![],
        children: vec![],
        dictionary: None,
    };
    assert!(is_conforming(&null));
    assert_eq!(ArrowArray::new(&null).n_buffers(), 0);
}

#[test]
fn wrong_counts_are_invalid_arguments() {
    let node = ArrowArray::new(&int32_array());
    assert!(matches!(
        import_array_from_c(&node, DataType::Utf8),
        Err(ArrowError::InvalidArgumentError(_))
    ));
    assert!(matches!(
        import_array_from_c(&node, DataType::Null),
        Err(ArrowError::InvalidArgumentError(_))
    ));
    let list = DataType::List(Box::new(Field::new("item", DataType::Int32, true)));
    assert!(matches!(
        import_array_from_c(&node, list.clone()),
        Err(ArrowError::InvalidArgumentError(_))
    ));
    let node = ArrowArray::new(&list_array());
    assert!(matches!(
        import_array_from_c(&node, DataType::Int32),
        Err(ArrowError::InvalidArgumentError(_))
    ));
    // the child has not the buffers of a text
    let texts = DataType::List(Box::new(Field::new("item", DataType::Utf8, true)));
    assert!(matches!(
        import_array_from_c(&node, texts),
        Err(ArrowError::InvalidArgumentError(_))
    ));
}

#[test]
fn absent_buffers_are_out_of_spec() {
    let node = ArrowArray::from_parts(
        3,
        1,
        0,
        vec![None, Some(Buffer::from_vec(vec![0; 12]))],
        vec![],
        None,
        true,
    );
    assert!(matches!(
        import_array_from_c(&node, DataType::Int32),
        Err(ArrowError::OutOfSpec(_))
    ));
    let node = ArrowArray::from_parts(
        3,
        0,
        0,
        vec![None, Some(Buffer::from_vec(vec![0; 12]))],
        vec![],
        None,
        true,
    );
    assert!(import_array_from_c(&node, DataType::Int32).is_ok());
    let node = ArrowArray::from_parts(
        3,
        0,
        0,
        vec![Some(Buffer::from_vec(vec![7])), None],
        vec![],
        None,
        true,
    );
    assert!(matches!(
        import_array_from_c(&node, DataType::Int32),
        Err(ArrowError::OutOfSpec(_))
    ));
    let node = ArrowArray::from_parts(
        -1,
        0,
        0,
        vec![None, Some(Buffer::from_vec(vec![]))],
        vec![],
        None,
        true,
    );
    assert!(matches!(
        import_array_from_c(&node, DataType::Int32),
        Err(ArrowError::OutOfSpec(_))
    ));
    // a dictionary against the type
    let node = ArrowArray::from_parts(
        0,
        0,
        0,
        vec![None, Some(Buffer::from_vec(vec![]))],
        vec![],
        Some(ArrowArray::new(&int32_array())),
        true,
    );
    assert!(matches!(
        import_array_from_c(&node, DataType::Int32),
        Err(ArrowError::OutOfSpec(_))
    ));
}

#[test]
fn array_release_is_idempotent() {
    let array = list_array();
    let mut node = ArrowArray::new(&array);
    assert!(!node.is_released());
    node.release();
    assert!(node.is_released());
    assert!(!is_live(&node));
    assert_eq!(node.length(), 2);
    node.release();
    assert!(node.is_released());
    // the array still has its bytes
    assert_eq!(array.children[0].buffers[0].len(), 12);

    let mut empty = ArrowArray::empty();
    assert!(empty.is_released());
    assert_eq!(empty.n_buffers(), 0);
    empty.release();
    assert!(empty.is_released());
}
