use arrow2::datatypes::{DataType, Field};
use arrow2::error::ArrowError;
use arrow2::ffi::{
    check_readable, failure, next_step, to_field, ArrayData, ArraySource, ArrowArray,
    ArrowArrayStream, ArrowSchema, Buffer, ReadStep, StreamState, STATUS_ERROR, STATUS_OK,
};

struct Source {
    items: Vec<Result<ArrayData, ArrowError>>,
}

impl ArraySource for Source {
    fn next_array(&mut self) -> Option<Result<ArrayData, ArrowError>> {
        if self.items.is_empty() {
            None
        } else {
            Some(self.items.remove(0))
        }
    }
}

fn array(value: u8) -> ArrayData {
    ArrayData {
        data_type: DataType::UInt8,
        length: 1,
        null_count: 0,
        offset: 0,
        validity: None,
        buffers: vec![Buffer::from_vec(vec![value])],
        children: vec![],
        dictionary: None,
    }
}

#[test]
fn stream_of_arrays_then_end() {
    let n = 5u8;
    let mut source = Source {
        items: (0..n).map(|i| Ok(array(i))).collect(),
    };
    let mut stream = ArrowArrayStream::new(Field::new("a", DataType::UInt8, false));
    assert_eq!(stream.state(), StreamState::Open);
    let mut slot = ArrowArray::empty();
    for i in 0..n {
        assert_eq!(stream.get_next(&mut source, &mut slot), STATUS_OK);
        assert_eq!(stream.state(), StreamState::Open);
        assert!(!slot.is_released());
        assert_eq!(slot.buffer(1).unwrap().as_slice(), &[i]);
    }
    assert_eq!(stream.get_next(&mut source, &mut slot), STATUS_OK);
    assert!(slot.is_released());
    assert_eq!(stream.state(), StreamState::Ended);
    assert_eq!(stream.get_last_error(), None);
    // the end stays the end
    assert_eq!(stream.get_next(&mut source, &mut slot), STATUS_OK);
    assert!(slot.is_released());
    assert_eq!(stream.state(), StreamState::Ended);
    stream.release();
    assert_eq!(stream.state(), StreamState::Released);
    stream.release();
    assert_eq!(stream.state(), StreamState::Released);
}

#[test]
fn empty_stream_ends_at_once() {
    let mut source = Source { items: vec![] };
    let mut stream = ArrowArrayStream::new(Field::new("a", DataType::UInt8, false));
    let mut slot = ArrowArray::new(&array(9));
    assert_eq!(stream.get_next(&mut source, &mut slot), 0);
    assert!(slot.is_released());
    assert_eq!(stream.state(), StreamState::Ended);
}

#[test]
fn failure_is_kept_for_later() {
    let mut source = Source {
        items: vec![
            Ok(array(1)),
            Err(ArrowError::ExternalFormat("broken page".to_string())),
        ],
    };
    let mut stream = ArrowArrayStream::new(Field::new("a", DataType::UInt8, false));
    let mut slot = ArrowArray::empty();
    assert_eq!(stream.get_next(&mut source, &mut slot), STATUS_OK);
    assert_eq!(stream.get_last_error(), None);
    assert_eq!(stream.get_next(&mut source, &mut slot), STATUS_ERROR);
    assert_ne!(STATUS_ERROR, 0);
    assert_eq!(stream.state(), StreamState::ErrorPending);
    assert_eq!(stream.get_last_error(), Some("broken page"));
    // the slot keeps the array of the pull before
    assert!(!slot.is_released());
    assert_eq!(slot.buffer(1).unwrap().as_slice(), &[1]);
    stream.release();
    assert_eq!(stream.state(), StreamState::Released);
    assert_eq!(stream.get_last_error(), Some("broken page"));
}

#[test]
fn arrays_against_their_type_are_failures() {
    let mut wrong = array(1);
    wrong.buffers.clear();
    let mut stream = ArrowArrayStream::new(Field::new("a", DataType::UInt8, false));
    let mut slot = ArrowArray::empty();
    assert_eq!(stream.advance(Some(Ok(wrong)), &mut slot), STATUS_ERROR);
    assert_eq!(stream.state(), StreamState::ErrorPending);
    assert!(stream.get_last_error().is_some());
    assert!(slot.is_released());
}

#[test]
fn stream_tells_its_schema() {
    let field = Field::new("a", DataType::UInt8, false);
    let stream = ArrowArrayStream::new(field.clone());
    let mut slot = ArrowSchema::empty();
    assert_eq!(stream.get_schema(&mut slot), STATUS_OK);
    assert_eq!(to_field(&slot).unwrap(), field);
    let mut again = ArrowSchema::empty();
    assert_eq!(stream.get_schema(&mut again), 0);
    assert_eq!(again.format(), "C");
    assert_eq!(stream.state(), StreamState::Open);
}

#[test]
fn reader_steps_after_a_pull() {
    assert_eq!(next_step(0, false), ReadStep::Read);
    assert_eq!(next_step(0, true), ReadStep::End);
    assert_eq!(next_step(2001, false), ReadStep::Fail);
    assert_eq!(next_step(-1, true), ReadStep::Fail);
    assert_eq!(
        failure(Some("broken".to_string()), 5),
        ArrowError::ExternalFormat("broken".to_string())
    );
    assert_eq!(
        failure(None, -7),
        ArrowError::ExternalFormat("The C stream failed with status -7".to_string())
    );
    assert_eq!(check_readable(false, true, true), Ok(()));
    assert!(matches!(
        check_readable(true, true, true),
        Err(ArrowError::InvalidArgumentError(_))
    ));
    assert!(matches!(check_readable(false, false, true), Err(ArrowError::OutOfSpec(_))));
    assert!(matches!(check_readable(false, true, false), Err(ArrowError::OutOfSpec(_))));
}
