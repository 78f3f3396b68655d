//! The stream of arrays: a sequence of arrays of one type, pulled one by
//! one through four operations.
use vstd::prelude::*;

use super::array::{
    conforms, empty_array, export_array, ArrayData, ArrayDataView, ArrayNodeView, ArrowArray,
};
use super::schema::{export, exportable, ArrowSchema};
use crate::datatypes::{Field, FieldView};
use crate::error::ArrowError;

verus! {

/// The status of an operation that succeeded.
pub const STATUS_OK: i32 = 0;

/// The status of an operation that failed; the stream keeps the message.
pub const STATUS_ERROR: i32 = 2001;

/// Where a stream stands.
#[derive(Debug, Clone, Copy, PartialEq, Eq, Structural)]
pub enum StreamState {
    /// Arrays can be pulled.
    Open,
    /// The last pull failed; the message waits to be read.
    ErrorPending,
    /// The sequence is exhausted.
    Ended,
    /// The stream was released.
    Released,
}

/// What pulling the sequence gave, as a mathematical value.
pub enum Pulled {
    /// An array.
    Item(ArrayDataView),
    /// A failure with its message.
    Failed(Seq<char>),
    /// The end of the sequence.
    Exhausted,
}

/// The view of what pulling the sequence gave.
pub open spec fn pulled_view(pulled: Option<Result<ArrayData, ArrowError>>) -> Pulled {
    match pulled {
        Some(Ok(array)) => Pulled::Item(array@),
        Some(Err(e)) => Pulled::Failed(e.text()),
        None => Pulled::Exhausted,
    }
}

/// Whether a pull counts as an array: it gave one, and the array is laid
/// out as its type asks.
pub open spec fn gives_array(pulled: Pulled) -> bool {
    pulled matches Pulled::Item(array) && conforms(array)
}

/// The state after a pull.
pub open spec fn state_after(pulled: Pulled) -> StreamState {
    if gives_array(pulled) {
        StreamState::Open
    } else if pulled is Exhausted {
        StreamState::Ended
    } else {
        StreamState::ErrorPending
    }
}

/// The status of a pull.
pub open spec fn status_of(pulled: Pulled) -> i32 {
    if gives_array(pulled) || pulled is Exhausted {
        STATUS_OK
    } else {
        STATUS_ERROR
    }
}

/// What a pull writes into the slot of the caller: the node of the array,
/// the empty node at the end, nothing on a failure.
pub open spec fn written(pulled: Pulled) -> Option<ArrayNodeView> {
    match pulled {
        Pulled::Item(array) => if conforms(array) {
            Some(export_array(array))
        } else {
            None
        },
        Pulled::Exhausted => Some(empty_array()),
        Pulled::Failed(_) => None,
    }
}

/// A sequence of arrays that is pulled one by one. `None` is its end.
pub trait ArraySource {
    /// Pulls the next array.
    fn next_array(&mut self) -> Option<Result<ArrayData, ArrowError>>;
}

/// The context of a stream: the field that tells the type of the arrays,
/// the state, and the message of the last failure.
#[derive(Debug)]
pub struct ArrowArrayStream {
    field: Field,
    state: StreamState,
    error: Option<String>,
}

/// The mathematical value of a stream.
pub struct StreamView {
    pub field: FieldView,
    pub state: StreamState,
    pub error: Option<Seq<char>>,
}

impl View for ArrowArrayStream {
    type V = StreamView;

    closed spec fn view(&self) -> StreamView {
        StreamView {
            field: self.field@,
            state: self.state,
            error: crate::datatypes::opt_text(self.error),
        }
    }
}

impl ArrowArrayStream {
    /// Opens a stream of arrays of the type of `field`.
    pub fn new(field: Field) -> (stream: Self)
        ensures
            stream@ == (StreamView { field: field@, state: StreamState::Open, error: None }),
    {
        ArrowArrayStream { field, state: StreamState::Open, error: None }
    }

    /// Where the stream stands.
    pub fn state(&self) -> (state: StreamState)
        ensures
            state == self@.state,
    {
        self.state
    }

    /// Writes the node of the stream's field into `out`. The stream stays
    /// as it is, and the operation can be repeated.
    pub fn get_schema(&self, out: &mut ArrowSchema) -> (status: i32)
        requires
            self@.state != StreamState::Released,
            exportable(self@.field),
        ensures
            status == STATUS_OK,
            final(out)@ == export(self@.field, true) || final(out)@ == export(self@.field, false),
    {
        *out = ArrowSchema::new(&self.field);
        STATUS_OK
    }

    /// Takes what pulling the sequence gave. An array is exported into
    /// `out`, and the stream stays open. At the end of the sequence the
    /// empty node is written, and the stream has ended. A failure, or an
    /// array that is not laid out as its type asks, leaves `out` as it is;
    /// the stream keeps the message, and the status is not zero.
    pub fn advance(&mut self, pulled: Option<Result<ArrayData, ArrowError>>, out: &mut ArrowArray) -> (status:
        i32)
        requires
            old(self)@.state == StreamState::Open || old(self)@.state == StreamState::Ended,
        ensures
            status == status_of(pulled_view(pulled)),
            final(self)@.state == state_after(pulled_view(pulled)),
            final(self)@.field == old(self)@.field,
            final(out)@ == (match written(pulled_view(pulled)) {
                Some(node) => node,
                None => old(out)@,
            }),
            status == STATUS_OK ==> final(self)@.error == old(self)@.error,
            status != STATUS_OK ==> final(self)@.error is Some,
            pulled matches Some(Err(e)) ==> final(self)@.error == Some(e.text()),
    {
        match pulled {
            Some(Ok(array)) => {
                if is_conforming(&array) {
                    *out = ArrowArray::new(&array);
                    self.state = StreamState::Open;
                    STATUS_OK
                } else {
                    self.error = Some("The array is not laid out as its type asks".to_string());
                    self.state = StreamState::ErrorPending;
                    STATUS_ERROR
                }
            },
            Some(Err(e)) => {
                self.error = Some(e.message());
                self.state = StreamState::ErrorPending;
                STATUS_ERROR
            },
            None => {
                *out = ArrowArray::empty();
                self.state = StreamState::Ended;
                STATUS_OK
            },
        }
    }

    /// Pulls `source` once and takes what it gave, whatever it is.
    pub fn get_next<S: ArraySource>(&mut self, source: &mut S, out: &mut ArrowArray) -> (status:
        i32)
        requires
            old(self)@.state == StreamState::Open || old(self)@.state == StreamState::Ended,
        ensures
            status == STATUS_OK || status == STATUS_ERROR,
            status == STATUS_OK ==> (final(self)@.state == StreamState::Open && final(out)@.release)
                || (final(self)@.state == StreamState::Ended && final(out)@ == empty_array()),
            status == STATUS_ERROR ==> final(self)@.state == StreamState::ErrorPending,
            status == STATUS_ERROR ==> final(self)@.error is Some,
            status == STATUS_ERROR ==> final(out)@ == old(out)@,
            final(self)@.field == old(self)@.field,
    {
        let pulled = source.next_array();
        self.advance(pulled, out)
    }

    /// The message of the last failure, if there was one.
    pub fn get_last_error(&self) -> (message: Option<&str>)
        ensures
            self@.error == (match message {
                Some(m) => Some(m@),
                None => None,
            }),
    {
        match &self.error {
            Some(m) => Some(m.as_str()),
            None => None,
        }
    }

    /// Releases the stream, whatever its state. A released stream stays
    /// released.
    pub fn release(&mut self)
        ensures
            final(self)@.state == StreamState::Released,
            final(self)@.field == old(self)@.field,
            final(self)@.error == old(self)@.error,
            old(self)@.state == StreamState::Released ==> final(self)@ == old(self)@,
    {
        self.state = StreamState::Released;
    }
}

/// Whether `array` is laid out as its type asks.
pub fn is_conforming(array: &ArrayData) -> (b: bool)
    ensures
        b == conforms(array@),
    decreases array,
{
    super::array::check_conforms(array)
}

/// The pulls of a sequence that yields `arrays` and then ends.
pub open spec fn pulls_of(arrays: Seq<ArrayDataView>) -> Seq<Pulled> {
    Seq::new(
        arrays.len() + 1,
        |i: int|
            if i < arrays.len() {
                Pulled::Item(arrays[i])
            } else {
                Pulled::Exhausted
            },
    )
}

/// A sequence that yields `n` arrays gives `n` successful pulls, each of
/// which writes the live node of its array and leaves the stream open, and
/// then one successful pull that writes the empty node, which marks the
/// end, and ends the stream. No pull before the last writes the empty
/// node.
pub proof fn lemma_stream_of_arrays(arrays: Seq<ArrayDataView>)
    requires
        forall|i: int| 0 <= i < arrays.len() ==> conforms(#[trigger] arrays[i]),
    ensures
        pulls_of(arrays).len() == arrays.len() + 1,
        forall|i: int|
            0 <= i < arrays.len() ==> status_of(#[trigger] pulls_of(arrays)[i]) == STATUS_OK
                && state_after(pulls_of(arrays)[i]) == StreamState::Open && written(
                pulls_of(arrays)[i],
            ) == Some(export_array(arrays[i])) && export_array(arrays[i]).release,
        status_of(pulls_of(arrays).last()) == STATUS_OK,
        state_after(pulls_of(arrays).last()) == StreamState::Ended,
        written(pulls_of(arrays).last()) == Some(empty_array()),
        !empty_array().release,
{
    assert forall|i: int| 0 <= i < arrays.len() implies status_of(#[trigger] pulls_of(arrays)[i])
        == STATUS_OK && state_after(pulls_of(arrays)[i]) == StreamState::Open && written(
        pulls_of(arrays)[i],
    ) == Some(export_array(arrays[i])) && export_array(arrays[i]).release by {
        assert(conforms(arrays[i]));
    }
}

/// What the reader of a stream does with what a pull gave.
#[derive(Debug, Clone, Copy, PartialEq, Eq, Structural)]
pub enum ReadStep {
    /// The pull failed: the reader hands on the failure.
    Fail,
    /// The node is the empty one: the stream has ended.
    End,
    /// The node is live: the reader reads it as an array.
    Read,
}

/// What the reader does after a pull with this status that left a node
/// whose release callback is cleared or not: a status that is not zero is a
/// failure, whatever the node is; after a success a released node marks
/// the end.
pub open spec fn step_after(status: i32, released: bool) -> ReadStep {
    if status != STATUS_OK {
        ReadStep::Fail
    } else if released {
        ReadStep::End
    } else {
        ReadStep::Read
    }
}

/// Decides what the reader does after a pull.
pub fn next_step(status: i32, released: bool) -> (step: ReadStep)
    ensures
        step == step_after(status, released),
{
    if status != STATUS_OK {
        ReadStep::Fail
    } else if released {
        ReadStep::End
    } else {
        ReadStep::Read
    }
}

/// The text of the failure of a pull: the message that the stream kept,
/// or, where it kept none, the status.
pub open spec fn failure_text(message: Option<Seq<char>>, status: i32) -> Seq<char> {
    match message {
        Some(m) => m,
        None => "The C stream failed with status "@ + crate::text::decimal_int(status as int),
    }
}

/// The failure that the reader hands on after a pull that failed.
pub fn failure(message: Option<String>, status: i32) -> (e: ArrowError)
    ensures
        e is ExternalFormat,
        e.text() == failure_text(crate::datatypes::opt_text(message), status),
{
    match message {
        Some(m) => ArrowError::ExternalFormat(m),
        None => {
            let mut text = "The C stream failed with status ".to_string();
            crate::text::push_decimal_i32(&mut text, status);
            ArrowError::ExternalFormat(text)
        },
    }
}

/// Whether a stream can be read: it is not released and has the call
/// points for its schema and its arrays. A released stream is a wrong
/// argument; a missing call point is out of specification.
pub fn check_readable(released: bool, has_get_schema: bool, has_get_next: bool) -> (r: Result<
    (),
    ArrowError,
>)
    ensures
        match r {
            Ok(()) => !released && has_get_schema && has_get_next,
            Err(e) => if released {
                e is InvalidArgumentError
            } else {
                e is OutOfSpec && !(has_get_schema && has_get_next)
            },
        },
{
    if released {
        Err(ArrowError::InvalidArgumentError("The C stream was already released".to_string()))
    } else if !has_get_next {
        Err(ArrowError::OutOfSpec("The C stream MUST contain a non-null get_next".to_string()))
    } else if !has_get_schema {
        Err(ArrowError::OutOfSpec("The C stream MUST contain a non-null get_schema".to_string()))
    } else {
        Ok(())
    }
}

/// The reader of a sequence that yields `n` arrays reads `n` arrays and
/// then sees the end.
pub proof fn lemma_reader_of_arrays(arrays: Seq<ArrayDataView>)
    requires
        forall|i: int| 0 <= i < arrays.len() ==> conforms(#[trigger] arrays[i]),
    ensures
        forall|i: int|
            0 <= i < arrays.len() ==> step_after(
                status_of(#[trigger] pulls_of(arrays)[i]),
                !written(pulls_of(arrays)[i])->0.release,
            ) == ReadStep::Read,
        step_after(
            status_of(pulls_of(arrays).last()),
            !written(pulls_of(arrays).last())->0.release,
        ) == ReadStep::End,
{
    lemma_stream_of_arrays(arrays);
}

} // verus!
