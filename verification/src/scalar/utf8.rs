//! Scalars of text.
use vstd::prelude::*;
use vstd::utf8::encode_utf8;

use super::Scalar;
use crate::array::Utf8Array;
use crate::datatypes::{DataType, DataTypeView};
use crate::types::Offset;

verus! {

/// A text that may be null. `O` tells whether it belongs to the large
/// kind.
#[derive(Debug)]
pub struct Utf8Scalar<O: Offset> {
    value: String,
    is_valid: bool,
    phantom: std::marker::PhantomData<O>,
}

impl<O: Offset> View for Utf8Scalar<O> {
    type V = Option<Seq<char>>;

    closed spec fn view(&self) -> Option<Seq<char>> {
        if self.is_valid {
            Some(self.value@)
        } else {
            None
        }
    }
}

impl<O: Offset> Utf8Scalar<O> {
    /// The text that the scalar holds; empty where it is null.
    pub closed spec fn held(&self) -> Seq<char> {
        self.value@
    }

    /// Creates a scalar of `v`; `None` makes it null. The length of `v` in
    /// bytes must fit the offsets.
    pub fn new(v: Option<&str>) -> (scalar: Self)
        requires
            v matches Some(text) ==> encode_utf8(text@).len() <= O::limit(),
        ensures
            scalar@ == (match v {
                Some(text) => Some(text@),
                None => None,
            }),
            v is None ==> scalar.held().len() == 0,
    {
        let is_valid = v.is_some();
        let value = match v {
            Some(text) => text.to_string(),
            None => String::new(),
        };
        Self { value, is_valid, phantom: std::marker::PhantomData }
    }

    /// The text of the scalar; empty where it is null.
    pub fn value(&self) -> (value: &str)
        ensures
            value@ == self.held(),
            self@ matches Some(text) ==> value@ == text,
    {
        self.value.as_str()
    }

    /// An array of `length` slots that all hold the scalar: valid slots of
    /// its text, or null slots where it is null.
    pub fn to_boxed_array(&self, length: usize) -> (array: Box<Utf8Array<O>>)
        requires
            length < usize::MAX,
            self@ matches Some(text) ==> length * encode_utf8(text).len() <= O::limit() && length
                * encode_utf8(text).len() <= usize::MAX,
        ensures
            array@.len() == length,
            forall|i: int| 0 <= i < length ==> #[trigger] array@.text(i) == self@,
    {
        if self.is_valid {
            let array = Utf8Array::<O>::repeat(self.value.as_str(), length);
            proof {
                vstd::utf8::encode_utf8_decode_utf8(self.value@);
            }
            Box::new(array)
        } else {
            Box::new(Utf8Array::<O>::new_null(length))
        }
    }
}

impl<O: Offset> Scalar for Utf8Scalar<O> {
    open spec fn valid(&self) -> bool {
        self@ is Some
    }

    open spec fn logical_type(&self) -> DataTypeView {
        Utf8Array::<O>::default_type()
    }

    fn is_valid(&self) -> (b: bool) {
        self.is_valid
    }

    fn data_type(&self) -> (data_type: DataType) {
        Utf8Array::<O>::default_data_type()
    }
}

} // verus!
