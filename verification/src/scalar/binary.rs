//! Scalars of byte strings.
use vstd::prelude::*;

use super::Scalar;
use crate::array::BinaryArray;
use crate::datatypes::{DataType, DataTypeView};
use crate::types::Offset;

verus! {

/// A byte string that may be null. `O` tells whether it belongs to the
/// large kind.
#[derive(Debug)]
pub struct BinaryScalar<O: Offset> {
    value: Vec<u8>,
    is_valid: bool,
    phantom: std::marker::PhantomData<O>,
}

impl<O: Offset> View for BinaryScalar<O> {
    type V = Option<Seq<u8>>;

    closed spec fn view(&self) -> Option<Seq<u8>> {
        if self.is_valid {
            Some(self.value@)
        } else {
            None
        }
    }
}

impl<O: Offset> BinaryScalar<O> {
    /// The bytes that the scalar holds; none where it is null.
    pub closed spec fn held(&self) -> Seq<u8> {
        self.value@
    }

    /// What holds of every scalar that executable code can hold: its length
    /// fits the offsets, and a null holds no bytes.
    #[verifier::type_invariant]
    pub closed spec fn inv(&self) -> bool {
        self.value@.len() <= O::limit() && (!self.is_valid ==> self.value@.len() == 0)
    }

    /// Creates a scalar of `v`; `None` makes it null. The length of `v`
    /// must fit the offsets.
    pub fn new(v: Option<&[u8]>) -> (scalar: Self)
        requires
            v matches Some(bytes) ==> bytes@.len() <= O::limit(),
            0 <= O::limit(),
        ensures
            scalar@ == (match v {
                Some(bytes) => Some(bytes@),
                None => None,
            }),
            v is None ==> scalar.held().len() == 0,
    {
        let is_valid = v.is_some();
        let value = match v {
            Some(bytes) => vstd::slice::slice_to_vec(bytes),
            None => Vec::new(),
        };
        Self { value, is_valid, phantom: std::marker::PhantomData }
    }

    /// The bytes of the scalar; none where it is null.
    pub fn value(&self) -> (value: &[u8])
        ensures
            value@ == self.held(),
            self@ matches Some(bytes) ==> value@ == bytes,
    {
        self.value.as_slice()
    }

    /// An array of `length` slots that all hold the scalar: valid slots of
    /// its bytes, or null slots where it is null.
    pub fn to_boxed_array(&self, length: usize) -> (array: Box<BinaryArray<O>>)
        requires
            length < usize::MAX,
            self@ matches Some(bytes) ==> length * bytes.len() <= O::limit() && length
                * bytes.len() <= usize::MAX,
        ensures
            array@.len() == length,
            forall|i: int| 0 <= i < length ==> array@.item(i) == self@,
    {
        if self.is_valid {
            Box::new(BinaryArray::<O>::repeat(self.value.as_slice(), length))
        } else {
            Box::new(BinaryArray::<O>::new_null(length))
        }
    }
}

impl<O: Offset> Scalar for BinaryScalar<O> {
    open spec fn valid(&self) -> bool {
        self@ is Some
    }

    open spec fn logical_type(&self) -> DataTypeView {
        BinaryArray::<O>::default_type()
    }

    fn is_valid(&self) -> (b: bool) {
        self.is_valid
    }

    fn data_type(&self) -> (data_type: DataType) {
        BinaryArray::<O>::default_data_type()
    }
}

} // verus!
