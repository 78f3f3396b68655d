//! The scalar of the boolean type.
use vstd::prelude::*;

use super::Scalar;
use crate::array::BooleanArray;
use crate::bitmap::{Bitmap, MutableBitmap};
use crate::datatypes::{DataType, DataTypeView};

verus! {

/// A boolean that may be null.
#[derive(Debug, PartialEq, Eq)]
pub struct BooleanScalar {
    value: bool,
    is_valid: bool,
}

impl View for BooleanScalar {
    type V = Option<bool>;

    closed spec fn view(&self) -> Option<bool> {
        if self.is_valid {
            Some(self.value)
        } else {
            None
        }
    }
}

impl BooleanScalar {
    /// The value that the scalar holds; `false` where it is null.
    pub closed spec fn held(&self) -> bool {
        self.value
    }

    /// Creates a scalar of `v`; `None` makes it null.
    pub fn new(v: Option<bool>) -> (scalar: Self)
        ensures
            scalar@ == v,
            v is None ==> !scalar.held(),
    {
        let is_valid = v.is_some();
        Self {
            value: match v {
                Some(v) => v,
                None => false,
            },
            is_valid,
        }
    }

    /// The value of the scalar; `false` where it is null.
    pub fn value(&self) -> (value: bool)
        ensures
            value == self.held(),
            self@ matches Some(v) ==> value == v,
    {
        self.value
    }

    /// An array of `length` slots that all hold the scalar: valid slots of
    /// its value, or null slots where it is null.
    pub fn to_boxed_array(&self, length: usize) -> (array: Box<BooleanArray>)
        ensures
            array@.len() == length,
            array.logical_type() == DataTypeView::Boolean,
            forall|i: int| 0 <= i < length ==> array@.item(i) == self@,
    {
        if self.is_valid {
            let mut values = MutableBitmap::new();
            values.extend_constant(length, self.value);
            let array = BooleanArray::from_data(Bitmap::from_mutable(values), None);
            proof {
                assert(Seq::<bool>::empty() + Seq::new(length as nat, |i: int| self.value)
                    =~= Seq::new(length as nat, |i: int| self.value));
            }
            Box::new(array)
        } else {
            Box::new(BooleanArray::new_null(length))
        }
    }
}

impl Scalar for BooleanScalar {
    open spec fn valid(&self) -> bool {
        self@ is Some
    }

    open spec fn logical_type(&self) -> DataTypeView {
        DataTypeView::Boolean
    }

    fn is_valid(&self) -> (b: bool) {
        self.is_valid
    }

    fn data_type(&self) -> (data_type: DataType) {
        DataType::Boolean
    }
}

} // verus!
