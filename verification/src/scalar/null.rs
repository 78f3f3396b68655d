//! The scalar of the null type.
use vstd::prelude::*;

use super::Scalar;
use crate::array::NullArray;
use crate::datatypes::{DataType, DataTypeView};

verus! {

/// The scalar that is always null.
#[derive(Debug, PartialEq, Eq)]
pub struct NullScalar {}

impl NullScalar {
    /// Creates the null scalar.
    pub fn new() -> (scalar: Self) {
        Self {  }
    }

    /// An array of `length` nulls.
    pub fn to_boxed_array(&self, length: usize) -> (array: Box<NullArray>)
        ensures
            array@ == length,
    {
        Box::new(NullArray::from_data(length))
    }
}

impl Default for NullScalar {
    fn default() -> (scalar: Self) {
        Self::new()
    }
}

impl Scalar for NullScalar {
    open spec fn valid(&self) -> bool {
        false
    }

    open spec fn logical_type(&self) -> DataTypeView {
        DataTypeView::Null
    }

    fn is_valid(&self) -> (b: bool) {
        false
    }

    fn data_type(&self) -> (data_type: DataType) {
        DataType::Null
    }
}

} // verus!
