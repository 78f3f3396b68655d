//! Scalars of fixed-width values.
use vstd::prelude::*;

use super::Scalar;
use crate::datatypes::{DataType, DataTypeView};
use crate::types::NativeType;

verus! {

/// A fixed-width value with a logical type, which may be null.
#[derive(Debug)]
pub struct PrimitiveScalar<T: NativeType> {
    value: T,
    is_valid: bool,
    data_type: DataType,
}

impl<T: NativeType> View for PrimitiveScalar<T> {
    type V = Option<T>;

    closed spec fn view(&self) -> Option<T> {
        if self.is_valid {
            Some(self.value)
        } else {
            None
        }
    }
}

impl<T: NativeType> PrimitiveScalar<T> {
    /// The logical type that the scalar was made with.
    pub closed spec fn made_type(&self) -> DataTypeView {
        self.data_type@
    }

    /// Creates a scalar of `v` with the logical type `data_type`; `None`
    /// makes it null.
    pub fn new(data_type: DataType, v: Option<T>) -> (scalar: Self)
        ensures
            scalar@ == v,
            scalar.made_type() == data_type@,
            v is None ==> scalar.held() == T::zero(),
    {
        let is_valid = v.is_some();
        Self {
            value: match v {
                Some(v) => v,
                None => T::default_value(),
            },
            is_valid,
            data_type,
        }
    }

    /// The value that the scalar holds; the default value where it is
    /// null.
    pub closed spec fn held(&self) -> T {
        self.value
    }

    /// The value of the scalar; the default value where it is null.
    pub fn value(&self) -> (value: T)
        ensures
            value == self.held(),
            self@ matches Some(v) ==> value == v,
    {
        self.value
    }
}

impl<T: NativeType> Scalar for PrimitiveScalar<T> {
    open spec fn valid(&self) -> bool {
        self@ is Some
    }

    open spec fn logical_type(&self) -> DataTypeView {
        self.made_type()
    }

    fn is_valid(&self) -> (b: bool) {
        self.is_valid
    }

    fn data_type(&self) -> (data_type: DataType) {
        self.data_type.clone()
    }
}

} // verus!
