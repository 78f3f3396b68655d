//! Arrays of nulls.
use vstd::prelude::*;

use crate::datatypes::DataType;

verus! {

/// An array in which every slot is null.
#[derive(Debug, PartialEq, Eq)]
pub struct NullArray {
    length: usize,
}

impl View for NullArray {
    type V = nat;

    closed spec fn view(&self) -> nat {
        self.length as nat
    }
}

impl NullArray {
    /// Creates an array of `length` nulls.
    pub fn from_data(length: usize) -> (array: Self)
        ensures
            array@ == length,
    {
        NullArray { length }
    }

    /// The nulls of `self` and then those of `other`. `None` where they
    /// are more than a `usize` can count.
    pub fn append(&self, other: &Self) -> (all: Option<Self>)
        ensures
            match all {
                Some(all) => all@ == self@ + other@,
                None => self@ + other@ > usize::MAX,
            },
    {
        if other.length > usize::MAX - self.length {
            None
        } else {
            Some(NullArray { length: self.length + other.length })
        }
    }

    /// An array of `length` nulls.
    pub fn slice(&self, offset: usize, length: usize) -> (part: Self)
        requires
            offset + length <= self@,
        ensures
            part@ == length,
    {
        NullArray { length }
    }

    /// The number of slots.
    pub fn len(&self) -> (n: usize)
        ensures
            n == self@,
    {
        self.length
    }

    /// The logical type of the array.
    pub fn data_type(&self) -> (data_type: DataType)
        ensures
            data_type@ == crate::datatypes::DataTypeView::Null,
    {
        DataType::Null
    }
}

} // verus!
