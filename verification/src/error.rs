//! The error type shared by the whole crate.
use vstd::prelude::*;

verus! {

/// What can go wrong in an operation of this crate.
#[derive(Debug, PartialEq, Eq)]
pub enum ArrowError {
    /// The operation is valid but not implemented.
    NotYetImplemented(String),
    /// An argument does not fit the operation.
    InvalidArgumentError(String),
    /// Data in an external format could not be read.
    ExternalFormat(String),
    /// A number left the range of its type.
    Overflow,
    /// Foreign data does not follow the interface's specification.
    OutOfSpec(String),
}

impl ArrowError {
    /// The text carried by the error; empty for [`ArrowError::Overflow`].
    pub open spec fn text(&self) -> Seq<char> {
        match self {
            ArrowError::NotYetImplemented(m) => m@,
            ArrowError::InvalidArgumentError(m) => m@,
            ArrowError::ExternalFormat(m) => m@,
            ArrowError::Overflow => Seq::empty(),
            ArrowError::OutOfSpec(m) => m@,
        }
    }

    /// Returns the text carried by the error.
    pub fn message(&self) -> (m: String)
        ensures
            m@ == self.text(),
    {
        match self {
            ArrowError::NotYetImplemented(m) => m.clone(),
            ArrowError::InvalidArgumentError(m) => m.clone(),
            ArrowError::ExternalFormat(m) => m.clone(),
            ArrowError::Overflow => String::new(),
            ArrowError::OutOfSpec(m) => m.clone(),
        }
    }
}

} // verus!
