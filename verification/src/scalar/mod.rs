//! Scalars: single values with a logical type, which may be null.
use vstd::prelude::*;

use crate::array::{Array, ListArray};
use crate::datatypes::DataType;
use crate::types::days_ms;

mod binary;
mod boolean;
mod list;
mod null;
mod primitive;
mod utf8;

pub use binary::BinaryScalar;
pub use boolean::BooleanScalar;
pub use list::{ListScalar, ListScalarNew};
pub use null::NullScalar;
pub use primitive::PrimitiveScalar;
pub use utf8::Utf8Scalar;

verus! {

/// What every scalar can tell of itself.
pub trait Scalar {
    /// Whether the scalar is not null.
    spec fn valid(&self) -> bool;

    /// The logical type of the scalar.
    spec fn logical_type(&self) -> crate::datatypes::DataTypeView;

    /// Whether the scalar is not null.
    fn is_valid(&self) -> (b: bool)
        ensures
            b == self.valid(),
    ;

    /// The logical type of the scalar.
    fn data_type(&self) -> (data_type: DataType)
        ensures
            data_type@ == self.logical_type(),
    ;
}

/// A scalar of one of the types that have scalars.
#[derive(Debug)]
pub enum DynScalar {
    /// The null scalar.
    Null(NullScalar),
    /// A boolean.
    Boolean(BooleanScalar),
    /// A value of 8 bits with sign.
    Int8(PrimitiveScalar<i8>),
    /// A value of 16 bits with sign.
    Int16(PrimitiveScalar<i16>),
    /// A value of 32 bits with sign.
    Int32(PrimitiveScalar<i32>),
    /// A value of 64 bits with sign.
    Int64(PrimitiveScalar<i64>),
    /// A decimal value of 128 bits.
    Int128(PrimitiveScalar<i128>),
    /// An interval of days and milliseconds.
    DaysMs(PrimitiveScalar<days_ms>),
    /// A value of 8 bits without sign.
    UInt8(PrimitiveScalar<u8>),
    /// A value of 16 bits without sign.
    UInt16(PrimitiveScalar<u16>),
    /// A value of 32 bits without sign.
    UInt32(PrimitiveScalar<u32>),
    /// A value of 64 bits without sign.
    UInt64(PrimitiveScalar<u64>),
    /// A text.
    Utf8(Utf8Scalar<i32>),
    /// A text of the large kind.
    LargeUtf8(Utf8Scalar<i64>),
    /// A byte string.
    Binary(BinaryScalar<i32>),
    /// A byte string of the large kind.
    LargeBinary(BinaryScalar<i64>),
    /// A list.
    List(ListScalar<i32>),
    /// A list of the large kind.
    LargeList(ListScalar<i64>),
}

impl Scalar for DynScalar {
    open spec fn valid(&self) -> bool {
        match self {
            DynScalar::Null(s) => s.valid(),
            DynScalar::Boolean(s) => s.valid(),
            DynScalar::Int8(s) => s.valid(),
            DynScalar::Int16(s) => s.valid(),
            DynScalar::Int32(s) => s.valid(),
            DynScalar::Int64(s) => s.valid(),
            DynScalar::Int128(s) => s.valid(),
            DynScalar::DaysMs(s) => s.valid(),
            DynScalar::UInt8(s) => s.valid(),
            DynScalar::UInt16(s) => s.valid(),
            DynScalar::UInt32(s) => s.valid(),
            DynScalar::UInt64(s) => s.valid(),
            DynScalar::Utf8(s) => s.valid(),
            DynScalar::LargeUtf8(s) => s.valid(),
            DynScalar::Binary(s) => s.valid(),
            DynScalar::LargeBinary(s) => s.valid(),
            DynScalar::List(s) => s.valid(),
            DynScalar::LargeList(s) => s.valid(),
        }
    }

    open spec fn logical_type(&self) -> crate::datatypes::DataTypeView {
        match self {
            DynScalar::Null(s) => s.logical_type(),
            DynScalar::Boolean(s) => s.logical_type(),
            DynScalar::Int8(s) => s.logical_type(),
            DynScalar::Int16(s) => s.logical_type(),
            DynScalar::Int32(s) => s.logical_type(),
            DynScalar::Int64(s) => s.logical_type(),
            DynScalar::Int128(s) => s.logical_type(),
            DynScalar::DaysMs(s) => s.logical_type(),
            DynScalar::UInt8(s) => s.logical_type(),
            DynScalar::UInt16(s) => s.logical_type(),
            DynScalar::UInt32(s) => s.logical_type(),
            DynScalar::UInt64(s) => s.logical_type(),
            DynScalar::Utf8(s) => s.logical_type(),
            DynScalar::LargeUtf8(s) => s.logical_type(),
            DynScalar::Binary(s) => s.logical_type(),
            DynScalar::LargeBinary(s) => s.logical_type(),
            DynScalar::List(s) => s.logical_type(),
            DynScalar::LargeList(s) => s.logical_type(),
        }
    }

    fn is_valid(&self) -> (b: bool) {
        match self {
            DynScalar::Null(s) => s.is_valid(),
            DynScalar::Boolean(s) => s.is_valid(),
            DynScalar::Int8(s) => s.is_valid(),
            DynScalar::Int16(s) => s.is_valid(),
            DynScalar::Int32(s) => s.is_valid(),
            DynScalar::Int64(s) => s.is_valid(),
            DynScalar::Int128(s) => s.is_valid(),
            DynScalar::DaysMs(s) => s.is_valid(),
            DynScalar::UInt8(s) => s.is_valid(),
            DynScalar::UInt16(s) => s.is_valid(),
            DynScalar::UInt32(s) => s.is_valid(),
            DynScalar::UInt64(s) => s.is_valid(),
            DynScalar::Utf8(s) => s.is_valid(),
            DynScalar::LargeUtf8(s) => s.is_valid(),
            DynScalar::Binary(s) => s.is_valid(),
            DynScalar::LargeBinary(s) => s.is_valid(),
            DynScalar::List(s) => s.is_valid(),
            DynScalar::LargeList(s) => s.is_valid(),
        }
    }

    fn data_type(&self) -> (data_type: DataType) {
        match self {
            DynScalar::Null(s) => s.data_type(),
            DynScalar::Boolean(s) => s.data_type(),
            DynScalar::Int8(s) => s.data_type(),
            DynScalar::Int16(s) => s.data_type(),
            DynScalar::Int32(s) => s.data_type(),
            DynScalar::Int64(s) => s.data_type(),
            DynScalar::Int128(s) => s.data_type(),
            DynScalar::DaysMs(s) => s.data_type(),
            DynScalar::UInt8(s) => s.data_type(),
            DynScalar::UInt16(s) => s.data_type(),
            DynScalar::UInt32(s) => s.data_type(),
            DynScalar::UInt64(s) => s.data_type(),
            DynScalar::Utf8(s) => s.data_type(),
            DynScalar::LargeUtf8(s) => s.data_type(),
            DynScalar::Binary(s) => s.data_type(),
            DynScalar::LargeBinary(s) => s.data_type(),
            DynScalar::List(s) => s.data_type(),
            DynScalar::LargeList(s) => s.data_type(),
        }
    }
}

/// Whether `scalar` is the scalar of slot `index` of `array`: of the kind
/// of the array, with the value of the slot, or null where the slot is
/// null. The scalar of a number has the type of the array. The scalar of a
/// list holds the run of the slot; the scalar of a null list holds no item
/// and is a null of lists of items of the type of the array.
pub open spec fn is_scalar_of(scalar: DynScalar, array: Array, index: int) -> bool {
    match (array, scalar) {
        (Array::Null(_), DynScalar::Null(_)) => true,
        (Array::Boolean(a), DynScalar::Boolean(s)) => s@ == a@.item(index),
        (Array::Int8(a), DynScalar::Int8(s)) => s@ == a@.item(index) && s.made_type()
            == a.logical_type(),
        (Array::Int16(a), DynScalar::Int16(s)) => s@ == a@.item(index) && s.made_type()
            == a.logical_type(),
        (Array::Int32(a), DynScalar::Int32(s)) => s@ == a@.item(index) && s.made_type()
            == a.logical_type(),
        (Array::Int64(a), DynScalar::Int64(s)) => s@ == a@.item(index) && s.made_type()
            == a.logical_type(),
        (Array::Int128(a), DynScalar::Int128(s)) => s@ == a@.item(index) && s.made_type()
            == a.logical_type(),
        (Array::DaysMs(a), DynScalar::DaysMs(s)) => s@ == a@.item(index) && s.made_type()
            == a.logical_type(),
        (Array::UInt8(a), DynScalar::UInt8(s)) => s@ == a@.item(index) && s.made_type()
            == a.logical_type(),
        (Array::UInt16(a), DynScalar::UInt16(s)) => s@ == a@.item(index) && s.made_type()
            == a.logical_type(),
        (Array::UInt32(a), DynScalar::UInt32(s)) => s@ == a@.item(index) && s.made_type()
            == a.logical_type(),
        (Array::UInt64(a), DynScalar::UInt64(s)) => s@ == a@.item(index) && s.made_type()
            == a.logical_type(),
        (Array::Utf8(a), DynScalar::Utf8(s)) => s@ == a@.text(index),
        (Array::LargeUtf8(a), DynScalar::LargeUtf8(s)) => s@ == a@.text(index),
        (Array::Binary(a), DynScalar::Binary(s)) => s@ == a@.item(index),
        (Array::LargeBinary(a), DynScalar::LargeBinary(s)) => s@ == a@.item(index),
        (Array::List(a), DynScalar::List(s)) => if a@.is_valid(index) {
            s.made_valid() && s.items() == a@.values.sliced(
                a@.offsets[index],
                a@.offsets[index + 1] - a@.offsets[index],
            ) && s.made_type() == ListArray::<i32>::default_type(a.child_type())
        } else {
            !s.made_valid() && s.items().len() == 0 && s.made_type() == ListArray::<
                i32,
            >::default_type(a.logical_type())
        },
        (Array::LargeList(a), DynScalar::LargeList(s)) => if a@.is_valid(index) {
            s.made_valid() && s.items() == a@.values.sliced(
                a@.offsets[index],
                a@.offsets[index + 1] - a@.offsets[index],
            ) && s.made_type() == ListArray::<i64>::default_type(a.child_type())
        } else {
            !s.made_valid() && s.items().len() == 0 && s.made_type() == ListArray::<
                i64,
            >::default_type(a.logical_type())
        },
        _ => false,
    }
}

/// The scalar of slot `index` of `array`: its value, or a null of its type
/// where the slot is null.
pub fn new_scalar(array: &Array, index: usize) -> (scalar: Box<DynScalar>)
    requires
        array.wf(),
        index < array@.len(),
        !(array is FixedSizeBinary),
    ensures
        scalar.valid() == array@.is_valid(index as int),
        is_scalar_of(*scalar, *array, index as int),
{
    match array {
        Array::Empty(_) => vstd::pervasive::unreached(),
        Array::Null(_) => {
            let scalar = DynScalar::Null(NullScalar::new());
            assert(!scalar.valid());
            Box::new(scalar)
        },
        Array::Boolean(a) => {
            let value = if a.is_valid(index) {
                Some(a.value(index))
            } else {
                None
            };
            Box::new(DynScalar::Boolean(BooleanScalar::new(value)))
        },
        Array::Int8(a) => {
            let value = if a.is_valid(index) {
                Some(a.value(index))
            } else {
                None
            };
            Box::new(DynScalar::Int8(PrimitiveScalar::new(a.data_type().clone(), value)))
        },
        Array::Int16(a) => {
            let value = if a.is_valid(index) {
                Some(a.value(index))
            } else {
                None
            };
            Box::new(DynScalar::Int16(PrimitiveScalar::new(a.data_type().clone(), value)))
        },
        Array::Int32(a) => {
            let value = if a.is_valid(index) {
                Some(a.value(index))
            } else {
                None
            };
            Box::new(DynScalar::Int32(PrimitiveScalar::new(a.data_type().clone(), value)))
        },
        Array::Int64(a) => {
            let value = if a.is_valid(index) {
                Some(a.value(index))
            } else {
                None
            };
            Box::new(DynScalar::Int64(PrimitiveScalar::new(a.data_type().clone(), value)))
        },
        Array::Int128(a) => {
            let value = if a.is_valid(index) {
                Some(a.value(index))
            } else {
                None
            };
            Box::new(DynScalar::Int128(PrimitiveScalar::new(a.data_type().clone(), value)))
        },
        Array::DaysMs(a) => {
            let value = if a.is_valid(index) {
                Some(a.value(index))
            } else {
                None
            };
            Box::new(DynScalar::DaysMs(PrimitiveScalar::new(a.data_type().clone(), value)))
        },
        Array::UInt8(a) => {
            let value = if a.is_valid(index) {
                Some(a.value(index))
            } else {
                None
            };
            Box::new(DynScalar::UInt8(PrimitiveScalar::new(a.data_type().clone(), value)))
        },
        Array::UInt16(a) => {
            let value = if a.is_valid(index) {
                Some(a.value(index))
            } else {
                None
            };
            Box::new(DynScalar::UInt16(PrimitiveScalar::new(a.data_type().clone(), value)))
        },
        Array::UInt32(a) => {
            let value = if a.is_valid(index) {
                Some(a.value(index))
            } else {
                None
            };
            Box::new(DynScalar::UInt32(PrimitiveScalar::new(a.data_type().clone(), value)))
        },
        Array::UInt64(a) => {
            let value = if a.is_valid(index) {
                Some(a.value(index))
            } else {
                None
            };
            Box::new(DynScalar::UInt64(PrimitiveScalar::new(a.data_type().clone(), value)))
        },
        Array::Utf8(a) => {
            let value = if a.is_valid(index) {
                Some(a.value(index))
            } else {
                None
            };
            proof {
                use_type_invariant(a);
                a.lemma_slot_fits(index as int);
                vstd::utf8::decode_utf8_encode_utf8(a@.slot(index as int));
            }
            Box::new(DynScalar::Utf8(Utf8Scalar::<i32>::new(value)))
        },
        Array::LargeUtf8(a) => {
            let value = if a.is_valid(index) {
                Some(a.value(index))
            } else {
                None
            };
            proof {
                use_type_invariant(a);
                a.lemma_slot_fits(index as int);
                vstd::utf8::decode_utf8_encode_utf8(a@.slot(index as int));
            }
            Box::new(DynScalar::LargeUtf8(Utf8Scalar::<i64>::new(value)))
        },
        Array::Binary(a) => {
            let value = if a.is_valid(index) {
                Some(a.value(index))
            } else {
                None
            };
            proof {
                use_type_invariant(a);
                a.lemma_slot_fits(index as int);
            }
            Box::new(DynScalar::Binary(BinaryScalar::<i32>::new(value)))
        },
        Array::LargeBinary(a) => {
            let value = if a.is_valid(index) {
                Some(a.value(index))
            } else {
                None
            };
            proof {
                use_type_invariant(a);
                a.lemma_slot_fits(index as int);
            }
            Box::new(DynScalar::LargeBinary(BinaryScalar::<i64>::new(value)))
        },
        Array::List(a) => {
            let value = if a.is_valid(index) {
                ListScalarNew::Array(a.value(index))
            } else {
                ListScalarNew::DataType(a.data_type().clone())
            };
            Box::new(DynScalar::List(ListScalar::<i32>::new(value)))
        },
        Array::LargeList(a) => {
            let value = if a.is_valid(index) {
                ListScalarNew::Array(a.value(index))
            } else {
                ListScalarNew::DataType(a.data_type().clone())
            };
            Box::new(DynScalar::LargeList(ListScalar::<i64>::new(value)))
        },
        Array::FixedSizeBinary(_) => vstd::pervasive::unreached(),
    }
}

} // verus!
