//! Scalars of lists.
use vstd::prelude::*;

use super::Scalar;
use crate::array::{
    lemma_same_kind_reflexive, new_empty_array, Array, ArrayView, ListArray, ListView,
};
use crate::bitmap::{Bitmap, MutableBitmap};
use crate::compute::concat::{concatenate, concatenated, outgrown, same_types, total_len, views_of};
use crate::datatypes::{DataType, DataTypeView};
use crate::types::Offset;

verus! {

/// What a list scalar is made from: the list itself, or, for a null, the
/// type of its items.
#[derive(Debug)]
pub enum ListScalarNew {
    /// The items of the list.
    Array(Array),
    /// The type of the items of a null.
    DataType(DataType),
}

/// A list that may be null. Like an array of lists it holds an array of any
/// type, of which it is the only list. `O` tells whether it belongs to the
/// large kind.
#[derive(Debug)]
pub struct ListScalar<O: Offset> {
    values: Array,
    is_valid: bool,
    phantom: std::marker::PhantomData<O>,
    data_type: DataType,
}

impl<O: Offset> ListScalar<O> {
    /// The items of the list; none where it is null.
    pub closed spec fn items(&self) -> ArrayView {
        self.values@
    }

    /// Whether the scalar is not null.
    pub closed spec fn made_valid(&self) -> bool {
        self.is_valid
    }

    /// The logical type that the scalar was given.
    pub closed spec fn made_type(&self) -> DataTypeView {
        self.data_type@
    }

    /// Whether the items are well-formed, and none where the scalar is
    /// null.
    pub closed spec fn wf(&self) -> bool {
        self.values.wf() && (!self.is_valid ==> self.values@.len() == 0)
    }

    /// The logical type of the items.
    pub closed spec fn item_type(&self) -> DataTypeView {
        self.values.logical_type()
    }

    /// Creates a scalar of the list of the items `v`, or a null of lists of
    /// items of the type `v`, which holds an array of that type without
    /// slots. Its type is that of lists of such items.
    pub fn new(v: ListScalarNew) -> (scalar: Self)
        requires
            v matches ListScalarNew::Array(a) ==> a.wf(),
        ensures
            scalar.wf(),
            match v {
                ListScalarNew::Array(a) => scalar.made_valid() && scalar.items() == a@
                    && scalar.item_type() == a.logical_type() && scalar.made_type()
                    == ListArray::<O>::default_type(a.logical_type()),
                ListScalarNew::DataType(d) => !scalar.made_valid() && scalar.items()
                    == crate::array::empty_view(d@) && scalar.item_type() == d@ && scalar.made_type()
                    == ListArray::<O>::default_type(d@),
            },
    {
        let (data_type, values, is_valid) = match v {
            ListScalarNew::Array(a) => (a.data_type(), a, true),
            ListScalarNew::DataType(d) => {
                let copy = d.clone();
                (copy, new_empty_array(d), false)
            },
        };
        let data_type = ListArray::<O>::default_datatype(data_type);
        Self { values, is_valid, phantom: std::marker::PhantomData, data_type }
    }

    /// The items of the list; none where it is null.
    pub fn values(&self) -> (values: &Array)
        ensures
            values@ == self.items(),
            values.logical_type() == self.item_type(),
            self.wf() ==> values.wf(),
    {
        &self.values
    }

    /// An array of `length` slots under the type of the scalar. For a null
    /// they are null lists over no items. For a list, the array below holds
    /// the items `length` times, and slot `i` is the one item at the place
    /// `i` after as many items as the list has.
    pub fn to_boxed_array(&self, length: usize) -> (array: Box<ListArray<O>>)
        requires
            self.wf(),
            length < usize::MAX,
            self.made_valid() ==> length >= 1 && self.items().len() + length <= O::limit()
                && self.items().len() + length <= length * self.items().len() && !outgrown(
                copies(self.items(), length as nat),
            ),
        ensures
            array.wf(),
            array.logical_type() == self.made_type(),
            array@ == if self.made_valid() {
                ListView {
                    offsets: Seq::new((length + 1) as nat, |i: int| i + self.items().len()),
                    values: Box::new(concatenated(copies(self.items(), length as nat))),
                    validity: None,
                }
            } else {
                ListView {
                    offsets: Seq::new((length + 1) as nat, |i: int| 0int),
                    values: Box::new(self.items()),
                    validity: Some(Seq::new(length as nat, |i: int| false)),
                }
            },
    {
        let n = self.values.len();
        if self.is_valid {
            let mut parts: Vec<&Array> = Vec::new();
            let mut i: usize = 0;
            while i < length
                invariant
                    i <= length,
                    parts@.len() == i,
                    forall|j: int| 0 <= j < i ==> *(#[trigger] parts@[j]) == self.values,
                decreases length - i,
            {
                parts.push(&self.values);
                i += 1;
            }
            proof {
                lemma_same_kind_reflexive(self.values@);
                assert(views_of(parts@) =~= copies(self.values@, length as nat));
                lemma_copies_len(self.values@, length as nat);
                assert(same_types(parts@));
            }
            let values = match concatenate(parts.as_slice()) {
                Ok(values) => values,
                Err(_) => vstd::pervasive::unreached(),
            };
            let below = values.len();
            let mut offsets: Vec<O> = Vec::new();
            let mut i: usize = 0;
            while i < length + 1
                invariant
                    i <= length + 1,
                    length < usize::MAX,
                    n + length <= O::limit(),
                    n + length <= usize::MAX,
                    offsets@.len() == i,
                    forall|j: int| 0 <= j < i ==> (#[trigger] offsets@[j]).number() == j + n,
                decreases length + 1 - i,
            {
                match O::from_usize(i + n) {
                    Some(offset) => offsets.push(offset),
                    None => vstd::pervasive::unreached(),
                }
                i += 1;
            }
            proof {
                let o = crate::array::numbers(offsets@);
                assert(o =~= Seq::new((length + 1) as nat, |i: int| i + n));
            }
            Box::new(ListArray::<O>::from_data(self.data_type.clone(), offsets, values, None))
        } else {
            let zero = O::zero();
            let mut offsets: Vec<O> = Vec::new();
            let mut i: usize = 0;
            while i < length + 1
                invariant
                    i <= length + 1,
                    length < usize::MAX,
                    zero.number() == 0,
                    offsets@.len() == i,
                    forall|j: int| 0 <= j < i ==> (#[trigger] offsets@[j]).number() == 0,
                decreases length + 1 - i,
            {
                offsets.push(zero);
                i += 1;
            }
            let mut validity = MutableBitmap::new();
            validity.extend_constant(length, false);
            let validity = Bitmap::from_mutable(validity);
            let values = self.values.slice(0, n);
            proof {
                crate::array::lemma_whole_slice(self.values@);
                let o = crate::array::numbers(offsets@);
                assert(o =~= Seq::new((length + 1) as nat, |i: int| 0int));
                assert(validity@ =~= Seq::new(length as nat, |i: int| false));
            }
            Box::new(
                ListArray::<O>::from_data(self.data_type.clone(), offsets, values, Some(validity)),
            )
        }
    }
}

/// `length` times the array `items`.
pub open spec fn copies(items: ArrayView, length: nat) -> Seq<ArrayView> {
    Seq::new(length, |i: int| items)
}

/// `length` copies of an array have `length` times its slots.
pub proof fn lemma_copies_len(items: ArrayView, length: nat)
    ensures
        total_len(copies(items, length)) == length * items.len(),
    decreases length,
{
    if length > 0 {
        assert(copies(items, length).drop_last() =~= copies(items, (length - 1) as nat));
        lemma_copies_len(items, (length - 1) as nat);
        assert(length * items.len() == (length - 1) * items.len() + items.len())
            by (nonlinear_arith);
    } else {
        assert(0 * items.len() == 0) by (nonlinear_arith);
    }
}

impl<O: Offset> Scalar for ListScalar<O> {
    open spec fn valid(&self) -> bool {
        self.made_valid()
    }

    open spec fn logical_type(&self) -> DataTypeView {
        self.made_type()
    }

    fn is_valid(&self) -> (b: bool) {
        self.is_valid
    }

    fn data_type(&self) -> (data_type: DataType) {
        self.data_type.clone()
    }
}

} // verus!
