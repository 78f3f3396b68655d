//! Arrays of booleans.
use vstd::prelude::*;

use super::primitive::SlotsView;
use crate::bitmap::{Bitmap, MutableBitmap};
use crate::datatypes::{DataType, DataTypeView};

verus! {

/// An array of booleans: one bit for every slot and, where slots may be
/// null, one validity bit for every slot.
#[derive(Debug, PartialEq, Eq)]
pub struct BooleanArray {
    data_type: DataType,
    values: Bitmap,
    validity: Option<Bitmap>,
}

impl View for BooleanArray {
    type V = SlotsView<bool>;

    closed spec fn view(&self) -> SlotsView<bool> {
        SlotsView {
            values: self.values@,
            validity: match self.validity {
                Some(v) => Some(v@),
                None => None,
            },
        }
    }
}

impl BooleanArray {
    /// What holds of every array that executable code can hold.
    #[verifier::type_invariant]
    pub closed spec fn inv(&self) -> bool {
        self@.wf()
    }

    /// The logical type of the array.
    pub closed spec fn logical_type(&self) -> DataTypeView {
        self.data_type@
    }

    /// Puts an array of the given type together from its parts.
    pub fn new(data_type: DataType, values: Bitmap, validity: Option<Bitmap>) -> (array: Self)
        requires
            validity matches Some(v) ==> v@.len() == values@.len(),
        ensures
            array@.values == values@,
            array@.validity == (match validity {
                Some(v) => Some(v@),
                None => None,
            }),
            array.logical_type() == data_type@,
    {
        BooleanArray { data_type, values, validity }
    }

    /// Puts an array of booleans together from its parts.
    pub fn from_data(values: Bitmap, validity: Option<Bitmap>) -> (array: Self)
        requires
            validity matches Some(v) ==> v@.len() == values@.len(),
        ensures
            array@.values == values@,
            array@.validity == (match validity {
                Some(v) => Some(v@),
                None => None,
            }),
            array.logical_type() == DataTypeView::Boolean,
    {
        Self::new(DataType::Boolean, values, validity)
    }

    /// Creates an array without slots.
    pub fn new_empty() -> (array: Self)
        ensures
            array@ == SlotsView::<bool>::empty(),
            array.logical_type() == DataTypeView::Boolean,
    {
        Self::from_data(Bitmap::from_mutable(MutableBitmap::new()), None)
    }

    /// Creates an array of `length` nulls.
    pub fn new_null(length: usize) -> (array: Self)
        ensures
            array@.values == Seq::new(length as nat, |i: int| false),
            array@.validity == Some(Seq::new(length as nat, |i: int| false)),
            array.logical_type() == DataTypeView::Boolean,
    {
        let mut values = MutableBitmap::new();
        values.extend_constant(length, false);
        let mut validity = MutableBitmap::new();
        validity.extend_constant(length, false);
        proof {
            assert(values@ =~= Seq::new(length as nat, |i: int| false));
            assert(validity@ =~= Seq::new(length as nat, |i: int| false));
        }
        Self::from_data(Bitmap::from_mutable(values), Some(Bitmap::from_mutable(validity)))
    }

    /// The slots of `self` and then those of `other`, under the type of
    /// `self`. `None` where the slots are more than a `usize` can count.
    pub fn append(&self, other: &Self) -> (all: Option<Self>)
        ensures
            match all {
                Some(all) => all@ == self@.appended(other@) && all.logical_type()
                    == self.logical_type(),
                None => self@.len() + other@.len() > usize::MAX,
            },
    {
        proof {
            use_type_invariant(self);
            use_type_invariant(other);
        }
        let a_len = self.values.len();
        let b_len = other.values.len();
        if b_len > usize::MAX - a_len {
            return None;
        }
        let mut values = MutableBitmap::with_capacity(a_len + b_len);
        let mut i: usize = 0;
        assert(values@ =~= self.values@.take(0));
        while i < a_len
            invariant
                i <= a_len,
                a_len == self.values@.len(),
                values@ == self.values@.take(i as int),
            decreases a_len - i,
        {
            values.push(self.values.get_bit(i));
            i += 1;
            assert(values@ =~= self.values@.take(i as int));
        }
        let mut j: usize = 0;
        assert(self.values@.take(a_len as int) =~= self.values@);
        assert(values@ =~= self.values@ + other.values@.take(0));
        while j < b_len
            invariant
                j <= b_len,
                a_len + b_len <= usize::MAX,
                a_len == self.values@.len(),
                b_len == other.values@.len(),
                values@ == self.values@ + other.values@.take(j as int),
            decreases b_len - j,
        {
            values.push(other.values.get_bit(j));
            j += 1;
            assert(values@ =~= self.values@ + other.values@.take(j as int));
        }
        assert(other.values@.take(b_len as int) =~= other.values@);
        let validity = crate::bitmap::merge_validity(
            match &self.validity {
                Some(v) => Some(v),
                None => None,
            },
            a_len,
            match &other.validity {
                Some(v) => Some(v),
                None => None,
            },
            b_len,
        );
        Some(
            BooleanArray {
                data_type: self.data_type.clone(),
                values: Bitmap::from_mutable(values),
                validity,
            },
        )
    }

    /// A copy of the `length` slots from `offset` on.
    pub fn slice(&self, offset: usize, length: usize) -> (part: Self)
        requires
            offset + length <= self@.len(),
        ensures
            part@ == self@.sliced(offset as int, length as int),
            part.logical_type() == self.logical_type(),
    {
        proof {
            use_type_invariant(self);
        }
        let validity = match &self.validity {
            Some(v) => Some(v.slice(offset, length)),
            None => None,
        };
        BooleanArray {
            data_type: self.data_type.clone(),
            values: self.values.slice(offset, length),
            validity,
        }
    }

    /// The number of slots.
    pub fn len(&self) -> (n: usize)
        ensures
            n == self@.len(),
            self@.wf(),
    {
        proof {
            use_type_invariant(self);
        }
        self.values.len()
    }

    /// The logical type of the array.
    pub fn data_type(&self) -> (data_type: &DataType)
        ensures
            data_type@ == self.logical_type(),
    {
        &self.data_type
    }

    /// The values of all slots.
    pub fn values(&self) -> (values: &Bitmap)
        ensures
            values@ == self@.values,
    {
        &self.values
    }

    /// Which slots are valid, where slots may be null.
    pub fn validity(&self) -> (validity: Option<&Bitmap>)
        ensures
            self@.validity == (match validity {
                Some(v) => Some(v@),
                None => None,
            }),
    {
        match &self.validity {
            Some(v) => Some(v),
            None => None,
        }
    }

    /// The value of slot `i`.
    pub fn value(&self, i: usize) -> (value: bool)
        requires
            i < self@.len(),
        ensures
            value == self@.values[i as int],
    {
        self.values.get_bit(i)
    }

    /// Whether slot `i` is valid.
    pub fn is_valid(&self, i: usize) -> (b: bool)
        requires
            i < self@.len(),
        ensures
            b == self@.is_valid(i as int),
    {
        proof {
            use_type_invariant(self);
        }
        match &self.validity {
            Some(v) => v.get_bit(i),
            None => true,
        }
    }
}

} // verus!
