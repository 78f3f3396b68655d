//! Arrays of fixed-width values.
use vstd::prelude::*;

use crate::bitmap::{count_false, Bitmap, MutableBitmap};
use crate::datatypes::{DataType, DataTypeView};
use crate::types::NativeType;

verus! {

/// The mathematical value of an array of slots: the value of every slot
/// and, where slots may be null, which of them are valid.
pub struct SlotsView<T> {
    pub values: Seq<T>,
    pub validity: Option<Seq<bool>>,
}

impl<T> SlotsView<T> {
    /// No slots, and no validity.
    pub open spec fn empty() -> Self {
        SlotsView { values: Seq::empty(), validity: None }
    }

    /// Whether there is one validity bit for every slot.
    pub open spec fn wf(self) -> bool {
        self.validity matches Some(v) ==> v.len() == self.values.len()
    }

    /// The number of slots.
    pub open spec fn len(self) -> nat {
        self.values.len()
    }

    /// Whether slot `i` is valid.
    pub open spec fn is_valid(self, i: int) -> bool {
        match self.validity {
            Some(v) => v[i],
            None => true,
        }
    }

    /// The item at `i`: its value, or `None` where the slot is null.
    pub open spec fn item(self, i: int) -> Option<T> {
        if self.is_valid(i) {
            Some(self.values[i])
        } else {
            None
        }
    }

    /// The items, one for every slot.
    pub open spec fn items(self) -> Seq<Option<T>> {
        Seq::new(self.len(), |i: int| self.item(i))
    }

    /// The number of null slots.
    pub open spec fn null_count(self) -> nat {
        match self.validity {
            Some(v) => count_false(v),
            None => 0,
        }
    }

    /// The slots of `self` and then those of `other`.
    pub open spec fn appended(self, other: Self) -> Self {
        SlotsView {
            values: self.values + other.values,
            validity: crate::bitmap::merged(
                self.validity,
                self.values.len(),
                other.validity,
                other.values.len(),
            ),
        }
    }

    /// The `length` slots from `offset` on.
    pub open spec fn sliced(self, offset: int, length: int) -> Self {
        SlotsView {
            values: self.values.subrange(offset, offset + length),
            validity: match self.validity {
                Some(v) => Some(v.subrange(offset, offset + length)),
                None => None,
            },
        }
    }
}

/// The slots that hold `items`, nulls as `zero`. There is a validity
/// whatever the items are.
pub open spec fn slots_of<T>(items: Seq<Option<T>>, zero: T) -> SlotsView<T> {
    SlotsView {
        values: Seq::new(
            items.len(),
            |i: int|
                match items[i] {
                    Some(v) => v,
                    None => zero,
                },
        ),
        validity: Some(Seq::new(items.len(), |i: int| items[i] is Some)),
    }
}

/// An array of fixed-width values.
#[derive(Debug)]
pub struct PrimitiveArray<T: NativeType> {
    data_type: DataType,
    values: Vec<T>,
    validity: Option<Bitmap>,
}

impl<T: NativeType> View for PrimitiveArray<T> {
    type V = SlotsView<T>;

    closed spec fn view(&self) -> SlotsView<T> {
        SlotsView {
            values: self.values@,
            validity: match self.validity {
                Some(v) => Some(v@),
                None => None,
            },
        }
    }
}

impl<T: NativeType> PrimitiveArray<T> {
    /// What holds of every array that executable code can hold.
    #[verifier::type_invariant]
    pub closed spec fn inv(&self) -> bool {
        self@.wf()
    }

    /// The logical type of the array.
    pub closed spec fn logical_type(&self) -> DataTypeView {
        self.data_type@
    }

    /// Puts an array together from its parts.
    pub fn from_data(data_type: DataType, values: Vec<T>, validity: Option<Bitmap>) -> (array: Self)
        requires
            validity matches Some(v) ==> v@.len() == values@.len(),
        ensures
            array@.values == values@,
            array@.validity == (match validity {
                Some(v) => Some(v@),
                None => None,
            }),
            array.logical_type() == data_type@,
    {
        PrimitiveArray { data_type, values, validity }
    }

    /// Creates an array of the given type without slots.
    pub fn new_empty(data_type: DataType) -> (array: Self)
        ensures
            array@ == SlotsView::<T>::empty(),
            array.logical_type() == data_type@,
    {
        let array = Self::from_data(data_type, Vec::new(), None);
        assert(array@.values =~= Seq::<T>::empty());
        array
    }

    /// Creates an array of `items` with the natural type of its values;
    /// null slots hold the default value.
    pub fn from_options(items: &[Option<T>]) -> (array: Self)
        ensures
            array@ == slots_of(items@, T::zero()),
            array.logical_type() == T::natural_type(),
    {
        let mut values: Vec<T> = Vec::new();
        let mut validity = MutableBitmap::new();
        let mut i: usize = 0;
        while i < items.len()
            invariant
                i <= items.len(),
                values@.len() == i,
                validity@.len() == i,
                forall|j: int|
                    0 <= j < i ==> #[trigger] values@[j] == (match items@[j] {
                        Some(v) => v,
                        None => T::zero(),
                    }),
                forall|j: int| 0 <= j < i ==> #[trigger] validity@[j] == (items@[j] is Some),
            decreases items.len() - i,
        {
            match &items[i] {
                Some(v) => {
                    values.push(*v);
                    validity.push(true);
                },
                None => {
                    values.push(T::default_value());
                    validity.push(false);
                },
            }
            i += 1;
        }
        let array = PrimitiveArray {
            data_type: T::data_type(),
            values,
            validity: Some(Bitmap::from_mutable(validity)),
        };
        proof {
            let want = slots_of(items@, T::zero());
            assert(array@.values =~= want.values);
            assert(array@.validity->0 =~= want.validity->0);
        }
        array
    }

    /// The same slots under another logical type.
    pub fn to(self, data_type: DataType) -> (array: Self)
        ensures
            array@ == self@,
            array.logical_type() == data_type@,
    {
        proof {
            use_type_invariant(&self);
        }
        let PrimitiveArray { data_type: _, values, validity } = self;
        PrimitiveArray { data_type, values, validity }
    }

    /// The number of slots.
    pub fn len(&self) -> (n: usize)
        ensures
            n == self@.len(),
            self@.wf(),
    {
        proof {
            use_type_invariant(self);
        }
        self.values.len()
    }

    /// The logical type of the array.
    pub fn data_type(&self) -> (data_type: &DataType)
        ensures
            data_type@ == self.logical_type(),
    {
        &self.data_type
    }

    /// The values of all slots.
    pub fn values(&self) -> (values: &Vec<T>)
        ensures
            values@ == self@.values,
    {
        &self.values
    }

    /// Which slots are valid, where slots may be null.
    pub fn validity(&self) -> (validity: Option<&Bitmap>)
        ensures
            self@.validity == (match validity {
                Some(v) => Some(v@),
                None => None,
            }),
            self@.wf(),
    {
        proof {
            use_type_invariant(self);
        }
        match &self.validity {
            Some(v) => Some(v),
            None => None,
        }
    }

    /// The value of slot `i`.
    pub fn value(&self, i: usize) -> (value: T)
        requires
            i < self@.len(),
        ensures
            value == self@.values[i as int],
    {
        self.values[i]
    }

    /// Whether slot `i` is valid.
    pub fn is_valid(&self, i: usize) -> (b: bool)
        requires
            i < self@.len(),
        ensures
            b == self@.is_valid(i as int),
    {
        proof {
            use_type_invariant(self);
        }
        match &self.validity {
            Some(v) => v.get_bit(i),
            None => true,
        }
    }

    /// The number of null slots.
    pub fn null_count(&self) -> (n: usize)
        ensures
            n == self@.null_count(),
    {
        match &self.validity {
            Some(v) => v.null_count(),
            None => 0,
        }
    }

    /// The slots of `self` and then those of `other`, under the type of
    /// `self`. `None` where the slots are more than a `usize` can count.
    pub fn append(&self, other: &Self) -> (all: Option<Self>)
        ensures
            match all {
                Some(all) => all@ == self@.appended(other@) && all.logical_type()
                    == self.logical_type(),
                None => self@.len() + other@.len() > usize::MAX,
            },
    {
        proof {
            use_type_invariant(self);
            use_type_invariant(other);
        }
        let a_len = self.values.len();
        let b_len = other.values.len();
        if b_len > usize::MAX - a_len {
            return None;
        }
        let mut values: Vec<T> = Vec::new();
        let mut i: usize = 0;
        while i < a_len
            invariant
                i <= a_len,
                a_len == self.values@.len(),
                values@ == self.values@.take(i as int),
            decreases a_len - i,
        {
            values.push(self.values[i]);
            i += 1;
            assert(values@ =~= self.values@.take(i as int));
        }
        let mut j: usize = 0;
        assert(self.values@.take(a_len as int) =~= self.values@);
        assert(values@ =~= self.values@ + other.values@.take(0));
        while j < b_len
            invariant
                j <= b_len,
                b_len == other.values@.len(),
                values@ == self.values@ + other.values@.take(j as int),
            decreases b_len - j,
        {
            values.push(other.values[j]);
            j += 1;
            assert(values@ =~= self.values@ + other.values@.take(j as int));
        }
        assert(other.values@.take(b_len as int) =~= other.values@);
        let validity = crate::bitmap::merge_validity(
            match &self.validity {
                Some(v) => Some(v),
                None => None,
            },
            a_len,
            match &other.validity {
                Some(v) => Some(v),
                None => None,
            },
            b_len,
        );
        Some(PrimitiveArray { data_type: self.data_type.clone(), values, validity })
    }

    /// A copy of the `length` slots from `offset` on.
    pub fn slice(&self, offset: usize, length: usize) -> (part: Self)
        requires
            offset + length <= self@.len(),
        ensures
            part@ == self@.sliced(offset as int, length as int),
            part.logical_type() == self.logical_type(),
    {
        proof {
            use_type_invariant(self);
        }
        let n = self.values.len();
        let mut values: Vec<T> = Vec::new();
        let mut i: usize = 0;
        while i < length
            invariant
                i <= length,
                offset + length <= n,
                n == self.values@.len(),
                values@ == self.values@.subrange(offset as int, offset + i),
            decreases length - i,
        {
            values.push(self.values[offset + i]);
            i += 1;
            assert(values@ =~= self.values@.subrange(offset as int, offset + i));
        }
        let validity = match &self.validity {
            Some(v) => Some(v.slice(offset, length)),
            None => None,
        };
        PrimitiveArray { data_type: self.data_type.clone(), values, validity }
    }

    /// Whether the two arrays have the same type and the same items. What
    /// null slots hold does not count.
    pub fn equals(&self, other: &Self) -> (b: bool)
        ensures
            b == (self@.items() == other@.items() && self.logical_type() == other.logical_type()),
    {
        proof {
            use_type_invariant(self);
            use_type_invariant(other);
        }
        if self.len() != other.len() {
            proof {
                if self@.items() == other@.items() {
                    assert(self@.items().len() == other@.items().len());
                }
            }
            return false;
        }
        let mut i: usize = 0;
        while i < self.len()
            invariant
                i <= self@.len(),
                self@.len() == other@.len(),
                forall|j: int| 0 <= j < i ==> self@.item(j) == other@.item(j),
            decreases self@.len() - i,
        {
            let a = self.is_valid(i);
            let b = other.is_valid(i);
            let differ = if a != b {
                true
            } else if a {
                !self.value(i).same(&other.value(i))
            } else {
                false
            };
            if differ {
                proof {
                    if self@.items() == other@.items() {
                        assert(self@.items()[i as int] == other@.items()[i as int]);
                    }
                }
                return false;
            }
            i += 1;
        }
        proof {
            assert(self@.items() =~= other@.items());
        }
        self.data_type.same_as(&other.data_type)
    }
}

impl<T: NativeType> PartialEq for PrimitiveArray<T> {
    fn eq(&self, other: &Self) -> (b: bool) {
        self.equals(other)
    }
}

impl<T: NativeType> vstd::std_specs::cmp::PartialEqSpecImpl for PrimitiveArray<T> {
    open spec fn obeys_eq_spec() -> bool {
        true
    }

    open spec fn eq_spec(&self, other: &Self) -> bool {
        self@.items() == other@.items() && self.logical_type() == other.logical_type()
    }
}

} // verus!
