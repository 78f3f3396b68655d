//! The growable array of byte strings of one length.
use vstd::prelude::*;

use super::{lemma_slot_count, lemma_slots, FixedSizeBinaryArray, FixedSizeBinaryView};
use crate::bitmap::{vec_capacity, vec_shrink_to_fit, Bitmap, MutableBitmap};
use crate::datatypes::{DataType, DataTypeView};
use crate::error::ArrowError;

verus! {

/// `Vec::as_mut_slice` lends the elements of the vector. The loan cannot
/// change the number of elements, and making it does not unwind. The
/// first two clauses are those that `vstd` gives the function; a call on a
/// field of a type with an invariant must not unwind, which `vstd` does not
/// state, so the call goes through this function.
#[verifier::external_body]
fn vec_as_mut_slice<T>(vec: &mut Vec<T>) -> (slice: &mut [T])
    ensures
        slice@ == old(vec)@,
        final(slice)@ == final(vec)@,
        final(vec)@.len() == old(vec)@.len(),
    no_unwind
{
    vec.as_mut_slice()
}

/// A growable array of byte strings of one length: a mutable
/// `Vec<Option<[u8; size]>>`. It has no validity until a null is pushed.
#[derive(Debug)]
pub struct MutableFixedSizeBinaryArray {
    data_type: DataType,
    size: usize,
    values: Vec<u8>,
    validity: Option<MutableBitmap>,
}

impl View for MutableFixedSizeBinaryArray {
    type V = FixedSizeBinaryView;

    closed spec fn view(&self) -> FixedSizeBinaryView {
        FixedSizeBinaryView {
            size: self.size as nat,
            values: self.values@,
            validity: match self.validity {
                Some(v) => Some(v@),
                None => None,
            },
        }
    }
}

impl MutableFixedSizeBinaryArray {
    /// What holds of every array that executable code can hold: its view is
    /// well-formed and its type is that of byte strings of its size.
    #[verifier::type_invariant]
    pub closed spec fn inv(&self) -> bool {
        self@.wf() && self.data_type@ == DataTypeView::FixedSizeBinary(self.size as nat)
    }

    /// Takes the array out of `self` and leaves an empty one.
    fn take(&mut self) -> (taken: Self)
        ensures
            taken@ == old(self)@,
            taken.data_type@ == old(self).data_type@,
    {
        let mut taken = MutableFixedSizeBinaryArray {
            data_type: DataType::FixedSizeBinary(1),
            size: 1,
            values: Vec::new(),
            validity: None,
        };
        core::mem::swap(self, &mut taken);
        taken
    }

    /// Puts an array together from its parts: the type, which gives the
    /// size, the bytes of all slots, and optionally which slots are valid.
    pub fn from_data(data_type: DataType, values: Vec<u8>, validity: Option<MutableBitmap>) -> (array:
        Self)
        requires
            FixedSizeBinaryArray::size_of(data_type@) matches Some(size) && (FixedSizeBinaryView {
                size,
                values: values@,
                validity: match validity {
                    Some(v) => Some(v@),
                    None => None,
                },
            }).wf(),
        ensures
            array@ == (FixedSizeBinaryView {
                size: FixedSizeBinaryArray::size_of(data_type@)->0,
                values: values@,
                validity: match validity {
                    Some(v) => Some(v@),
                    None => None,
                },
            }),
    {
        let size = FixedSizeBinaryArray::get_size(&data_type);
        MutableFixedSizeBinaryArray { data_type, size, values, validity }
    }

    /// Creates an empty array of items of `size` bytes.
    pub fn new(size: usize) -> (array: Self)
        requires
            size > 0,
        ensures
            array@ == (FixedSizeBinaryView { size: size as nat, values: Seq::empty(), validity: None }),
    {
        Self::with_capacity(size, 0)
    }

    /// Creates an empty array of items of `size` bytes with room for
    /// `capacity` of them.
    pub fn with_capacity(size: usize, capacity: usize) -> (array: Self)
        requires
            size > 0,
            capacity * size <= usize::MAX,
        ensures
            array@ == (FixedSizeBinaryView { size: size as nat, values: Seq::empty(), validity: None }),
    {
        proof {
            vstd::arithmetic::div_mod::lemma_small_mod(0, size as nat);
        }
        Self::from_data(
            DataType::FixedSizeBinary(size),
            Vec::<u8>::with_capacity(capacity * size),
            None,
        )
    }

    /// Pushes an item. An item that has not the size of the array is an
    /// invalid argument, and leaves the array as it is.
    pub fn try_push(&mut self, value: Option<&[u8]>) -> (r: Result<(), ArrowError>)
        requires
            old(self)@.values.len() + old(self)@.size <= usize::MAX,
        ensures
            match r {
                Ok(()) => (value matches Some(bytes) ==> bytes@.len() == old(self)@.size)
                    && final(self)@ == old(self)@.pushed(
                    match value {
                        Some(bytes) => Some(bytes@),
                        None => None,
                    },
                ),
                Err(e) => e is InvalidArgumentError && value is Some && value->0@.len() != old(
                    self,
                )@.size && final(self)@ == old(self)@,
            },
    {
        proof {
            use_type_invariant(&*self);
            lemma_slot_count(self.values@.len() as int, self.size as int);
        }
        match value {
            Some(bytes) => {
                if self.size != bytes.len() {
                    return Err(
                        ArrowError::InvalidArgumentError(
                            "FixedSizeBinaryArray requires every item to be of its length".to_string(),
                        ),
                    );
                }
                let MutableFixedSizeBinaryArray { data_type, size, mut values, mut validity } =
                    self.take();
                values.extend_from_slice(bytes);
                let validity = match validity {
                    Some(mut v) => {
                        v.push(true);
                        Some(v)
                    },
                    None => None,
                };
                *self = MutableFixedSizeBinaryArray { data_type, size, values, validity };
                proof {
                    let want = old(self)@.pushed(Some(bytes@));
                    assert(self@.size == want.size);
                    assert(self@.values == want.values);
                    assert(self@.validity == want.validity);
                }
            },
            None => {
                let MutableFixedSizeBinaryArray { data_type, size, mut values, mut validity } =
                    self.take();
                let ghost before = values@;
                let mut i: usize = 0;
                while i < size
                    invariant
                        i <= size,
                        before.len() + size <= usize::MAX,
                        values@ == before + Seq::new(i as nat, |k: int| 0u8),
                    decreases size - i,
                {
                    values.push(0);
                    i += 1;
                    assert(values@ =~= before + Seq::new(i as nat, |k: int| 0u8));
                }
                *self = MutableFixedSizeBinaryArray { data_type, size, values, validity: None };
                match validity {
                    Some(mut v) => {
                        v.push(false);
                        let MutableFixedSizeBinaryArray { data_type, size, values, validity: _ } =
                            self.take();
                        *self = MutableFixedSizeBinaryArray {
                            data_type,
                            size,
                            values,
                            validity: Some(v),
                        };
                    },
                    None => self.init_validity(),
                }
                proof {
                    let want = old(self)@.pushed(None);
                    assert(self@.values =~= want.values);
                    assert(self@.validity is Some);
                    assert(self@.validity->0 =~= want.validity->0);
                    assert(self@.size == want.size);
                    assert(self@ == want);
                }
            },
        }
        Ok(())
    }

    /// Pushes a null.
    pub fn push_null(&mut self)
        requires
            old(self)@.values.len() + old(self)@.size <= usize::MAX,
        ensures
            final(self)@ == old(self)@.pushed(None),
    {
        self.push(None)
    }

    /// Pushes an item of the size of the array.
    pub fn push(&mut self, value: Option<&[u8]>)
        requires
            value matches Some(bytes) ==> bytes@.len() == old(self)@.size,
            old(self)@.values.len() + old(self)@.size <= usize::MAX,
        ensures
            final(self)@ == old(self)@.pushed(
                match value {
                    Some(bytes) => Some(bytes@),
                    None => None,
                },
            ),
    {
        match self.try_push(value) {
            Ok(()) => {},
            Err(_) => {},
        }
    }

    /// Removes the last slot and returns its bytes; `None` where the array
    /// is empty or the slot was null.
    pub fn pop(&mut self) -> (value: Option<Vec<u8>>)
        ensures
            old(self)@.len() == 0 ==> value is None && final(self)@ == old(self)@,
            old(self)@.len() > 0 ==> final(self)@ == old(self)@.popped() && (match value {
                Some(bytes) => old(self)@.item(old(self)@.len() - 1) == Some(bytes@),
                None => old(self)@.item(old(self)@.len() - 1) is None,
            }),
    {
        proof {
            use_type_invariant(&*self);
            lemma_slot_count(self.values@.len() as int, self.size as int);
            if self.values@.len() >= self.size {
                lemma_slots(
                    self.values@.len() as int,
                    self.size as int,
                    self@.len() - 1,
                );
            }
        }
        if self.values.len() < self.size {
            return None;
        }
        let MutableFixedSizeBinaryArray { data_type, size, mut values, mut validity } = self.take();
        let value_start = values.len() - size;
        let value = values.split_off(value_start);
        let (validity, valid) = match validity {
            Some(mut v) => {
                let bit = v.pop();
                (
                    Some(v),
                    match bit {
                        Some(bit) => bit,
                        None => false,
                    },
                )
            },
            None => (None, true),
        };
        proof {
            assert(values@ =~= old(self)@.values.take(old(self)@.values.len() - size));
            assert(value@ =~= old(self)@.slot(old(self)@.len() - 1));
        }
        *self = MutableFixedSizeBinaryArray { data_type, size, values, validity };
        if valid {
            Some(value)
        } else {
            None
        }
    }

    /// Creates an array of items of `size` bytes from `items`. An item that
    /// has not that size is an invalid argument.
    pub fn try_from_iter(items: &[Option<&[u8]>], size: usize) -> (r: Result<Self, ArrowError>)
        requires
            size > 0,
            items@.len() * size <= usize::MAX,
        ensures
            match r {
                Ok(array) => Some(array@) == (FixedSizeBinaryView {
                    size: size as nat,
                    values: Seq::empty(),
                    validity: None,
                }).pushed_all(item_views(items@)),
                Err(e) => e is InvalidArgumentError && (FixedSizeBinaryView {
                    size: size as nat,
                    values: Seq::empty(),
                    validity: None,
                }).pushed_all(item_views(items@)) is None,
            },
    {
        let ghost start = FixedSizeBinaryView {
            size: size as nat,
            values: Seq::empty(),
            validity: None,
        };
        let ghost all = item_views(items@);
        let mut primitive = Self::with_capacity(size, items.len());
        let mut i: usize = 0;
        assert(all.take(0) =~= Seq::empty());
        while i < items.len()
            invariant
                i <= items.len(),
                size > 0,
                items@.len() * size <= usize::MAX,
                all == item_views(items@),
                start == (FixedSizeBinaryView {
                    size: size as nat,
                    values: Seq::empty(),
                    validity: None,
                }),
                primitive@.size == size,
                primitive@.values.len() == i * size,
                start.pushed_all(all.take(i as int)) == Some(primitive@),
            decreases items.len() - i,
        {
            proof {
                assert(all.take(i + 1).drop_last() =~= all.take(i as int));
                assert(all.take(i + 1).last() == all[i as int]);
                assert((i + 1) * size <= items@.len() * size) by (nonlinear_arith)
                    requires
                        i + 1 <= items@.len(),
                        size > 0,
                ;
                assert((i + 1) * size == i * size + size) by (nonlinear_arith);
                lemma_pushed_all_size(start, all.take(i as int));
            }
            match primitive.try_push(items[i]) {
                Ok(()) => {},
                Err(e) => {
                    proof {
                        assert(all[i as int] == Some(items@[i as int]->0@));
                        assert(start.pushed_all(all.take(i + 1)) is None);
                        lemma_pushed_all_prefix(start, all, i + 1);
                        assert(start.pushed_all(all) is None);
                        assert(e is InvalidArgumentError);
                    }
                    return Err(e);
                },
            }
            i += 1;
        }
        proof {
            assert(all.take(items@.len() as int) =~= all);
        }
        Ok(primitive)
    }

    /// The size of every item.
    pub fn size(&self) -> (size: usize)
        ensures
            size == self@.size,
    {
        self.size
    }

    /// For how many items there is room without allocating.
    pub fn capacity(&self) -> (c: usize)
        ensures
            c >= self@.len(),
    {
        proof {
            use_type_invariant(self);
        }
        let room = vec_capacity(&self.values);
        proof {
            vstd::arithmetic::div_mod::lemma_div_is_ordered(
                self.values@.len() as int,
                room as int,
                self.size as int,
            );
        }
        room / self.size
    }

    /// Brings the validity into being after the first null was pushed:
    /// every slot but the last is valid.
    fn init_validity(&mut self)
        requires
            old(self)@.validity is None,
            old(self)@.len() > 0,
        ensures
            final(self)@ == (FixedSizeBinaryView {
                validity: Some(
                    Seq::new((old(self)@.len() - 1) as nat, |i: int| true).push(false),
                ),
                ..old(self)@
            }),
    {
        proof {
            use_type_invariant(&*self);
        }
        let len = self.len();
        let mut validity = MutableBitmap::new();
        validity.extend_constant(len, true);
        validity.set(len - 1, false);
        proof {
            assert(validity@ =~= Seq::new((len - 1) as nat, |i: int| true).push(false));
        }
        let MutableFixedSizeBinaryArray { data_type, size, values, validity: _ } = self.take();
        *self = MutableFixedSizeBinaryArray { data_type, size, values, validity: Some(validity) };
    }

    /// The bytes of slot `i`.
    pub fn value(&self, i: usize) -> (value: &[u8])
        requires
            i < self@.len(),
        ensures
            value@ == self@.slot(i as int),
    {
        let size = self.size;
        let len = self.values.len();
        proof {
            use_type_invariant(self);
            lemma_slots(len as int, size as int, i as int);
        }
        let start = i * size;
        vstd::slice::slice_subrange(self.values.as_slice(), start, start + size)
    }

    /// The bytes of slot `i`, for a caller that has shown that there is
    /// such a slot: nothing is tested when it runs.
    pub fn value_unchecked(&self, i: usize) -> (value: &[u8])
        requires
            i < self@.len(),
        ensures
            value@ == self@.slot(i as int),
    {
        self.value(i)
    }

    /// Gives up the room that no item needs.
    pub fn shrink_to_fit(&mut self)
        ensures
            final(self)@ == old(self)@,
    {
        proof {
            use_type_invariant(&*self);
        }
        let MutableFixedSizeBinaryArray { data_type, size, mut values, mut validity } = self.take();
        vec_shrink_to_fit(&mut values);
        let validity = match validity {
            Some(mut v) => {
                v.shrink_to_fit();
                Some(v)
            },
            None => None,
        };
        *self = MutableFixedSizeBinaryArray { data_type, size, values, validity };
    }

    /// The bytes of all slots.
    pub fn values(&self) -> (values: &Vec<u8>)
        ensures
            values@ == self@.values,
    {
        &self.values
    }

    /// The bytes of all slots, to be changed in place.
    pub fn values_mut_slice(&mut self) -> (slice: &mut [u8])
        ensures
            slice@ == old(self)@.values,
            final(self)@ == (FixedSizeBinaryView { values: final(slice)@, ..old(self)@ }),
    {
        proof {
            use_type_invariant(&*self);
        }
        vec_as_mut_slice(&mut self.values)
    }

    /// The number of slots.
    pub fn len(&self) -> (n: usize)
        ensures
            n == self@.len(),
            self@.wf(),
    {
        proof {
            use_type_invariant(self);
        }
        self.values.len() / self.size
    }

    /// Which slots are valid, once a null was pushed.
    pub fn validity(&self) -> (validity: Option<&MutableBitmap>)
        ensures
            self@.validity == (match validity {
                Some(v) => Some(v@),
                None => None,
            }),
    {
        match &self.validity {
            Some(v) => Some(v),
            None => None,
        }
    }

    /// The logical type of the array.
    pub fn data_type(&self) -> (data_type: &DataType)
        ensures
            data_type@ == DataTypeView::FixedSizeBinary(self@.size),
    {
        proof {
            use_type_invariant(self);
        }
        &self.data_type
    }

    /// Whether slot `i` is valid.
    pub fn is_valid(&self, i: usize) -> (b: bool)
        requires
            i < self@.len(),
        ensures
            b == self@.is_valid(i as int),
    {
        proof {
            use_type_invariant(self);
        }
        match &self.validity {
            Some(v) => v.get(i),
            None => true,
        }
    }

    /// Takes the slots out of the array, which is left empty, and returns
    /// them as an array that does not change any more.
    pub fn as_box(&mut self) -> (array: Box<FixedSizeBinaryArray>)
        ensures
            array@ == old(self)@,
            final(self)@ == (FixedSizeBinaryView {
                size: old(self)@.size,
                values: Seq::empty(),
                validity: None,
            }),
    {
        proof {
            use_type_invariant(&*self);
        }
        let MutableFixedSizeBinaryArray { data_type, size, values, validity } = self.take();
        proof {
            vstd::arithmetic::div_mod::lemma_small_mod(0, size as nat);
        }
        *self = MutableFixedSizeBinaryArray {
            data_type: DataType::FixedSizeBinary(size),
            size,
            values: Vec::new(),
            validity: None,
        };
        Box::new(
            FixedSizeBinaryArray::new(
                DataType::FixedSizeBinary(size),
                values,
                match validity {
                    Some(v) => Some(Bitmap::from_mutable(v)),
                    None => None,
                },
            ),
        )
    }

    /// Takes the slots out of the array, which is left empty, and returns
    /// them as a shared array that does not change any more.
    pub fn as_arc(&mut self) -> (array: std::sync::Arc<FixedSizeBinaryArray>)
        ensures
            array@ == old(self)@,
            final(self)@ == (FixedSizeBinaryView {
                size: old(self)@.size,
                values: Seq::empty(),
                validity: None,
            }),
    {
        let array = self.as_box();
        std::sync::Arc::new(*array)
    }

    /// The array that the slots make once they change no more.
    pub closed spec fn frozen(self) -> FixedSizeBinaryArray {
        FixedSizeBinaryArray {
            data_type: self.data_type,
            size: self.size,
            values: self.values,
            validity: match self.validity {
                Some(v) => Some(Bitmap::frozen(v)),
                None => None,
            },
        }
    }

    /// Turns the array into one that does not change any more.
    pub fn into_array(self) -> (array: FixedSizeBinaryArray)
        ensures
            array == self.frozen(),
            array@ == self@,
    {
        proof {
            use_type_invariant(&self);
        }
        let MutableFixedSizeBinaryArray { data_type, size, values, validity } = self;
        FixedSizeBinaryArray {
            data_type,
            size,
            values,
            validity: match validity {
                Some(v) => Some(Bitmap::from_mutable(v)),
                None => None,
            },
        }
    }
}

impl From<MutableFixedSizeBinaryArray> for FixedSizeBinaryArray {
    fn from(other: MutableFixedSizeBinaryArray) -> (array: Self) {
        other.into_array()
    }
}

impl vstd::std_specs::convert::FromSpecImpl<MutableFixedSizeBinaryArray> for FixedSizeBinaryArray {
    open spec fn obeys_from_spec() -> bool {
        true
    }

    open spec fn from_spec(other: MutableFixedSizeBinaryArray) -> Self {
        other.frozen()
    }
}

/// The views of items, one by one.
pub open spec fn item_views(items: Seq<Option<&[u8]>>) -> Seq<Option<Seq<u8>>> {
    Seq::new(
        items.len(),
        |i: int|
            match items[i] {
                Some(bytes) => Some(bytes@),
                None => None,
            },
    )
}

/// Pushing items keeps the size and adds one slot for each.
pub proof fn lemma_pushed_all_size(start: FixedSizeBinaryView, items: Seq<Option<Seq<u8>>>)
    requires
        start.pushed_all(items) is Some,
    ensures
        start.pushed_all(items)->0.size == start.size,
        start.pushed_all(items)->0.values.len() == start.values.len() + items.len() * start.size,
    decreases items.len(),
{
    if items.len() > 0 {
        lemma_pushed_all_size(start, items.drop_last());
        assert(items.len() * start.size == (items.len() - 1) * start.size + start.size)
            by (nonlinear_arith);
    }
}

/// Where the first items cannot be pushed, all of them cannot.
pub proof fn lemma_pushed_all_prefix(
    start: FixedSizeBinaryView,
    items: Seq<Option<Seq<u8>>>,
    k: int,
)
    requires
        0 <= k <= items.len(),
        start.pushed_all(items.take(k)) is None,
    ensures
        start.pushed_all(items) is None,
    decreases items.len(),
{
    if k < items.len() {
        assert(items.drop_last().take(k) =~= items.take(k));
        lemma_pushed_all_prefix(start, items.drop_last(), k);
    } else {
        assert(items.take(k) =~= items);
    }
}

impl MutableFixedSizeBinaryArray {
    /// Whether the two arrays have the same items. What null slots hold
    /// does not count.
    pub fn equals(&self, other: &Self) -> (b: bool)
        ensures
            b == (self@.items() == other@.items()),
    {
        if self.len() != other.len() {
            proof {
                if self@.items() == other@.items() {
                    assert(self@.items().len() == other@.items().len());
                }
            }
            return false;
        }
        let mut i: usize = 0;
        while i < self.len()
            invariant
                i <= self@.len(),
                self@.len() == other@.len(),
                forall|j: int| 0 <= j < i ==> self@.item(j) == other@.item(j),
            decreases self@.len() - i,
        {
            let a = self.is_valid(i);
            let b = other.is_valid(i);
            let differ = if a != b {
                true
            } else if a {
                !same_bytes(self.value(i), other.value(i))
            } else {
                false
            };
            if differ {
                proof {
                    if self@.items() == other@.items() {
                        assert(self@.items()[i as int] == other@.items()[i as int]);
                    }
                }
                return false;
            }
            i += 1;
        }
        proof {
            assert(self@.items() =~= other@.items());
        }
        true
    }
}

/// Whether `a` and `b` hold the same bytes.
fn same_bytes(a: &[u8], b: &[u8]) -> (r: bool)
    ensures
        r == (a@ == b@),
{
    if a.len() != b.len() {
        return false;
    }
    let mut i: usize = 0;
    while i < a.len()
        invariant
            i <= a@.len(),
            a@.len() == b@.len(),
            forall|j: int| 0 <= j < i ==> a@[j] == b@[j],
        decreases a@.len() - i,
    {
        if a[i] != b[i] {
            return false;
        }
        i += 1;
    }
    assert(a@ =~= b@);
    true
}

impl PartialEq for MutableFixedSizeBinaryArray {
    fn eq(&self, other: &Self) -> (b: bool) {
        self.equals(other)
    }
}

impl vstd::std_specs::cmp::PartialEqSpecImpl for MutableFixedSizeBinaryArray {
    open spec fn obeys_eq_spec() -> bool {
        true
    }

    open spec fn eq_spec(&self, other: &Self) -> bool {
        self@.items() == other@.items()
    }
}

} // verus!
