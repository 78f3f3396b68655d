//! Arrays of byte strings that all have one length.
use vstd::prelude::*;

use crate::bitmap::Bitmap;
use crate::datatypes::{DataType, DataTypeView};

mod mutable;

pub use mutable::{
    item_views, lemma_pushed_all_prefix, lemma_pushed_all_size, MutableFixedSizeBinaryArray,
};

verus! {

/// The mathematical value of an array of byte strings of one length: the
/// length of an item, the bytes of all slots one after the other, and, where
/// slots may be null, which of them are valid.
pub struct FixedSizeBinaryView {
    pub size: nat,
    pub values: Seq<u8>,
    pub validity: Option<Seq<bool>>,
}

impl FixedSizeBinaryView {
    /// Whether the parts fit together: the size is positive, the bytes make
    /// up whole slots, and there is one validity bit for every slot.
    pub open spec fn wf(self) -> bool {
        &&& self.size > 0
        &&& self.values.len() % self.size == 0
        &&& self.validity matches Some(v) ==> v.len() == self.values.len() / self.size
    }

    /// The number of slots.
    pub open spec fn len(self) -> nat {
        self.values.len() / self.size
    }

    /// The bytes of slot `i`.
    pub open spec fn slot(self, i: int) -> Seq<u8> {
        self.values.subrange(i * self.size, (i + 1) * self.size)
    }

    /// Whether slot `i` is valid.
    pub open spec fn is_valid(self, i: int) -> bool {
        match self.validity {
            Some(v) => v[i],
            None => true,
        }
    }

    /// The item at `i`: its bytes, or `None` where the slot is null.
    pub open spec fn item(self, i: int) -> Option<Seq<u8>> {
        if self.is_valid(i) {
            Some(self.slot(i))
        } else {
            None
        }
    }

    /// The items, one for every slot.
    pub open spec fn items(self) -> Seq<Option<Seq<u8>>> {
        Seq::new(self.len(), |i: int| self.item(i))
    }

    /// The array with one more item. A null takes a slot of zeros, and the
    /// first null brings the validity into being.
    pub open spec fn pushed(self, item: Option<Seq<u8>>) -> Self {
        match item {
            Some(bytes) => FixedSizeBinaryView {
                size: self.size,
                values: self.values + bytes,
                validity: match self.validity {
                    Some(v) => Some(v.push(true)),
                    None => None,
                },
            },
            None => FixedSizeBinaryView {
                size: self.size,
                values: self.values + Seq::new(self.size, |i: int| 0u8),
                validity: match self.validity {
                    Some(v) => Some(v.push(false)),
                    None => Some(Seq::new(self.len(), |i: int| true).push(false)),
                },
            },
        }
    }

    /// The array with all of `items` pushed, or `None` where one of them
    /// has not the size of the array.
    pub open spec fn pushed_all(self, items: Seq<Option<Seq<u8>>>) -> Option<Self>
        decreases items.len(),
    {
        if items.len() == 0 {
            Some(self)
        } else {
            match self.pushed_all(items.drop_last()) {
                Some(before) => match items.last() {
                    Some(bytes) => if bytes.len() == self.size {
                        Some(before.pushed(items.last()))
                    } else {
                        None
                    },
                    None => Some(before.pushed(None)),
                },
                None => None,
            }
        }
    }

    /// The slots of `self` and then those of `other`.
    pub open spec fn appended(self, other: Self) -> Self {
        FixedSizeBinaryView {
            size: self.size,
            values: self.values + other.values,
            validity: crate::bitmap::merged(
                self.validity,
                self.len(),
                other.validity,
                other.len(),
            ),
        }
    }

    /// The `length` slots from `offset` on.
    pub open spec fn sliced(self, offset: int, length: int) -> Self {
        FixedSizeBinaryView {
            size: self.size,
            values: self.values.subrange(offset * self.size, (offset + length) * self.size),
            validity: match self.validity {
                Some(v) => Some(v.subrange(offset, offset + length)),
                None => None,
            },
        }
    }

    /// The array without its last slot.
    pub open spec fn popped(self) -> Self {
        FixedSizeBinaryView {
            size: self.size,
            values: self.values.take(self.values.len() - self.size),
            validity: match self.validity {
                Some(v) => Some(v.drop_last()),
                None => None,
            },
        }
    }
}

/// Whole slots: a multiple of `size` holds `len / size` slots of `size`
/// bytes.
pub proof fn lemma_slots(len: int, size: int, i: int)
    requires
        size > 0,
        len >= 0,
        len % size == 0,
        0 <= i < len / size,
    ensures
        0 <= i * size,
        (i + 1) * size <= len,
        i * size + size == (i + 1) * size,
        i * size + size <= len,
        (len / size) * size == len,
        i + 1 <= len,
{
    assert(len == size * (len / size)) by {
        vstd::arithmetic::div_mod::lemma_fundamental_div_mod(len, size);
    }
    assert((i + 1) * size <= (len / size) * size) by (nonlinear_arith)
        requires
            i + 1 <= len / size,
            size > 0,
    ;
    assert(i * size >= 0) by (nonlinear_arith)
        requires
            i >= 0,
            size > 0,
    ;
    assert(i * size + size == (i + 1) * size) by (nonlinear_arith);
    assert((len / size) * size == size * (len / size)) by (nonlinear_arith);
    assert(i + 1 <= (i + 1) * size) by (nonlinear_arith)
        requires
            i + 1 >= 1,
            size >= 1,
    ;
}

/// A slot more or less: adding or removing `size` bytes changes the number
/// of slots by one.
pub proof fn lemma_slot_count(len: int, size: int)
    requires
        size > 0,
        len >= 0,
        len % size == 0,
    ensures
        (len + size) % size == 0,
        (len + size) / size == len / size + 1,
        len >= size ==> (len - size) % size == 0 && (len - size) / size == len / size - 1,
        len < size ==> len == 0 && len / size == 0,
        len >= size ==> len / size >= 1,
{
    vstd::arithmetic::div_mod::lemma_fundamental_div_mod(len, size);
    let q = len / size;
    assert(len == size * q);
    assert(size * (q + 1) == len + size) by (nonlinear_arith)
        requires
            len == size * q,
    ;
    assert(size * (q - 1) == len - size) by (nonlinear_arith)
        requires
            len == size * q,
    ;
    vstd::arithmetic::div_mod::lemma_fundamental_div_mod_converse(len + size, size, q + 1, 0);
    if len >= size {
        assert(q >= 1) by (nonlinear_arith)
            requires
                len == size * q,
                len >= size,
                size > 0,
        ;
        vstd::arithmetic::div_mod::lemma_fundamental_div_mod_converse(len - size, size, q - 1, 0);
    } else {
        assert(q <= 0) by (nonlinear_arith)
            requires
                len == size * q,
                len < size,
                size > 0,
        ;
        assert(q >= 0) by (nonlinear_arith)
            requires
                len == size * q,
                len >= 0,
                size > 0,
        ;
        assert(len == 0) by (nonlinear_arith)
            requires
                len == size * q,
                q == 0,
        ;
    }
}

/// An array of byte strings of one length that does not change any more.
#[derive(Debug, PartialEq, Eq)]
pub struct FixedSizeBinaryArray {
    data_type: DataType,
    size: usize,
    values: Vec<u8>,
    validity: Option<Bitmap>,
}

impl View for FixedSizeBinaryArray {
    type V = FixedSizeBinaryView;

    closed spec fn view(&self) -> FixedSizeBinaryView {
        FixedSizeBinaryView {
            size: self.size as nat,
            values: self.values@,
            validity: match self.validity {
                Some(v) => Some(v@),
                None => None,
            },
        }
    }
}

impl FixedSizeBinaryArray {
    /// What holds of every array that executable code can hold.
    #[verifier::type_invariant]
    pub closed spec fn inv(&self) -> bool {
        self@.wf() && self.data_type@ == DataTypeView::FixedSizeBinary(self.size as nat)
    }

    /// The size that `data_type` gives to every item, if it is a type of
    /// byte strings of one length.
    pub open spec fn size_of(data_type: DataTypeView) -> Option<nat> {
        match data_type {
            DataTypeView::FixedSizeBinary(size) => Some(size),
            _ => None,
        }
    }

    /// The size that `data_type` gives to every item.
    pub fn get_size(data_type: &DataType) -> (size: usize)
        requires
            Self::size_of(data_type@) is Some,
        ensures
            Self::size_of(data_type@) == Some(size as nat),
    {
        match data_type {
            DataType::FixedSizeBinary(size) => *size,
            _ => vstd::pervasive::unreached(),
        }
    }

    /// Puts an array together from its parts.
    pub fn new(data_type: DataType, values: Vec<u8>, validity: Option<Bitmap>) -> (array: Self)
        requires
            Self::size_of(data_type@) matches Some(size) && (FixedSizeBinaryView {
                size,
                values: values@,
                validity: match validity {
                    Some(v) => Some(v@),
                    None => None,
                },
            }).wf(),
        ensures
            array@ == (FixedSizeBinaryView {
                size: Self::size_of(data_type@)->0,
                values: values@,
                validity: match validity {
                    Some(v) => Some(v@),
                    None => None,
                },
            }),
    {
        let size = Self::get_size(&data_type);
        FixedSizeBinaryArray { data_type, size, values, validity }
    }

    /// The number of slots.
    pub fn len(&self) -> (n: usize)
        ensures
            n == self@.len(),
            self@.wf(),
    {
        proof {
            use_type_invariant(self);
        }
        self.values.len() / self.size
    }

    /// The size of every item.
    pub fn size(&self) -> (size: usize)
        ensures
            size == self@.size,
    {
        self.size
    }

    /// The bytes of all slots.
    pub fn values(&self) -> (values: &Vec<u8>)
        ensures
            values@ == self@.values,
    {
        &self.values
    }

    /// Which slots are valid, where slots may be null.
    pub fn validity(&self) -> (validity: Option<&Bitmap>)
        ensures
            self@.validity == (match validity {
                Some(v) => Some(v@),
                None => None,
            }),
    {
        match &self.validity {
            Some(v) => Some(v),
            None => None,
        }
    }

    /// The logical type of the array.
    pub fn data_type(&self) -> (data_type: &DataType)
        ensures
            data_type@ == DataTypeView::FixedSizeBinary(self@.size),
    {
        proof {
            use_type_invariant(self);
        }
        &self.data_type
    }

    /// The slots of `self` and then those of `other`, which has items of
    /// the same size. `None` where the bytes are more than a `usize` can
    /// count.
    pub fn append(&self, other: &Self) -> (all: Option<Self>)
        requires
            self@.size == other@.size,
        ensures
            match all {
                Some(all) => all@ == self@.appended(other@),
                None => self@.values.len() + other@.values.len() > usize::MAX,
            },
    {
        proof {
            use_type_invariant(self);
            use_type_invariant(other);
        }
        let a_len = self.values.len();
        let b_len = other.values.len();
        if b_len > usize::MAX - a_len {
            return None;
        }
        let size = self.size;
        proof {
            let s = size as int;
            vstd::arithmetic::div_mod::lemma_fundamental_div_mod(a_len as int, s);
            vstd::arithmetic::div_mod::lemma_fundamental_div_mod(b_len as int, s);
            let qa = a_len as int / s;
            let qb = b_len as int / s;
            assert(s * (qa + qb) == s * qa + s * qb) by (nonlinear_arith);
            assert(qa >= 0 && qb >= 0);
            vstd::arithmetic::div_mod::lemma_fundamental_div_mod_converse(
                a_len + b_len,
                s,
                qa + qb,
                0,
            );
            assert(qa <= a_len) by (nonlinear_arith)
                requires
                    a_len == s * qa,
                    s >= 1,
                    qa >= 0,
            ;
            assert(qb <= b_len) by (nonlinear_arith)
                requires
                    b_len == s * qb,
                    s >= 1,
                    qb >= 0,
            ;
        }
        let mut values = vstd::slice::slice_to_vec(self.values.as_slice());
        values.extend_from_slice(other.values.as_slice());
        let validity = crate::bitmap::merge_validity(
            match &self.validity {
                Some(v) => Some(v),
                None => None,
            },
            a_len / size,
            match &other.validity {
                Some(v) => Some(v),
                None => None,
            },
            b_len / size,
        );
        let all = FixedSizeBinaryArray { data_type: self.data_type.clone(), size, values, validity };
        proof {
            let want = self@.appended(other@);
            assert(all@.size == want.size);
            assert(all@.values == want.values);
            assert(a_len / size == self@.len());
            assert(b_len / size == other@.len());
            assert(all@.validity == want.validity);
        }
        Some(all)
    }

    /// A copy of the `length` slots from `offset` on.
    pub fn slice(&self, offset: usize, length: usize) -> (part: Self)
        requires
            offset + length <= self@.len(),
        ensures
            part@ == self@.sliced(offset as int, length as int),
    {
        let size = self.size;
        let len = self.values.len();
        proof {
            use_type_invariant(self);
            let n = len as int;
            let s = size as int;
            vstd::arithmetic::div_mod::lemma_fundamental_div_mod(n, s);
            assert((offset + length) * s <= (n / s) * s) by (nonlinear_arith)
                requires
                    offset + length <= n / s,
                    s > 0,
            ;
            assert((n / s) * s == s * (n / s)) by (nonlinear_arith);
            assert(offset * s <= (offset + length) * s) by (nonlinear_arith)
                requires
                    s > 0,
                    length >= 0,
            ;
            assert((offset + length) * s == offset * s + length * s) by (nonlinear_arith);
            assert(0 <= offset * s) by (nonlinear_arith)
                requires
                    s > 0,
                    offset >= 0,
            ;
            assert(0 <= length * s) by (nonlinear_arith)
                requires
                    s > 0,
                    length >= 0,
            ;
            vstd::arithmetic::div_mod::lemma_fundamental_div_mod_converse(
                length * s,
                s,
                length as int,
                0,
            );
        }
        let start = offset * size;
        let count = length * size;
        let part = vstd::slice::slice_subrange(self.values.as_slice(), start, start + count);
        let values = vstd::slice::slice_to_vec(part);
        let validity = match &self.validity {
            Some(v) => Some(v.slice(offset, length)),
            None => None,
        };
        FixedSizeBinaryArray { data_type: self.data_type.clone(), size, values, validity }
    }

    /// The bytes of slot `i`.
    pub fn value(&self, i: usize) -> (value: &[u8])
        requires
            i < self@.len(),
        ensures
            value@ == self@.slot(i as int),
    {
        let size = self.size;
        let len = self.values.len();
        proof {
            use_type_invariant(self);
            lemma_slots(len as int, size as int, i as int);
        }
        let start = i * size;
        vstd::slice::slice_subrange(self.values.as_slice(), start, start + size)
    }
}

} // verus!
