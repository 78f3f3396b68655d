//! Arrays of byte strings and of texts of variable length.
use vstd::prelude::*;
use vstd::utf8::{decode_utf8, valid_utf8};

use crate::bitmap::{Bitmap, MutableBitmap};
use crate::datatypes::{DataType, DataTypeView};
use crate::types::Offset;

verus! {

/// The mathematical value of an array of items of variable length: where
/// every item starts and the last one ends, the bytes of all items, and,
/// where slots may be null, which of them are valid.
pub struct BinaryView {
    pub offsets: Seq<int>,
    pub values: Seq<u8>,
    pub validity: Option<Seq<bool>>,
}

impl BinaryView {
    /// No slots: one offset, which is zero, no bytes and no validity.
    pub open spec fn empty() -> Self {
        BinaryView { offsets: seq![0int], values: Seq::empty(), validity: None }
    }

    /// Whether the parts fit together: the offsets start at zero or later,
    /// never decrease and stay within the bytes, and there is one validity
    /// bit for every slot.
    pub open spec fn wf(self) -> bool {
        &&& self.offsets.len() >= 1
        &&& 0 <= self.offsets[0]
        &&& forall|i: int, j: int|
            0 <= i <= j < self.offsets.len() ==> #[trigger] self.offsets[i]
                <= #[trigger] self.offsets[j]
        &&& self.offsets.last() <= self.values.len()
        &&& self.validity matches Some(v) ==> v.len() == self.offsets.len() - 1
    }

    /// The number of slots.
    pub open spec fn len(self) -> nat {
        (self.offsets.len() - 1) as nat
    }

    /// The bytes of slot `i`.
    pub open spec fn slot(self, i: int) -> Seq<u8> {
        self.values.subrange(self.offsets[i], self.offsets[i + 1])
    }

    /// Whether slot `i` is valid.
    pub open spec fn is_valid(self, i: int) -> bool {
        match self.validity {
            Some(v) => v[i],
            None => true,
        }
    }

    /// The item at `i`: its bytes, or `None` where the slot is null.
    pub open spec fn item(self, i: int) -> Option<Seq<u8>> {
        if self.is_valid(i) {
            Some(self.slot(i))
        } else {
            None
        }
    }

    /// The items, one for every slot.
    pub open spec fn items(self) -> Seq<Option<Seq<u8>>> {
        Seq::new(self.len(), |i: int| self.item(i))
    }

    /// The item at `i` read as text, or `None` where the slot is null.
    pub open spec fn text(self, i: int) -> Option<Seq<char>> {
        match self.item(i) {
            Some(bytes) => Some(decode_utf8(bytes)),
            None => None,
        }
    }

    /// The `length` slots from `offset` on, over the same bytes.
    pub open spec fn sliced(self, offset: int, length: int) -> Self {
        BinaryView {
            offsets: self.offsets.subrange(offset, offset + length + 1),
            values: self.values,
            validity: match self.validity {
                Some(v) => Some(v.subrange(offset, offset + length)),
                None => None,
            },
        }
    }

    /// The offsets of `offsets` and then those of `other`: each run is
    /// moved so that the first begins at zero and the second where the
    /// first ends.
    pub open spec fn joined_offsets(offsets: Seq<int>, other: Seq<int>) -> Seq<int> {
        Seq::new(
            (offsets.len() + other.len() - 1) as nat,
            |i: int|
                if i < offsets.len() {
                    offsets[i] - offsets[0]
                } else {
                    other[i - offsets.len() + 1] - other[0] + (offsets.last() - offsets[0])
                },
        )
    }

    /// The slots of `self` and then those of `other`, over the bytes that
    /// the slots of each span.
    pub open spec fn appended(self, other: Self) -> Self {
        BinaryView {
            offsets: Self::joined_offsets(self.offsets, other.offsets),
            values: self.values.subrange(self.offsets[0], self.offsets.last())
                + other.values.subrange(other.offsets[0], other.offsets.last()),
            validity: crate::bitmap::merged(
                self.validity,
                self.len(),
                other.validity,
                other.len(),
            ),
        }
    }

    /// The bytes that the slots span.
    pub open spec fn span(self) -> int {
        self.offsets.last() - self.offsets[0]
    }

    /// Whether the bytes of every slot are UTF-8.
    pub open spec fn is_text(self) -> bool {
        forall|i: int| 0 <= i < self.len() ==> valid_utf8(#[trigger] self.slot(i))
    }
}

/// The numbers that offsets stand for.
pub open spec fn numbers<O: Offset>(offsets: Seq<O>) -> Seq<int> {
    Seq::new(offsets.len(), |i: int| offsets[i].number())
}

/// The view of an optional bitmap.
pub open spec fn opt_bits(validity: Option<Bitmap>) -> Option<Seq<bool>> {
    match validity {
        Some(v) => Some(v@),
        None => None,
    }
}

/// `copies` copies of `bytes`, one after the other.
pub open spec fn repeated(bytes: Seq<u8>, copies: nat) -> Seq<u8>
    decreases copies,
{
    if copies == 0 {
        Seq::empty()
    } else {
        repeated(bytes, (copies - 1) as nat) + bytes
    }
}

/// Copies make up as many bytes as their number times the length of one.
pub proof fn lemma_repeated_len(bytes: Seq<u8>, copies: nat)
    ensures
        repeated(bytes, copies).len() == copies * bytes.len(),
    decreases copies,
{
    if copies > 0 {
        lemma_repeated_len(bytes, (copies - 1) as nat);
        assert(copies * bytes.len() == (copies - 1) * bytes.len() + bytes.len())
            by (nonlinear_arith);
    } else {
        assert(copies * bytes.len() == 0) by (nonlinear_arith)
            requires
                copies == 0,
        ;
    }
}

/// Copy `i` of `copies` stands at `i` times the length of one.
pub proof fn lemma_repeated_slot(bytes: Seq<u8>, copies: nat, i: nat)
    requires
        i < copies,
    ensures
        i * bytes.len() + bytes.len() == (i + 1) * bytes.len(),
        (i + 1) * bytes.len() <= repeated(bytes, copies).len(),
        repeated(bytes, copies).subrange(
            (i * bytes.len()) as int,
            ((i + 1) * bytes.len()) as int,
        ) == bytes,
    decreases copies,
{
    lemma_repeated_len(bytes, copies);
    lemma_repeated_len(bytes, (copies - 1) as nat);
    assert(i * bytes.len() + bytes.len() == (i + 1) * bytes.len()) by (nonlinear_arith);
    assert((i + 1) * bytes.len() <= copies * bytes.len()) by (nonlinear_arith)
        requires
            i + 1 <= copies,
    ;
    let all = repeated(bytes, copies);
    let init = repeated(bytes, (copies - 1) as nat);
    if i + 1 == copies {
        assert(all.subrange((i * bytes.len()) as int, ((i + 1) * bytes.len()) as int) =~= bytes);
    } else {
        lemma_repeated_slot(bytes, (copies - 1) as nat, i);
        assert(all.subrange((i * bytes.len()) as int, ((i + 1) * bytes.len()) as int)
            =~= init.subrange((i * bytes.len()) as int, ((i + 1) * bytes.len()) as int));
    }
}

/// The slots of two arrays one after the other are the slots of the first
/// and then those of the second.
pub proof fn lemma_appended_slots(a: BinaryView, b: BinaryView)
    requires
        a.wf(),
        b.wf(),
    ensures
        a.appended(b).wf(),
        a.appended(b).len() == a.len() + b.len(),
        forall|i: int| 0 <= i < a.len() ==> #[trigger] a.appended(b).slot(i) == a.slot(i),
        forall|i: int|
            a.len() <= i < a.len() + b.len() ==> #[trigger] a.appended(b).slot(i) == b.slot(
                i - a.len(),
            ),
{
    let c = a.appended(b);
    let n = a.offsets.len() as int;
    assert forall|i: int, j: int| 0 <= i <= j < c.offsets.len() implies #[trigger] c.offsets[i]
        <= #[trigger] c.offsets[j] by {
        if j < n {
            assert(a.offsets[i] <= a.offsets[j]);
        } else if i < n {
            assert(a.offsets[i] <= a.offsets[n - 1]);
            assert(b.offsets[0] <= b.offsets[j - n + 1]);
        } else {
            assert(b.offsets[i - n + 1] <= b.offsets[j - n + 1]);
        }
    }
    assert(a.offsets[0] <= a.offsets[n - 1]);
    assert(b.offsets[0] <= b.offsets[b.offsets.len() - 1]);
    assert(c.validity matches Some(v) ==> v.len() == c.offsets.len() - 1);
    assert forall|i: int| 0 <= i < a.len() implies #[trigger] c.slot(i) == a.slot(i) by {
        assert(a.offsets[0] <= a.offsets[i]);
        assert(a.offsets[i] <= a.offsets[i + 1]);
        assert(a.offsets[i + 1] <= a.offsets[n - 1]);
        assert(c.slot(i) =~= a.slot(i));
    }
    assert forall|i: int| a.len() <= i < a.len() + b.len() implies #[trigger] c.slot(i) == b.slot(
        i - a.len(),
    ) by {
        let k = i - a.len();
        assert(b.offsets[0] <= b.offsets[k]);
        assert(b.offsets[k] <= b.offsets[k + 1]);
        assert(b.offsets[k + 1] <= b.offsets[b.offsets.len() - 1]);
        if k == 0 {
            assert(c.offsets[i] == a.offsets[n - 1] - a.offsets[0]);
        }
        assert(c.slot(i) =~= b.slot(k));
    }
}

/// An array of byte strings of variable length.
#[derive(Debug)]
pub struct BinaryArray<O: Offset> {
    data_type: DataType,
    offsets: Vec<O>,
    values: Vec<u8>,
    validity: Option<Bitmap>,
}

impl<O: Offset> View for BinaryArray<O> {
    type V = BinaryView;

    closed spec fn view(&self) -> BinaryView {
        BinaryView {
            offsets: numbers(self.offsets@),
            values: self.values@,
            validity: opt_bits(self.validity),
        }
    }
}

impl<O: Offset> BinaryArray<O> {
    /// What holds of every array that executable code can hold.
    #[verifier::type_invariant]
    pub closed spec fn inv(&self) -> bool {
        self@.wf()
    }

    /// The logical type of the array.
    pub closed spec fn logical_type(&self) -> DataTypeView {
        self.data_type@
    }

    /// The logical type of byte strings with offsets `O`.
    pub open spec fn default_type() -> DataTypeView {
        if O::large() {
            DataTypeView::LargeBinary
        } else {
            DataTypeView::Binary
        }
    }

    /// Returns the logical type of byte strings with offsets `O`.
    pub fn default_data_type() -> (data_type: DataType)
        ensures
            data_type@ == Self::default_type(),
    {
        if O::is_large() {
            DataType::LargeBinary
        } else {
            DataType::Binary
        }
    }

    /// Puts an array together from its parts.
    pub fn from_data(offsets: Vec<O>, values: Vec<u8>, validity: Option<Bitmap>) -> (array: Self)
        requires
            (BinaryView {
                offsets: numbers(offsets@),
                values: values@,
                validity: opt_bits(validity),
            }).wf(),
        ensures
            array@ == (BinaryView {
                offsets: numbers(offsets@),
                values: values@,
                validity: opt_bits(validity),
            }),
            array.logical_type() == Self::default_type(),
    {
        BinaryArray { data_type: Self::default_data_type(), offsets, values, validity }
    }

    /// Creates an array without slots.
    pub fn new_empty() -> (array: Self)
        ensures
            array@ == BinaryView::empty(),
            array.logical_type() == Self::default_type(),
    {
        let mut offsets: Vec<O> = Vec::new();
        offsets.push(O::zero());
        assert(numbers(offsets@) =~= seq![0int]);
        let array = Self::from_data(offsets, Vec::new(), None);
        assert(array@.values =~= Seq::<u8>::empty());
        array
    }

    /// Creates an array of `length` nulls.
    pub fn new_null(length: usize) -> (array: Self)
        requires
            length < usize::MAX,
        ensures
            array@.len() == length,
            array@.values.len() == 0,
            forall|i: int| 0 <= i < length ==> array@.item(i) is None,
    {
        let zero = O::zero();
        let mut offsets: Vec<O> = Vec::new();
        let mut i: usize = 0;
        while i < length + 1
            invariant
                i <= length + 1,
                length < usize::MAX,
                offsets@.len() == i,
                zero.number() == 0,
                forall|j: int| 0 <= j < i ==> (#[trigger] offsets@[j]).number() == 0,
            decreases length + 1 - i,
        {
            offsets.push(zero);
            i += 1;
        }
        let mut validity = MutableBitmap::new();
        validity.extend_constant(length, false);
        let validity = Bitmap::from_mutable(validity);
        Self::from_data(offsets, Vec::new(), Some(validity))
    }

    /// The slots of `self` and then those of `other`. `None` where the slots
    /// are more than a `usize`, or their bytes more than an offset, can
    /// count.
    pub fn append(&self, other: &Self) -> (all: Option<Self>)
        ensures
            match all {
                Some(all) => all@ == self@.appended(other@) && all.logical_type()
                    == self.logical_type(),
                None => self@.len() + other@.len() + 1 > usize::MAX || self@.span() + other@.span()
                    > O::limit() || self@.span() + other@.span() > usize::MAX,
            },
    {
        proof {
            use_type_invariant(self);
            use_type_invariant(other);
            lemma_appended_slots(self@, other@);
        }
        let a_n = self.offsets.len();
        let b_n = other.offsets.len();
        let a_bytes = self.values.len();
        let b_bytes = other.values.len();
        if b_n - 1 > usize::MAX - a_n {
            return None;
        }
        proof {
            let o = self@.offsets;
            let p = other@.offsets;
            assert(o[0] <= o[a_n - 1]);
            assert(p[0] <= p[b_n - 1]);
        }
        let fa = self.offsets[0].to_usize();
        let la = self.offsets[a_n - 1].to_usize();
        let fb = other.offsets[0].to_usize();
        let lb = other.offsets[b_n - 1].to_usize();
        let span = la - fa;
        if lb - fb > usize::MAX - span {
            return None;
        }
        match O::from_usize(span + (lb - fb)) {
            Some(_) => {},
            None => {
                return None;
            },
        }
        let mut offsets: Vec<O> = Vec::new();
        let ghost want = self@.appended(other@);
        let mut i: usize = 0;
        while i < a_n
            invariant
                i <= a_n,
                a_n == self.offsets@.len(),
                b_n == other.offsets@.len(),
                self@.wf(),
                other@.wf(),
                fa == self@.offsets[0],
                la == self@.offsets[a_n - 1],
                fa <= la,
                fb <= lb,
                span + (lb - fb) <= O::limit(),
                span == self@.span(),
                want == self@.appended(other@),
                offsets@.len() == i,
                forall|j: int| 0 <= j < i ==> (#[trigger] offsets@[j]).number() == want.offsets[j],
            decreases a_n - i,
        {
            proof {
                let o = self@.offsets;
                assert(o[0] <= o[i as int]);
                assert(o[i as int] <= o[a_n - 1]);
            }
            let moved = match O::from_usize(self.offsets[i].to_usize() - fa) {
                Some(moved) => moved,
                None => vstd::pervasive::unreached(),
            };
            offsets.push(moved);
            i += 1;
        }
        let mut j: usize = 1;
        while j < b_n
            invariant
                1 <= j <= b_n,
                a_n == self.offsets@.len(),
                b_n == other.offsets@.len(),
                a_n + b_n - 1 <= usize::MAX,
                other@.wf(),
                self@.wf(),
                fb == other@.offsets[0],
                lb == other@.offsets[b_n - 1],
                fb <= lb,
                span + (lb - fb) <= O::limit(),
                span + (lb - fb) <= usize::MAX,
                span == self@.span(),
                want == self@.appended(other@),
                offsets@.len() == a_n + j - 1,
                forall|k: int|
                    0 <= k < a_n + j - 1 ==> (#[trigger] offsets@[k]).number() == want.offsets[k],
            decreases b_n - j,
        {
            proof {
                let p = other@.offsets;
                assert(p[0] <= p[j as int]);
                assert(p[j as int] <= p[b_n - 1]);
            }
            let moved = match O::from_usize(other.offsets[j].to_usize() - fb + span) {
                Some(moved) => moved,
                None => vstd::pervasive::unreached(),
            };
            offsets.push(moved);
            j += 1;
        }
        let first = vstd::slice::slice_subrange(self.values.as_slice(), fa, la);
        let second = vstd::slice::slice_subrange(other.values.as_slice(), fb, lb);
        let mut values = vstd::slice::slice_to_vec(first);
        values.extend_from_slice(second);
        let validity = crate::bitmap::merge_validity(
            match &self.validity {
                Some(v) => Some(v),
                None => None,
            },
            a_n - 1,
            match &other.validity {
                Some(v) => Some(v),
                None => None,
            },
            b_n - 1,
        );
        let all = BinaryArray { data_type: self.data_type.clone(), offsets, values, validity };
        proof {
            assert(numbers(all.offsets@) =~= want.offsets);
            assert(all@.values == want.values);
            assert(all@.validity == want.validity);
        }
        Some(all)
    }

    /// A copy of the `length` slots from `offset` on.
    pub fn slice(&self, offset: usize, length: usize) -> (part: Self)
        requires
            offset + length <= self@.len(),
        ensures
            part@ == self@.sliced(offset as int, length as int),
            part.logical_type() == self.logical_type(),
    {
        proof {
            use_type_invariant(self);
        }
        let n = self.offsets.len();
        let mut offsets: Vec<O> = Vec::new();
        let mut i: usize = 0;
        while i < length + 1
            invariant
                i <= length + 1,
                offset + length + 1 <= n,
                n == self.offsets@.len(),
                offsets@ == self.offsets@.subrange(offset as int, offset + i),
            decreases length + 1 - i,
        {
            offsets.push(self.offsets[offset + i]);
            i += 1;
            assert(offsets@ =~= self.offsets@.subrange(offset as int, offset + i));
        }
        let validity = match &self.validity {
            Some(v) => Some(v.slice(offset, length)),
            None => None,
        };
        let values = self.values.clone();
        proof {
            let want = self@.sliced(offset as int, length as int);
            assert(numbers(offsets@) =~= want.offsets);
            assert forall|a: int, b: int| 0 <= a <= b < want.offsets.len() implies #[trigger] want.offsets[a]
                <= #[trigger] want.offsets[b] by {
                assert(self@.offsets[offset + a] <= self@.offsets[offset + b]);
            }
            assert(self@.offsets[0] <= self@.offsets[offset as int]);
            assert(self@.offsets[offset + length] <= self@.offsets[self@.offsets.len() - 1]);
        }
        BinaryArray { data_type: self.data_type.clone(), offsets, values, validity }
    }

    /// The number of slots.
    pub fn len(&self) -> (n: usize)
        ensures
            n == self@.len(),
            self@.wf(),
    {
        proof {
            use_type_invariant(self);
        }
        self.offsets.len() - 1
    }

    /// The logical type of the array.
    pub fn data_type(&self) -> (data_type: &DataType)
        ensures
            data_type@ == self.logical_type(),
    {
        &self.data_type
    }

    /// Whether slot `i` is valid.
    pub fn is_valid(&self, i: usize) -> (b: bool)
        requires
            i < self@.len(),
        ensures
            b == self@.is_valid(i as int),
    {
        proof {
            use_type_invariant(self);
        }
        match &self.validity {
            Some(v) => v.get_bit(i),
            None => true,
        }
    }

    /// The bytes of a slot are not more than the offsets can count.
    pub proof fn lemma_slot_fits(&self, i: int)
        requires
            self.inv(),
            0 <= i < self@.len(),
        ensures
            self@.slot(i).len() <= O::limit(),
            0 <= O::limit(),
    {
        let o = self@.offsets;
        assert(o[0] <= o[i]);
        assert(o[i] <= o[i + 1]);
        assert(o[i + 1] <= o[o.len() - 1]);
        O::lemma_bounded(self.offsets@[i + 1]);
    }

    /// The bytes of slot `i`.
    pub fn value(&self, i: usize) -> (value: &[u8])
        requires
            i < self@.len(),
        ensures
            value@ == self@.slot(i as int),
    {
        proof {
            use_type_invariant(self);
            let o = self@.offsets;
            assert(o[0] <= o[i as int]);
            assert(o[i as int] <= o[i + 1]);
            assert(o[i + 1] <= o[o.len() - 1]);
        }
        let n = self.values.len();
        let slots = self.offsets.len();
        let start = self.offsets[i].to_usize();
        let end = self.offsets[i + 1].to_usize();
        vstd::slice::slice_subrange(self.values.as_slice(), start, end)
    }

    /// Creates an array of `length` copies of `value`, all valid.
    pub fn repeat(value: &[u8], length: usize) -> (array: Self)
        requires
            length < usize::MAX,
            length * value@.len() <= O::limit(),
            length * value@.len() <= usize::MAX,
        ensures
            array@.len() == length,
            array@.validity is None,
            forall|i: int| 0 <= i < length ==> array@.slot(i) == value@,
    {
        let size = value.len();
        let mut offsets: Vec<O> = Vec::new();
        let mut values: Vec<u8> = Vec::new();
        offsets.push(O::zero());
        let mut i: usize = 0;
        assert(repeated(value@, 0) =~= Seq::<u8>::empty());
        assert(0 * size == 0) by (nonlinear_arith);
        while i < length
            invariant
                i <= length,
                size == value@.len(),
                length * size <= O::limit(),
                length * size <= usize::MAX,
                offsets@.len() == i + 1,
                values@ == repeated(value@, i as nat),
                forall|j: int| 0 <= j <= i ==> (#[trigger] offsets@[j]).number() == j * size,
            decreases length - i,
        {
            proof {
                lemma_repeated_len(value@, i as nat);
                assert((i + 1) * size <= length * size) by (nonlinear_arith)
                    requires
                        i + 1 <= length,
                ;
                assert((i + 1) * size == i * size + size) by (nonlinear_arith);
            }
            values.extend_from_slice(value);
            let end = match O::from_usize(values.len()) {
                Some(end) => end,
                None => vstd::pervasive::unreached(),
            };
            offsets.push(end);
            i += 1;
        }
        proof {
            let o = numbers(offsets@);
            assert forall|a: int, b: int| 0 <= a <= b < o.len() implies #[trigger] o[a]
                <= #[trigger] o[b] by {
                assert(offsets@[a].number() == a * size);
                assert(offsets@[b].number() == b * size);
                assert(a * size <= b * size) by (nonlinear_arith)
                    requires
                        a <= b,
                        size >= 0,
                ;
            }
            assert(offsets@[0].number() == 0 * size);
            assert(offsets@[length as int].number() == length * size);
            lemma_repeated_len(value@, length as nat);
        }
        let array = Self::from_data(offsets, values, None);
        proof {
            assert forall|i: int| 0 <= i < length implies array@.slot(i) == value@ by {
                assert(offsets@[i].number() == i * size);
                assert(offsets@[i + 1].number() == (i + 1) * size);
                lemma_repeated_slot(value@, length as nat, i as nat);
            }
        }
        array
    }
}

/// An array of texts of variable length: byte strings that are UTF-8.
#[derive(Debug)]
pub struct Utf8Array<O: Offset> {
    data_type: DataType,
    bytes: BinaryArray<O>,
}

impl<O: Offset> View for Utf8Array<O> {
    type V = BinaryView;

    closed spec fn view(&self) -> BinaryView {
        self.bytes@
    }
}

impl<O: Offset> Utf8Array<O> {
    /// What holds of every array that executable code can hold.
    #[verifier::type_invariant]
    pub closed spec fn inv(&self) -> bool {
        self@.wf() && self@.is_text()
    }

    /// The logical type of the array.
    pub closed spec fn logical_type(&self) -> DataTypeView {
        self.data_type@
    }

    /// The logical type of texts with offsets `O`.
    pub open spec fn default_type() -> DataTypeView {
        if O::large() {
            DataTypeView::LargeUtf8
        } else {
            DataTypeView::Utf8
        }
    }

    /// Returns the logical type of texts with offsets `O`.
    pub fn default_data_type() -> (data_type: DataType)
        ensures
            data_type@ == Self::default_type(),
    {
        if O::is_large() {
            DataType::LargeUtf8
        } else {
            DataType::Utf8
        }
    }

    /// Puts an array together from its parts.
    pub fn from_data(offsets: Vec<O>, values: Vec<u8>, validity: Option<Bitmap>) -> (array: Self)
        requires
            (BinaryView {
                offsets: numbers(offsets@),
                values: values@,
                validity: opt_bits(validity),
            }).wf(),
            (BinaryView {
                offsets: numbers(offsets@),
                values: values@,
                validity: opt_bits(validity),
            }).is_text(),
        ensures
            array@ == (BinaryView {
                offsets: numbers(offsets@),
                values: values@,
                validity: opt_bits(validity),
            }),
            array.logical_type() == Self::default_type(),
    {
        Utf8Array {
            data_type: Self::default_data_type(),
            bytes: BinaryArray::from_data(offsets, values, validity),
        }
    }

    /// Creates an array without slots.
    pub fn new_empty() -> (array: Self)
        ensures
            array@ == BinaryView::empty(),
            array.logical_type() == Self::default_type(),
    {
        let bytes = BinaryArray::<O>::new_empty();
        proof {
            use_type_invariant(&bytes);
        }
        Utf8Array { data_type: Self::default_data_type(), bytes }
    }

    /// Creates an array of `length` nulls.
    pub fn new_null(length: usize) -> (array: Self)
        requires
            length < usize::MAX,
        ensures
            array@.len() == length,
            forall|i: int| 0 <= i < length ==> array@.item(i) is None,
    {
        let bytes = BinaryArray::<O>::new_null(length);
        proof {
            use_type_invariant(&bytes);
            assert forall|i: int| 0 <= i < bytes@.len() implies valid_utf8(
                #[trigger] bytes@.slot(i),
            ) by {
                assert(bytes@.slot(i) =~= Seq::<u8>::empty());
            }
        }
        Utf8Array { data_type: Self::default_data_type(), bytes }
    }

    /// Creates an array of `length` copies of `value`, all valid.
    pub fn repeat(value: &str, length: usize) -> (array: Self)
        requires
            length < usize::MAX,
            length * vstd::utf8::encode_utf8(value@).len() <= O::limit(),
            length * vstd::utf8::encode_utf8(value@).len() <= usize::MAX,
        ensures
            array@.len() == length,
            array@.validity is None,
            forall|i: int| 0 <= i < length ==> array@.slot(i) == vstd::utf8::encode_utf8(value@),
    {
        let bytes = BinaryArray::<O>::repeat(value.as_bytes(), length);
        proof {
            use_type_invariant(&bytes);
            vstd::utf8::encode_utf8_valid_utf8(value@);
            assert forall|i: int| 0 <= i < bytes@.len() implies valid_utf8(
                #[trigger] bytes@.slot(i),
            ) by {
                assert(bytes@.slot(i) == vstd::utf8::encode_utf8(value@));
            }
        }
        Utf8Array { data_type: Self::default_data_type(), bytes }
    }

    /// The number of slots.
    pub fn len(&self) -> (n: usize)
        ensures
            n == self@.len(),
            self@.wf(),
    {
        self.bytes.len()
    }

    /// The logical type of the array.
    pub fn data_type(&self) -> (data_type: &DataType)
        ensures
            data_type@ == self.logical_type(),
    {
        &self.data_type
    }

    /// Whether slot `i` is valid.
    pub fn is_valid(&self, i: usize) -> (b: bool)
        requires
            i < self@.len(),
        ensures
            b == self@.is_valid(i as int),
    {
        self.bytes.is_valid(i)
    }

    /// The slots of `self` and then those of `other`. `None` where the slots
    /// are more than a `usize`, or their bytes more than an offset, can
    /// count.
    pub fn append(&self, other: &Self) -> (all: Option<Self>)
        ensures
            match all {
                Some(all) => all@ == self@.appended(other@) && all.logical_type()
                    == self.logical_type(),
                None => self@.len() + other@.len() + 1 > usize::MAX || self@.span() + other@.span()
                    > O::limit() || self@.span() + other@.span() > usize::MAX,
            },
    {
        proof {
            use_type_invariant(self);
            use_type_invariant(other);
            lemma_appended_slots(self@, other@);
        }
        match self.bytes.append(&other.bytes) {
            Some(bytes) => {
                proof {
                    assert forall|i: int| 0 <= i < bytes@.len() implies valid_utf8(
                        #[trigger] bytes@.slot(i),
                    ) by {
                        if i < self@.len() {
                            assert(bytes@.slot(i) == self@.slot(i));
                        } else {
                            assert(bytes@.slot(i) == other@.slot(i - self@.len()));
                        }
                    }
                }
                Some(Utf8Array { data_type: self.data_type.clone(), bytes })
            },
            None => None,
        }
    }

    /// A copy of the `length` slots from `offset` on.
    pub fn slice(&self, offset: usize, length: usize) -> (part: Self)
        requires
            offset + length <= self@.len(),
        ensures
            part@ == self@.sliced(offset as int, length as int),
            part.logical_type() == self.logical_type(),
    {
        proof {
            use_type_invariant(self);
        }
        let bytes = self.bytes.slice(offset, length);
        proof {
            assert forall|i: int| 0 <= i < bytes@.len() implies valid_utf8(
                #[trigger] bytes@.slot(i),
            ) by {
                assert(bytes@.slot(i) == self@.slot(offset + i));
            }
        }
        Utf8Array { data_type: self.data_type.clone(), bytes }
    }

    /// The bytes of a slot are not more than the offsets can count.
    pub proof fn lemma_slot_fits(&self, i: int)
        requires
            self.inv(),
            0 <= i < self@.len(),
        ensures
            self@.slot(i).len() <= O::limit(),
            0 <= O::limit(),
            valid_utf8(self@.slot(i)),
    {
        self.bytes.lemma_slot_fits(i);
    }

    /// The text of slot `i`.
    pub fn value(&self, i: usize) -> (value: &str)
        requires
            i < self@.len(),
        ensures
            value@ == decode_utf8(self@.slot(i as int)),
    {
        proof {
            use_type_invariant(self);
        }
        let bytes = self.bytes.value(i);
        match simdutf8::basic::from_utf8(bytes) {
            Ok(s) => s,
            Err(_) => vstd::pervasive::unreached(),
        }
    }
}

} // verus!
