//! Arrays of lists, and the arrays of any type that they hold.
use vstd::prelude::*;

use super::binary::{numbers, opt_bits, BinaryArray, BinaryView, Utf8Array};
use super::boolean::BooleanArray;
use super::fixed_size_binary::{FixedSizeBinaryArray, FixedSizeBinaryView};
use super::null::NullArray;
use super::primitive::{PrimitiveArray, SlotsView};
use crate::bitmap::Bitmap;
use crate::datatypes::{DataType, DataTypeView, Field, IntervalUnit};
use crate::types::{days_ms, NativeType, Offset};

verus! {

/// An array of one of the types that have arrays.
#[derive(Debug)]
pub enum Array {
    /// Nulls.
    Null(NullArray),
    /// Booleans.
    Boolean(BooleanArray),
    /// Values of 8 bits with sign.
    Int8(PrimitiveArray<i8>),
    /// Values of 16 bits with sign.
    Int16(PrimitiveArray<i16>),
    /// Values of 32 bits with sign.
    Int32(PrimitiveArray<i32>),
    /// Values of 64 bits with sign.
    Int64(PrimitiveArray<i64>),
    /// Decimal values of 128 bits.
    Int128(PrimitiveArray<i128>),
    /// Intervals of days and milliseconds.
    DaysMs(PrimitiveArray<days_ms>),
    /// Values of 8 bits without sign.
    UInt8(PrimitiveArray<u8>),
    /// Values of 16 bits without sign.
    UInt16(PrimitiveArray<u16>),
    /// Values of 32 bits without sign.
    UInt32(PrimitiveArray<u32>),
    /// Values of 64 bits without sign.
    UInt64(PrimitiveArray<u64>),
    /// Byte strings.
    Binary(BinaryArray<i32>),
    /// Byte strings of the large kind.
    LargeBinary(BinaryArray<i64>),
    /// Texts.
    Utf8(Utf8Array<i32>),
    /// Texts of the large kind.
    LargeUtf8(Utf8Array<i64>),
    /// Byte strings of one length.
    FixedSizeBinary(FixedSizeBinaryArray),
    /// Lists.
    List(ListArray<i32>),
    /// Lists of the large kind.
    LargeList(ListArray<i64>),
    /// No slots, of a type whose slots this enum has no kind for.
    Empty(EmptyArray),
}

/// An array without slots. It stands for the empty array of every type
/// whose slots [`Array`] has no kind for: structs, unions, maps,
/// dictionaries, fixed-size lists, extensions and the like.
#[derive(Debug)]
pub struct EmptyArray {
    data_type: DataType,
}

impl EmptyArray {
    /// The logical type of the array.
    pub closed spec fn logical_type(&self) -> DataTypeView {
        self.data_type@
    }

    /// Creates the array without slots of `data_type`.
    pub fn new(data_type: DataType) -> (array: Self)
        ensures
            array.logical_type() == data_type@,
    {
        EmptyArray { data_type }
    }

    /// The logical type of the array.
    pub fn data_type(&self) -> (data_type: &DataType)
        ensures
            data_type@ == self.logical_type(),
    {
        &self.data_type
    }

    /// The number of slots: none.
    pub fn len(&self) -> (n: usize)
        ensures
            n == 0,
    {
        0
    }
}

/// An array of lists: every slot is a run of slots of the array below.
#[derive(Debug)]
pub struct ListArray<O: Offset> {
    data_type: DataType,
    offsets: Vec<O>,
    values: Box<Array>,
    validity: Option<Bitmap>,
}

/// The mathematical value of an [`Array`].
pub enum ArrayView {
    Null(nat),
    Boolean(SlotsView<bool>),
    Int8(SlotsView<i8>),
    Int16(SlotsView<i16>),
    Int32(SlotsView<i32>),
    Int64(SlotsView<i64>),
    Int128(SlotsView<i128>),
    DaysMs(SlotsView<days_ms>),
    UInt8(SlotsView<u8>),
    UInt16(SlotsView<u16>),
    UInt32(SlotsView<u32>),
    UInt64(SlotsView<u64>),
    Binary(BinaryView),
    LargeBinary(BinaryView),
    Utf8(BinaryView),
    LargeUtf8(BinaryView),
    FixedSizeBinary(FixedSizeBinaryView),
    List(ListView),
    LargeList(ListView),
    Empty,
}

/// The mathematical value of a [`ListArray`]: where every list starts in
/// the array below and the last one ends, the array below, and, where slots
/// may be null, which of them are valid.
pub struct ListView {
    pub offsets: Seq<int>,
    pub values: Box<ArrayView>,
    pub validity: Option<Seq<bool>>,
}

impl ListView {
    /// No lists over the array `values`: one offset, which is zero, and no
    /// validity.
    pub open spec fn empty_over(values: ArrayView) -> Self {
        ListView { offsets: seq![0int], values: Box::new(values), validity: None }
    }

    /// Whether the parts fit together: the offsets start at zero or later,
    /// never decrease and stay within the array below, and there is one
    /// validity bit for every slot.
    pub open spec fn wf(self) -> bool {
        &&& self.offsets.len() >= 1
        &&& 0 <= self.offsets[0]
        &&& forall|i: int, j: int|
            0 <= i <= j < self.offsets.len() ==> #[trigger] self.offsets[i]
                <= #[trigger] self.offsets[j]
        &&& self.offsets.last() <= self.values.len()
        &&& self.validity matches Some(v) ==> v.len() == self.offsets.len() - 1
    }

    /// The number of slots.
    pub open spec fn len(self) -> nat {
        (self.offsets.len() - 1) as nat
    }

    /// Whether slot `i` is valid.
    pub open spec fn is_valid(self, i: int) -> bool {
        match self.validity {
            Some(v) => v[i],
            None => true,
        }
    }

    /// The `length` slots from `offset` on, over the same array below.
    pub open spec fn sliced(self, offset: int, length: int) -> Self {
        ListView {
            offsets: self.offsets.subrange(offset, offset + length + 1),
            values: self.values,
            validity: match self.validity {
                Some(v) => Some(v.subrange(offset, offset + length)),
                None => None,
            },
        }
    }
}

impl ArrayView {
    /// The number of slots.
    pub open spec fn len(self) -> nat {
        match self {
            ArrayView::Null(n) => n,
            ArrayView::Empty => 0,
            ArrayView::Boolean(a) => a.len(),
            ArrayView::Int8(a) => a.len(),
            ArrayView::Int16(a) => a.len(),
            ArrayView::Int32(a) => a.len(),
            ArrayView::Int64(a) => a.len(),
            ArrayView::Int128(a) => a.len(),
            ArrayView::DaysMs(a) => a.len(),
            ArrayView::UInt8(a) => a.len(),
            ArrayView::UInt16(a) => a.len(),
            ArrayView::UInt32(a) => a.len(),
            ArrayView::UInt64(a) => a.len(),
            ArrayView::Binary(a) => a.len(),
            ArrayView::LargeBinary(a) => a.len(),
            ArrayView::Utf8(a) => a.len(),
            ArrayView::LargeUtf8(a) => a.len(),
            ArrayView::FixedSizeBinary(a) => a.len(),
            ArrayView::List(a) => a.len(),
            ArrayView::LargeList(a) => a.len(),
        }
    }

    /// Whether slot `i` is valid.
    pub open spec fn is_valid(self, i: int) -> bool {
        match self {
            ArrayView::Null(n) => false,
            ArrayView::Empty => false,
            ArrayView::Boolean(a) => a.is_valid(i),
            ArrayView::Int8(a) => a.is_valid(i),
            ArrayView::Int16(a) => a.is_valid(i),
            ArrayView::Int32(a) => a.is_valid(i),
            ArrayView::Int64(a) => a.is_valid(i),
            ArrayView::Int128(a) => a.is_valid(i),
            ArrayView::DaysMs(a) => a.is_valid(i),
            ArrayView::UInt8(a) => a.is_valid(i),
            ArrayView::UInt16(a) => a.is_valid(i),
            ArrayView::UInt32(a) => a.is_valid(i),
            ArrayView::UInt64(a) => a.is_valid(i),
            ArrayView::Binary(a) => a.is_valid(i),
            ArrayView::LargeBinary(a) => a.is_valid(i),
            ArrayView::Utf8(a) => a.is_valid(i),
            ArrayView::LargeUtf8(a) => a.is_valid(i),
            ArrayView::FixedSizeBinary(a) => a.is_valid(i),
            ArrayView::List(a) => a.is_valid(i),
            ArrayView::LargeList(a) => a.is_valid(i),
        }
    }

    /// The `length` slots from `offset` on.
    pub open spec fn sliced(self, offset: int, length: int) -> ArrayView {
        match self {
            ArrayView::Null(n) => ArrayView::Null(length as nat),
            ArrayView::Empty => ArrayView::Empty,
            ArrayView::Boolean(a) => ArrayView::Boolean(a.sliced(offset, length)),
            ArrayView::Int8(a) => ArrayView::Int8(a.sliced(offset, length)),
            ArrayView::Int16(a) => ArrayView::Int16(a.sliced(offset, length)),
            ArrayView::Int32(a) => ArrayView::Int32(a.sliced(offset, length)),
            ArrayView::Int64(a) => ArrayView::Int64(a.sliced(offset, length)),
            ArrayView::Int128(a) => ArrayView::Int128(a.sliced(offset, length)),
            ArrayView::DaysMs(a) => ArrayView::DaysMs(a.sliced(offset, length)),
            ArrayView::UInt8(a) => ArrayView::UInt8(a.sliced(offset, length)),
            ArrayView::UInt16(a) => ArrayView::UInt16(a.sliced(offset, length)),
            ArrayView::UInt32(a) => ArrayView::UInt32(a.sliced(offset, length)),
            ArrayView::UInt64(a) => ArrayView::UInt64(a.sliced(offset, length)),
            ArrayView::Binary(a) => ArrayView::Binary(a.sliced(offset, length)),
            ArrayView::LargeBinary(a) => ArrayView::LargeBinary(a.sliced(offset, length)),
            ArrayView::Utf8(a) => ArrayView::Utf8(a.sliced(offset, length)),
            ArrayView::LargeUtf8(a) => ArrayView::LargeUtf8(a.sliced(offset, length)),
            ArrayView::FixedSizeBinary(a) => ArrayView::FixedSizeBinary(a.sliced(offset, length)),
            ArrayView::List(a) => ArrayView::List(a.sliced(offset, length)),
            ArrayView::LargeList(a) => ArrayView::LargeList(a.sliced(offset, length)),
        }
    }
}

impl Array {
    /// The mathematical value of the array.
    pub open spec fn model(&self) -> ArrayView
        decreases self,
    {
        match self {
            Array::Null(a) => ArrayView::Null(a@),
            Array::Empty(_) => ArrayView::Empty,
            Array::Boolean(a) => ArrayView::Boolean(a@),
            Array::Int8(a) => ArrayView::Int8(a@),
            Array::Int16(a) => ArrayView::Int16(a@),
            Array::Int32(a) => ArrayView::Int32(a@),
            Array::Int64(a) => ArrayView::Int64(a@),
            Array::Int128(a) => ArrayView::Int128(a@),
            Array::DaysMs(a) => ArrayView::DaysMs(a@),
            Array::UInt8(a) => ArrayView::UInt8(a@),
            Array::UInt16(a) => ArrayView::UInt16(a@),
            Array::UInt32(a) => ArrayView::UInt32(a@),
            Array::UInt64(a) => ArrayView::UInt64(a@),
            Array::Binary(a) => ArrayView::Binary(a@),
            Array::LargeBinary(a) => ArrayView::LargeBinary(a@),
            Array::Utf8(a) => ArrayView::Utf8(a@),
            Array::LargeUtf8(a) => ArrayView::LargeUtf8(a@),
            Array::FixedSizeBinary(a) => ArrayView::FixedSizeBinary(a@),
            Array::List(a) => ArrayView::List(a.model()),
            Array::LargeList(a) => ArrayView::LargeList(a.model()),
        }
    }

    /// The logical type of the array.
    pub open spec fn logical_type(&self) -> DataTypeView {
        match self {
            Array::Null(a) => DataTypeView::Null,
            Array::Empty(a) => a.logical_type(),
            Array::Boolean(a) => a.logical_type(),
            Array::Int8(a) => a.logical_type(),
            Array::Int16(a) => a.logical_type(),
            Array::Int32(a) => a.logical_type(),
            Array::Int64(a) => a.logical_type(),
            Array::Int128(a) => a.logical_type(),
            Array::DaysMs(a) => a.logical_type(),
            Array::UInt8(a) => a.logical_type(),
            Array::UInt16(a) => a.logical_type(),
            Array::UInt32(a) => a.logical_type(),
            Array::UInt64(a) => a.logical_type(),
            Array::Binary(a) => a.logical_type(),
            Array::LargeBinary(a) => a.logical_type(),
            Array::Utf8(a) => a.logical_type(),
            Array::LargeUtf8(a) => a.logical_type(),
            Array::FixedSizeBinary(a) => DataTypeView::FixedSizeBinary(a@.size),
            Array::List(a) => a.logical_type(),
            Array::LargeList(a) => a.logical_type(),
        }
    }

    /// Whether the array and the arrays below it are well-formed.
    pub open spec fn wf(&self) -> bool
        decreases self, 0int,
    {
        match self {
            Array::List(a) => a.wf(),
            Array::LargeList(a) => a.wf(),
            _ => true,
        }
    }
}

impl<O: Offset> ListArray<O> {
    /// The mathematical value of the array.
    pub closed spec fn model(&self) -> ListView
        decreases self,
    {
        ListView {
            offsets: numbers(self.offsets@),
            values: Box::new(self.values.model()),
            validity: opt_bits(self.validity),
        }
    }

    /// Whether the array and the arrays below it are well-formed.
    pub closed spec fn wf(&self) -> bool
        decreases self, 1int,
    {
        self.model().wf() && self.values.wf()
    }

    /// The logical type of the array.
    pub closed spec fn logical_type(&self) -> DataTypeView {
        self.data_type@
    }

    /// The logical type of the array below.
    pub closed spec fn child_type(&self) -> DataTypeView {
        self.values.logical_type()
    }
}

impl View for Array {
    type V = ArrayView;

    open spec fn view(&self) -> ArrayView {
        self.model()
    }
}

impl<O: Offset> View for ListArray<O> {
    type V = ListView;

    open spec fn view(&self) -> ListView {
        self.model()
    }
}

/// The array of `data_type` without slots: of the kind that holds the
/// slots of the type, or, for a type whose slots have no kind, the empty
/// kind. A list lies over the array without slots of its items.
pub open spec fn empty_view(data_type: DataTypeView) -> ArrayView
    decreases data_type,
{
    match data_type {
        DataTypeView::Null => ArrayView::Null(0),
        DataTypeView::Boolean => ArrayView::Boolean(SlotsView::empty()),
        DataTypeView::Int8 => ArrayView::Int8(SlotsView::empty()),
        DataTypeView::Int16 => ArrayView::Int16(SlotsView::empty()),
        DataTypeView::Int32 => ArrayView::Int32(SlotsView::empty()),
        DataTypeView::Date32 => ArrayView::Int32(SlotsView::empty()),
        DataTypeView::Time32(_) => ArrayView::Int32(SlotsView::empty()),
        DataTypeView::Interval(unit) => match unit {
            IntervalUnit::YearMonth => ArrayView::Int32(SlotsView::empty()),
            IntervalUnit::DayTime => ArrayView::DaysMs(SlotsView::empty()),
            IntervalUnit::MonthDayNano => ArrayView::Empty,
        },
        DataTypeView::Decimal(_, _) => ArrayView::Int128(SlotsView::empty()),
        DataTypeView::Int64 => ArrayView::Int64(SlotsView::empty()),
        DataTypeView::Date64 => ArrayView::Int64(SlotsView::empty()),
        DataTypeView::Time64(_) => ArrayView::Int64(SlotsView::empty()),
        DataTypeView::Duration(_) => ArrayView::Int64(SlotsView::empty()),
        DataTypeView::Timestamp(_, _) => ArrayView::Int64(SlotsView::empty()),
        DataTypeView::UInt8 => ArrayView::UInt8(SlotsView::empty()),
        DataTypeView::UInt16 => ArrayView::UInt16(SlotsView::empty()),
        DataTypeView::UInt32 => ArrayView::UInt32(SlotsView::empty()),
        DataTypeView::UInt64 => ArrayView::UInt64(SlotsView::empty()),
        DataTypeView::Binary => ArrayView::Binary(BinaryView::empty()),
        DataTypeView::LargeBinary => ArrayView::LargeBinary(BinaryView::empty()),
        DataTypeView::Utf8 => ArrayView::Utf8(BinaryView::empty()),
        DataTypeView::LargeUtf8 => ArrayView::LargeUtf8(BinaryView::empty()),
        DataTypeView::FixedSizeBinary(size) => if size > 0 {
            ArrayView::FixedSizeBinary(
                FixedSizeBinaryView { size, values: Seq::empty(), validity: None },
            )
        } else {
            ArrayView::Empty
        },
        DataTypeView::List(field) => ArrayView::List(
            ListView::empty_over(empty_view(field.data_type)),
        ),
        DataTypeView::LargeList(field) => ArrayView::LargeList(
            ListView::empty_over(empty_view(field.data_type)),
        ),
        _ => ArrayView::Empty,
    }
}

/// An array of `data_type` without slots.
pub fn new_empty_array(data_type: DataType) -> (array: Array)
    ensures
        array@ == empty_view(data_type@),
        array@.len() == 0,
        array.logical_type() == data_type@,
        array.wf(),
{
    empty_of(&data_type)
}

/// An array of `data_type` without slots.
fn empty_of(data_type: &DataType) -> (array: Array)
    ensures
        array@ == empty_view(data_type@),
        array@.len() == 0,
        array.logical_type() == data_type@,
        array.wf(),
    decreases data_type,
{
    match data_type {
        DataType::Null => Array::Null(NullArray::from_data(0)),
        DataType::Boolean => Array::Boolean(BooleanArray::new_empty()),
        DataType::Int8 => Array::Int8(PrimitiveArray::new_empty(data_type.clone())),
        DataType::Int16 => Array::Int16(PrimitiveArray::new_empty(data_type.clone())),
        DataType::Int32 => Array::Int32(PrimitiveArray::new_empty(data_type.clone())),
        DataType::Date32 => Array::Int32(PrimitiveArray::new_empty(data_type.clone())),
        DataType::Time32(_) => Array::Int32(PrimitiveArray::new_empty(data_type.clone())),
        DataType::Interval(unit) => match unit {
            IntervalUnit::YearMonth => Array::Int32(PrimitiveArray::new_empty(data_type.clone())),
            IntervalUnit::DayTime => Array::DaysMs(PrimitiveArray::new_empty(data_type.clone())),
            _ => Array::Empty(EmptyArray::new(data_type.clone())),
        },
        DataType::Decimal(_, _) => Array::Int128(PrimitiveArray::new_empty(data_type.clone())),
        DataType::Int64 => Array::Int64(PrimitiveArray::new_empty(data_type.clone())),
        DataType::Date64 => Array::Int64(PrimitiveArray::new_empty(data_type.clone())),
        DataType::Time64(_) => Array::Int64(PrimitiveArray::new_empty(data_type.clone())),
        DataType::Duration(_) => Array::Int64(PrimitiveArray::new_empty(data_type.clone())),
        DataType::Timestamp(_, _) => Array::Int64(PrimitiveArray::new_empty(data_type.clone())),
        DataType::UInt8 => Array::UInt8(PrimitiveArray::new_empty(data_type.clone())),
        DataType::UInt16 => Array::UInt16(PrimitiveArray::new_empty(data_type.clone())),
        DataType::UInt32 => Array::UInt32(PrimitiveArray::new_empty(data_type.clone())),
        DataType::UInt64 => Array::UInt64(PrimitiveArray::new_empty(data_type.clone())),
        DataType::Binary => Array::Binary(BinaryArray::new_empty()),
        DataType::LargeBinary => Array::LargeBinary(BinaryArray::new_empty()),
        DataType::Utf8 => Array::Utf8(Utf8Array::new_empty()),
        DataType::LargeUtf8 => Array::LargeUtf8(Utf8Array::new_empty()),
        DataType::FixedSizeBinary(size) => {
            if *size > 0 {
                proof {
                    vstd::arithmetic::div_mod::lemma_small_mod(0, *size as nat);
                }
                Array::FixedSizeBinary(
                    FixedSizeBinaryArray::new(data_type.clone(), Vec::new(), None),
                )
            } else {
                Array::Empty(EmptyArray::new(data_type.clone()))
            }
        },
        DataType::List(field) => {
            assert(field@.data_type == field.data_type@);
            Array::List(ListArray::<i32>::new_empty(data_type.clone(), empty_of(&field.data_type)))
        },
        DataType::LargeList(field) => {
            assert(field@.data_type == field.data_type@);
            Array::LargeList(
                ListArray::<i64>::new_empty(data_type.clone(), empty_of(&field.data_type)),
            )
        },
        _ => Array::Empty(EmptyArray::new(data_type.clone())),
    }
}

impl<O: Offset> ListArray<O> {
    /// The type of lists of items of `data_type`, with offsets `O`. The
    /// field of the items is called `item` and may be null.
    pub open spec fn default_type(data_type: DataTypeView) -> DataTypeView {
        let field = crate::datatypes::FieldView {
            name: "item"@,
            data_type,
            is_nullable: true,
            metadata: Seq::empty(),
        };
        if O::large() {
            DataTypeView::LargeList(Box::new(field))
        } else {
            DataTypeView::List(Box::new(field))
        }
    }

    /// Returns the type of lists of items of `data_type`, with offsets `O`.
    pub fn default_datatype(data_type: DataType) -> (list: DataType)
        ensures
            list@ == Self::default_type(data_type@),
    {
        let field = Field::new("item", data_type, true);
        if O::is_large() {
            DataType::LargeList(Box::new(field))
        } else {
            DataType::List(Box::new(field))
        }
    }

    /// Puts an array together from its parts.
    pub fn from_data(
        data_type: DataType,
        offsets: Vec<O>,
        values: Array,
        validity: Option<Bitmap>,
    ) -> (array: Self)
        requires
            values.wf(),
            (ListView {
                offsets: numbers(offsets@),
                values: Box::new(values@),
                validity: opt_bits(validity),
            }).wf(),
        ensures
            array@ == (ListView {
                offsets: numbers(offsets@),
                values: Box::new(values@),
                validity: opt_bits(validity),
            }),
            array.logical_type() == data_type@,
            array.child_type() == values.logical_type(),
            array.wf(),
    {
        ListArray { data_type, offsets, values: Box::new(values), validity }
    }

    /// Creates an array without slots over `values`.
    pub fn new_empty(data_type: DataType, values: Array) -> (array: Self)
        requires
            values.wf(),
        ensures
            array@ == ListView::empty_over(values@),
            array.logical_type() == data_type@,
            array.child_type() == values.logical_type(),
            array.wf(),
    {
        let mut offsets: Vec<O> = Vec::new();
        offsets.push(O::zero());
        assert(numbers(offsets@) =~= seq![0int]);
        Self::from_data(data_type, offsets, values, None)
    }

    /// The number of slots.
    pub fn len(&self) -> (n: usize)
        requires
            self.wf(),
        ensures
            n == self@.len(),
    {
        self.offsets.len() - 1
    }

    /// The logical type of the array.
    pub fn data_type(&self) -> (data_type: &DataType)
        ensures
            data_type@ == self.logical_type(),
    {
        &self.data_type
    }

    /// Where every list starts in the array below, and the last one ends.
    pub fn offsets(&self) -> (offsets: &Vec<O>)
        ensures
            numbers(offsets@) == self@.offsets,
    {
        &self.offsets
    }

    /// The array below.
    pub fn values(&self) -> (values: &Array)
        ensures
            values@ == *self@.values,
            values.logical_type() == self.child_type(),
            self.wf() ==> values.wf(),
    {
        &*self.values
    }

    /// Whether slot `i` is valid.
    pub fn is_valid(&self, i: usize) -> (b: bool)
        requires
            self.wf(),
            i < self@.len(),
        ensures
            b == self@.is_valid(i as int),
    {
        match &self.validity {
            Some(v) => v.get_bit(i),
            None => true,
        }
    }

    /// The list of slot `i`: a copy of its run of the array below.
    pub fn value(&self, i: usize) -> (list: Array)
        requires
            self.wf(),
            i < self@.len(),
        ensures
            list@ == self@.values.sliced(self@.offsets[i as int], self@.offsets[i + 1]
                - self@.offsets[i as int]),
            list.logical_type() == self.child_type(),
            list.wf(),
        decreases self, 1int,
    {
        proof {
            let o = self@.offsets;
            assert(o[0] <= o[i as int]);
            assert(o[i as int] <= o[i + 1]);
            assert(o[i + 1] <= o[o.len() - 1]);
        }
        let n = self.offsets.len();
        let below = self.values.len();
        let start = self.offsets[i].to_usize();
        let end = self.offsets[i + 1].to_usize();
        self.values.slice(start, end - start)
    }
}

impl Array {
    /// The number of slots.
    pub fn len(&self) -> (n: usize)
        requires
            self.wf(),
        ensures
            n == self@.len(),
            array_wf(self@),
    {
        match self {
            Array::Null(a) => a.len(),
            Array::Empty(a) => a.len(),
            Array::Boolean(a) => a.len(),
            Array::Int8(a) => a.len(),
            Array::Int16(a) => a.len(),
            Array::Int32(a) => a.len(),
            Array::Int64(a) => a.len(),
            Array::Int128(a) => a.len(),
            Array::DaysMs(a) => a.len(),
            Array::UInt8(a) => a.len(),
            Array::UInt16(a) => a.len(),
            Array::UInt32(a) => a.len(),
            Array::UInt64(a) => a.len(),
            Array::Binary(a) => a.len(),
            Array::LargeBinary(a) => a.len(),
            Array::Utf8(a) => a.len(),
            Array::LargeUtf8(a) => a.len(),
            Array::FixedSizeBinary(a) => a.len(),
            Array::List(a) => a.len(),
            Array::LargeList(a) => a.len(),
        }
    }

    /// The logical type of the array.
    pub fn data_type(&self) -> (data_type: DataType)
        ensures
            data_type@ == self.logical_type(),
    {
        match self {
            Array::Null(a) => a.data_type(),
            Array::Empty(a) => a.data_type().clone(),
            Array::Boolean(a) => a.data_type().clone(),
            Array::Int8(a) => a.data_type().clone(),
            Array::Int16(a) => a.data_type().clone(),
            Array::Int32(a) => a.data_type().clone(),
            Array::Int64(a) => a.data_type().clone(),
            Array::Int128(a) => a.data_type().clone(),
            Array::DaysMs(a) => a.data_type().clone(),
            Array::UInt8(a) => a.data_type().clone(),
            Array::UInt16(a) => a.data_type().clone(),
            Array::UInt32(a) => a.data_type().clone(),
            Array::UInt64(a) => a.data_type().clone(),
            Array::Binary(a) => a.data_type().clone(),
            Array::LargeBinary(a) => a.data_type().clone(),
            Array::Utf8(a) => a.data_type().clone(),
            Array::LargeUtf8(a) => a.data_type().clone(),
            Array::FixedSizeBinary(a) => a.data_type().clone(),
            Array::List(a) => a.data_type().clone(),
            Array::LargeList(a) => a.data_type().clone(),
        }
    }

    /// Whether slot `i` is valid.
    pub fn is_valid(&self, i: usize) -> (b: bool)
        requires
            self.wf(),
            i < self@.len(),
        ensures
            b == self@.is_valid(i as int),
    {
        match self {
            Array::Null(a) => false,
            Array::Empty(_) => false,
            Array::Boolean(a) => a.is_valid(i),
            Array::Int8(a) => a.is_valid(i),
            Array::Int16(a) => a.is_valid(i),
            Array::Int32(a) => a.is_valid(i),
            Array::Int64(a) => a.is_valid(i),
            Array::Int128(a) => a.is_valid(i),
            Array::DaysMs(a) => a.is_valid(i),
            Array::UInt8(a) => a.is_valid(i),
            Array::UInt16(a) => a.is_valid(i),
            Array::UInt32(a) => a.is_valid(i),
            Array::UInt64(a) => a.is_valid(i),
            Array::Binary(a) => a.is_valid(i),
            Array::LargeBinary(a) => a.is_valid(i),
            Array::Utf8(a) => a.is_valid(i),
            Array::LargeUtf8(a) => a.is_valid(i),
            Array::FixedSizeBinary(a) => {
                let n = a.len();
                match a.validity() {
                    Some(v) => v.get_bit(i),
                    None => true,
                }
            },
            Array::List(a) => a.is_valid(i),
            Array::LargeList(a) => a.is_valid(i),
        }
    }

    /// A copy of the `length` slots from `offset` on.
    pub fn slice(&self, offset: usize, length: usize) -> (part: Self)
        requires
            self.wf(),
            offset + length <= self@.len(),
        ensures
            part@ == self@.sliced(offset as int, length as int),
            part.logical_type() == self.logical_type(),
            part.wf(),
        decreases self, 0int,
    {
        match self {
            Array::Null(a) => Array::Null(a.slice(offset, length)),
            Array::Empty(a) => Array::Empty(EmptyArray::new(a.data_type().clone())),
            Array::Boolean(a) => Array::Boolean(a.slice(offset, length)),
            Array::Int8(a) => Array::Int8(a.slice(offset, length)),
            Array::Int16(a) => Array::Int16(a.slice(offset, length)),
            Array::Int32(a) => Array::Int32(a.slice(offset, length)),
            Array::Int64(a) => Array::Int64(a.slice(offset, length)),
            Array::Int128(a) => Array::Int128(a.slice(offset, length)),
            Array::DaysMs(a) => Array::DaysMs(a.slice(offset, length)),
            Array::UInt8(a) => Array::UInt8(a.slice(offset, length)),
            Array::UInt16(a) => Array::UInt16(a.slice(offset, length)),
            Array::UInt32(a) => Array::UInt32(a.slice(offset, length)),
            Array::UInt64(a) => Array::UInt64(a.slice(offset, length)),
            Array::Binary(a) => Array::Binary(a.slice(offset, length)),
            Array::LargeBinary(a) => Array::LargeBinary(a.slice(offset, length)),
            Array::Utf8(a) => Array::Utf8(a.slice(offset, length)),
            Array::LargeUtf8(a) => Array::LargeUtf8(a.slice(offset, length)),
            Array::FixedSizeBinary(a) => Array::FixedSizeBinary(a.slice(offset, length)),
            Array::List(a) => Array::List(slice_list(a, offset, length)),
            Array::LargeList(a) => Array::LargeList(slice_list(a, offset, length)),
        }
    }
}

/// A copy of the `length` slots of `array` from `offset` on, over a copy
/// of the array below.
fn slice_list<O: Offset>(array: &ListArray<O>, offset: usize, length: usize) -> (part: ListArray<
    O,
>)
    requires
        array.wf(),
        offset + length <= array@.len(),
    ensures
        part@ == array@.sliced(offset as int, length as int),
        part.logical_type() == array.logical_type(),
        part.wf(),
    decreases array,
{
    let n = array.offsets.len();
    let mut offsets: Vec<O> = Vec::new();
    let mut i: usize = 0;
    while i < length + 1
        invariant
            i <= length + 1,
            offset + length + 1 <= n,
            n == array.offsets@.len(),
            offsets@ == array.offsets@.subrange(offset as int, offset + i),
        decreases length + 1 - i,
    {
        offsets.push(array.offsets[offset + i]);
        i += 1;
        assert(offsets@ =~= array.offsets@.subrange(offset as int, offset + i));
    }
    let validity = match &array.validity {
        Some(v) => Some(v.slice(offset, length)),
        None => None,
    };
    let below = array.values.len();
    let values = array.values.slice(0, below);
    proof {
        let want = array@.sliced(offset as int, length as int);
        assert(numbers(offsets@) =~= want.offsets);
        assert forall|a: int, b: int| 0 <= a <= b < want.offsets.len() implies #[trigger] want.offsets[a]
            <= #[trigger] want.offsets[b] by {
            assert(array@.offsets[offset + a] <= array@.offsets[offset + b]);
        }
        assert(array@.offsets[0] <= array@.offsets[offset as int]);
        assert(array@.offsets[offset + length] <= array@.offsets[array@.offsets.len() - 1]);
        lemma_whole_slice(array.values@);
    }
    ListArray { data_type: array.data_type.clone(), offsets, values: Box::new(values), validity }
}

/// The slice of all slots of an array is the array.
pub proof fn lemma_whole_slice(array: ArrayView)
    requires
        array_wf(array),
    ensures
        array.sliced(0, array.len() as int) == array,
{
    match array {
        ArrayView::Boolean(a) => lemma_whole_slots(a),
        ArrayView::Int8(a) => lemma_whole_slots(a),
        ArrayView::Int16(a) => lemma_whole_slots(a),
        ArrayView::Int32(a) => lemma_whole_slots(a),
        ArrayView::Int64(a) => lemma_whole_slots(a),
        ArrayView::Int128(a) => lemma_whole_slots(a),
        ArrayView::DaysMs(a) => lemma_whole_slots(a),
        ArrayView::UInt8(a) => lemma_whole_slots(a),
        ArrayView::UInt16(a) => lemma_whole_slots(a),
        ArrayView::UInt32(a) => lemma_whole_slots(a),
        ArrayView::UInt64(a) => lemma_whole_slots(a),
        ArrayView::Binary(a) => lemma_whole_binary(a),
        ArrayView::LargeBinary(a) => lemma_whole_binary(a),
        ArrayView::Utf8(a) => lemma_whole_binary(a),
        ArrayView::LargeUtf8(a) => lemma_whole_binary(a),
        ArrayView::FixedSizeBinary(a) => {
            vstd::arithmetic::div_mod::lemma_fundamental_div_mod(
                a.values.len() as int,
                a.size as int,
            );
            assert((a.values.len() / a.size) * a.size == a.size * (a.values.len() / a.size))
                by (nonlinear_arith);
            assert(0 * a.size == 0) by (nonlinear_arith);
            let s = a.sliced(0, a.len() as int);
            assert(s.values =~= a.values);
            if a.validity is Some {
                assert(s.validity->0 =~= a.validity->0);
            }
        },
        ArrayView::List(a) => {
            let s = a.sliced(0, a.len() as int);
            assert(s.offsets =~= a.offsets);
            if a.validity is Some {
                assert(s.validity->0 =~= a.validity->0);
            }
        },
        ArrayView::LargeList(a) => {
            let s = a.sliced(0, a.len() as int);
            assert(s.offsets =~= a.offsets);
            if a.validity is Some {
                assert(s.validity->0 =~= a.validity->0);
            }
        },
        ArrayView::Null(n) => {},
        ArrayView::Empty => {},
    }
}

/// Whether the parts of an array fit together.
pub open spec fn array_wf(array: ArrayView) -> bool {
    match array {
        ArrayView::Null(n) => true,
        ArrayView::Empty => true,
        ArrayView::Boolean(a) => a.wf(),
        ArrayView::Int8(a) => a.wf(),
        ArrayView::Int16(a) => a.wf(),
        ArrayView::Int32(a) => a.wf(),
        ArrayView::Int64(a) => a.wf(),
        ArrayView::Int128(a) => a.wf(),
        ArrayView::DaysMs(a) => a.wf(),
        ArrayView::UInt8(a) => a.wf(),
        ArrayView::UInt16(a) => a.wf(),
        ArrayView::UInt32(a) => a.wf(),
        ArrayView::UInt64(a) => a.wf(),
        ArrayView::Binary(a) => a.wf(),
        ArrayView::LargeBinary(a) => a.wf(),
        ArrayView::Utf8(a) => a.wf(),
        ArrayView::LargeUtf8(a) => a.wf(),
        ArrayView::FixedSizeBinary(a) => a.wf(),
        ArrayView::List(a) => a.wf(),
        ArrayView::LargeList(a) => a.wf(),
    }
}

/// The slice of all slots of fixed-width values is the whole.
proof fn lemma_whole_slots<T>(a: SlotsView<T>)
    requires
        a.wf(),
    ensures
        a.sliced(0, a.len() as int) == a,
{
    let s = a.sliced(0, a.len() as int);
    assert(s.values =~= a.values);
    if a.validity is Some {
        assert(s.validity->0 =~= a.validity->0);
    }
}

/// The slice of all slots of byte strings is the whole.
proof fn lemma_whole_binary(a: BinaryView)
    requires
        a.wf(),
    ensures
        a.sliced(0, a.len() as int) == a,
{
    let s = a.sliced(0, a.len() as int);
    assert(s.offsets =~= a.offsets);
    if a.validity is Some {
        assert(s.validity->0 =~= a.validity->0);
    }
}

/// Whether offsets start at zero or later and never decrease.
pub open spec fn rising(offsets: Seq<int>) -> bool {
    &&& offsets.len() >= 1
    &&& 0 <= offsets[0]
    &&& forall|i: int, j: int|
        0 <= i <= j < offsets.len() ==> #[trigger] offsets[i] <= #[trigger] offsets[j]
}

/// The offsets of `a` and then those of `b`, each run moved so that the
/// first begins at zero and the second where the first ends. `None` where
/// the offsets are more than a `usize`, or what they span more than an
/// offset, can count.
pub fn join_offsets<O: Offset>(a: &[O], b: &[O]) -> (all: Option<Vec<O>>)
    requires
        rising(numbers(a@)),
        rising(numbers(b@)),
        numbers(a@).last() <= usize::MAX,
        numbers(b@).last() <= usize::MAX,
    ensures
        match all {
            Some(all) => numbers(all@) == BinaryView::joined_offsets(numbers(a@), numbers(b@)),
            None => a@.len() + b@.len() - 1 > usize::MAX || (numbers(a@).last() - numbers(a@)[0])
                + (numbers(b@).last() - numbers(b@)[0]) > O::limit() || (numbers(a@).last()
                - numbers(a@)[0]) + (numbers(b@).last() - numbers(b@)[0]) > usize::MAX,
        },
{
    let a_n = a.len();
    let b_n = b.len();
    if b_n - 1 > usize::MAX - a_n {
        return None;
    }
    let ghost o = numbers(a@);
    let ghost p = numbers(b@);
    proof {
        assert(o[0] <= o[a_n - 1]);
        assert(p[0] <= p[b_n - 1]);
    }
    let fa = a[0].to_usize();
    let la = a[a_n - 1].to_usize();
    let fb = b[0].to_usize();
    let lb = b[b_n - 1].to_usize();
    let span = la - fa;
    if lb - fb > usize::MAX - span {
        return None;
    }
    match O::from_usize(span + (lb - fb)) {
        Some(_) => {},
        None => {
            return None;
        },
    }
    let ghost want = BinaryView::joined_offsets(o, p);
    let mut offsets: Vec<O> = Vec::new();
    let mut i: usize = 0;
    while i < a_n
        invariant
            i <= a_n,
            a_n == a@.len(),
            b_n == b@.len(),
            b_n >= 1,
            o == numbers(a@),
            p == numbers(b@),
            rising(o),
            fa == o[0],
            la == o[a_n - 1],
            fa <= la,
            fb <= lb,
            span == la - fa,
            span + (lb - fb) <= O::limit(),
            want == BinaryView::joined_offsets(o, p),
            offsets@.len() == i,
            forall|j: int| 0 <= j < i ==> (#[trigger] offsets@[j]).number() == want[j],
        decreases a_n - i,
    {
        proof {
            assert(o[0] <= o[i as int]);
            assert(o[i as int] <= o[a_n - 1]);
        }
        let moved = match O::from_usize(a[i].to_usize() - fa) {
            Some(moved) => moved,
            None => vstd::pervasive::unreached(),
        };
        offsets.push(moved);
        i += 1;
    }
    let mut j: usize = 1;
    while j < b_n
        invariant
            1 <= j <= b_n,
            a_n == a@.len(),
            b_n == b@.len(),
            a_n + b_n - 1 <= usize::MAX,
            o == numbers(a@),
            p == numbers(b@),
            rising(p),
            a_n >= 1,
            fb == p[0],
            lb == p[b_n - 1],
            fb <= lb,
            span == o[a_n - 1] - o[0],
            span + (lb - fb) <= O::limit(),
            span + (lb - fb) <= usize::MAX,
            want == BinaryView::joined_offsets(o, p),
            offsets@.len() == a_n + j - 1,
            forall|k: int| 0 <= k < a_n + j - 1 ==> (#[trigger] offsets@[k]).number() == want[k],
        decreases b_n - j,
    {
        proof {
            assert(p[0] <= p[j as int]);
            assert(p[j as int] <= p[b_n - 1]);
        }
        let moved = match O::from_usize(b[j].to_usize() - fb + span) {
            Some(moved) => moved,
            None => vstd::pervasive::unreached(),
        };
        offsets.push(moved);
        j += 1;
    }
    proof {
        assert(numbers(offsets@) =~= want);
    }
    Some(offsets)
}

impl ArrayView {
    /// Whether the two are arrays of one kind, down to the arrays below
    /// lists, with items of one size where the size is fixed.
    pub open spec fn same_kind(self, other: ArrayView) -> bool
        decreases self,
    {
        match (self, other) {
            (ArrayView::Null(_), ArrayView::Null(_)) => true,
            (ArrayView::Empty, ArrayView::Empty) => true,
            (ArrayView::Boolean(_), ArrayView::Boolean(_)) => true,
            (ArrayView::Int8(_), ArrayView::Int8(_)) => true,
            (ArrayView::Int16(_), ArrayView::Int16(_)) => true,
            (ArrayView::Int32(_), ArrayView::Int32(_)) => true,
            (ArrayView::Int64(_), ArrayView::Int64(_)) => true,
            (ArrayView::Int128(_), ArrayView::Int128(_)) => true,
            (ArrayView::DaysMs(_), ArrayView::DaysMs(_)) => true,
            (ArrayView::UInt8(_), ArrayView::UInt8(_)) => true,
            (ArrayView::UInt16(_), ArrayView::UInt16(_)) => true,
            (ArrayView::UInt32(_), ArrayView::UInt32(_)) => true,
            (ArrayView::UInt64(_), ArrayView::UInt64(_)) => true,
            (ArrayView::Binary(_), ArrayView::Binary(_)) => true,
            (ArrayView::LargeBinary(_), ArrayView::LargeBinary(_)) => true,
            (ArrayView::Utf8(_), ArrayView::Utf8(_)) => true,
            (ArrayView::LargeUtf8(_), ArrayView::LargeUtf8(_)) => true,
            (ArrayView::FixedSizeBinary(a), ArrayView::FixedSizeBinary(b)) => a.size == b.size,
            (ArrayView::List(a), ArrayView::List(b)) => a.values.same_kind(*b.values),
            (ArrayView::LargeList(a), ArrayView::LargeList(b)) => a.values.same_kind(*b.values),
            _ => false,
        }
    }

    /// The slots of `self` from `a0` up to `a1` and then those of `other`
    /// from `b0` up to `b1`. Lists take the runs of the arrays below that
    /// their slots span.
    pub open spec fn appended_range(
        self,
        a0: int,
        a1: int,
        other: ArrayView,
        b0: int,
        b1: int,
    ) -> ArrayView
        decreases self,
    {
        match (self, other) {
            (ArrayView::Null(_), ArrayView::Null(_)) => ArrayView::Null((a1 - a0 + b1 - b0) as nat),
            (ArrayView::Empty, ArrayView::Empty) => ArrayView::Empty,
            (ArrayView::Boolean(a), ArrayView::Boolean(b)) => ArrayView::Boolean(
                a.sliced(a0, a1 - a0).appended(b.sliced(b0, b1 - b0)),
            ),
            (ArrayView::Int8(a), ArrayView::Int8(b)) => ArrayView::Int8(
                a.sliced(a0, a1 - a0).appended(b.sliced(b0, b1 - b0)),
            ),
            (ArrayView::Int16(a), ArrayView::Int16(b)) => ArrayView::Int16(
                a.sliced(a0, a1 - a0).appended(b.sliced(b0, b1 - b0)),
            ),
            (ArrayView::Int32(a), ArrayView::Int32(b)) => ArrayView::Int32(
                a.sliced(a0, a1 - a0).appended(b.sliced(b0, b1 - b0)),
            ),
            (ArrayView::Int64(a), ArrayView::Int64(b)) => ArrayView::Int64(
                a.sliced(a0, a1 - a0).appended(b.sliced(b0, b1 - b0)),
            ),
            (ArrayView::Int128(a), ArrayView::Int128(b)) => ArrayView::Int128(
                a.sliced(a0, a1 - a0).appended(b.sliced(b0, b1 - b0)),
            ),
            (ArrayView::DaysMs(a), ArrayView::DaysMs(b)) => ArrayView::DaysMs(
                a.sliced(a0, a1 - a0).appended(b.sliced(b0, b1 - b0)),
            ),
            (ArrayView::UInt8(a), ArrayView::UInt8(b)) => ArrayView::UInt8(
                a.sliced(a0, a1 - a0).appended(b.sliced(b0, b1 - b0)),
            ),
            (ArrayView::UInt16(a), ArrayView::UInt16(b)) => ArrayView::UInt16(
                a.sliced(a0, a1 - a0).appended(b.sliced(b0, b1 - b0)),
            ),
            (ArrayView::UInt32(a), ArrayView::UInt32(b)) => ArrayView::UInt32(
                a.sliced(a0, a1 - a0).appended(b.sliced(b0, b1 - b0)),
            ),
            (ArrayView::UInt64(a), ArrayView::UInt64(b)) => ArrayView::UInt64(
                a.sliced(a0, a1 - a0).appended(b.sliced(b0, b1 - b0)),
            ),
            (ArrayView::Binary(a), ArrayView::Binary(b)) => ArrayView::Binary(
                a.sliced(a0, a1 - a0).appended(b.sliced(b0, b1 - b0)),
            ),
            (ArrayView::LargeBinary(a), ArrayView::LargeBinary(b)) => ArrayView::LargeBinary(
                a.sliced(a0, a1 - a0).appended(b.sliced(b0, b1 - b0)),
            ),
            (ArrayView::Utf8(a), ArrayView::Utf8(b)) => ArrayView::Utf8(
                a.sliced(a0, a1 - a0).appended(b.sliced(b0, b1 - b0)),
            ),
            (ArrayView::LargeUtf8(a), ArrayView::LargeUtf8(b)) => ArrayView::LargeUtf8(
                a.sliced(a0, a1 - a0).appended(b.sliced(b0, b1 - b0)),
            ),
            (ArrayView::FixedSizeBinary(a), ArrayView::FixedSizeBinary(b)) => {
                ArrayView::FixedSizeBinary(a.sliced(a0, a1 - a0).appended(b.sliced(b0, b1 - b0)))
            },
            (ArrayView::List(a), ArrayView::List(b)) => ArrayView::List(
                ListView {
                    offsets: BinaryView::joined_offsets(
                        a.offsets.subrange(a0, a1 + 1),
                        b.offsets.subrange(b0, b1 + 1),
                    ),
                    values: Box::new(
                        a.values.appended_range(
                            a.offsets[a0],
                            a.offsets[a1],
                            *b.values,
                            b.offsets[b0],
                            b.offsets[b1],
                        ),
                    ),
                    validity: crate::bitmap::merged(
                        a.sliced(a0, a1 - a0).validity,
                        (a1 - a0) as nat,
                        b.sliced(b0, b1 - b0).validity,
                        (b1 - b0) as nat,
                    ),
                },
            ),
            (ArrayView::LargeList(a), ArrayView::LargeList(b)) => ArrayView::LargeList(
                ListView {
                    offsets: BinaryView::joined_offsets(
                        a.offsets.subrange(a0, a1 + 1),
                        b.offsets.subrange(b0, b1 + 1),
                    ),
                    values: Box::new(
                        a.values.appended_range(
                            a.offsets[a0],
                            a.offsets[a1],
                            *b.values,
                            b.offsets[b0],
                            b.offsets[b1],
                        ),
                    ),
                    validity: crate::bitmap::merged(
                        a.sliced(a0, a1 - a0).validity,
                        (a1 - a0) as nat,
                        b.sliced(b0, b1 - b0).validity,
                        (b1 - b0) as nat,
                    ),
                },
            ),
            _ => self,
        }
    }

    /// Whether the slots of `self` from `a0` up to `a1` and those of
    /// `other` from `b0` up to `b1` are together more than a `usize`, or
    /// what their offsets span more than an offset, can count, here or in
    /// the arrays below lists.
    pub open spec fn outgrown(self, a0: int, a1: int, other: ArrayView, b0: int, b1: int) -> bool
        decreases self,
    {
        match (self, other) {
            (ArrayView::Binary(a), ArrayView::Binary(b)) => outgrown_bytes(
                a.sliced(a0, a1 - a0),
                b.sliced(b0, b1 - b0),
                <i32 as Offset>::limit(),
            ),
            (ArrayView::LargeBinary(a), ArrayView::LargeBinary(b)) => outgrown_bytes(
                a.sliced(a0, a1 - a0),
                b.sliced(b0, b1 - b0),
                <i64 as Offset>::limit(),
            ),
            (ArrayView::Utf8(a), ArrayView::Utf8(b)) => outgrown_bytes(
                a.sliced(a0, a1 - a0),
                b.sliced(b0, b1 - b0),
                <i32 as Offset>::limit(),
            ),
            (ArrayView::LargeUtf8(a), ArrayView::LargeUtf8(b)) => outgrown_bytes(
                a.sliced(a0, a1 - a0),
                b.sliced(b0, b1 - b0),
                <i64 as Offset>::limit(),
            ),
            (ArrayView::FixedSizeBinary(a), ArrayView::FixedSizeBinary(b)) => a.sliced(
                a0,
                a1 - a0,
            ).values.len() + b.sliced(b0, b1 - b0).values.len() > usize::MAX,
            (ArrayView::List(a), ArrayView::List(b)) => outgrown_offsets(
                a,
                a0,
                a1,
                b,
                b0,
                b1,
                <i32 as Offset>::limit(),
            ) || a.values.outgrown(
                a.offsets[a0],
                a.offsets[a1],
                *b.values,
                b.offsets[b0],
                b.offsets[b1],
            ),
            (ArrayView::LargeList(a), ArrayView::LargeList(b)) => outgrown_offsets(
                a,
                a0,
                a1,
                b,
                b0,
                b1,
                <i64 as Offset>::limit(),
            ) || a.values.outgrown(
                a.offsets[a0],
                a.offsets[a1],
                *b.values,
                b.offsets[b0],
                b.offsets[b1],
            ),
            _ => (a1 - a0) + (b1 - b0) > usize::MAX,
        }
    }

    /// The slots of `self` and then those of `other`.
    pub open spec fn appended(self, other: ArrayView) -> ArrayView {
        self.appended_range(0, self.len() as int, other, 0, other.len() as int)
    }
}

/// A copy of the slots of `array` from `a0` up to `a1` and then those of
/// `other` from `b0` up to `b1`, under the type of `array`. `None` where
/// the slots, or what the offsets count, are too many.
pub fn append_range(array: &Array, a0: usize, a1: usize, other: &Array, b0: usize, b1: usize) -> (all:
    Option<Array>)
    requires
        array.wf(),
        other.wf(),
        array@.same_kind(other@),
        a0 <= a1 <= array@.len(),
        b0 <= b1 <= other@.len(),
    ensures
        match all {
            Some(all) => all@ == array@.appended_range(
                a0 as int,
                a1 as int,
                other@,
                b0 as int,
                b1 as int,
            ) && all.logical_type() == array.logical_type() && all.wf(),
            None => array@.outgrown(a0 as int, a1 as int, other@, b0 as int, b1 as int),
        },
    decreases array,
{
    match (array, other) {
        (Array::List(a), Array::List(b)) => match append_lists(a, a0, a1, b, b0, b1) {
            Some(all) => Some(Array::List(all)),
            None => None,
        },
        (Array::LargeList(a), Array::LargeList(b)) => match append_lists(a, a0, a1, b, b0, b1) {
            Some(all) => Some(Array::LargeList(all)),
            None => None,
        },
        _ => append_flat(array, a0, a1, other, b0, b1),
    }
}

/// What [`append_range`] gives for arrays that are not of lists.
fn append_flat(array: &Array, a0: usize, a1: usize, other: &Array, b0: usize, b1: usize) -> (all:
    Option<Array>)
    requires
        array@.same_kind(other@),
        !(array is List),
        !(array is LargeList),
        a0 <= a1 <= array@.len(),
        b0 <= b1 <= other@.len(),
    ensures
        match all {
            Some(all) => all@ == array@.appended_range(
                a0 as int,
                a1 as int,
                other@,
                b0 as int,
                b1 as int,
            ) && all.logical_type() == array.logical_type() && all.wf(),
            None => array@.outgrown(a0 as int, a1 as int, other@, b0 as int, b1 as int),
        },
{
    match (array, other) {
        (Array::Null(a), Array::Null(b)) => match append_nulls(a, a0, a1, b, b0, b1) {
            Some(all) => Some(Array::Null(all)),
            None => None,
        },
        (Array::Empty(a), Array::Empty(_)) => Some(
            Array::Empty(EmptyArray::new(a.data_type().clone())),
        ),
        (Array::Boolean(a), Array::Boolean(b)) => match append_bools(a, a0, a1, b, b0, b1) {
            Some(all) => Some(Array::Boolean(all)),
            None => None,
        },
        (Array::Int8(a), Array::Int8(b)) => match append_slots(a, a0, a1, b, b0, b1) {
            Some(all) => Some(Array::Int8(all)),
            None => None,
        },
        (Array::Int16(a), Array::Int16(b)) => match append_slots(a, a0, a1, b, b0, b1) {
            Some(all) => Some(Array::Int16(all)),
            None => None,
        },
        (Array::Int32(a), Array::Int32(b)) => match append_slots(a, a0, a1, b, b0, b1) {
            Some(all) => Some(Array::Int32(all)),
            None => None,
        },
        (Array::Int64(a), Array::Int64(b)) => match append_slots(a, a0, a1, b, b0, b1) {
            Some(all) => Some(Array::Int64(all)),
            None => None,
        },
        (Array::Int128(a), Array::Int128(b)) => match append_slots(a, a0, a1, b, b0, b1) {
            Some(all) => Some(Array::Int128(all)),
            None => None,
        },
        (Array::DaysMs(a), Array::DaysMs(b)) => match append_slots(a, a0, a1, b, b0, b1) {
            Some(all) => Some(Array::DaysMs(all)),
            None => None,
        },
        (Array::UInt8(a), Array::UInt8(b)) => match append_slots(a, a0, a1, b, b0, b1) {
            Some(all) => Some(Array::UInt8(all)),
            None => None,
        },
        (Array::UInt16(a), Array::UInt16(b)) => match append_slots(a, a0, a1, b, b0, b1) {
            Some(all) => Some(Array::UInt16(all)),
            None => None,
        },
        (Array::UInt32(a), Array::UInt32(b)) => match append_slots(a, a0, a1, b, b0, b1) {
            Some(all) => Some(Array::UInt32(all)),
            None => None,
        },
        (Array::UInt64(a), Array::UInt64(b)) => match append_slots(a, a0, a1, b, b0, b1) {
            Some(all) => Some(Array::UInt64(all)),
            None => None,
        },
        (Array::Binary(a), Array::Binary(b)) => match append_binary(a, a0, a1, b, b0, b1) {
            Some(all) => Some(Array::Binary(all)),
            None => None,
        },
        (Array::LargeBinary(a), Array::LargeBinary(b)) => match append_binary(a, a0, a1, b, b0, b1) {
            Some(all) => Some(Array::LargeBinary(all)),
            None => None,
        },
        (Array::Utf8(a), Array::Utf8(b)) => match append_texts(a, a0, a1, b, b0, b1) {
            Some(all) => Some(Array::Utf8(all)),
            None => None,
        },
        (Array::LargeUtf8(a), Array::LargeUtf8(b)) => match append_texts(a, a0, a1, b, b0, b1) {
            Some(all) => Some(Array::LargeUtf8(all)),
            None => None,
        },
        (Array::FixedSizeBinary(a), Array::FixedSizeBinary(b)) => match append_fixed(a, a0, a1, b, b0, b1) {
            Some(all) => Some(Array::FixedSizeBinary(all)),
            None => None,
        },
        _ => None,
    }
}

/// The slots of a range of `a` and then those of a range of `b`.
fn append_slots<T: NativeType>(a: &PrimitiveArray<T>, a0: usize, a1: usize, b: &PrimitiveArray<T>, b0: usize, b1: usize) -> (all: Option<PrimitiveArray<T>>)
    requires
        a0 <= a1 <= a@.len(),
        b0 <= b1 <= b@.len(),
    ensures
        match all {
            Some(all) => all@ == a@.sliced(a0 as int, a1 - a0).appended(
                b@.sliced(b0 as int, b1 - b0),
            ) && all.logical_type() == a.logical_type(),
            None => (a1 - a0) + (b1 - b0) > usize::MAX,
        },
{
    let first = a.slice(a0, a1 - a0);
    let second = b.slice(b0, b1 - b0);
    first.append(&second)
}

/// The slots of a range of `a` and then those of a range of `b`.
fn append_bools(a: &BooleanArray, a0: usize, a1: usize, b: &BooleanArray, b0: usize, b1: usize) -> (all: Option<BooleanArray>)
    requires
        a0 <= a1 <= a@.len(),
        b0 <= b1 <= b@.len(),
    ensures
        match all {
            Some(all) => all@ == a@.sliced(a0 as int, a1 - a0).appended(
                b@.sliced(b0 as int, b1 - b0),
            ) && all.logical_type() == a.logical_type(),
            None => (a1 - a0) + (b1 - b0) > usize::MAX,
        },
{
    let first = a.slice(a0, a1 - a0);
    let second = b.slice(b0, b1 - b0);
    first.append(&second)
}

/// The byte strings of a range of `a` and then those of a range of `b`.
fn append_binary<O: Offset>(a: &BinaryArray<O>, a0: usize, a1: usize, b: &BinaryArray<O>, b0: usize, b1: usize) -> (all: Option<BinaryArray<O>>)
    requires
        a0 <= a1 <= a@.len(),
        b0 <= b1 <= b@.len(),
    ensures
        match all {
            Some(all) => all@ == a@.sliced(a0 as int, a1 - a0).appended(
                b@.sliced(b0 as int, b1 - b0),
            ) && all.logical_type() == a.logical_type(),
            None => outgrown_bytes(a@.sliced(a0 as int, a1 - a0), b@.sliced(b0 as int, b1 - b0), O::limit()),
        },
{
    let first = a.slice(a0, a1 - a0);
    let second = b.slice(b0, b1 - b0);
    first.append(&second)
}

/// The texts of a range of `a` and then those of a range of `b`.
fn append_texts<O: Offset>(a: &Utf8Array<O>, a0: usize, a1: usize, b: &Utf8Array<O>, b0: usize, b1: usize) -> (all: Option<Utf8Array<O>>)
    requires
        a0 <= a1 <= a@.len(),
        b0 <= b1 <= b@.len(),
    ensures
        match all {
            Some(all) => all@ == a@.sliced(a0 as int, a1 - a0).appended(
                b@.sliced(b0 as int, b1 - b0),
            ) && all.logical_type() == a.logical_type(),
            None => outgrown_bytes(a@.sliced(a0 as int, a1 - a0), b@.sliced(b0 as int, b1 - b0), O::limit()),
        },
{
    let first = a.slice(a0, a1 - a0);
    let second = b.slice(b0, b1 - b0);
    first.append(&second)
}

/// The byte strings of a range of `a` and then those of a range of `b`.
fn append_fixed(a: &FixedSizeBinaryArray, a0: usize, a1: usize, b: &FixedSizeBinaryArray, b0: usize, b1: usize) -> (all: Option<FixedSizeBinaryArray>)
    requires
        a0 <= a1 <= a@.len(),
        b0 <= b1 <= b@.len(),
        a@.size == b@.size,
    ensures
        match all {
            Some(all) => all@ == a@.sliced(a0 as int, a1 - a0).appended(
                b@.sliced(b0 as int, b1 - b0),
            ),
            None => a@.sliced(a0 as int, a1 - a0).values.len() + b@.sliced(
                b0 as int,
                b1 - b0,
            ).values.len() > usize::MAX,
        },
{
    let first = a.slice(a0, a1 - a0);
    let second = b.slice(b0, b1 - b0);
    first.append(&second)
}

/// As many nulls as a range of `a` and a range of `b` hold together.
fn append_nulls(a: &NullArray, a0: usize, a1: usize, b: &NullArray, b0: usize, b1: usize) -> (all: Option<NullArray>)
    requires
        a0 <= a1 <= a@,
        b0 <= b1 <= b@,
    ensures
        match all {
            Some(all) => all@ == (a1 - a0) + (b1 - b0),
            None => (a1 - a0) + (b1 - b0) > usize::MAX,
        },
{
    let first = a.slice(a0, a1 - a0);
    let second = b.slice(b0, b1 - b0);
    first.append(&second)
}

/// Whether the slots of two arrays of bytes are together more than a
/// `usize`, or their bytes more than `limit` or a `usize`, can count.
pub open spec fn outgrown_bytes(a: BinaryView, b: BinaryView, limit: int) -> bool {
    a.len() + b.len() + 1 > usize::MAX || a.span() + b.span() > limit || a.span() + b.span()
        > usize::MAX
}

/// Whether lists `a0` up to `a1` of `a` and `b0` up to `b1` of `b` are
/// together more than a `usize`, or what they span more than `limit` or a
/// `usize`, can count.
pub open spec fn outgrown_offsets(
    a: ListView,
    a0: int,
    a1: int,
    b: ListView,
    b0: int,
    b1: int,
    limit: int,
) -> bool {
    (a1 - a0) + (b1 - b0) + 1 > usize::MAX || (a.offsets[a1] - a.offsets[a0]) + (b.offsets[b1]
        - b.offsets[b0]) > limit || (a.offsets[a1] - a.offsets[a0]) + (b.offsets[b1]
        - b.offsets[b0]) > usize::MAX
}

/// Whether ranges of two arrays of lists are too large to stand in one,
/// by their own offsets or in the arrays below.
pub open spec fn outgrown_lists(
    a: ListView,
    a0: int,
    a1: int,
    b: ListView,
    b0: int,
    b1: int,
    limit: int,
) -> bool {
    outgrown_offsets(a, a0, a1, b, b0, b1, limit) || a.values.outgrown(
        a.offsets[a0],
        a.offsets[a1],
        *b.values,
        b.offsets[b0],
        b.offsets[b1],
    )
}

/// A copy of the lists of `a` from `a0` up to `a1` and then those of `b`
/// from `b0` up to `b1`, over the runs of the arrays below that they span.
fn append_lists<O: Offset>(
    a: &ListArray<O>,
    a0: usize,
    a1: usize,
    b: &ListArray<O>,
    b0: usize,
    b1: usize,
) -> (all: Option<ListArray<O>>)
    requires
        a.wf(),
        b.wf(),
        a@.values.same_kind(*b@.values),
        a0 <= a1 <= a@.len(),
        b0 <= b1 <= b@.len(),
    ensures
        match all {
            Some(all) => all@ == (ListView {
            offsets: BinaryView::joined_offsets(
                a@.offsets.subrange(a0 as int, a1 + 1),
                b@.offsets.subrange(b0 as int, b1 + 1),
            ),
            values: Box::new(
                a@.values.appended_range(
                    a@.offsets[a0 as int],
                    a@.offsets[a1 as int],
                    *b@.values,
                    b@.offsets[b0 as int],
                    b@.offsets[b1 as int],
                ),
            ),
            validity: crate::bitmap::merged(
                a@.sliced(a0 as int, a1 - a0).validity,
                (a1 - a0) as nat,
                b@.sliced(b0 as int, b1 - b0).validity,
                (b1 - b0) as nat,
            ),
        }) && all.logical_type() == a.logical_type() && all.wf(),
            None => outgrown_lists(a@, a0 as int, a1 as int, b@, b0 as int, b1 as int, O::limit()),
        },
    decreases a,
{
    let a_n = a.offsets.len();
    let b_n = b.offsets.len();
    let below_a = a.values.len();
    let below_b = b.values.len();
    let ghost o = a@.offsets;
    let ghost p = b@.offsets;
    let first = vstd::slice::slice_subrange(a.offsets.as_slice(), a0, a1 + 1);
    let second = vstd::slice::slice_subrange(b.offsets.as_slice(), b0, b1 + 1);
    proof {
        assert(numbers(first@) =~= o.subrange(a0 as int, a1 + 1));
        assert(numbers(second@) =~= p.subrange(b0 as int, b1 + 1));
        assert forall|i: int, j: int| 0 <= i <= j < numbers(first@).len() implies #[trigger] numbers(
            first@,
        )[i] <= #[trigger] numbers(first@)[j] by {
            assert(o[a0 + i] <= o[a0 + j]);
        }
        assert forall|i: int, j: int| 0 <= i <= j < numbers(second@).len() implies #[trigger] numbers(
            second@,
        )[i] <= #[trigger] numbers(second@)[j] by {
            assert(p[b0 + i] <= p[b0 + j]);
        }
        assert(o[0] <= o[a0 as int]);
        assert(p[0] <= p[b0 as int]);
        assert(o[a0 as int] <= o[a1 as int]);
        assert(p[b0 as int] <= p[b1 as int]);
        assert(o[a1 as int] <= o[a_n - 1]);
        assert(p[b1 as int] <= p[b_n - 1]);
    }
    let offsets = match join_offsets(first, second) {
        Some(offsets) => offsets,
        None => {
            return None;
        },
    };
    let count = offsets.len();
    assert(numbers(offsets@).len() == count);
    let child_a0 = a.offsets[a0].to_usize();
    let child_a1 = a.offsets[a1].to_usize();
    let child_b0 = b.offsets[b0].to_usize();
    let child_b1 = b.offsets[b1].to_usize();
    let values = match append_range(&*a.values, child_a0, child_a1, &*b.values, child_b0, child_b1) {
        Some(values) => values,
        None => {
            return None;
        },
    };
    let validity = crate::bitmap::merge_validity(
        match &a.validity {
            Some(v) => Some(v.slice(a0, a1 - a0)),
            None => None,
        }.as_ref(),
        a1 - a0,
        match &b.validity {
            Some(v) => Some(v.slice(b0, b1 - b0)),
            None => None,
        }.as_ref(),
        b1 - b0,
    );
    let ghost child_len = values@.len();
    proof {
        lemma_appended_len(
            *a@.values,
            child_a0 as int,
            child_a1 as int,
            *b@.values,
            child_b0 as int,
            child_b1 as int,
        );
        let joined = numbers(offsets@);
        assert(joined.len() == (a1 - a0 + 1) + (b1 - b0 + 1) - 1);
        assert(joined[joined.len() - 1] == (child_a1 - child_a0) + (child_b1 - child_b0));
        assert forall|i: int, j: int| 0 <= i <= j < joined.len() implies #[trigger] joined[i]
            <= #[trigger] joined[j] by {
            let n = a1 - a0 + 1;
            if j < n {
                assert(o[a0 + i] <= o[a0 + j]);
            } else if i < n {
                assert(o[a0 + i] <= o[a1 as int]);
                assert(p[b0 as int] <= p[b0 + (j - n + 1)]);
            } else {
                assert(p[b0 + (i - n + 1)] <= p[b0 + (j - n + 1)]);
            }
        }
    }
    Some(ListArray { data_type: a.data_type.clone(), offsets, values: Box::new(values), validity })
}

/// The slots of ranges of two arrays of one kind, one after the other, are
/// as many as the ranges have together.
pub proof fn lemma_appended_len(a: ArrayView, a0: int, a1: int, b: ArrayView, b0: int, b1: int)
    requires
        a.same_kind(b),
        array_wf(a),
        array_wf(b),
        0 <= a0 <= a1 <= a.len(),
        0 <= b0 <= b1 <= b.len(),
    ensures
        a.appended_range(a0, a1, b, b0, b1).len() == (a1 - a0) + (b1 - b0),
{
    match (a, b) {
        (ArrayView::FixedSizeBinary(x), ArrayView::FixedSizeBinary(y)) => {
            let s = x.size as int;
            let xs = x.sliced(a0, a1 - a0);
            let ys = y.sliced(b0, b1 - b0);
            vstd::arithmetic::div_mod::lemma_fundamental_div_mod(x.values.len() as int, s);
            vstd::arithmetic::div_mod::lemma_fundamental_div_mod(y.values.len() as int, s);
            assert(a1 * s <= (x.values.len() as int / s) * s) by (nonlinear_arith)
                requires
                    a1 <= x.values.len() as int / s,
                    s > 0,
            ;
            assert(b1 * s <= (y.values.len() as int / s) * s) by (nonlinear_arith)
                requires
                    b1 <= y.values.len() as int / s,
                    s > 0,
            ;
            assert((x.values.len() as int / s) * s == s * (x.values.len() as int / s))
                by (nonlinear_arith);
            assert((y.values.len() as int / s) * s == s * (y.values.len() as int / s))
                by (nonlinear_arith);
            assert(a0 * s <= a1 * s && 0 <= a0 * s) by (nonlinear_arith)
                requires
                    0 <= a0 <= a1,
                    s > 0,
            ;
            assert(b0 * s <= b1 * s && 0 <= b0 * s) by (nonlinear_arith)
                requires
                    0 <= b0 <= b1,
                    s > 0,
            ;
            assert((a0 + (a1 - a0)) * s == a1 * s);
            assert((b0 + (b1 - b0)) * s == b1 * s);
            assert(a1 * s - a0 * s + (b1 * s - b0 * s) == s * ((a1 - a0) + (b1 - b0)))
                by (nonlinear_arith);
            vstd::arithmetic::div_mod::lemma_fundamental_div_mod_converse(
                a1 * s - a0 * s + (b1 * s - b0 * s),
                s,
                (a1 - a0) + (b1 - b0),
                0,
            );
        },
        _ => {},
    }
}

/// Whether the two are arrays of one kind, down to the arrays below lists.
pub fn same_kind(array: &Array, other: &Array) -> (b: bool)
    ensures
        b == array@.same_kind(other@),
    decreases array,
{
    match (array, other) {
        (Array::Null(_), Array::Null(_)) => true,
        (Array::Empty(_), Array::Empty(_)) => true,
        (Array::Boolean(_), Array::Boolean(_)) => true,
        (Array::Int8(_), Array::Int8(_)) => true,
        (Array::Int16(_), Array::Int16(_)) => true,
        (Array::Int32(_), Array::Int32(_)) => true,
        (Array::Int64(_), Array::Int64(_)) => true,
        (Array::Int128(_), Array::Int128(_)) => true,
        (Array::DaysMs(_), Array::DaysMs(_)) => true,
        (Array::UInt8(_), Array::UInt8(_)) => true,
        (Array::UInt16(_), Array::UInt16(_)) => true,
        (Array::UInt32(_), Array::UInt32(_)) => true,
        (Array::UInt64(_), Array::UInt64(_)) => true,
        (Array::Binary(_), Array::Binary(_)) => true,
        (Array::LargeBinary(_), Array::LargeBinary(_)) => true,
        (Array::Utf8(_), Array::Utf8(_)) => true,
        (Array::LargeUtf8(_), Array::LargeUtf8(_)) => true,
        (Array::FixedSizeBinary(a), Array::FixedSizeBinary(b)) => a.size() == b.size(),
        (Array::List(a), Array::List(b)) => same_kind(&*a.values, &*b.values),
        (Array::LargeList(a), Array::LargeList(b)) => same_kind(&*a.values, &*b.values),
        _ => false,
    }
}

/// Every array is of one kind with itself.
pub proof fn lemma_same_kind_reflexive(a: ArrayView)
    ensures
        a.same_kind(a),
    decreases a,
{
    match a {
        ArrayView::List(x) => lemma_same_kind_reflexive(*x.values),
        ArrayView::LargeList(x) => lemma_same_kind_reflexive(*x.values),
        _ => {},
    }
}

/// Ranges of two arrays of one kind, one after the other, are of that kind
/// again.
pub proof fn lemma_appended_kind(
    a: ArrayView,
    a0: int,
    a1: int,
    b: ArrayView,
    b0: int,
    b1: int,
    c: ArrayView,
)
    requires
        a.same_kind(b),
        a.same_kind(c),
    ensures
        a.appended_range(a0, a1, b, b0, b1).same_kind(c),
    decreases a,
{
    match (a, b, c) {
        (ArrayView::List(x), ArrayView::List(y), ArrayView::List(z)) => {
            lemma_appended_kind(
                *x.values,
                x.offsets[a0],
                x.offsets[a1],
                *y.values,
                y.offsets[b0],
                y.offsets[b1],
                *z.values,
            );
        },
        (ArrayView::LargeList(x), ArrayView::LargeList(y), ArrayView::LargeList(z)) => {
            lemma_appended_kind(
                *x.values,
                x.offsets[a0],
                x.offsets[a1],
                *y.values,
                y.offsets[b0],
                y.offsets[b1],
                *z.values,
            );
        },
        _ => {},
    }
}

} // verus!
