//! The native types of array values and of offsets.
use vstd::prelude::*;

use crate::datatypes::{DataType, DataTypeView};

verus! {

/// A fixed-width value that a primitive array can hold.
pub trait NativeType: Copy + Sized {
    /// The value that null slots hold.
    spec fn zero() -> Self;

    /// The logical type that such values have if no other is given.
    spec fn natural_type() -> DataTypeView;

    /// Returns the value that null slots hold.
    fn default_value() -> (v: Self)
        ensures
            v == Self::zero(),
    ;

    /// Returns the logical type that such values have if no other is given.
    fn data_type() -> (data_type: DataType)
        ensures
            data_type@ == Self::natural_type(),
    ;

    /// Whether `self` and `other` are the same value.
    fn same(&self, other: &Self) -> (b: bool)
        ensures
            b == (*self == *other),
    ;

    /// Whether `self` comes before `other` in the order of the type.
    spec fn before(self, other: Self) -> bool;

    /// Whether `self` comes before `other` in the order of the type.
    fn less_than(&self, other: &Self) -> (b: bool)
        ensures
            b == self.before(*other),
    ;

    /// The order of the type is total: of two different values one comes
    /// before the other, never both ways, and "before" is transitive.
    proof fn lemma_order(a: Self, b: Self, c: Self)
        ensures
            !a.before(a),
            a != b ==> a.before(b) || b.before(a),
            a.before(b) ==> !b.before(a),
            a.before(b) && b.before(c) ==> a.before(c),
    ;
}

impl NativeType for i8 {
    open spec fn zero() -> Self {
        0
    }

    open spec fn natural_type() -> DataTypeView {
        DataTypeView::Int8
    }

    fn default_value() -> (v: Self) {
        0
    }

    fn data_type() -> (data_type: DataType) {
        DataType::Int8
    }

    fn same(&self, other: &Self) -> (b: bool) {
        *self == *other
    }

    open spec fn before(self, other: Self) -> bool {
        self < other
    }

    fn less_than(&self, other: &Self) -> (b: bool) {
        *self < *other
    }

    proof fn lemma_order(a: Self, b: Self, c: Self) {
    }
}

impl NativeType for i16 {
    open spec fn zero() -> Self {
        0
    }

    open spec fn natural_type() -> DataTypeView {
        DataTypeView::Int16
    }

    fn default_value() -> (v: Self) {
        0
    }

    fn data_type() -> (data_type: DataType) {
        DataType::Int16
    }

    fn same(&self, other: &Self) -> (b: bool) {
        *self == *other
    }

    open spec fn before(self, other: Self) -> bool {
        self < other
    }

    fn less_than(&self, other: &Self) -> (b: bool) {
        *self < *other
    }

    proof fn lemma_order(a: Self, b: Self, c: Self) {
    }
}

impl NativeType for i32 {
    open spec fn zero() -> Self {
        0
    }

    open spec fn natural_type() -> DataTypeView {
        DataTypeView::Int32
    }

    fn default_value() -> (v: Self) {
        0
    }

    fn data_type() -> (data_type: DataType) {
        DataType::Int32
    }

    fn same(&self, other: &Self) -> (b: bool) {
        *self == *other
    }

    open spec fn before(self, other: Self) -> bool {
        self < other
    }

    fn less_than(&self, other: &Self) -> (b: bool) {
        *self < *other
    }

    proof fn lemma_order(a: Self, b: Self, c: Self) {
    }
}

impl NativeType for i64 {
    open spec fn zero() -> Self {
        0
    }

    open spec fn natural_type() -> DataTypeView {
        DataTypeView::Int64
    }

    fn default_value() -> (v: Self) {
        0
    }

    fn data_type() -> (data_type: DataType) {
        DataType::Int64
    }

    fn same(&self, other: &Self) -> (b: bool) {
        *self == *other
    }

    open spec fn before(self, other: Self) -> bool {
        self < other
    }

    fn less_than(&self, other: &Self) -> (b: bool) {
        *self < *other
    }

    proof fn lemma_order(a: Self, b: Self, c: Self) {
    }
}

impl NativeType for u8 {
    open spec fn zero() -> Self {
        0
    }

    open spec fn natural_type() -> DataTypeView {
        DataTypeView::UInt8
    }

    fn default_value() -> (v: Self) {
        0
    }

    fn data_type() -> (data_type: DataType) {
        DataType::UInt8
    }

    fn same(&self, other: &Self) -> (b: bool) {
        *self == *other
    }

    open spec fn before(self, other: Self) -> bool {
        self < other
    }

    fn less_than(&self, other: &Self) -> (b: bool) {
        *self < *other
    }

    proof fn lemma_order(a: Self, b: Self, c: Self) {
    }
}

impl NativeType for u16 {
    open spec fn zero() -> Self {
        0
    }

    open spec fn natural_type() -> DataTypeView {
        DataTypeView::UInt16
    }

    fn default_value() -> (v: Self) {
        0
    }

    fn data_type() -> (data_type: DataType) {
        DataType::UInt16
    }

    fn same(&self, other: &Self) -> (b: bool) {
        *self == *other
    }

    open spec fn before(self, other: Self) -> bool {
        self < other
    }

    fn less_than(&self, other: &Self) -> (b: bool) {
        *self < *other
    }

    proof fn lemma_order(a: Self, b: Self, c: Self) {
    }
}

impl NativeType for u32 {
    open spec fn zero() -> Self {
        0
    }

    open spec fn natural_type() -> DataTypeView {
        DataTypeView::UInt32
    }

    fn default_value() -> (v: Self) {
        0
    }

    fn data_type() -> (data_type: DataType) {
        DataType::UInt32
    }

    fn same(&self, other: &Self) -> (b: bool) {
        *self == *other
    }

    open spec fn before(self, other: Self) -> bool {
        self < other
    }

    fn less_than(&self, other: &Self) -> (b: bool) {
        *self < *other
    }

    proof fn lemma_order(a: Self, b: Self, c: Self) {
    }
}

impl NativeType for u64 {
    open spec fn zero() -> Self {
        0
    }

    open spec fn natural_type() -> DataTypeView {
        DataTypeView::UInt64
    }

    fn default_value() -> (v: Self) {
        0
    }

    fn data_type() -> (data_type: DataType) {
        DataType::UInt64
    }

    fn same(&self, other: &Self) -> (b: bool) {
        *self == *other
    }

    open spec fn before(self, other: Self) -> bool {
        self < other
    }

    fn less_than(&self, other: &Self) -> (b: bool) {
        *self < *other
    }

    proof fn lemma_order(a: Self, b: Self, c: Self) {
    }
}

impl NativeType for i128 {
    open spec fn zero() -> Self {
        0
    }

    open spec fn natural_type() -> DataTypeView {
        DataTypeView::Decimal(32, 32)
    }

    fn default_value() -> (v: Self) {
        0
    }

    fn data_type() -> (data_type: DataType) {
        DataType::Decimal(32, 32)
    }

    fn same(&self, other: &Self) -> (b: bool) {
        *self == *other
    }

    open spec fn before(self, other: Self) -> bool {
        self < other
    }

    fn less_than(&self, other: &Self) -> (b: bool) {
        *self < *other
    }

    proof fn lemma_order(a: Self, b: Self, c: Self) {
    }
}

/// An interval of days and milliseconds.
#[allow(non_camel_case_types)]
#[derive(Debug, Clone, Copy, PartialEq, Eq, Structural)]
pub struct days_ms {
    /// The days.
    pub days: i32,
    /// The milliseconds.
    pub milliseconds: i32,
}

impl days_ms {
    /// The interval of `days` days and `milliseconds` milliseconds.
    pub fn new(days: i32, milliseconds: i32) -> (interval: Self)
        ensures
            interval == (days_ms { days, milliseconds }),
    {
        days_ms { days, milliseconds }
    }

    /// The days of the interval.
    pub fn days(&self) -> (days: i32)
        ensures
            days == self.days,
    {
        self.days
    }

    /// The milliseconds of the interval.
    pub fn milliseconds(&self) -> (milliseconds: i32)
        ensures
            milliseconds == self.milliseconds,
    {
        self.milliseconds
    }
}

impl NativeType for days_ms {
    open spec fn zero() -> Self {
        days_ms { days: 0, milliseconds: 0 }
    }

    open spec fn natural_type() -> DataTypeView {
        DataTypeView::Interval(crate::datatypes::IntervalUnit::DayTime)
    }

    fn default_value() -> (v: Self) {
        days_ms { days: 0, milliseconds: 0 }
    }

    fn data_type() -> (data_type: DataType) {
        DataType::Interval(crate::datatypes::IntervalUnit::DayTime)
    }

    fn same(&self, other: &Self) -> (b: bool) {
        self.days == other.days && self.milliseconds == other.milliseconds
    }

    open spec fn before(self, other: Self) -> bool {
        self.days < other.days || (self.days == other.days && self.milliseconds
            < other.milliseconds)
    }

    fn less_than(&self, other: &Self) -> (b: bool) {
        self.days < other.days || (self.days == other.days && self.milliseconds
            < other.milliseconds)
    }

    proof fn lemma_order(a: Self, b: Self, c: Self) {
    }
}

/// The number of `i`.
pub open spec fn int_of(i: usize) -> int {
    i as int
}

/// The natural number of `i`.
pub open spec fn nat_of(i: usize) -> nat {
    i as nat
}

/// The integer type of the offsets of an array of variable-length items:
/// 32 bits, or 64 bits for the large kinds.
pub trait Offset: Copy + Sized {
    /// Whether these are the offsets of the large kinds.
    spec fn large() -> bool;

    /// The number that the offset stands for.
    spec fn number(self) -> int;

    /// The greatest number that an offset can stand for.
    spec fn limit() -> int;

    /// Whether these are the offsets of the large kinds.
    fn is_large() -> (b: bool)
        ensures
            b == Self::large(),
    ;

    /// The offset that stands for zero.
    fn zero() -> (offset: Self)
        ensures
            offset.number() == 0,
    ;

    /// The offset that stands for `n`, if there is one.
    fn from_usize(n: usize) -> (offset: Option<Self>)
        ensures
            match offset {
                Some(offset) => offset.number() == n && n <= Self::limit(),
                None => n > Self::limit(),
            },
    ;

    /// The number that the offset stands for, if it is not negative.
    fn to_usize(&self) -> (n: usize)
        requires
            0 <= self.number() <= usize::MAX,
        ensures
            n == self.number(),
    ;

    /// No offset stands for more than the limit.
    proof fn lemma_bounded(offset: Self)
        ensures
            offset.number() <= Self::limit(),
    ;
}

impl Offset for i32 {
    open spec fn large() -> bool {
        false
    }

    open spec fn number(self) -> int {
        self as int
    }

    open spec fn limit() -> int {
        i32::MAX as int
    }

    fn is_large() -> (b: bool) {
        false
    }

    fn zero() -> (offset: Self) {
        0
    }

    fn from_usize(n: usize) -> (offset: Option<Self>) {
        if n <= 0x7fff_ffff {
            Some(n as i32)
        } else {
            None
        }
    }

    fn to_usize(&self) -> (n: usize) {
        *self as usize
    }

    proof fn lemma_bounded(offset: Self) {
    }
}

impl Offset for i64 {
    open spec fn large() -> bool {
        true
    }

    open spec fn number(self) -> int {
        self as int
    }

    open spec fn limit() -> int {
        i64::MAX as int
    }

    fn is_large() -> (b: bool) {
        true
    }

    fn zero() -> (offset: Self) {
        0
    }

    fn from_usize(n: usize) -> (offset: Option<Self>) {
        if n as u64 <= 0x7fff_ffff_ffff_ffff {
            Some(n as i64)
        } else {
            None
        }
    }

    fn to_usize(&self) -> (n: usize) {
        *self as usize
    }

    proof fn lemma_bounded(offset: Self) {
    }
}

} // verus!
