//! Logical data types, fields, and their mathematical views.
use vstd::prelude::*;

mod metadata;

pub use metadata::{entries_view, lex_lt, sorted_by_key, upsert, Metadata};

verus! {

/// The unit of a time-like type.
#[derive(Debug, Clone, Copy, PartialEq, Eq, Structural)]
pub enum TimeUnit {
    /// Seconds.
    Second,
    /// Milliseconds.
    Millisecond,
    /// Microseconds.
    Microsecond,
    /// Nanoseconds.
    Nanosecond,
}

/// The unit of an interval.
#[derive(Debug, Clone, Copy, PartialEq, Eq, Structural)]
pub enum IntervalUnit {
    /// Whole months.
    YearMonth,
    /// Days and milliseconds.
    DayTime,
    /// Months, days and nanoseconds.
    MonthDayNano,
}

/// The integer types that may index a dictionary.
#[derive(Debug, Clone, Copy, PartialEq, Eq, Structural)]
pub enum IntegerType {
    /// A signed 8-bit integer.
    Int8,
    /// A signed 16-bit integer.
    Int16,
    /// A signed 32-bit integer.
    Int32,
    /// A signed 64-bit integer.
    Int64,
    /// An unsigned 8-bit integer.
    UInt8,
    /// An unsigned 16-bit integer.
    UInt16,
    /// An unsigned 32-bit integer.
    UInt32,
    /// An unsigned 64-bit integer.
    UInt64,
}

/// How the branches of a union are laid out.
#[derive(Debug, Clone, Copy, PartialEq, Eq, Structural)]
pub enum UnionMode {
    /// Every branch has its own offsets.
    Dense,
    /// Every branch is as long as the union.
    Sparse,
}

impl UnionMode {
    /// `Sparse` if `is_sparse`, else `Dense`.
    pub open spec fn of(is_sparse: bool) -> UnionMode {
        if is_sparse {
            UnionMode::Sparse
        } else {
            UnionMode::Dense
        }
    }

    /// Returns `Sparse` if `is_sparse`, else `Dense`.
    pub fn sparse(is_sparse: bool) -> (mode: Self)
        ensures
            mode == Self::of(is_sparse),
    {
        if is_sparse {
            UnionMode::Sparse
        } else {
            UnionMode::Dense
        }
    }

    /// Whether the mode is `Sparse`.
    pub fn is_sparse(&self) -> (b: bool)
        ensures
            b == (*self == UnionMode::Sparse),
    {
        match self {
            UnionMode::Sparse => true,
            UnionMode::Dense => false,
        }
    }
}

/// A logical data type.
#[derive(Debug, PartialEq, Eq)]
pub enum DataType {
    /// Only nulls.
    Null,
    /// `true` and `false`.
    Boolean,
    /// A signed 8-bit integer.
    Int8,
    /// A signed 16-bit integer.
    Int16,
    /// A signed 32-bit integer.
    Int32,
    /// A signed 64-bit integer.
    Int64,
    /// An unsigned 8-bit integer.
    UInt8,
    /// An unsigned 16-bit integer.
    UInt16,
    /// An unsigned 32-bit integer.
    UInt32,
    /// An unsigned 64-bit integer.
    UInt64,
    /// A 16-bit floating point number.
    Float16,
    /// A 32-bit floating point number.
    Float32,
    /// A 64-bit floating point number.
    Float64,
    /// An instant, counted in a unit since the epoch, with an optional time zone.
    Timestamp(TimeUnit, Option<String>),
    /// Days since the epoch, in 32 bits.
    Date32,
    /// Milliseconds since the epoch, in 64 bits.
    Date64,
    /// Time since midnight in 32 bits: seconds or milliseconds.
    Time32(TimeUnit),
    /// Time since midnight in 64 bits: microseconds or nanoseconds.
    Time64(TimeUnit),
    /// Elapsed time in a unit.
    Duration(TimeUnit),
    /// A calendar interval.
    Interval(IntervalUnit),
    /// Bytes of variable length with 32-bit offsets.
    Binary,
    /// Bytes of a fixed length.
    FixedSizeBinary(usize),
    /// Bytes of variable length with 64-bit offsets.
    LargeBinary,
    /// Text with 32-bit offsets.
    Utf8,
    /// Text with 64-bit offsets.
    LargeUtf8,
    /// A list of variable length with 32-bit offsets.
    List(Box<Field>),
    /// A list of a fixed length.
    FixedSizeList(Box<Field>, usize),
    /// A list of variable length with 64-bit offsets.
    LargeList(Box<Field>),
    /// A record of named fields.
    Struct(Vec<Field>),
    /// A union of fields, with optional type ids and a mode.
    Union(Vec<Field>, Option<Vec<i32>>, UnionMode),
    /// A map given by its entries; the flag tells whether keys are sorted.
    MapType(Box<Field>, bool),
    /// Integers that index the values of another type; the flag tells whether
    /// the values are ordered.
    Dictionary(IntegerType, Box<DataType>, bool),
    /// A decimal number by precision and scale.
    Decimal(usize, usize),
    /// A named type laid over another, with optional metadata.
    Extension(String, Box<DataType>, Option<String>),
}

/// A named, typed column description.
#[derive(Debug, PartialEq, Eq)]
pub struct Field {
    /// Its name.
    pub name: String,
    /// Its logical type.
    pub data_type: DataType,
    /// Whether values may be null.
    pub is_nullable: bool,
    /// Free-form annotations.
    pub metadata: Metadata,
}

/// The name and metadata of an extension type, when there is one.
pub type Extension = Option<(String, Option<String>)>;

/// The mathematical value of a [`DataType`].
pub enum DataTypeView {
    Null,
    Boolean,
    Int8,
    Int16,
    Int32,
    Int64,
    UInt8,
    UInt16,
    UInt32,
    UInt64,
    Float16,
    Float32,
    Float64,
    Timestamp(TimeUnit, Option<Seq<char>>),
    Date32,
    Date64,
    Time32(TimeUnit),
    Time64(TimeUnit),
    Duration(TimeUnit),
    Interval(IntervalUnit),
    Binary,
    FixedSizeBinary(nat),
    LargeBinary,
    Utf8,
    LargeUtf8,
    List(Box<FieldView>),
    FixedSizeList(Box<FieldView>, nat),
    LargeList(Box<FieldView>),
    Struct(Seq<FieldView>),
    Union(Seq<FieldView>, Option<Seq<i32>>, UnionMode),
    MapType(Box<FieldView>, bool),
    Dictionary(IntegerType, Box<DataTypeView>, bool),
    Decimal(nat, nat),
    Extension(Seq<char>, Box<DataTypeView>, Option<Seq<char>>),
}

/// The mathematical value of a [`Field`]. The metadata are the entries in
/// the order of their keys.
pub struct FieldView {
    pub name: Seq<char>,
    pub data_type: DataTypeView,
    pub is_nullable: bool,
    pub metadata: Seq<(Seq<char>, Seq<char>)>,
}

/// The characters of an optional string.
pub open spec fn opt_text(s: Option<String>) -> Option<Seq<char>> {
    match s {
        Some(s) => Some(s@),
        None => None,
    }
}

impl DataType {
    /// The mathematical value of the type.
    pub open spec fn model(&self) -> DataTypeView
        decreases self,
    {
        match self {
            DataType::Null => DataTypeView::Null,
            DataType::Boolean => DataTypeView::Boolean,
            DataType::Int8 => DataTypeView::Int8,
            DataType::Int16 => DataTypeView::Int16,
            DataType::Int32 => DataTypeView::Int32,
            DataType::Int64 => DataTypeView::Int64,
            DataType::UInt8 => DataTypeView::UInt8,
            DataType::UInt16 => DataTypeView::UInt16,
            DataType::UInt32 => DataTypeView::UInt32,
            DataType::UInt64 => DataTypeView::UInt64,
            DataType::Float16 => DataTypeView::Float16,
            DataType::Float32 => DataTypeView::Float32,
            DataType::Float64 => DataTypeView::Float64,
            DataType::Timestamp(unit, tz) => DataTypeView::Timestamp(*unit, opt_text(*tz)),
            DataType::Date32 => DataTypeView::Date32,
            DataType::Date64 => DataTypeView::Date64,
            DataType::Time32(unit) => DataTypeView::Time32(*unit),
            DataType::Time64(unit) => DataTypeView::Time64(*unit),
            DataType::Duration(unit) => DataTypeView::Duration(*unit),
            DataType::Interval(unit) => DataTypeView::Interval(*unit),
            DataType::Binary => DataTypeView::Binary,
            DataType::FixedSizeBinary(size) => DataTypeView::FixedSizeBinary(*size as nat),
            DataType::LargeBinary => DataTypeView::LargeBinary,
            DataType::Utf8 => DataTypeView::Utf8,
            DataType::LargeUtf8 => DataTypeView::LargeUtf8,
            DataType::List(field) => DataTypeView::List(Box::new(field.model())),
            DataType::FixedSizeList(field, size) => DataTypeView::FixedSizeList(
                Box::new(field.model()),
                *size as nat,
            ),
            DataType::LargeList(field) => DataTypeView::LargeList(Box::new(field.model())),
            DataType::Struct(fields) => DataTypeView::Struct(
                Seq::new(
                    fields@.len(),
                    |i: int|
                        if 0 <= i < fields@.len() {
                            fields@[i].model()
                        } else {
                            arbitrary()
                        },
                ),
            ),
            DataType::Union(fields, ids, mode) => DataTypeView::Union(
                Seq::new(
                    fields@.len(),
                    |i: int|
                        if 0 <= i < fields@.len() {
                            fields@[i].model()
                        } else {
                            arbitrary()
                        },
                ),
                match ids {
                    Some(ids) => Some(ids@),
                    None => None,
                },
                *mode,
            ),
            DataType::MapType(field, sorted) => DataTypeView::MapType(Box::new(field.model()), *sorted),
            DataType::Dictionary(index, values, ordered) => DataTypeView::Dictionary(
                *index,
                Box::new(values.model()),
                *ordered,
            ),
            DataType::Decimal(precision, scale) => DataTypeView::Decimal(
                *precision as nat,
                *scale as nat,
            ),
            DataType::Extension(name, inner, metadata) => DataTypeView::Extension(
                name@,
                Box::new(inner.model()),
                opt_text(*metadata),
            ),
        }
    }
}

impl Field {
    /// The mathematical value of the field.
    pub open spec fn model(&self) -> FieldView
        decreases self,
    {
        FieldView {
            name: self.name@,
            data_type: self.data_type.model(),
            is_nullable: self.is_nullable,
            metadata: self.metadata@,
        }
    }
}

impl View for DataType {
    type V = DataTypeView;

    open spec fn view(&self) -> DataTypeView {
        self.model()
    }
}

impl View for Field {
    type V = FieldView;

    open spec fn view(&self) -> FieldView {
        self.model()
    }
}

/// The views of a sequence of fields, one by one.
pub open spec fn field_views(fields: Seq<Field>) -> Seq<FieldView> {
    Seq::new(fields.len(), |i: int| fields[i]@)
}

impl IntegerType {
    /// The data type of the same name.
    pub open spec fn data_type(self) -> DataTypeView {
        match self {
            IntegerType::Int8 => DataTypeView::Int8,
            IntegerType::Int16 => DataTypeView::Int16,
            IntegerType::Int32 => DataTypeView::Int32,
            IntegerType::Int64 => DataTypeView::Int64,
            IntegerType::UInt8 => DataTypeView::UInt8,
            IntegerType::UInt16 => DataTypeView::UInt16,
            IntegerType::UInt32 => DataTypeView::UInt32,
            IntegerType::UInt64 => DataTypeView::UInt64,
        }
    }

    /// Returns the data type of the same name.
    pub fn to_data_type(self) -> (r: DataType)
        ensures
            r@ == self.data_type(),
    {
        match self {
            IntegerType::Int8 => DataType::Int8,
            IntegerType::Int16 => DataType::Int16,
            IntegerType::Int32 => DataType::Int32,
            IntegerType::Int64 => DataType::Int64,
            IntegerType::UInt8 => DataType::UInt8,
            IntegerType::UInt16 => DataType::UInt16,
            IntegerType::UInt32 => DataType::UInt32,
            IntegerType::UInt64 => DataType::UInt64,
        }
    }
}

/// A copy of a text that may be absent.
fn clone_opt_string(s: &Option<String>) -> (r: Option<String>)
    ensures
        opt_text(r) == opt_text(*s),
{
    match s {
        Some(s) => Some(s.clone()),
        None => None,
    }
}

/// Copies of the fields, in their order.
fn clone_fields(fields: &Vec<Field>) -> (r: Vec<Field>)
    ensures
        field_views(r@) == field_views(fields@),
    decreases fields,
{
    let mut out: Vec<Field> = Vec::new();
    let mut i: usize = 0;
    while i < fields.len()
        invariant
            i <= fields.len(),
            out@.len() == i,
            forall|j: int| 0 <= j < i ==> out@[j]@ == fields@[j]@,
        decreases fields.len() - i,
    {
        proof {
            assert(decreases_to!(fields => fields[i as int]));
        }
        out.push(fields[i].clone());
        i += 1;
    }
    assert(field_views(out@) =~= field_views(fields@));
    out
}

impl Clone for DataType {
    fn clone(&self) -> (r: Self)
        ensures
            r@ == self@,
        decreases self,
    {
        match self {
            DataType::Null => DataType::Null,
            DataType::Boolean => DataType::Boolean,
            DataType::Int8 => DataType::Int8,
            DataType::Int16 => DataType::Int16,
            DataType::Int32 => DataType::Int32,
            DataType::Int64 => DataType::Int64,
            DataType::UInt8 => DataType::UInt8,
            DataType::UInt16 => DataType::UInt16,
            DataType::UInt32 => DataType::UInt32,
            DataType::UInt64 => DataType::UInt64,
            DataType::Float16 => DataType::Float16,
            DataType::Float32 => DataType::Float32,
            DataType::Float64 => DataType::Float64,
            DataType::Timestamp(unit, tz) => DataType::Timestamp(*unit, clone_opt_string(tz)),
            DataType::Date32 => DataType::Date32,
            DataType::Date64 => DataType::Date64,
            DataType::Time32(unit) => DataType::Time32(*unit),
            DataType::Time64(unit) => DataType::Time64(*unit),
            DataType::Duration(unit) => DataType::Duration(*unit),
            DataType::Interval(unit) => DataType::Interval(*unit),
            DataType::Binary => DataType::Binary,
            DataType::FixedSizeBinary(size) => DataType::FixedSizeBinary(*size),
            DataType::LargeBinary => DataType::LargeBinary,
            DataType::Utf8 => DataType::Utf8,
            DataType::LargeUtf8 => DataType::LargeUtf8,
            DataType::List(field) => DataType::List(Box::new((**field).clone())),
            DataType::FixedSizeList(field, size) => DataType::FixedSizeList(
                Box::new((**field).clone()),
                *size,
            ),
            DataType::LargeList(field) => DataType::LargeList(Box::new((**field).clone())),
            DataType::Struct(fields) => {
                let copies = clone_fields(fields);
                let r = DataType::Struct(copies);
                assert(r@->Struct_0 =~= field_views(copies@));
                assert(self@->Struct_0 =~= field_views(fields@));
                r
            },
            DataType::Union(fields, ids, mode) => {
                let copies = clone_fields(fields);
                let ids = match ids {
                    Some(ids) => Some(ids.clone()),
                    None => None,
                };
                let r = DataType::Union(copies, ids, *mode);
                assert(r@->Union_0 =~= field_views(copies@));
                assert(self@->Union_0 =~= field_views(fields@));
                r
            },
            DataType::MapType(field, sorted) => DataType::MapType(Box::new((**field).clone()), *sorted),
            DataType::Dictionary(index, values, ordered) => DataType::Dictionary(
                *index,
                Box::new((**values).clone()),
                *ordered,
            ),
            DataType::Decimal(precision, scale) => DataType::Decimal(*precision, *scale),
            DataType::Extension(name, inner, metadata) => DataType::Extension(
                name.clone(),
                Box::new((**inner).clone()),
                clone_opt_string(metadata),
            ),
        }
    }
}

impl Clone for Field {
    fn clone(&self) -> (r: Self)
        ensures
            r@ == self@,
        decreases self,
    {
        Field {
            name: self.name.clone(),
            data_type: self.data_type.clone(),
            is_nullable: self.is_nullable,
            metadata: self.metadata.clone(),
        }
    }
}

impl Field {
    /// Creates a field without metadata.
    pub fn new(name: &str, data_type: DataType, is_nullable: bool) -> (field: Self)
        ensures
            field@ == (FieldView {
                name: name@,
                data_type: data_type@,
                is_nullable,
                metadata: Seq::empty(),
            }),
    {
        Field { name: name.to_string(), data_type, is_nullable, metadata: Metadata::new() }
    }

    /// Replaces the metadata of the field.
    pub fn with_metadata(self, metadata: Metadata) -> (field: Self)
        ensures
            field@ == (FieldView { metadata: metadata@, ..self@ }),
    {
        Field {
            name: self.name,
            data_type: self.data_type,
            is_nullable: self.is_nullable,
            metadata,
        }
    }

    /// The name of the field.
    pub fn name(&self) -> (name: &str)
        ensures
            name@ == self@.name,
    {
        self.name.as_str()
    }

    /// The logical type of the field.
    pub fn data_type(&self) -> (data_type: &DataType)
        ensures
            data_type == &self.data_type,
    {
        &self.data_type
    }

    /// Whether values of the field may be null.
    pub fn is_nullable(&self) -> (nullable: bool)
        ensures
            nullable == self.is_nullable,
    {
        self.is_nullable
    }

    /// The metadata of the field.
    pub fn metadata(&self) -> (metadata: &Metadata)
        ensures
            metadata == &self.metadata,
    {
        &self.metadata
    }
}

} // verus!

verus! {

/// Whether both texts are absent or both are there and equal.
fn same_opt_string(a: &Option<String>, b: &Option<String>) -> (r: bool)
    ensures
        r == (opt_text(*a) == opt_text(*b)),
{
    match (a, b) {
        (Some(a), Some(b)) => *a == *b,
        (None, None) => true,
        _ => false,
    }
}

/// Whether the two hold the same numbers in the same order.
fn same_numbers(a: &Vec<i32>, b: &Vec<i32>) -> (r: bool)
    ensures
        r == (a@ == b@),
{
    if a.len() != b.len() {
        return false;
    }
    let mut i: usize = 0;
    while i < a.len()
        invariant
            i <= a@.len(),
            a@.len() == b@.len(),
            forall|j: int| 0 <= j < i ==> a@[j] == b@[j],
        decreases a@.len() - i,
    {
        if a[i] != b[i] {
            return false;
        }
        i += 1;
    }
    assert(a@ =~= b@);
    true
}

/// Whether both lists of ids are absent or both are there and equal.
fn same_ids(a: &Option<Vec<i32>>, b: &Option<Vec<i32>>) -> (r: bool)
    ensures
        r == ((match a {
            Some(v) => Some(v@),
            None => None,
        }) == (match b {
            Some(v) => Some(v@),
            None => None,
        })),
{
    match (a, b) {
        (Some(a), Some(b)) => same_numbers(a, b),
        (None, None) => true,
        _ => false,
    }
}

/// Whether the two hold the same fields in the same order.
fn same_fields(a: &Vec<Field>, b: &Vec<Field>) -> (r: bool)
    ensures
        r == (field_views(a@) == field_views(b@)),
    decreases a,
{
    if a.len() != b.len() {
        assert(field_views(a@).len() != field_views(b@).len());
        return false;
    }
    let mut i: usize = 0;
    while i < a.len()
        invariant
            i <= a@.len(),
            a@.len() == b@.len(),
            forall|j: int| 0 <= j < i ==> a@[j]@ == b@[j]@,
        decreases a@.len() - i,
    {
        proof {
            assert(decreases_to!(a => a[i as int]));
        }
        if !a[i].same_as(&b[i]) {
            assert(field_views(a@)[i as int] != field_views(b@)[i as int]);
            return false;
        }
        i += 1;
    }
    assert(field_views(a@) =~= field_views(b@));
    true
}

impl DataType {
    /// Whether the two types are the same, part by part.
    pub fn same_as(&self, other: &Self) -> (b: bool)
        ensures
            b == (self@ == other@),
        decreases self,
    {
        match (self, other) {
            (DataType::Null, DataType::Null) => true,
            (DataType::Boolean, DataType::Boolean) => true,
            (DataType::Int8, DataType::Int8) => true,
            (DataType::Int16, DataType::Int16) => true,
            (DataType::Int32, DataType::Int32) => true,
            (DataType::Int64, DataType::Int64) => true,
            (DataType::UInt8, DataType::UInt8) => true,
            (DataType::UInt16, DataType::UInt16) => true,
            (DataType::UInt32, DataType::UInt32) => true,
            (DataType::UInt64, DataType::UInt64) => true,
            (DataType::Float16, DataType::Float16) => true,
            (DataType::Float32, DataType::Float32) => true,
            (DataType::Float64, DataType::Float64) => true,
            (DataType::Timestamp(u1, tz1), DataType::Timestamp(u2, tz2)) => *u1 == *u2
                && same_opt_string(tz1, tz2),
            (DataType::Date32, DataType::Date32) => true,
            (DataType::Date64, DataType::Date64) => true,
            (DataType::Time32(u1), DataType::Time32(u2)) => *u1 == *u2,
            (DataType::Time64(u1), DataType::Time64(u2)) => *u1 == *u2,
            (DataType::Duration(u1), DataType::Duration(u2)) => *u1 == *u2,
            (DataType::Interval(u1), DataType::Interval(u2)) => *u1 == *u2,
            (DataType::Binary, DataType::Binary) => true,
            (DataType::FixedSizeBinary(s1), DataType::FixedSizeBinary(s2)) => *s1 == *s2,
            (DataType::LargeBinary, DataType::LargeBinary) => true,
            (DataType::Utf8, DataType::Utf8) => true,
            (DataType::LargeUtf8, DataType::LargeUtf8) => true,
            (DataType::List(f1), DataType::List(f2)) => f1.same_as(f2),
            (DataType::FixedSizeList(f1, s1), DataType::FixedSizeList(f2, s2)) => *s1 == *s2
                && f1.same_as(f2),
            (DataType::LargeList(f1), DataType::LargeList(f2)) => f1.same_as(f2),
            (DataType::Struct(f1), DataType::Struct(f2)) => {
                let r = same_fields(f1, f2);
                proof {
                    assert(self@->Struct_0 =~= field_views(f1@));
                    assert(other@->Struct_0 =~= field_views(f2@));
                }
                r
            },
            (DataType::Union(f1, i1, m1), DataType::Union(f2, i2, m2)) => {
                let r = *m1 == *m2 && same_ids(i1, i2) && same_fields(f1, f2);
                proof {
                    assert(self@->Union_0 =~= field_views(f1@));
                    assert(other@->Union_0 =~= field_views(f2@));
                }
                r
            },
            (DataType::MapType(f1, s1), DataType::MapType(f2, s2)) => *s1 == *s2 && f1.same_as(
                f2,
            ),
            (DataType::Dictionary(i1, v1, o1), DataType::Dictionary(i2, v2, o2)) => *i1 == *i2
                && *o1 == *o2 && v1.same_as(v2),
            (DataType::Decimal(p1, s1), DataType::Decimal(p2, s2)) => *p1 == *p2 && *s1 == *s2,
            (DataType::Extension(n1, t1, m1), DataType::Extension(n2, t2, m2)) => *n1 == *n2
                && same_opt_string(m1, m2) && t1.same_as(t2),
            _ => false,
        }
    }
}

impl Field {
    /// Whether the two fields are the same, part by part.
    pub fn same_as(&self, other: &Self) -> (b: bool)
        ensures
            b == (self@ == other@),
        decreases self,
    {
        self.name == other.name && self.is_nullable == other.is_nullable && self.metadata.same_as(
            &other.metadata,
        ) && self.data_type.same_as(&other.data_type)
    }
}

} // verus!
