//! The exported schema node: a field as the C data interface shows it.
use vstd::prelude::*;

use super::format::{can_format, fixed_type, format_of, integer_type_of, to_format, to_integer_type};
use super::metadata::{
    entries_fit, entries_to_bytes, extension_entries, extension_entries_of, fits_block,
    import_metadata, metadata_bytes, metadata_from_bytes_in, metadata_to_bytes_in,
    native_little_endian,
};
use crate::datatypes::{
    DataType, DataTypeView, Field, FieldView, IntervalUnit, Metadata, TimeUnit, UnionMode,
};
use crate::error::ArrowError;
use crate::text::{
    chars_are, chars_of, parse_i32, parse_i32_spec, parse_usize, parse_usize_spec, parts_view,
    split, split_chars,
};

verus! {

/// An exported schema node. It owns its strings, its metadata block, its
/// children and its dictionary; releasing it gives all of them up.
#[derive(Debug)]
pub struct ArrowSchema {
    format: Option<String>,
    name: Option<String>,
    metadata: Option<Vec<u8>>,
    flags: i64,
    n_children: i64,
    children: Vec<ArrowSchema>,
    dictionary: Option<Box<ArrowSchema>>,
    release: bool,
}

/// The mathematical value of an [`ArrowSchema`]. An absent string or block
/// stands for a null pointer; `release` tells whether the release callback
/// is set.
pub struct SchemaView {
    pub format: Option<Seq<char>>,
    pub name: Option<Seq<char>>,
    pub metadata: Option<Seq<u8>>,
    pub flags: i64,
    pub n_children: i64,
    pub children: Seq<SchemaView>,
    pub dictionary: Option<Box<SchemaView>>,
    pub release: bool,
}

impl ArrowSchema {
    /// The mathematical value of the node.
    pub closed spec fn model(&self) -> SchemaView
        decreases self,
    {
        SchemaView {
            format: match self.format {
                Some(s) => Some(s@),
                None => None,
            },
            name: match self.name {
                Some(s) => Some(s@),
                None => None,
            },
            metadata: match self.metadata {
                Some(m) => Some(m@),
                None => None,
            },
            flags: self.flags,
            n_children: self.n_children,
            children: Seq::new(
                self.children@.len(),
                |i: int|
                    if 0 <= i < self.children@.len() {
                        self.children@[i].model()
                    } else {
                        arbitrary()
                    },
            ),
            dictionary: match self.dictionary {
                Some(d) => Some(Box::new(d.model())),
                None => None,
            },
            release: self.release,
        }
    }
}

impl View for ArrowSchema {
    type V = SchemaView;

    closed spec fn view(&self) -> SchemaView {
        self.model()
    }
}

/// The node that stands for nothing: every pointer null, no release
/// callback.
pub open spec fn empty_schema() -> SchemaView {
    SchemaView {
        format: None,
        name: None,
        metadata: None,
        flags: 0,
        n_children: 0,
        children: Seq::empty(),
        dictionary: None,
        release: false,
    }
}

/// The node after its release: what it owned is gone and the release
/// callback is cleared. A node without release callback stays as it is.
pub open spec fn released(node: SchemaView) -> SchemaView {
    if node.release {
        SchemaView {
            format: None,
            name: None,
            metadata: None,
            children: Seq::empty(),
            dictionary: None,
            release: false,
            ..node
        }
    } else {
        node
    }
}

/// The fields below a data type: one for a list or a map, all of them for
/// a struct or a union.
pub open spec fn child_fields(data_type: DataTypeView) -> Seq<FieldView> {
    match data_type {
        DataTypeView::List(field) => seq![*field],
        DataTypeView::FixedSizeList(field, _) => seq![*field],
        DataTypeView::LargeList(field) => seq![*field],
        DataTypeView::MapType(field, _) => seq![*field],
        DataTypeView::Struct(fields) => fields,
        DataTypeView::Union(fields, _, _) => fields,
        _ => Seq::empty(),
    }
}

/// The flags of a node: 1 for an ordered dictionary, 2 for nullable, 4 for
/// a map with sorted keys. An extension has the flags of the type under
/// it.
pub open spec fn flags_of(data_type: DataTypeView, is_nullable: bool) -> i64
    decreases data_type,
{
    let nullable: i64 = if is_nullable {
        2
    } else {
        0
    };
    match data_type {
        DataTypeView::MapType(_, true) => (nullable + 4) as i64,
        DataTypeView::Dictionary(_, _, true) => (nullable + 1) as i64,
        DataTypeView::Extension(_, inner, _) => flags_of(*inner, is_nullable),
        _ => nullable,
    }
}

/// The entries that travel with a node: the metadata of the field, and for
/// an extension type its name and its metadata under the reserved keys,
/// ahead of the metadata of the field.
pub open spec fn exported_entries(data_type: DataTypeView, metadata: Seq<(Seq<char>, Seq<char>)>) -> Seq<
    (Seq<char>, Seq<char>),
> {
    match data_type {
        DataTypeView::Extension(name, _, extra) => extension_entries(name, extra, metadata),
        _ => metadata,
    }
}

/// The metadata block of a node; there is none where a field that is no
/// extension has no metadata.
pub open spec fn metadata_block(
    data_type: DataTypeView,
    metadata: Seq<(Seq<char>, Seq<char>)>,
    little: bool,
) -> Option<Seq<u8>> {
    if data_type is Extension || metadata.len() > 0 {
        Some(metadata_bytes(exported_entries(data_type, metadata), little))
    } else {
        None
    }
}

/// Whether what lies below `data_type` can be exported: its fields, the
/// values of a dictionary, and for an extension what lies below the type
/// under it.
pub open spec fn below_exportable(data_type: DataTypeView) -> bool
    decreases data_type, 0int,
{
    match data_type {
        DataTypeView::List(field) => exportable_parts(field.data_type, field.metadata),
        DataTypeView::FixedSizeList(field, _) => exportable_parts(field.data_type, field.metadata),
        DataTypeView::LargeList(field) => exportable_parts(field.data_type, field.metadata),
        DataTypeView::MapType(field, _) => exportable_parts(field.data_type, field.metadata),
        DataTypeView::Struct(fields) => fields.len() <= i64::MAX && forall|i: int|
            0 <= i < fields.len() ==> exportable_parts(
                (#[trigger] fields[i]).data_type,
                fields[i].metadata,
            ),
        DataTypeView::Union(fields, _, _) => fields.len() <= i64::MAX && forall|i: int|
            0 <= i < fields.len() ==> exportable_parts(
                (#[trigger] fields[i]).data_type,
                fields[i].metadata,
            ),
        DataTypeView::Dictionary(_, values, _) => exportable_parts(*values, Seq::empty()),
        DataTypeView::Extension(_, inner, _) => below_exportable(*inner),
        _ => true,
    }
}

/// Whether a field of this type and metadata can be exported: the type has
/// a format string, and counts and lengths fit the interface, here and
/// below.
pub open spec fn exportable_parts(
    data_type: DataTypeView,
    metadata: Seq<(Seq<char>, Seq<char>)>,
) -> bool
    decreases data_type, 1int,
{
    &&& can_format(data_type)
    &&& fits_block(exported_entries(data_type, metadata))
    &&& below_exportable(data_type)
}

/// Whether `field` can be exported.
pub open spec fn exportable(field: FieldView) -> bool {
    exportable_parts(field.data_type, field.metadata)
}

/// The nodes of the fields below `data_type`, in their order: one for a
/// list or a map, all of them for a struct or a union, and for an
/// extension those of the type under it.
pub open spec fn export_children(data_type: DataTypeView, little: bool) -> Seq<SchemaView>
    decreases data_type, 0int,
{
    match data_type {
        DataTypeView::List(f) => seq![
            export_parts(f.name, f.data_type, f.is_nullable, f.metadata, little),
        ],
        DataTypeView::FixedSizeList(f, _) => seq![
            export_parts(f.name, f.data_type, f.is_nullable, f.metadata, little),
        ],
        DataTypeView::LargeList(f) => seq![
            export_parts(f.name, f.data_type, f.is_nullable, f.metadata, little),
        ],
        DataTypeView::MapType(f, _) => seq![
            export_parts(f.name, f.data_type, f.is_nullable, f.metadata, little),
        ],
        DataTypeView::Struct(fields) => Seq::new(
            fields.len(),
            |i: int|
                if 0 <= i < fields.len() {
                    export_parts(
                        fields[i].name,
                        fields[i].data_type,
                        fields[i].is_nullable,
                        fields[i].metadata,
                        little,
                    )
                } else {
                    arbitrary()
                },
        ),
        DataTypeView::Union(fields, _, _) => Seq::new(
            fields.len(),
            |i: int|
                if 0 <= i < fields.len() {
                    export_parts(
                        fields[i].name,
                        fields[i].data_type,
                        fields[i].is_nullable,
                        fields[i].metadata,
                        little,
                    )
                } else {
                    arbitrary()
                },
        ),
        DataTypeView::Extension(_, inner, _) => export_children(*inner, little),
        _ => Seq::empty(),
    }
}

/// The node of the values of a dictionary, without a name and nullable;
/// for an extension that of the type under it.
pub open spec fn export_dictionary(data_type: DataTypeView, little: bool) -> Option<
    Box<SchemaView>,
>
    decreases data_type, 0int,
{
    match data_type {
        DataTypeView::Dictionary(_, values, _) => Some(
            Box::new(export_parts(Seq::empty(), *values, true, Seq::empty(), little)),
        ),
        DataTypeView::Extension(_, inner, _) => export_dictionary(*inner, little),
        _ => None,
    }
}

/// The node of a field given by its parts.
pub open spec fn export_parts(
    name: Seq<char>,
    data_type: DataTypeView,
    is_nullable: bool,
    metadata: Seq<(Seq<char>, Seq<char>)>,
    little: bool,
) -> SchemaView
    decreases data_type, 1int,
{
    SchemaView {
        format: Some(format_of(data_type)),
        name: Some(name),
        metadata: metadata_block(data_type, metadata, little),
        flags: flags_of(data_type, is_nullable),
        n_children: export_children(data_type, little).len() as i64,
        children: export_children(data_type, little),
        dictionary: export_dictionary(data_type, little),
        release: true,
    }
}

/// The node that `field` is exported as, numbers in its metadata low byte
/// first if `little`. The node of a dictionary describes the indices; the
/// values have a node of their own, without a name and nullable. The node
/// of an extension is that of the type under it, with the name and the
/// metadata of the extension among its metadata.
pub open spec fn export(field: FieldView, little: bool) -> SchemaView {
    export_parts(field.name, field.data_type, field.is_nullable, field.metadata, little)
}

} // verus!

verus! {

/// Whether bit 0 of the flags is set: the dictionary is ordered.
pub open spec fn ordered_flag(flags: i64) -> bool {
    flags & 1 != 0
}

/// Whether bit 1 of the flags is set: values may be null.
pub open spec fn nullable_flag(flags: i64) -> bool {
    flags & 2 != 0
}

/// Whether bit 2 of the flags is set: the keys of the map are sorted.
pub open spec fn sorted_flag(flags: i64) -> bool {
    flags & 4 != 0
}

impl ArrowSchema {
    /// The flags of a node of `data_type`.
    fn flags_for(data_type: &DataType, is_nullable: bool) -> (flags: i64)
        ensures
            flags == flags_of(data_type@, is_nullable),
        decreases data_type,
    {
        let nullable: i64 = if is_nullable {
            2
        } else {
            0
        };
        match data_type {
            DataType::MapType(_, is_sorted) => if *is_sorted {
                nullable + 4
            } else {
                nullable
            },
            DataType::Dictionary(_, _, is_ordered) => if *is_ordered {
                nullable + 1
            } else {
                nullable
            },
            DataType::Extension(_, inner, _) => Self::flags_for(inner, is_nullable),
            _ => nullable,
        }
    }

    /// Builds the nodes of the fields below `data_type`.
    fn export_children(data_type: &DataType, little: bool) -> (nodes: Vec<ArrowSchema>)
        requires
            below_exportable(data_type@),
        ensures
            nodes@.len() == export_children(data_type@, little).len(),
            nodes@.len() <= i64::MAX,
            forall|i: int|
                0 <= i < nodes@.len() ==> (#[trigger] nodes@[i])@ == export_children(
                    data_type@,
                    little,
                )[i],
        decreases data_type, 0int,
    {
        let mut children: Vec<ArrowSchema> = Vec::new();
        match data_type {
            DataType::List(field) => {
                children.push(Self::new_in(field, little));
            },
            DataType::FixedSizeList(field, _) => {
                children.push(Self::new_in(field, little));
            },
            DataType::LargeList(field) => {
                children.push(Self::new_in(field, little));
            },
            DataType::MapType(field, _) => {
                children.push(Self::new_in(field, little));
            },
            DataType::Struct(fields) => {
                assert forall|i: int| 0 <= i < fields@.len() implies exportable(
                    (#[trigger] fields@[i])@,
                ) by {
                    assert(data_type@->Struct_0[i] == fields@[i]@);
                }
                children = Self::export_all(fields, little);
            },
            DataType::Union(fields, _, _) => {
                assert forall|i: int| 0 <= i < fields@.len() implies exportable(
                    (#[trigger] fields@[i])@,
                ) by {
                    assert(data_type@->Union_0[i] == fields@[i]@);
                }
                children = Self::export_all(fields, little);
            },
            DataType::Extension(_, inner, _) => {
                children = Self::export_children(inner, little);
            },
            _ => {},
        }
        children
    }

    /// Builds the node of the values of a dictionary, where there is one.
    fn export_dictionary(data_type: &DataType, little: bool) -> (node: Option<Box<ArrowSchema>>)
        requires
            below_exportable(data_type@),
        ensures
            (match node {
                Some(d) => Some(Box::new(d@)),
                None => None,
            }) == export_dictionary(data_type@, little),
        decreases data_type, 0int,
    {
        match data_type {
            DataType::Dictionary(_, values, _) => {
                let nothing = Metadata::new();
                proof {
                    reveal_strlit("");
                    assert(""@ =~= Seq::<char>::empty());
                }
                Some(Box::new(Self::export_parts("", values, true, &nothing, little)))
            },
            DataType::Extension(_, inner, _) => Self::export_dictionary(inner, little),
            _ => None,
        }
    }

    /// Builds the node of a field given by its parts.
    fn export_parts(
        name: &str,
        data_type: &DataType,
        is_nullable: bool,
        metadata: &Metadata,
        little: bool,
    ) -> (node: Self)
        requires
            exportable_parts(data_type@, metadata@),
        ensures
            node@ == export_parts(name@, data_type@, is_nullable, metadata@, little),
        decreases data_type, 1int,
    {
        let format = to_format(data_type);
        let flags = Self::flags_for(data_type, is_nullable);
        let children = Self::export_children(data_type, little);
        let n_children = children.len() as i64;
        let dictionary = Self::export_dictionary(data_type, little);
        let block = match data_type {
            DataType::Extension(extension_name, _, extension_metadata) => {
                let entries = extension_entries_of(
                    extension_name.as_str(),
                    match extension_metadata {
                        Some(extra) => Some(extra.as_str()),
                        None => None,
                    },
                    metadata,
                );
                Some(entries_to_bytes(&entries, little))
            },
            _ => {
                if !metadata.is_empty() {
                    Some(metadata_to_bytes_in(metadata, little))
                } else {
                    None
                }
            },
        };
        let node = ArrowSchema {
            format: Some(format),
            name: Some(name.to_string()),
            metadata: block,
            flags,
            n_children,
            children,
            dictionary,
            release: true,
        };
        proof {
            let want = export_parts(name@, data_type@, is_nullable, metadata@, little);
            assert(node@.children =~= want.children);
        }
        node
    }

    /// Builds the nodes of `fields`, in their order.
    fn export_all(fields: &Vec<Field>, little: bool) -> (nodes: Vec<ArrowSchema>)
        requires
            forall|i: int| 0 <= i < fields@.len() ==> exportable((#[trigger] fields@[i])@),
        ensures
            nodes@.len() == fields@.len(),
            forall|i: int|
                0 <= i < fields@.len() ==> (#[trigger] nodes@[i])@ == export(fields@[i]@, little),
        decreases fields, 0int,
    {
        let mut nodes: Vec<ArrowSchema> = Vec::new();
        let mut i: usize = 0;
        while i < fields.len()
            invariant
                i <= fields.len(),
                nodes@.len() == i,
                forall|j: int| 0 <= j < fields@.len() ==> exportable((#[trigger] fields@[j])@),
                forall|j: int| 0 <= j < i ==> (#[trigger] nodes@[j])@ == export(fields@[j]@, little),
            decreases fields.len() - i,
        {
            proof {
                assert(decreases_to!(fields => fields[i as int]));
            }
            nodes.push(Self::new_in(&fields[i], little));
            i += 1;
        }
        nodes
    }

    /// Exports `field`, numbers in its metadata low byte first if `little`.
    pub fn new_in(field: &Field, little: bool) -> (node: Self)
        requires
            exportable(field@),
        ensures
            node@ == export(field@, little),
        decreases field, 2int,
    {
        Self::export_parts(
            field.name.as_str(),
            &field.data_type,
            field.is_nullable,
            &field.metadata,
            little,
        )
    }

    /// Exports `field`, numbers in its metadata in the byte order of the
    /// machine.
    pub fn new(field: &Field) -> (node: Self)
        requires
            exportable(field@),
        ensures
            node@ == export(field@, true) || node@ == export(field@, false),
    {
        Self::new_in(field, native_little_endian())
    }

    /// Creates the node that stands for nothing.
    pub fn empty() -> (node: Self)
        ensures
            node@ == empty_schema(),
    {
        let node = ArrowSchema {
            format: None,
            name: None,
            metadata: None,
            flags: 0,
            n_children: 0,
            children: Vec::new(),
            dictionary: None,
            release: false,
        };
        assert(node@.children =~= Seq::<SchemaView>::empty());
        node
    }

    /// Puts a node together from what a foreign node holds.
    pub fn from_parts(
        format: Option<String>,
        name: Option<String>,
        metadata: Option<Vec<u8>>,
        flags: i64,
        children: Vec<ArrowSchema>,
        dictionary: Option<ArrowSchema>,
        release: bool,
    ) -> (node: Self)
        requires
            children@.len() <= i64::MAX,
        ensures
            node@.format == crate::datatypes::opt_text(format),
            node@.name == crate::datatypes::opt_text(name),
            node@.metadata == (match metadata {
                Some(m) => Some(m@),
                None => None,
            }),
            node@.flags == flags,
            node@.n_children == children@.len(),
            node@.children == Seq::new(children@.len(), |i: int| children@[i]@),
            node@.dictionary == (match dictionary {
                Some(d) => Some(Box::new(d@)),
                None => None,
            }),
            node@.release == release,
    {
        let n_children = children.len() as i64;
        let ghost given = Seq::new(children@.len(), |i: int| children@[i]@);
        let node = ArrowSchema {
            format,
            name,
            metadata,
            flags,
            n_children,
            children,
            dictionary: match dictionary {
                Some(d) => Some(Box::new(d)),
                None => None,
            },
            release,
        };
        assert(node@.children =~= given);
        node
    }

    /// The format string of the node.
    pub fn format(&self) -> (format: &str)
        requires
            self@.format is Some,
        ensures
            Some(format@) == self@.format,
    {
        match &self.format {
            Some(s) => s.as_str(),
            None => vstd::pervasive::unreached(),
        }
    }

    /// The name of the node.
    pub fn name(&self) -> (name: &str)
        requires
            self@.name is Some,
        ensures
            Some(name@) == self@.name,
    {
        match &self.name {
            Some(s) => s.as_str(),
            None => vstd::pervasive::unreached(),
        }
    }

    /// The metadata block of the node, if it has one.
    pub fn metadata(&self) -> (block: Option<&[u8]>)
        ensures
            self@.metadata == (match block {
                Some(b) => Some(b@),
                None => None,
            }),
    {
        match &self.metadata {
            Some(m) => Some(m.as_slice()),
            None => None,
        }
    }

    /// The flags of the node.
    pub fn flags(&self) -> (flags: i64)
        ensures
            flags == self@.flags,
    {
        self.flags
    }

    /// The number of children that the node declares.
    pub fn n_children(&self) -> (n: i64)
        ensures
            n == self@.n_children,
    {
        self.n_children
    }

    /// The child at `index`.
    pub fn child(&self, index: usize) -> (child: &Self)
        requires
            index < self@.children.len(),
            self@.name is Some,
        ensures
            child@ == self@.children[index as int],
    {
        &self.children[index]
    }

    /// The node of the dictionary's values, if there is one.
    pub fn dictionary(&self) -> (dictionary: Option<&Self>)
        ensures
            self@.dictionary == (match dictionary {
                Some(d) => Some(Box::new(d@)),
                None => None,
            }),
    {
        match &self.dictionary {
            Some(d) => Some(&**d),
            None => None,
        }
    }

    /// Whether the flags of the node say that values may be null.
    pub fn nullable(&self) -> (b: bool)
        ensures
            b == nullable_flag(self@.flags),
    {
        self.flags & 2 != 0
    }

    /// Whether the release callback of the node is cleared.
    pub fn is_released(&self) -> (b: bool)
        ensures
            b == !self@.release,
    {
        !self.release
    }

    /// Releases the node: gives up what it owns, children and dictionary
    /// with it, and clears the release callback. On a node without release
    /// callback this does nothing.
    pub fn release(&mut self)
        ensures
            final(self)@ == released(old(self)@),
            !final(self)@.release,
    {
        if self.release {
            self.format = None;
            self.name = None;
            self.metadata = None;
            self.children = Vec::new();
            self.dictionary = None;
            self.release = false;
            assert(self@.children =~= Seq::<SchemaView>::empty());
        }
    }
}

} // verus!

verus! {

/// The unit of a timestamp, from the first three letters of its format.
pub open spec fn timestamp_unit(head: Seq<char>) -> Option<TimeUnit> {
    if head == "tss"@ {
        Some(TimeUnit::Second)
    } else if head == "tsm"@ {
        Some(TimeUnit::Millisecond)
    } else if head == "tsu"@ {
        Some(TimeUnit::Microsecond)
    } else if head == "tsn"@ {
        Some(TimeUnit::Nanosecond)
    } else {
        None
    }
}

/// The timestamp that `format` describes: three letters that name the
/// unit, a colon, and the time zone, which is everything after that colon;
/// without a time zone nothing follows the colon.
pub open spec fn timestamp_of(format: Seq<char>) -> Option<DataTypeView> {
    if format.len() >= 4 && format[3] == ':' {
        match timestamp_unit(format.take(3)) {
            Some(unit) => Some(
                DataTypeView::Timestamp(
                    unit,
                    if format.len() == 4 {
                        None
                    } else {
                        Some(format.skip(4))
                    },
                ),
            ),
            None => None,
        }
    } else {
        None
    }
}

/// The mode of a union, from the part of its format before the colon.
pub open spec fn union_mode(head: Seq<char>) -> Option<UnionMode> {
    if head == "+us"@ {
        Some(UnionMode::Sparse)
    } else if head == "+ud"@ {
        Some(UnionMode::Dense)
    } else {
        None
    }
}

/// The decimal type that `text` describes: precision and scale, and
/// optionally a bit width, which must be 128.
pub open spec fn decimal_type(text: Seq<char>) -> Option<DataTypeView> {
    let parts = split(text, ',');
    if parts.len() < 2 || parts.len() > 3 {
        None
    } else if parts.len() == 3 && parse_usize_spec(parts[2]) != Some(128usize) {
        None
    } else {
        match (parse_usize_spec(parts[0]), parse_usize_spec(parts[1])) {
            (Some(precision), Some(scale)) => Some(
                DataTypeView::Decimal(precision as nat, scale as nat),
            ),
            _ => None,
        }
    }
}

/// The type ids that `text` lists with commas between.
pub open spec fn type_ids(text: Seq<char>) -> Option<Seq<i32>> {
    let parts = split(text, ',');
    if forall|i: int| 0 <= i < parts.len() ==> parse_i32_spec(#[trigger] parts[i]) is Some {
        Some(Seq::new(parts.len(), |i: int| parse_i32_spec(parts[i])->0))
    } else {
        None
    }
}

/// All of `results`, if every one of them is there.
pub open spec fn all_fields(results: Seq<Option<FieldView>>) -> Option<Seq<FieldView>> {
    if forall|i: int| 0 <= i < results.len() ==> (#[trigger] results[i]) is Some {
        Some(Seq::new(results.len(), |i: int| results[i]->0))
    } else {
        None
    }
}

/// Whether a node with this format is read together with its first child.
pub open spec fn needs_child(format: Seq<char>) -> bool {
    let parts = split(format, ':');
    ||| format == "+l"@
    ||| format == "+L"@
    ||| format == "+m"@
    ||| (parts.len() == 2 && parts[0] == "+w"@ && parse_usize_spec(parts[1]) is Some)
}

/// Whether `node` can be read: it has a format and a name, as many
/// children as it declares, the child that its format asks for, and the
/// same holds of its children and its dictionary.
pub open spec fn importable(node: SchemaView) -> bool
    decreases node,
{
    &&& node.format is Some
    &&& node.name is Some
    &&& node.n_children == node.children.len()
    &&& needs_child(node.format->0) ==> node.children.len() >= 1
    &&& forall|i: int| 0 <= i < node.children.len() ==> importable(#[trigger] node.children[i])
    &&& match node.dictionary {
        Some(d) => importable(*d),
        None => true,
    }
}

/// What reading the children of `node` gives, one by one.
pub open spec fn import_children(node: SchemaView, little: bool) -> Seq<Option<FieldView>>
    decreases node, 0int,
{
    Seq::new(
        node.children.len(),
        |i: int|
            if 0 <= i < node.children.len() {
                import_field(node.children[i], little)
            } else {
                None
            },
    )
}

/// The data type that a node without dictionary describes, or `None` where
/// its format or one of the children it is read with is out of
/// specification.
pub open spec fn import_data_type(node: SchemaView, little: bool) -> Option<DataTypeView>
    decreases node, 1int,
{
    let format = node.format->0;
    let parts = split(format, ':');
    let children = import_children(node, little);
    if fixed_type(format) is Some {
        fixed_type(format)
    } else if format == "+l"@ {
        match children[0] {
            Some(child) => Some(DataTypeView::List(Box::new(child))),
            None => None,
        }
    } else if format == "+L"@ {
        match children[0] {
            Some(child) => Some(DataTypeView::LargeList(Box::new(child))),
            None => None,
        }
    } else if format == "+m"@ {
        match children[0] {
            Some(child) => Some(DataTypeView::MapType(Box::new(child), sorted_flag(node.flags))),
            None => None,
        }
    } else if format == "+s"@ {
        match all_fields(children) {
            Some(fields) => Some(DataTypeView::Struct(fields)),
            None => None,
        }
    } else if timestamp_of(format) is Some {
        timestamp_of(format)
    } else if parts.len() == 2 && parts[0] == "w"@ {
        match parse_usize_spec(parts[1]) {
            Some(size) => Some(DataTypeView::FixedSizeBinary(size as nat)),
            None => None,
        }
    } else if parts.len() == 2 && parts[0] == "+w"@ {
        match parse_usize_spec(parts[1]) {
            Some(size) => match children[0] {
                Some(child) => Some(DataTypeView::FixedSizeList(Box::new(child), size as nat)),
                None => None,
            },
            None => None,
        }
    } else if parts.len() == 2 && parts[0] == "d"@ {
        decimal_type(parts[1])
    } else if parts.len() >= 2 && union_mode(parts[0]) is Some {
        match type_ids(parts[1]) {
            Some(ids) => match all_fields(children) {
                Some(fields) => Some(
                    DataTypeView::Union(fields, Some(ids), union_mode(parts[0])->0),
                ),
                None => None,
            },
            None => None,
        }
    } else {
        None
    }
}

/// The data type that a node describes before its metadata are looked at.
/// With a dictionary, the format names the type of the indices and the
/// dictionary's node the type of the values.
pub open spec fn import_stored_type(node: SchemaView, little: bool) -> Option<DataTypeView>
    decreases node, 2int,
{
    match node.dictionary {
        Some(dictionary) => match integer_type_of(node.format->0) {
            Some(index) => match import_field(*dictionary, little) {
                Some(values) => Some(
                    DataTypeView::Dictionary(
                        index,
                        Box::new(values.data_type),
                        ordered_flag(node.flags),
                    ),
                ),
                None => None,
            },
            None => None,
        },
        None => import_data_type(node, little),
    }
}

/// The field that a node describes, or `None` where the node is out of
/// specification. The reserved keys of the metadata make the type an
/// extension type.
pub open spec fn import_field(node: SchemaView, little: bool) -> Option<FieldView>
    decreases node, 3int,
{
    match (import_stored_type(node, little), import_metadata(node.metadata, little)) {
        (Some(data_type), Some(collected)) => Some(
            FieldView {
                name: node.name->0,
                data_type: match collected.extension() {
                    Some((name, extra)) => DataTypeView::Extension(
                        name,
                        Box::new(data_type),
                        extra,
                    ),
                    None => data_type,
                },
                is_nullable: nullable_flag(node.flags),
                metadata: collected.metadata,
            },
        ),
        _ => None,
    }
}

} // verus!

verus! {

/// The childless type that the fixed word `f` names, if it names one.
fn fixed_data_type(f: &[char]) -> (r: Option<DataType>)
    ensures
        match r {
            Some(data_type) => fixed_type(f@) == Some(data_type@),
            None => fixed_type(f@) is None,
        },
{
    if chars_are(f, "n") {
        Some(DataType::Null)
    } else if chars_are(f, "b") {
        Some(DataType::Boolean)
    } else if chars_are(f, "c") {
        Some(DataType::Int8)
    } else if chars_are(f, "C") {
        Some(DataType::UInt8)
    } else if chars_are(f, "s") {
        Some(DataType::Int16)
    } else if chars_are(f, "S") {
        Some(DataType::UInt16)
    } else if chars_are(f, "i") {
        Some(DataType::Int32)
    } else if chars_are(f, "I") {
        Some(DataType::UInt32)
    } else if chars_are(f, "l") {
        Some(DataType::Int64)
    } else if chars_are(f, "L") {
        Some(DataType::UInt64)
    } else if chars_are(f, "e") {
        Some(DataType::Float16)
    } else if chars_are(f, "f") {
        Some(DataType::Float32)
    } else if chars_are(f, "g") {
        Some(DataType::Float64)
    } else if chars_are(f, "z") {
        Some(DataType::Binary)
    } else if chars_are(f, "Z") {
        Some(DataType::LargeBinary)
    } else if chars_are(f, "u") {
        Some(DataType::Utf8)
    } else if chars_are(f, "U") {
        Some(DataType::LargeUtf8)
    } else if chars_are(f, "tdD") {
        Some(DataType::Date32)
    } else if chars_are(f, "tdm") {
        Some(DataType::Date64)
    } else if chars_are(f, "tts") {
        Some(DataType::Time32(TimeUnit::Second))
    } else if chars_are(f, "ttm") {
        Some(DataType::Time32(TimeUnit::Millisecond))
    } else if chars_are(f, "ttu") {
        Some(DataType::Time64(TimeUnit::Microsecond))
    } else if chars_are(f, "ttn") {
        Some(DataType::Time64(TimeUnit::Nanosecond))
    } else if chars_are(f, "tDs") {
        Some(DataType::Duration(TimeUnit::Second))
    } else if chars_are(f, "tDm") {
        Some(DataType::Duration(TimeUnit::Millisecond))
    } else if chars_are(f, "tDu") {
        Some(DataType::Duration(TimeUnit::Microsecond))
    } else if chars_are(f, "tDn") {
        Some(DataType::Duration(TimeUnit::Nanosecond))
    } else if chars_are(f, "tiM") {
        Some(DataType::Interval(IntervalUnit::YearMonth))
    } else if chars_are(f, "tiD") {
        Some(DataType::Interval(IntervalUnit::DayTime))
    } else {
        None
    }
}

/// The unit of a timestamp, from the first three letters of its format.
fn unit_of_timestamp(head: &[char]) -> (r: Option<TimeUnit>)
    ensures
        r == timestamp_unit(head@),
{
    if chars_are(head, "tss") {
        Some(TimeUnit::Second)
    } else if chars_are(head, "tsm") {
        Some(TimeUnit::Millisecond)
    } else if chars_are(head, "tsu") {
        Some(TimeUnit::Microsecond)
    } else if chars_are(head, "tsn") {
        Some(TimeUnit::Nanosecond)
    } else {
        None
    }
}

/// The mode of a union, from the part of its format before the colon.
fn mode_of_union(head: &[char]) -> (r: Option<UnionMode>)
    ensures
        r == union_mode(head@),
{
    if chars_are(head, "+us") {
        Some(UnionMode::sparse(true))
    } else if chars_are(head, "+ud") {
        Some(UnionMode::sparse(false))
    } else {
        None
    }
}

/// Reads precision, scale and the optional bit width of a decimal type.
fn to_decimal(text: &[char]) -> (r: Result<DataType, ArrowError>)
    ensures
        match r {
            Ok(data_type) => decimal_type(text@) == Some(data_type@),
            Err(e) => e is OutOfSpec && decimal_type(text@) is None,
        },
{
    let parts = split_chars(text, ',');
    assert(parts_view(parts@).len() == parts@.len());
    if parts.len() < 2 || parts.len() > 3 {
        return Err(
            ArrowError::OutOfSpec(
                "Decimal must contain 2 or 3 comma-separated values".to_string(),
            ),
        );
    }
    assert(parts_view(parts@)[0] == parts@[0]@);
    assert(parts_view(parts@)[1] == parts@[1]@);
    if parts.len() == 3 {
        assert(parts_view(parts@)[2] == parts@[2]@);
        match parse_usize(parts[2].as_slice()) {
            Some(bit_width) => {
                if bit_width != 128 {
                    return Err(ArrowError::OutOfSpec("Decimal256 is not supported".to_string()));
                }
            },
            None => {
                return Err(
                    ArrowError::OutOfSpec("Decimal bit width is not a valid integer".to_string()),
                );
            },
        }
    }
    let precision = match parse_usize(parts[0].as_slice()) {
        Some(precision) => precision,
        None => {
            return Err(
                ArrowError::OutOfSpec("Decimal precision is not a valid integer".to_string()),
            );
        },
    };
    let scale = match parse_usize(parts[1].as_slice()) {
        Some(scale) => scale,
        None => {
            return Err(ArrowError::OutOfSpec("Decimal scale is not a valid integer".to_string()));
        },
    };
    Ok(DataType::Decimal(precision, scale))
}

/// Reads the type ids of a union.
fn to_type_ids(text: &[char]) -> (r: Result<Vec<i32>, ArrowError>)
    ensures
        match r {
            Ok(ids) => type_ids(text@) == Some(ids@),
            Err(e) => e is OutOfSpec && type_ids(text@) is None,
        },
{
    let parts = split_chars(text, ',');
    assert(parts_view(parts@).len() == parts@.len());
    let mut ids: Vec<i32> = Vec::new();
    let mut i: usize = 0;
    while i < parts.len()
        invariant
            i <= parts.len(),
            ids@.len() == i,
            parts_view(parts@) == split(text@, ','),
            forall|j: int| 0 <= j < i ==> parse_i32_spec(parts@[j]@) == Some(#[trigger] ids@[j]),
        decreases parts.len() - i,
    {
        assert(parts_view(parts@)[i as int] == parts@[i as int]@);
        match parse_i32(parts[i].as_slice()) {
            Some(id) => ids.push(id),
            None => {
                return Err(
                    ArrowError::OutOfSpec("Union type id is not a valid integer".to_string()),
                );
            },
        }
        i += 1;
    }
    proof {
        let all = split(text@, ',');
        assert forall|j: int| 0 <= j < all.len() implies parse_i32_spec(
            #[trigger] all[j],
        ) is Some by {
            assert(parts_view(parts@)[j] == parts@[j]@);
            assert(parse_i32_spec(parts@[j]@) == Some(ids@[j]));
        }
        assert forall|j: int| 0 <= j < all.len() implies ids@[j] == parse_i32_spec(all[j])->0 by {
            assert(parts_view(parts@)[j] == parts@[j]@);
            assert(parse_i32_spec(parts@[j]@) == Some(ids@[j]));
        }
        assert(ids@ =~= type_ids(text@)->0);
    }
    Ok(ids)
}

/// Reads every child of `schema` as a field.
fn to_fields(schema: &ArrowSchema, little: bool) -> (r: Result<Vec<Field>, ArrowError>)
    requires
        importable(schema@),
    ensures
        match r {
            Ok(fields) => all_fields(import_children(schema@, little)) == Some(
                crate::datatypes::field_views(fields@),
            ),
            Err(e) => e is OutOfSpec && all_fields(import_children(schema@, little)) is None,
        },
    decreases schema, 0int,
{
    let ghost results = import_children(schema@, little);
    let mut fields: Vec<Field> = Vec::new();
    let mut i: usize = 0;
    while i < schema.children.len()
        invariant
            i <= schema.children.len(),
            fields@.len() == i,
            importable(schema@),
            results == import_children(schema@, little),
            results.len() == schema.children@.len(),
            forall|j: int| 0 <= j < i ==> results[j] == Some(#[trigger] fields@[j]@),
        decreases schema.children.len() - i,
    {
        proof {
            assert(decreases_to!(schema.children => schema.children[i as int]));
            assert(schema@.children[i as int] == schema.children@[i as int]@);
            assert(importable(schema@.children[i as int]));
        }
        match to_field_in(&schema.children[i], little) {
            Ok(field) => fields.push(field),
            Err(e) => {
                assert(results[i as int] is None);
                return Err(e);
            },
        }
        i += 1;
    }
    proof {
        assert forall|j: int| 0 <= j < results.len() implies (#[trigger] results[j]) is Some by {
            assert(results[j] == Some(fields@[j]@));
        }
        assert(all_fields(results) is Some);
        assert(all_fields(results)->0 =~= crate::datatypes::field_views(fields@));
    }
    Ok(fields)
}

/// Reads the data type of a node without dictionary, numbers in the
/// metadata of its children low byte first if `little`.
pub fn to_data_type_in(schema: &ArrowSchema, little: bool) -> (r: Result<DataType, ArrowError>)
    requires
        importable(schema@),
    ensures
        match r {
            Ok(data_type) => import_data_type(schema@, little) == Some(data_type@),
            Err(e) => e is OutOfSpec && import_data_type(schema@, little) is None,
        },
    decreases schema, 1int,
{
    let ghost children = import_children(schema@, little);
    let format = chars_of(schema.format());
    let f = format.as_slice();
    match fixed_data_type(f) {
        Some(data_type) => {
            return Ok(data_type);
        },
        None => {},
    }
    if chars_are(f, "+l") || chars_are(f, "+L") || chars_are(f, "+m") {
        proof {
            assert(schema@.children[0] == schema.children@[0]@);
            assert(decreases_to!(schema.children => schema.children[0]));
        }
        let child = match to_field_in(&schema.children[0], little) {
            Ok(child) => child,
            Err(e) => {
                assert(children[0] is None);
                return Err(e);
            },
        };
        assert(children[0] == Some(child@));
        return Ok(
            if chars_are(f, "+l") {
                DataType::List(Box::new(child))
            } else if chars_are(f, "+L") {
                DataType::LargeList(Box::new(child))
            } else {
                let is_sorted = (schema.flags & 4) != 0;
                DataType::MapType(Box::new(child), is_sorted)
            },
        );
    }
    if chars_are(f, "+s") {
        return match to_fields(schema, little) {
            Ok(fields) => {
                let data_type = DataType::Struct(fields);
                assert(data_type@->Struct_0 =~= crate::datatypes::field_views(fields@));
                Ok(data_type)
            },
            Err(e) => Err(e),
        };
    }
    if f.len() >= 4 && f[3] == ':' {
        let head = vstd::slice::slice_subrange(f, 0, 3);
        assert(head@ =~= f@.take(3));
        match unit_of_timestamp(head) {
            Some(unit) => {
                let zone = if f.len() == 4 {
                    None
                } else {
                    let rest = vstd::slice::slice_subrange(f, 4, f.len());
                    assert(rest@ =~= f@.skip(4));
                    Some(crate::text::string_of(rest))
                };
                return Ok(DataType::Timestamp(unit, zone));
            },
            None => {},
        }
    }
    let parts = split_chars(f, ':');
    proof {
        assert(parts_view(parts@).len() == parts@.len());
        assert(parts_view(parts@)[0] == parts@[0]@);
        if parts@.len() >= 2 {
            assert(parts_view(parts@)[1] == parts@[1]@);
        }
    }
    let head = parts[0].as_slice();
    if parts.len() == 2 {
        let tail = parts[1].as_slice();
        if chars_are(head, "w") {
            return match parse_usize(tail) {
                Some(size) => Ok(DataType::FixedSizeBinary(size)),
                None => Err(ArrowError::OutOfSpec("size is not a valid integer".to_string())),
            };
        }
        if chars_are(head, "+w") {
            let size = match parse_usize(tail) {
                Some(size) => size,
                None => {
                    return Err(ArrowError::OutOfSpec("size is not a valid integer".to_string()));
                },
            };
            proof {
                assert(schema@.children[0] == schema.children@[0]@);
                assert(decreases_to!(schema.children => schema.children[0]));
            }
            return match to_field_in(&schema.children[0], little) {
                Ok(child) => {
                    assert(children[0] == Some(child@));
                    Ok(DataType::FixedSizeList(Box::new(child), size))
                },
                Err(e) => {
                    assert(children[0] is None);
                    Err(e)
                },
            };
        }
        if chars_are(head, "d") {
            return to_decimal(tail);
        }
    }
    if parts.len() >= 2 {
        match mode_of_union(head) {
            Some(mode) => {
                let ids = match to_type_ids(parts[1].as_slice()) {
                    Ok(ids) => ids,
                    Err(e) => {
                        return Err(e);
                    },
                };
                return match to_fields(schema, little) {
                    Ok(fields) => {
                        let data_type = DataType::Union(fields, Some(ids), mode);
                        assert(data_type@->Union_0 =~= crate::datatypes::field_views(fields@));
                        Ok(data_type)
                    },
                    Err(e) => Err(e),
                };
            },
            None => {},
        }
    }
    let mut message = "The datatype \"".to_string();
    message.append(schema.format());
    message.append("\" is still not supported in Rust implementation");
    Err(ArrowError::OutOfSpec(message))
}

/// Reads the field that `schema` describes, numbers in its metadata low
/// byte first if `little`. The node stays as it is.
pub fn to_field_in(schema: &ArrowSchema, little: bool) -> (r: Result<Field, ArrowError>)
    requires
        importable(schema@),
    ensures
        match r {
            Ok(field) => import_field(schema@, little) == Some(field@),
            Err(e) => e is OutOfSpec && import_field(schema@, little) is None,
        },
    decreases schema, 2int,
{
    let data_type = match &schema.dictionary {
        Some(dictionary) => {
            let indices = match to_integer_type(schema.format()) {
                Ok(indices) => indices,
                Err(e) => {
                    return Err(e);
                },
            };
            let values = match to_field_in(&**dictionary, little) {
                Ok(values) => values,
                Err(e) => {
                    return Err(e);
                },
            };
            let is_ordered = (schema.flags & 1) != 0;
            DataType::Dictionary(indices, Box::new(values.data_type), is_ordered)
        },
        None => match to_data_type_in(schema, little) {
            Ok(data_type) => data_type,
            Err(e) => {
                return Err(e);
            },
        },
    };
    assert(import_stored_type(schema@, little) == Some(data_type@));
    let (metadata, extension) = match metadata_from_bytes_in(schema.metadata(), little) {
        Ok(read) => read,
        Err(e) => {
            return Err(e);
        },
    };
    let data_type = match extension {
        Some((name, extension_metadata)) => DataType::Extension(
            name,
            Box::new(data_type),
            extension_metadata,
        ),
        None => data_type,
    };
    let field = Field::new(schema.name(), data_type, schema.nullable()).with_metadata(metadata);
    assert(field@.name == schema@.name->0);
    assert(field@.is_nullable == nullable_flag(schema@.flags));
    assert(field@.metadata == import_metadata(schema@.metadata, little)->0.metadata);
    assert(field@.data_type == import_field(schema@, little)->0.data_type);
    Ok(field)
}

/// Reads the field that `schema` describes, numbers in its metadata in the
/// byte order of the machine. The node stays as it is.
pub fn to_field(schema: &ArrowSchema) -> (r: Result<Field, ArrowError>)
    requires
        importable(schema@),
    ensures
        match r {
            Ok(field) => import_field(schema@, true) == Some(field@) || import_field(
                schema@,
                false,
            ) == Some(field@),
            Err(e) => e is OutOfSpec && (import_field(schema@, true) is None || import_field(
                schema@,
                false,
            ) is None),
        },
{
    to_field_in(schema, native_little_endian())
}

/// Reads the data type of a node without dictionary, numbers in the
/// metadata of its children in the byte order of the machine.
pub fn to_data_type(schema: &ArrowSchema) -> (r: Result<DataType, ArrowError>)
    requires
        importable(schema@),
    ensures
        match r {
            Ok(data_type) => import_data_type(schema@, true) == Some(data_type@)
                || import_data_type(schema@, false) == Some(data_type@),
            Err(e) => e is OutOfSpec && (import_data_type(schema@, true) is None
                || import_data_type(schema@, false) is None),
        },
{
    to_data_type_in(schema, native_little_endian())
}

} // verus!

verus! {

/// The type of the child at `index` below `data_type`, if there is one:
/// lists and maps have one child, structs and unions one for every field.
pub open spec fn child_type(data_type: DataTypeView, index: int) -> Option<DataTypeView> {
    match data_type {
        DataTypeView::List(field) => if index == 0 {
            Some(field.data_type)
        } else {
            None
        },
        DataTypeView::FixedSizeList(field, _) => if index == 0 {
            Some(field.data_type)
        } else {
            None
        },
        DataTypeView::LargeList(field) => if index == 0 {
            Some(field.data_type)
        } else {
            None
        },
        DataTypeView::MapType(field, _) => if index == 0 {
            Some(field.data_type)
        } else {
            None
        },
        DataTypeView::Struct(fields) => Some(fields[index].data_type),
        DataTypeView::Union(fields, _, _) => Some(fields[index].data_type),
        _ => None,
    }
}

/// The type of the child at `index` below `data_type`. To ask a type for a
/// child that it does not have is out of specification; the fields of a
/// struct or a union must reach to `index`.
pub fn get_child(data_type: &DataType, index: usize) -> (r: Result<DataType, ArrowError>)
    requires
        data_type@ matches DataTypeView::Struct(fields) ==> index < fields.len(),
        data_type@ matches DataTypeView::Union(fields, _, _) ==> index < fields.len(),
    ensures
        match r {
            Ok(child) => child_type(data_type@, index as int) == Some(child@),
            Err(e) => e is OutOfSpec && child_type(data_type@, index as int) is None,
        },
{
    match data_type {
        DataType::List(field) => {
            if index == 0 {
                assert(field@.data_type == field.data_type@);
                return Ok(field.data_type.clone());
            }
        },
        DataType::FixedSizeList(field, _) => {
            if index == 0 {
                assert(field@.data_type == field.data_type@);
                return Ok(field.data_type.clone());
            }
        },
        DataType::LargeList(field) => {
            if index == 0 {
                assert(field@.data_type == field.data_type@);
                return Ok(field.data_type.clone());
            }
        },
        DataType::MapType(field, _) => {
            if index == 0 {
                assert(field@.data_type == field.data_type@);
                return Ok(field.data_type.clone());
            }
        },
        DataType::Struct(fields) => {
            assert(data_type@->Struct_0[index as int] == fields@[index as int]@);
            return Ok(fields[index].data_type.clone());
        },
        DataType::Union(fields, _, _) => {
            assert(data_type@->Union_0[index as int] == fields@[index as int]@);
            return Ok(fields[index].data_type.clone());
        },
        _ => {},
    }
    let mut message = "Requested child ".to_string();
    crate::text::push_decimal(&mut message, index as u64);
    message.append(" to a type that has no such child");
    Err(ArrowError::OutOfSpec(message))
}

} // verus!

verus! {

/// Whether `data_type` has a format string.
pub fn has_format(data_type: &DataType) -> (b: bool)
    ensures
        b == can_format(data_type@),
    decreases data_type,
{
    match data_type {
        DataType::Time32(unit) => match unit {
            TimeUnit::Second => true,
            TimeUnit::Millisecond => true,
            _ => false,
        },
        DataType::Time64(unit) => match unit {
            TimeUnit::Microsecond => true,
            TimeUnit::Nanosecond => true,
            _ => false,
        },
        DataType::Interval(unit) => match unit {
            IntervalUnit::MonthDayNano => false,
            _ => true,
        },
        DataType::Union(fields, ids, _) => match ids {
            Some(ids) => ids.len() > 0,
            None => fields.len() > 0,
        },
        DataType::Extension(_, inner, _) => has_format(inner),
        _ => true,
    }
}

/// Whether the count and every length of the entries of `metadata` fit in
/// 31 bits.
pub fn fits_in_block(metadata: &Metadata) -> (b: bool)
    ensures
        b == fits_block(metadata@),
{
    entries_fit(metadata.entries())
}

/// Whether what lies below `data_type` can be exported.
fn is_below_exportable(data_type: &DataType) -> (b: bool)
    ensures
        b == below_exportable(data_type@),
    decreases data_type, 0int,
{
    match data_type {
        DataType::List(field) => is_exportable(field),
        DataType::FixedSizeList(field, _) => is_exportable(field),
        DataType::LargeList(field) => is_exportable(field),
        DataType::MapType(field, _) => is_exportable(field),
        DataType::Struct(fields) => {
            let r = all_exportable(fields);
            proof {
                assert forall|i: int| 0 <= i < fields@.len() implies data_type@->Struct_0[i]
                    == fields@[i]@ by {}
                if r {
                    assert forall|i: int| 0 <= i < data_type@->Struct_0.len() implies exportable(
                        #[trigger] data_type@->Struct_0[i],
                    ) by {
                        assert(exportable(fields@[i]@));
                    }
                } else if fields@.len() <= i64::MAX {
                    let k = choose|k: int| 0 <= k < fields@.len() && !exportable(fields@[k]@);
                    assert(!exportable(data_type@->Struct_0[k]));
                }
            }
            r
        },
        DataType::Union(fields, _, _) => {
            let r = all_exportable(fields);
            proof {
                assert forall|i: int| 0 <= i < fields@.len() implies data_type@->Union_0[i]
                    == fields@[i]@ by {}
                if r {
                    assert forall|i: int| 0 <= i < data_type@->Union_0.len() implies exportable(
                        #[trigger] data_type@->Union_0[i],
                    ) by {
                        assert(exportable(fields@[i]@));
                    }
                } else if fields@.len() <= i64::MAX {
                    let k = choose|k: int| 0 <= k < fields@.len() && !exportable(fields@[k]@);
                    assert(!exportable(data_type@->Union_0[k]));
                }
            }
            r
        },
        DataType::Dictionary(_, values, _) => {
            let nothing = Metadata::new();
            parts_exportable(values, &nothing)
        },
        DataType::Extension(_, inner, _) => is_below_exportable(inner),
        _ => true,
    }
}

/// Whether a field of this type and metadata can be exported.
fn parts_exportable(data_type: &DataType, metadata: &Metadata) -> (b: bool)
    ensures
        b == exportable_parts(data_type@, metadata@),
    decreases data_type, 1int,
{
    if !has_format(data_type) {
        return false;
    }
    let fits = match data_type {
        DataType::Extension(extension_name, _, extension_metadata) => {
            let entries = extension_entries_of(
                extension_name.as_str(),
                match extension_metadata {
                    Some(extra) => Some(extra.as_str()),
                    None => None,
                },
                metadata,
            );
            entries_fit(&entries)
        },
        _ => fits_in_block(metadata),
    };
    if !fits {
        return false;
    }
    is_below_exportable(data_type)
}

/// Whether there are at most 2^63 - 1 fields and every one can be exported.
fn all_exportable(fields: &Vec<Field>) -> (b: bool)
    ensures
        b == (fields@.len() <= i64::MAX && forall|i: int|
            0 <= i < fields@.len() ==> exportable((#[trigger] fields@[i])@)),
    decreases fields, 0int,
{
    if fields.len() as u64 > 0x7fff_ffff_ffff_ffff {
        return false;
    }
    let mut i: usize = 0;
    while i < fields.len()
        invariant
            i <= fields@.len(),
            fields@.len() <= i64::MAX,
            forall|j: int| 0 <= j < i ==> exportable((#[trigger] fields@[j])@),
        decreases fields@.len() - i,
    {
        proof {
            assert(decreases_to!(fields => fields[i as int]));
        }
        if !is_exportable(&fields[i]) {
            return false;
        }
        i += 1;
    }
    true
}

/// Whether `field` can be exported: its type and the types below it have
/// format strings, and counts and lengths fit the interface.
pub fn is_exportable(field: &Field) -> (b: bool)
    ensures
        b == exportable(field@),
    decreases field, 2int,
{
    parts_exportable(&field.data_type, &field.metadata)
}

/// Whether a node with this format is read together with its first child.
fn format_needs_child(format: &str) -> (b: bool)
    ensures
        b == needs_child(format@),
{
    let chars = chars_of(format);
    let f = chars.as_slice();
    if chars_are(f, "+l") || chars_are(f, "+L") || chars_are(f, "+m") {
        return true;
    }
    let parts = split_chars(f, ':');
    proof {
        assert(parts_view(parts@).len() == parts@.len());
        assert(parts_view(parts@)[0] == parts@[0]@);
        if parts@.len() >= 2 {
            assert(parts_view(parts@)[1] == parts@[1]@);
        }
    }
    parts.len() == 2 && chars_are(parts[0].as_slice(), "+w") && parse_usize(
        parts[1].as_slice(),
    ).is_some()
}

/// Whether `schema` can be read: it and every node below it has a format
/// and a name, as many children as it declares, and the child that its
/// format asks for.
pub fn is_importable(schema: &ArrowSchema) -> (b: bool)
    ensures
        b == importable(schema@),
    decreases schema,
{
    let format = match &schema.format {
        Some(format) => format,
        None => {
            return false;
        },
    };
    if schema.name.is_none() {
        return false;
    }
    if schema.n_children < 0 || schema.n_children as u64 != schema.children.len() as u64 {
        return false;
    }
    if format_needs_child(format.as_str()) && schema.children.len() == 0 {
        return false;
    }
    let mut i: usize = 0;
    while i < schema.children.len()
        invariant
            i <= schema.children@.len(),
            forall|j: int| 0 <= j < i ==> importable(#[trigger] schema@.children[j]),
        decreases schema.children@.len() - i,
    {
        proof {
            assert(decreases_to!(schema.children => schema.children[i as int]));
            assert(schema@.children[i as int] == schema.children@[i as int]@);
        }
        if !is_importable(&schema.children[i]) {
            return false;
        }
        i += 1;
    }
    match &schema.dictionary {
        Some(d) => is_importable(&**d),
        None => true,
    }
}

/// Exports `field` if it can be exported. A field with a type that has no
/// format string, or with counts or lengths that do not fit the interface,
/// is out of specification.
pub fn try_export_field(field: &Field) -> (r: Result<ArrowSchema, ArrowError>)
    ensures
        match r {
            Ok(node) => exportable(field@) && (node@ == export(field@, true) || node@ == export(
                field@,
                false,
            )),
            Err(e) => e is OutOfSpec && !exportable(field@),
        },
{
    if is_exportable(field) {
        Ok(ArrowSchema::new(field))
    } else {
        Err(ArrowError::OutOfSpec("The field cannot be shown in the C data interface".to_string()))
    }
}

/// Exports `field` into the slot `out`. What the slot held is dropped.
pub fn export_field_to_c(field: &Field, out: &mut ArrowSchema)
    requires
        exportable(field@),
    ensures
        final(out)@ == export(field@, true) || final(out)@ == export(field@, false),
{
    *out = ArrowSchema::new(field);
}

/// Reads the field that `schema` describes. The node stays as it is.
pub fn import_field_from_c(schema: &ArrowSchema) -> (r: Result<Field, ArrowError>)
    requires
        importable(schema@),
    ensures
        match r {
            Ok(field) => import_field(schema@, true) == Some(field@) || import_field(
                schema@,
                false,
            ) == Some(field@),
            Err(e) => e is OutOfSpec && (import_field(schema@, true) is None || import_field(
                schema@,
                false,
            ) is None),
        },
{
    to_field(schema)
}

} // verus!
