//! The exported array node: the buffers and children of an array as the C
//! data interface shows them.
use std::sync::Arc;
use vstd::prelude::*;

use super::schema::{child_fields, get_child};
use crate::datatypes::{DataType, DataTypeView, UnionMode};
use crate::error::ArrowError;

verus! {

/// `Arc::clone` gives another handle to the same value.
#[verifier::external_body]
fn arc_clone(handle: &Arc<Vec<u8>>) -> (other: Arc<Vec<u8>>)
    ensures
        other == *handle,
{
    Arc::clone(handle)
}

/// Bytes that several owners share. The bytes live as long as one of the
/// handles does.
#[derive(Debug)]
pub struct Buffer {
    bytes: Arc<Vec<u8>>,
}

impl View for Buffer {
    type V = Seq<u8>;

    closed spec fn view(&self) -> Seq<u8> {
        self.bytes@
    }
}

impl Buffer {
    /// Makes `bytes` shareable.
    pub fn from_vec(bytes: Vec<u8>) -> (buffer: Self)
        ensures
            buffer@ == bytes@,
    {
        Buffer { bytes: Arc::new(bytes) }
    }

    /// Another handle to the same bytes.
    pub fn share(&self) -> (other: Self)
        ensures
            other@ == self@,
    {
        Buffer { bytes: arc_clone(&self.bytes) }
    }

    /// The bytes.
    pub fn as_slice(&self) -> (bytes: &[u8])
        ensures
            bytes@ == self@,
    {
        self.bytes.as_slice()
    }

    /// The number of bytes.
    pub fn len(&self) -> (n: usize)
        ensures
            n == self@.len(),
    {
        self.bytes.len()
    }
}

/// An array in memory, whatever its type: its logical type, its length, the
/// number of its nulls, the offset of its first slot in the buffers, its
/// validity bitmap, its other buffers, its children, and the values of its
/// dictionary.
#[derive(Debug)]
pub struct ArrayData {
    /// The logical type.
    pub data_type: DataType,
    /// The number of slots.
    pub length: usize,
    /// The number of null slots.
    pub null_count: usize,
    /// The place of the first slot in the buffers.
    pub offset: usize,
    /// One bit for every slot, where slots may be null.
    pub validity: Option<Buffer>,
    /// The buffers that the type asks for, without the validity.
    pub buffers: Vec<Buffer>,
    /// The arrays below.
    pub children: Vec<ArrayData>,
    /// The values that the indices of a dictionary point to.
    pub dictionary: Option<Box<ArrayData>>,
}

/// The mathematical value of an [`ArrayData`].
pub struct ArrayDataView {
    pub data_type: DataTypeView,
    pub length: nat,
    pub null_count: nat,
    pub offset: nat,
    pub validity: Option<Seq<u8>>,
    pub buffers: Seq<Seq<u8>>,
    pub children: Seq<ArrayDataView>,
    pub dictionary: Option<Box<ArrayDataView>>,
}

/// The views of buffers, one by one.
pub open spec fn buffer_views(buffers: Seq<Buffer>) -> Seq<Seq<u8>> {
    Seq::new(buffers.len(), |i: int| buffers[i]@)
}

/// The view of an optional buffer.
pub open spec fn opt_buffer(buffer: Option<Buffer>) -> Option<Seq<u8>> {
    match buffer {
        Some(b) => Some(b@),
        None => None,
    }
}

impl ArrayData {
    /// The mathematical value of the array.
    pub open spec fn model(&self) -> ArrayDataView
        decreases self,
    {
        ArrayDataView {
            data_type: self.data_type@,
            length: self.length as nat,
            null_count: self.null_count as nat,
            offset: self.offset as nat,
            validity: opt_buffer(self.validity),
            buffers: buffer_views(self.buffers@),
            children: Seq::new(
                self.children@.len(),
                |i: int|
                    if 0 <= i < self.children@.len() {
                        self.children@[i].model()
                    } else {
                        arbitrary()
                    },
            ),
            dictionary: match self.dictionary {
                Some(d) => Some(Box::new(d.model())),
                None => None,
            },
        }
    }
}

impl View for ArrayData {
    type V = ArrayDataView;

    open spec fn view(&self) -> ArrayDataView {
        self.model()
    }
}

/// An exported array node. It holds handles to the buffers that it shows,
/// and owns its children and its dictionary; releasing it gives all of them
/// up.
#[derive(Debug)]
pub struct ArrowArray {
    length: i64,
    null_count: i64,
    offset: i64,
    n_buffers: i64,
    buffers: Vec<Option<Buffer>>,
    n_children: i64,
    children: Vec<ArrowArray>,
    dictionary: Option<Box<ArrowArray>>,
    release: bool,
}

/// The mathematical value of an [`ArrowArray`]. An absent buffer stands for
/// a null pointer; `release` tells whether the release callback is set.
pub struct ArrayNodeView {
    pub length: i64,
    pub null_count: i64,
    pub offset: i64,
    pub n_buffers: i64,
    pub buffers: Seq<Option<Seq<u8>>>,
    pub n_children: i64,
    pub children: Seq<ArrayNodeView>,
    pub dictionary: Option<Box<ArrayNodeView>>,
    pub release: bool,
}

/// The views of optional buffers, one by one.
pub open spec fn opt_buffer_views(buffers: Seq<Option<Buffer>>) -> Seq<Option<Seq<u8>>> {
    Seq::new(buffers.len(), |i: int| opt_buffer(buffers[i]))
}

impl ArrowArray {
    /// The mathematical value of the node.
    pub closed spec fn model(&self) -> ArrayNodeView
        decreases self,
    {
        ArrayNodeView {
            length: self.length,
            null_count: self.null_count,
            offset: self.offset,
            n_buffers: self.n_buffers,
            buffers: opt_buffer_views(self.buffers@),
            n_children: self.n_children,
            children: Seq::new(
                self.children@.len(),
                |i: int|
                    if 0 <= i < self.children@.len() {
                        self.children@[i].model()
                    } else {
                        arbitrary()
                    },
            ),
            dictionary: match self.dictionary {
                Some(d) => Some(Box::new(d.model())),
                None => None,
            },
            release: self.release,
        }
    }
}

impl View for ArrowArray {
    type V = ArrayNodeView;

    closed spec fn view(&self) -> ArrayNodeView {
        self.model()
    }
}

/// The node that stands for nothing, and for the end of a stream: every
/// pointer null, no release callback.
pub open spec fn empty_array() -> ArrayNodeView {
    ArrayNodeView {
        length: 0,
        null_count: 0,
        offset: 0,
        n_buffers: 0,
        buffers: Seq::empty(),
        n_children: 0,
        children: Seq::empty(),
        dictionary: None,
        release: false,
    }
}

/// The node after its release: the handles, the children and the dictionary
/// are gone and the release callback is cleared. A node without release
/// callback stays as it is.
pub open spec fn released_array(node: ArrayNodeView) -> ArrayNodeView {
    if node.release {
        ArrayNodeView {
            buffers: Seq::empty(),
            children: Seq::empty(),
            dictionary: None,
            release: false,
            ..node
        }
    } else {
        node
    }
}

/// The type that tells how an array is laid out: the type under the
/// extensions.
pub open spec fn physical(data_type: DataTypeView) -> DataTypeView
    decreases data_type,
{
    match data_type {
        DataTypeView::Extension(_, inner, _) => physical(*inner),
        _ => data_type,
    }
}

/// How many buffers the node of an array of this type has, the validity
/// bitmap counted as the first.
pub open spec fn buffer_count(data_type: DataTypeView) -> nat {
    match physical(data_type) {
        DataTypeView::Null => 0,
        DataTypeView::Binary => 3,
        DataTypeView::LargeBinary => 3,
        DataTypeView::Utf8 => 3,
        DataTypeView::LargeUtf8 => 3,
        DataTypeView::FixedSizeList(_, _) => 1,
        DataTypeView::Struct(_) => 1,
        DataTypeView::Union(_, _, UnionMode::Dense) => 3,
        _ => 2,
    }
}

/// The types of the children of an array of this type.
pub open spec fn child_types(data_type: DataTypeView) -> Seq<DataTypeView> {
    Seq::new(
        child_fields(physical(data_type)).len(),
        |i: int| child_fields(physical(data_type))[i].data_type,
    )
}

/// The type of the values of a dictionary, if `data_type` is one.
pub open spec fn values_type(data_type: DataTypeView) -> Option<DataTypeView> {
    match physical(data_type) {
        DataTypeView::Dictionary(_, values, _) => Some(*values),
        _ => None,
    }
}

/// Whether `array` is laid out as its type asks: it has the buffers, the
/// children and the dictionary of its type, each child of the type that
/// belongs there; an array without validity has no nulls; and the counts
/// fit in 63 bits. The same holds of the children and the dictionary.
pub open spec fn conforms(array: ArrayDataView) -> bool
    decreases array,
{
    let count = buffer_count(array.data_type);
    let below = child_types(array.data_type);
    &&& if count == 0 {
        array.buffers.len() == 0 && array.validity is None
    } else {
        array.buffers.len() + 1 == count
    }
    &&& array.validity is None ==> array.null_count == 0
    &&& array.length <= i64::MAX && array.null_count <= i64::MAX && array.offset <= i64::MAX
    &&& array.children.len() == below.len()
    &&& array.children.len() <= i64::MAX
    &&& forall|i: int|
        0 <= i < array.children.len() ==> (#[trigger] array.children[i]).data_type == below[i]
            && conforms(array.children[i])
    &&& match array.dictionary {
        Some(d) => values_type(array.data_type) == Some(d.data_type) && conforms(*d),
        None => values_type(array.data_type) is None,
    }
}

/// The node that `array` is exported as: length, null count and offset as
/// they are; the validity bitmap as the first buffer, absent where there is
/// none, then the other buffers; the children and the dictionary as nodes.
pub open spec fn export_array(array: ArrayDataView) -> ArrayNodeView
    decreases array,
{
    ArrayNodeView {
        length: array.length as i64,
        null_count: array.null_count as i64,
        offset: array.offset as i64,
        n_buffers: buffer_count(array.data_type) as i64,
        buffers: if buffer_count(array.data_type) == 0 {
            Seq::empty()
        } else {
            seq![array.validity] + Seq::new(array.buffers.len(), |i: int| Some(array.buffers[i]))
        },
        n_children: array.children.len() as i64,
        children: Seq::new(
            array.children.len(),
            |i: int|
                if 0 <= i < array.children.len() {
                    export_array(array.children[i])
                } else {
                    arbitrary()
                },
        ),
        dictionary: match array.dictionary {
            Some(d) => Some(Box::new(export_array(*d))),
            None => None,
        },
        release: true,
    }
}

/// Why a node cannot be read as an array of a type.
pub enum Refusal {
    /// The node has not as many buffers or children as the type asks for.
    InvalidArgument,
    /// The node breaks the rules of the interface: a count is negative or
    /// too large for this machine, a buffer that must be there is absent,
    /// or the dictionary is absent or present against the type.
    OutOfSpec,
}

/// Whether the error says what the refusal says.
pub open spec fn says(e: ArrowError, refusal: Refusal) -> bool {
    match refusal {
        Refusal::InvalidArgument => e is InvalidArgumentError,
        Refusal::OutOfSpec => e is OutOfSpec,
    }
}

/// Why the node itself, without what is below it, cannot be read as an
/// array of `data_type`, if it cannot.
pub open spec fn refusal_of(node: ArrayNodeView, data_type: DataTypeView) -> Option<Refusal> {
    let count = buffer_count(data_type);
    if node.length < 0 || node.null_count < 0 || node.offset < 0 {
        Some(Refusal::OutOfSpec)
    } else if node.length > usize::MAX || node.null_count > usize::MAX || node.offset
        > usize::MAX {
        Some(Refusal::OutOfSpec)
    } else if node.n_buffers != count || node.buffers.len() != count {
        Some(Refusal::InvalidArgument)
    } else if node.n_children != child_types(data_type).len() || node.children.len()
        != child_types(data_type).len() {
        Some(Refusal::InvalidArgument)
    } else if count > 0 && node.buffers[0] is None && node.null_count > 0 {
        Some(Refusal::OutOfSpec)
    } else if exists|i: int| 1 <= i < node.buffers.len() && (#[trigger] node.buffers[i]) is None {
        Some(Refusal::OutOfSpec)
    } else if (node.dictionary is Some) != (values_type(data_type) is Some) {
        Some(Refusal::OutOfSpec)
    } else {
        None
    }
}

/// The first of `results` that is a refusal, if there is one.
pub open spec fn first_refusal(results: Seq<Result<ArrayDataView, Refusal>>) -> Option<Refusal>
    decreases results.len(),
{
    if results.len() == 0 {
        None
    } else {
        match results[0] {
            Err(r) => Some(r),
            Ok(_) => first_refusal(results.drop_first()),
        }
    }
}

/// What reading the children of `node` as the children of an array of
/// `data_type` gives, one by one.
pub open spec fn import_array_children(node: ArrayNodeView, data_type: DataTypeView) -> Seq<
    Result<ArrayDataView, Refusal>,
>
    decreases node, 0int,
{
    Seq::new(
        node.children.len(),
        |i: int|
            if 0 <= i < node.children.len() {
                import_array(node.children[i], child_types(data_type)[i])
            } else {
                Err(Refusal::OutOfSpec)
            },
    )
}

/// The array of `data_type` that `node` shows, or why there is none: the
/// refusal of the node itself, else the first refusal among its children,
/// else that of its dictionary.
pub open spec fn import_array(node: ArrayNodeView, data_type: DataTypeView) -> Result<
    ArrayDataView,
    Refusal,
>
    decreases node, 1int,
{
    match refusal_of(node, data_type) {
        Some(r) => Err(r),
        None => {
            let children = import_array_children(node, data_type);
            match first_refusal(children) {
                Some(r) => Err(r),
                None => {
                    let dictionary = match node.dictionary {
                        Some(d) => Some(import_array(*d, values_type(data_type)->0)),
                        None => None,
                    };
                    match dictionary {
                        Some(Err(r)) => Err(r),
                        _ => Ok(
                            ArrayDataView {
                                data_type,
                                length: node.length as nat,
                                null_count: node.null_count as nat,
                                offset: node.offset as nat,
                                validity: if node.buffers.len() > 0 {
                                    node.buffers[0]
                                } else {
                                    None
                                },
                                buffers: Seq::new(
                                    if node.buffers.len() > 0 {
                                        (node.buffers.len() - 1) as nat
                                    } else {
                                        0
                                    },
                                    |i: int| node.buffers[i + 1]->0,
                                ),
                                children: Seq::new(children.len(), |i: int| children[i]->Ok_0),
                                dictionary: match dictionary {
                                    Some(Ok(d)) => Some(Box::new(d)),
                                    _ => None,
                                },
                            },
                        ),
                    }
                },
            }
        },
    }
}

/// Whether `node` and every node below it has its release callback set.
pub open spec fn live(node: ArrayNodeView) -> bool
    decreases node,
{
    &&& node.release
    &&& forall|i: int| 0 <= i < node.children.len() ==> live(#[trigger] node.children[i])
    &&& match node.dictionary {
        Some(d) => live(*d),
        None => true,
    }
}

} // verus!

verus! {

/// The type under the extensions of `data_type`.
pub fn to_physical(data_type: &DataType) -> (p: &DataType)
    ensures
        p@ == physical(data_type@),
    decreases data_type,
{
    match data_type {
        DataType::Extension(_, inner, _) => to_physical(inner),
        _ => data_type,
    }
}

/// How many buffers the node of an array of `data_type` has, the validity
/// bitmap counted as the first.
pub fn buffers_of(data_type: &DataType) -> (count: usize)
    ensures
        count == buffer_count(data_type@),
{
    match to_physical(data_type) {
        DataType::Null => 0,
        DataType::Binary => 3,
        DataType::LargeBinary => 3,
        DataType::Utf8 => 3,
        DataType::LargeUtf8 => 3,
        DataType::FixedSizeList(_, _) => 1,
        DataType::Struct(_) => 1,
        DataType::Union(_, _, mode) => if mode.is_sparse() {
            2
        } else {
            3
        },
        _ => 2,
    }
}

/// How many children an array of `data_type` has.
pub fn children_of(data_type: &DataType) -> (count: usize)
    ensures
        count == child_types(data_type@).len(),
{
    match to_physical(data_type) {
        DataType::List(_) => 1,
        DataType::FixedSizeList(_, _) => 1,
        DataType::LargeList(_) => 1,
        DataType::MapType(_, _) => 1,
        DataType::Struct(fields) => fields.len(),
        DataType::Union(fields, _, _) => fields.len(),
        _ => 0,
    }
}

/// Where all the first results are arrays and the next is a refusal, it is
/// the first refusal.
proof fn lemma_first_refusal_at(results: Seq<Result<ArrayDataView, Refusal>>, k: int)
    requires
        0 <= k < results.len(),
        forall|j: int| 0 <= j < k ==> (#[trigger] results[j]) is Ok,
        results[k] is Err,
    ensures
        first_refusal(results) == Some(results[k]->Err_0),
    decreases k,
{
    if k > 0 {
        assert(results[0] is Ok);
        let rest = results.drop_first();
        assert forall|j: int| 0 <= j < k - 1 implies (#[trigger] rest[j]) is Ok by {
            assert(rest[j] == results[j + 1]);
        }
        assert(rest[k - 1] == results[k]);
        lemma_first_refusal_at(rest, k - 1);
    }
}

/// Where all results are arrays, there is no refusal.
proof fn lemma_no_refusal(results: Seq<Result<ArrayDataView, Refusal>>)
    requires
        forall|j: int| 0 <= j < results.len() ==> (#[trigger] results[j]) is Ok,
    ensures
        first_refusal(results) is None,
    decreases results.len(),
{
    if results.len() > 0 {
        assert(results[0] is Ok);
        let rest = results.drop_first();
        assert forall|j: int| 0 <= j < rest.len() implies (#[trigger] rest[j]) is Ok by {
            assert(rest[j] == results[j + 1]);
        }
        lemma_no_refusal(rest);
    }
}

impl ArrowArray {
    /// Exports `array`. The node shares the buffers of the array; nothing
    /// is copied.
    pub fn new(array: &ArrayData) -> (node: Self)
        requires
            conforms(array@),
        ensures
            node@ == export_array(array@),
        decreases array,
    {
        let count = buffers_of(&array.data_type);
        let mut buffers: Vec<Option<Buffer>> = Vec::new();
        if count > 0 {
            buffers.push(
                match &array.validity {
                    Some(v) => Some(v.share()),
                    None => None,
                },
            );
            let mut i: usize = 0;
            while i < array.buffers.len()
                invariant
                    i <= array.buffers@.len(),
                    buffers@.len() == i + 1,
                    opt_buffer(buffers@[0]) == array@.validity,
                    forall|j: int|
                        0 <= j < i ==> opt_buffer(#[trigger] buffers@[j + 1]) == Some(
                            array.buffers@[j]@,
                        ),
                decreases array.buffers@.len() - i,
            {
                buffers.push(Some(array.buffers[i].share()));
                i += 1;
            }
        }
        let mut children: Vec<ArrowArray> = Vec::new();
        let mut i: usize = 0;
        while i < array.children.len()
            invariant
                i <= array.children@.len(),
                children@.len() == i,
                conforms(array@),
                forall|j: int|
                    0 <= j < i ==> (#[trigger] children@[j])@ == export_array(
                        array.children@[j]@,
                    ),
            decreases array.children@.len() - i,
        {
            proof {
                assert(decreases_to!(array.children => array.children[i as int]));
                assert(array@.children[i as int] == array.children@[i as int]@);
            }
            children.push(Self::new(&array.children[i]));
            i += 1;
        }
        let dictionary = match &array.dictionary {
            Some(d) => Some(Box::new(Self::new(&**d))),
            None => None,
        };
        let node = ArrowArray {
            length: array.length as i64,
            null_count: array.null_count as i64,
            offset: array.offset as i64,
            n_buffers: count as i64,
            buffers,
            n_children: array.children.len() as i64,
            children,
            dictionary,
            release: true,
        };
        proof {
            let want = export_array(array@);
            assert(node@.children =~= want.children);
            assert(node@.buffers =~= want.buffers) by {
                if count > 0 {
                    assert forall|j: int| 0 <= j < node@.buffers.len() implies node@.buffers[j]
                        == want.buffers[j] by {
                        if j > 0 {
                            assert(opt_buffer(node.buffers@[j - 1 + 1]) == Some(
                                array.buffers@[j - 1]@,
                            ));
                        }
                    }
                }
            }
        }
        node
    }

    /// Creates the node that stands for nothing.
    pub fn empty() -> (node: Self)
        ensures
            node@ == empty_array(),
    {
        let node = ArrowArray {
            length: 0,
            null_count: 0,
            offset: 0,
            n_buffers: 0,
            buffers: Vec::new(),
            n_children: 0,
            children: Vec::new(),
            dictionary: None,
            release: false,
        };
        assert(node@.children =~= Seq::<ArrayNodeView>::empty());
        assert(node@.buffers =~= Seq::<Option<Seq<u8>>>::empty());
        node
    }

    /// Puts a node together from what a foreign node holds.
    pub fn from_parts(
        length: i64,
        null_count: i64,
        offset: i64,
        buffers: Vec<Option<Buffer>>,
        children: Vec<ArrowArray>,
        dictionary: Option<ArrowArray>,
        release: bool,
    ) -> (node: Self)
        requires
            buffers@.len() <= i64::MAX,
            children@.len() <= i64::MAX,
        ensures
            node@.length == length,
            node@.null_count == null_count,
            node@.offset == offset,
            node@.n_buffers == buffers@.len(),
            node@.buffers == opt_buffer_views(buffers@),
            node@.n_children == children@.len(),
            node@.children == Seq::new(children@.len(), |i: int| children@[i]@),
            node@.dictionary == (match dictionary {
                Some(d) => Some(Box::new(d@)),
                None => None,
            }),
            node@.release == release,
    {
        let ghost given = Seq::new(children@.len(), |i: int| children@[i]@);
        let node = ArrowArray {
            length,
            null_count,
            offset,
            n_buffers: buffers.len() as i64,
            buffers,
            n_children: children.len() as i64,
            children,
            dictionary: match dictionary {
                Some(d) => Some(Box::new(d)),
                None => None,
            },
            release,
        };
        assert(node@.children =~= given);
        node
    }

    /// The number of slots that the node declares.
    pub fn length(&self) -> (n: i64)
        ensures
            n == self@.length,
    {
        self.length
    }

    /// The number of nulls that the node declares.
    pub fn null_count(&self) -> (n: i64)
        ensures
            n == self@.null_count,
    {
        self.null_count
    }

    /// The offset that the node declares.
    pub fn offset(&self) -> (n: i64)
        ensures
            n == self@.offset,
    {
        self.offset
    }

    /// The number of buffers that the node declares.
    pub fn n_buffers(&self) -> (n: i64)
        ensures
            n == self@.n_buffers,
    {
        self.n_buffers
    }

    /// The number of children that the node declares.
    pub fn n_children(&self) -> (n: i64)
        ensures
            n == self@.n_children,
    {
        self.n_children
    }

    /// The buffer at `index`, if it is there.
    pub fn buffer(&self, index: usize) -> (buffer: Option<&Buffer>)
        requires
            index < self@.buffers.len(),
        ensures
            self@.buffers[index as int] == (match buffer {
                Some(b) => Some(b@),
                None => None,
            }),
    {
        match &self.buffers[index] {
            Some(b) => Some(b),
            None => None,
        }
    }

    /// The child at `index`.
    pub fn child(&self, index: usize) -> (child: &Self)
        requires
            index < self@.children.len(),
        ensures
            child@ == self@.children[index as int],
    {
        &self.children[index]
    }

    /// The node of the dictionary's values, if there is one.
    pub fn dictionary(&self) -> (dictionary: Option<&Self>)
        ensures
            self@.dictionary == (match dictionary {
                Some(d) => Some(Box::new(d@)),
                None => None,
            }),
    {
        match &self.dictionary {
            Some(d) => Some(&**d),
            None => None,
        }
    }

    /// Whether the release callback of the node is cleared. A node so
    /// marked also stands for the end of a stream.
    pub fn is_released(&self) -> (b: bool)
        ensures
            b == !self@.release,
    {
        !self.release
    }

    /// Releases the node: gives up its handles, its children and its
    /// dictionary, and clears the release callback. On a node without
    /// release callback this does nothing.
    pub fn release(&mut self)
        ensures
            final(self)@ == released_array(old(self)@),
            !final(self)@.release,
    {
        if self.release {
            self.buffers = Vec::new();
            self.children = Vec::new();
            self.dictionary = None;
            self.release = false;
            assert(self@.children =~= Seq::<ArrayNodeView>::empty());
            assert(self@.buffers =~= Seq::<Option<Seq<u8>>>::empty());
        }
    }
}

/// Reads `node` as an array of `data_type`. The array shares the buffers
/// of the node; the node stays as it is.
///
/// A node that has not the buffers or the children of the type is an
/// invalid argument. A negative count, an absent buffer that must be
/// there, and a dictionary against the type are out of specification.
#[verifier::loop_isolation(false)]
pub fn import_array_from_c(node: &ArrowArray, data_type: DataType) -> (r: Result<
    ArrayData,
    ArrowError,
>)
    requires
        live(node@),
    ensures
        match r {
            Ok(array) => import_array(node@, data_type@) == Ok::<ArrayDataView, Refusal>(array@),
            Err(e) => import_array(node@, data_type@) matches Err(refusal) && says(e, refusal),
        },
    decreases node,
{
    if node.length < 0 || node.null_count < 0 || node.offset < 0 {
        return Err(ArrowError::OutOfSpec("An array cannot have a negative count".to_string()));
    }
    let most = usize::MAX as u64;
    if node.length as u64 > most || node.null_count as u64 > most || node.offset as u64 > most {
        return Err(ArrowError::OutOfSpec("An array cannot be that long".to_string()));
    }
    let count = buffers_of(&data_type);
    if node.n_buffers < 0 || node.n_buffers as u64 != count as u64 || node.buffers.len() != count {
        return Err(
            ArrowError::InvalidArgumentError(
                "The array has not the buffers that its type asks for".to_string(),
            ),
        );
    }
    let below = children_of(&data_type);
    if node.n_children < 0 || node.n_children as u64 != below as u64 || node.children.len()
        != below {
        return Err(
            ArrowError::InvalidArgumentError(
                "The array has not the children that its type asks for".to_string(),
            ),
        );
    }
    let validity = if count > 0 {
        match &node.buffers[0] {
            Some(v) => Some(v.share()),
            None => {
                if node.null_count > 0 {
                    return Err(
                        ArrowError::OutOfSpec(
                            "An array with nulls must have a validity".to_string(),
                        ),
                    );
                }
                None
            },
        }
    } else {
        None
    };
    let mut buffers: Vec<Buffer> = Vec::new();
    let mut i: usize = 1;
    while i < count
        invariant
            1 <= i,
            count == node.buffers@.len(),
            i <= count || i == 1,
            buffers@.len() == i - 1,
            forall|j: int|
                1 <= j < i ==> opt_buffer(#[trigger] node.buffers@[j]) == Some(buffers@[j - 1]@),
        decreases count - i,
    {
        match &node.buffers[i] {
            Some(b) => buffers.push(b.share()),
            None => {
                assert(node@.buffers[i as int] is None);
                return Err(ArrowError::OutOfSpec("A buffer of the array is absent".to_string()));
            },
        }
        i += 1;
    }
    proof {
        assert forall|j: int| 1 <= j < node@.buffers.len() implies (#[trigger] node@.buffers[j])
            is Some by {
            assert(opt_buffer(node.buffers@[j]) == Some(buffers@[j - 1]@));
        }
    }
    let physical_type = to_physical(&data_type);
    let has_values = match physical_type {
        DataType::Dictionary(_, _, _) => true,
        _ => false,
    };
    if node.dictionary.is_some() != has_values {
        return Err(
            ArrowError::OutOfSpec(
                "An array has a dictionary exactly if its type is one".to_string(),
            ),
        );
    }
    assert(refusal_of(node@, data_type@) is None);
    let ghost results = import_array_children(node@, data_type@);
    let mut children: Vec<ArrayData> = Vec::new();
    let mut i: usize = 0;
    while i < below
        invariant
            i <= below,
            below == node.children@.len(),
            below == child_types(data_type@).len(),
            physical_type@ == physical(data_type@),
            live(node@),
            children@.len() == i,
            results == import_array_children(node@, data_type@),
            forall|j: int|
                0 <= j < i ==> results[j] == Ok::<ArrayDataView, Refusal>(
                    (#[trigger] children@[j])@,
                ),
        decreases below - i,
    {
        proof {
            assert(decreases_to!(node.children => node.children[i as int]));
            assert(node@.children[i as int] == node.children@[i as int]@);
            assert(live(node@.children[i as int]));
        }
        let child_type = match get_child(physical_type, i) {
            Ok(child_type) => child_type,
            Err(e) => {
                return vstd::pervasive::unreached();
            },
        };
        match import_array_from_c(&node.children[i], child_type) {
            Ok(child) => children.push(child),
            Err(e) => {
                proof {
                    assert forall|j: int| 0 <= j < i implies (#[trigger] results[j]) is Ok by {
                        assert(results[j] == Ok::<ArrayDataView, Refusal>(children@[j]@));
                    }
                    lemma_first_refusal_at(results, i as int);
                }
                return Err(e);
            },
        }
        i += 1;
    }
    proof {
        assert forall|j: int| 0 <= j < results.len() implies (#[trigger] results[j]) is Ok by {
            assert(results[j] == Ok::<ArrayDataView, Refusal>(children@[j]@));
        }
        lemma_no_refusal(results);
    }
    let dictionary = match &node.dictionary {
        Some(d) => {
            let values = match physical_type {
                DataType::Dictionary(_, values, _) => (**values).clone(),
                _ => {
                    return vstd::pervasive::unreached();
                },
            };
            match import_array_from_c(&**d, values) {
                Ok(d) => Some(Box::new(d)),
                Err(e) => {
                    return Err(e);
                },
            }
        },
        None => None,
    };
    let array = ArrayData {
        data_type,
        length: node.length as usize,
        null_count: node.null_count as usize,
        offset: node.offset as usize,
        validity,
        buffers,
        children,
        dictionary,
    };
    proof {
        assert(import_array(node@, array.data_type@) is Ok);
        let want = import_array(node@, array.data_type@)->Ok_0;
        assert(want.buffers.len() == array@.buffers.len());
        assert(array@.buffers =~= want.buffers) by {
            assert forall|j: int| 0 <= j < array@.buffers.len() implies array@.buffers[j]
                == want.buffers[j] by {
                assert(opt_buffer(node.buffers@[j + 1]) == Some(array.buffers@[j]@));
            }
        }
        assert(array@.children =~= want.children) by {
            assert forall|j: int| 0 <= j < array@.children.len() implies array@.children[j]
                == want.children[j] by {
                assert(results[j] == Ok::<ArrayDataView, Refusal>(array.children@[j]@));
            }
        }
    }
    Ok(array)
}

/// Exports `array` into the slot `out`. What the slot held is dropped.
pub fn export_array_to_c(array: &ArrayData, out: &mut ArrowArray)
    requires
        conforms(array@),
    ensures
        final(out)@ == export_array(array@),
{
    *out = ArrowArray::new(array);
}

} // verus!

verus! {

/// Importing what was exported gives the array back: the node of an array
/// that is laid out as its type asks is live, can be read as an array of
/// that type, and reading it gives the array.
pub proof fn lemma_array_round_trip(array: ArrayDataView)
    requires
        conforms(array),
        fits_machine(array),
    ensures
        live(export_array(array)),
        import_array(export_array(array), array.data_type) == Ok::<ArrayDataView, Refusal>(array),
    decreases array,
{
    let node = export_array(array);
    let below = child_types(array.data_type);
    let results = import_array_children(node, array.data_type);
    assert forall|i: int| 0 <= i < array.children.len() implies live(#[trigger] node.children[i])
        && results[i] == Ok::<ArrayDataView, Refusal>(array.children[i]) by {
        assert(array.children[i].data_type == below[i]);
        lemma_array_round_trip(array.children[i]);
    }
    assert forall|j: int| 0 <= j < results.len() implies (#[trigger] results[j]) is Ok by {
        assert(results[j] == Ok::<ArrayDataView, Refusal>(array.children[j]));
    }
    lemma_no_refusal(results);
    match array.dictionary {
        Some(d) => {
            lemma_array_round_trip(*d);
        },
        None => {},
    }
    assert(refusal_of(node, array.data_type) is None);
    let back = import_array(node, array.data_type)->Ok_0;
    assert(back.buffers =~= array.buffers);
    assert(back.children =~= array.children);
}

/// Whether the counts of `array` and of the arrays below it fit in a
/// `usize`, as those of every array in memory do.
pub open spec fn fits_machine(array: ArrayDataView) -> bool
    decreases array,
{
    &&& array.length <= usize::MAX && array.null_count <= usize::MAX && array.offset
        <= usize::MAX
    &&& forall|i: int|
        0 <= i < array.children.len() ==> fits_machine(#[trigger] array.children[i])
    &&& match array.dictionary {
        Some(d) => fits_machine(*d),
        None => true,
    }
}

/// Releasing a released array node changes nothing, and a released node
/// holds no handle: a second release has nothing to free.
pub proof fn lemma_array_release_once(node: ArrayNodeView)
    ensures
        !released_array(node).release,
        released_array(released_array(node)) == released_array(node),
        node.release ==> released_array(node).buffers.len() == 0 && released_array(
            node,
        ).children.len() == 0 && released_array(node).dictionary is None,
        !node.release ==> released_array(node) == node,
{
}

} // verus!

verus! {

/// Whether `array` is laid out as its type asks.
pub(crate) fn check_conforms(array: &ArrayData) -> (b: bool)
    ensures
        b == conforms(array@),
    decreases array,
{
    let count = buffers_of(&array.data_type);
    let below = children_of(&array.data_type);
    let shaped = if count == 0 {
        array.buffers.len() == 0 && array.validity.is_none()
    } else {
        array.buffers.len() < usize::MAX && array.buffers.len() + 1 == count
    };
    if !shaped {
        return false;
    }
    if array.validity.is_none() && array.null_count != 0 {
        return false;
    }
    let most = 0x7fff_ffff_ffff_ffffu64;
    if array.length as u64 > most || array.null_count as u64 > most || array.offset as u64 > most
        || array.children.len() as u64 > most {
        return false;
    }
    if array.children.len() != below {
        return false;
    }
    let physical_type = to_physical(&array.data_type);
    let mut i: usize = 0;
    while i < below
        invariant
            i <= below,
            below == array.children@.len(),
            below == child_types(array@.data_type).len(),
            physical_type@ == physical(array@.data_type),
            forall|j: int|
                0 <= j < i ==> (#[trigger] array@.children[j]).data_type == child_types(
                    array@.data_type,
                )[j] && conforms(array@.children[j]),
        decreases below - i,
    {
        proof {
            assert(decreases_to!(array.children => array.children[i as int]));
            assert(array@.children[i as int] == array.children@[i as int]@);
        }
        let child_type = match get_child(physical_type, i) {
            Ok(child_type) => child_type,
            Err(e) => {
                return vstd::pervasive::unreached();
            },
        };
        let child = &array.children[i];
        if !child.data_type.same_as(&child_type) || !check_conforms(child) {
            return false;
        }
        i += 1;
    }
    match (&array.dictionary, physical_type) {
        (Some(d), DataType::Dictionary(_, values, _)) => d.data_type.same_as(&**values)
            && check_conforms(&**d),
        (None, DataType::Dictionary(_, _, _)) => false,
        (Some(_), _) => false,
        (None, _) => true,
    }
}

} // verus!

verus! {

/// Whether `node` and every node below it has its release callback set.
pub fn is_live(node: &ArrowArray) -> (b: bool)
    ensures
        b == live(node@),
    decreases node,
{
    if !node.release {
        return false;
    }
    let mut i: usize = 0;
    while i < node.children.len()
        invariant
            i <= node.children@.len(),
            forall|j: int| 0 <= j < i ==> live(#[trigger] node@.children[j]),
        decreases node.children@.len() - i,
    {
        proof {
            assert(decreases_to!(node.children => node.children[i as int]));
            assert(node@.children[i as int] == node.children@[i as int]@);
        }
        if !is_live(&node.children[i]) {
            return false;
        }
        i += 1;
    }
    match &node.dictionary {
        Some(d) => is_live(&**d),
        None => true,
    }
}

} // verus!

verus! {

/// How many bytes a value of this type takes in the buffer of values, for
/// the types whose values all have one width. Booleans, which take a bit,
/// are not among them.
pub open spec fn byte_width(data_type: DataTypeView) -> Option<nat> {
    match physical(data_type) {
        DataTypeView::Int8 => Some(1),
        DataTypeView::UInt8 => Some(1),
        DataTypeView::Int16 => Some(2),
        DataTypeView::UInt16 => Some(2),
        DataTypeView::Float16 => Some(2),
        DataTypeView::Int32 => Some(4),
        DataTypeView::UInt32 => Some(4),
        DataTypeView::Float32 => Some(4),
        DataTypeView::Date32 => Some(4),
        DataTypeView::Time32(_) => Some(4),
        DataTypeView::Interval(crate::datatypes::IntervalUnit::YearMonth) => Some(4),
        DataTypeView::Int64 => Some(8),
        DataTypeView::UInt64 => Some(8),
        DataTypeView::Float64 => Some(8),
        DataTypeView::Date64 => Some(8),
        DataTypeView::Time64(_) => Some(8),
        DataTypeView::Timestamp(_, _) => Some(8),
        DataTypeView::Duration(_) => Some(8),
        DataTypeView::Interval(crate::datatypes::IntervalUnit::DayTime) => Some(8),
        DataTypeView::Interval(crate::datatypes::IntervalUnit::MonthDayNano) => Some(16),
        DataTypeView::Decimal(_, _) => Some(16),
        DataTypeView::FixedSizeBinary(size) => Some(size),
        DataTypeView::Dictionary(index, _, _) => Some(
            match index {
                crate::datatypes::IntegerType::Int8 => 1,
                crate::datatypes::IntegerType::UInt8 => 1,
                crate::datatypes::IntegerType::Int16 => 2,
                crate::datatypes::IntegerType::UInt16 => 2,
                crate::datatypes::IntegerType::Int32 => 4,
                crate::datatypes::IntegerType::UInt32 => 4,
                crate::datatypes::IntegerType::Int64 => 8,
                crate::datatypes::IntegerType::UInt64 => 8,
            },
        ),
        _ => None,
    }
}

/// How many bytes an offset takes, for the types that have offsets.
pub open spec fn offset_width(data_type: DataTypeView) -> Option<nat> {
    match physical(data_type) {
        DataTypeView::Binary => Some(4),
        DataTypeView::Utf8 => Some(4),
        DataTypeView::List(_) => Some(4),
        DataTypeView::MapType(_, _) => Some(4),
        DataTypeView::LargeBinary => Some(8),
        DataTypeView::LargeUtf8 => Some(8),
        DataTypeView::LargeList(_) => Some(8),
        _ => None,
    }
}

/// How many bytes the buffer at `index` of the node of an array of
/// `data_type` spans, for an array of `length` slots from `offset` on:
///
/// - the validity bitmap, which is the first buffer, and the values of
///   booleans take a bit for every slot;
/// - values of one width take that width for every slot;
/// - offsets take their width for every slot and one more;
/// - the bytes of byte strings and texts reach to the last offset;
/// - the type ids of a union take a byte, and the offsets of a dense union
///   four bytes, for every slot.
///
/// `None` where the type has no such buffer, or the last offset is needed
/// and not given.
pub open spec fn buffer_bytes(
    data_type: DataTypeView,
    length: nat,
    offset: nat,
    index: nat,
    last_offset: Option<nat>,
) -> Option<nat> {
    let slots = length + offset;
    if index >= buffer_count(data_type) {
        None
    } else if index == 0 {
        Some((slots + 7) / 8)
    } else if physical(data_type) is Boolean {
        Some((slots + 7) / 8)
    } else if physical(data_type) is Union {
        if index == 1 {
            Some(slots)
        } else {
            Some(4 * slots)
        }
    } else {
        match offset_width(data_type) {
            Some(width) => if index == 1 {
                Some(width * (slots + 1))
            } else {
                last_offset
            },
            None => match byte_width(data_type) {
                Some(width) => Some(width * slots),
                None => None,
            },
        }
    }
}

/// How many bytes a value of this type takes in the buffer of values.
pub fn byte_width_of(data_type: &DataType) -> (width: Option<usize>)
    ensures
        match width {
            Some(w) => byte_width(data_type@) == Some(w as nat),
            None => byte_width(data_type@) is None,
        },
{
    match to_physical(data_type) {
        DataType::Int8 => Some(1),
        DataType::UInt8 => Some(1),
        DataType::Int16 => Some(2),
        DataType::UInt16 => Some(2),
        DataType::Float16 => Some(2),
        DataType::Int32 => Some(4),
        DataType::UInt32 => Some(4),
        DataType::Float32 => Some(4),
        DataType::Date32 => Some(4),
        DataType::Time32(_) => Some(4),
        DataType::Interval(unit) => match unit {
            crate::datatypes::IntervalUnit::YearMonth => Some(4),
            crate::datatypes::IntervalUnit::DayTime => Some(8),
            crate::datatypes::IntervalUnit::MonthDayNano => Some(16),
        },
        DataType::Int64 => Some(8),
        DataType::UInt64 => Some(8),
        DataType::Float64 => Some(8),
        DataType::Date64 => Some(8),
        DataType::Time64(_) => Some(8),
        DataType::Timestamp(_, _) => Some(8),
        DataType::Duration(_) => Some(8),
        DataType::Decimal(_, _) => Some(16),
        DataType::FixedSizeBinary(size) => Some(*size),
        DataType::Dictionary(index, _, _) => Some(
            match index {
                crate::datatypes::IntegerType::Int8 => 1,
                crate::datatypes::IntegerType::UInt8 => 1,
                crate::datatypes::IntegerType::Int16 => 2,
                crate::datatypes::IntegerType::UInt16 => 2,
                crate::datatypes::IntegerType::Int32 => 4,
                crate::datatypes::IntegerType::UInt32 => 4,
                crate::datatypes::IntegerType::Int64 => 8,
                crate::datatypes::IntegerType::UInt64 => 8,
            },
        ),
        _ => None,
    }
}

/// How many bytes an offset takes, for the types that have offsets.
pub fn offset_width_of(data_type: &DataType) -> (width: Option<usize>)
    ensures
        match width {
            Some(w) => offset_width(data_type@) == Some(w as nat),
            None => offset_width(data_type@) is None,
        },
{
    match to_physical(data_type) {
        DataType::Binary => Some(4),
        DataType::Utf8 => Some(4),
        DataType::List(_) => Some(4),
        DataType::MapType(_, _) => Some(4),
        DataType::LargeBinary => Some(8),
        DataType::LargeUtf8 => Some(8),
        DataType::LargeList(_) => Some(8),
        _ => None,
    }
}

/// `a * b`, unless it passes the greatest `usize`.
fn times(a: usize, b: usize) -> (r: Option<usize>)
    ensures
        match r {
            Some(r) => r == a * b,
            None => a * b > usize::MAX,
        },
{
    if a == 0 || b == 0 {
        assert(a * b == 0) by (nonlinear_arith)
            requires
                a == 0 || b == 0,
        ;
        return Some(0);
    }
    if a > usize::MAX / b {
        assert(a * b > usize::MAX) by (nonlinear_arith)
            requires
                a > usize::MAX / b,
                b > 0,
                usize::MAX >= 0,
        ;
        None
    } else {
        assert(a * b <= usize::MAX) by (nonlinear_arith)
            requires
                a <= usize::MAX / b,
                b > 0,
        ;
        Some(a * b)
    }
}

/// How many bytes the buffer at `index` of the node of an array of
/// `data_type` spans. `None` also where the number passes the greatest
/// `usize`.
pub fn buffer_len(
    data_type: &DataType,
    length: usize,
    offset: usize,
    index: usize,
    last_offset: Option<usize>,
) -> (bytes: Option<usize>)
    ensures
        match bytes {
            Some(n) => buffer_bytes(
                data_type@,
                length as nat,
                offset as nat,
                index as nat,
                match last_offset {
                    Some(o) => Some(o as nat),
                    None => None,
                },
            ) == Some(n as nat),
            None => buffer_bytes(
                data_type@,
                length as nat,
                offset as nat,
                index as nat,
                match last_offset {
                    Some(o) => Some(o as nat),
                    None => None,
                },
            ) matches Some(n) ==> n > usize::MAX,
        },
{
    if index >= buffers_of(data_type) {
        return None;
    }
    if length > usize::MAX - offset {
        proof {
            // every buffer that is there has at least a bit for every slot
            assert((length + offset + 7) / 8 >= 0);
        }
        return slots_overflow(data_type, length, offset, index, last_offset);
    }
    let slots = length + offset;
    let is_boolean = match to_physical(data_type) {
        DataType::Boolean => true,
        _ => false,
    };
    let is_union = match to_physical(data_type) {
        DataType::Union(_, _, _) => true,
        _ => false,
    };
    if index == 0 || is_boolean {
        return Some(slots / 8 + if slots % 8 == 0 {
            0
        } else {
            1
        });
    }
    if is_union {
        return if index == 1 {
            Some(slots)
        } else {
            times(4, slots)
        };
    }
    match offset_width_of(data_type) {
        Some(width) => {
            if index == 1 {
                if slots == usize::MAX {
                    assert(width * (slots + 1) > usize::MAX) by (nonlinear_arith)
                        requires
                            width >= 4,
                            slots == usize::MAX,
                    ;
                    None
                } else {
                    times(width, slots + 1)
                }
            } else {
                last_offset
            }
        },
        None => match byte_width_of(data_type) {
            Some(width) => times(width, slots),
            None => None,
        },
    }
}

/// The answer of `buffer_len` where the slots themselves pass the greatest
/// `usize`: only the texts' bytes, which reach to the last offset, can
/// still be counted.
fn slots_overflow(
    data_type: &DataType,
    length: usize,
    offset: usize,
    index: usize,
    last_offset: Option<usize>,
) -> (bytes: Option<usize>)
    requires
        length + offset > usize::MAX,
        index < buffer_count(data_type@),
    ensures
        match bytes {
            Some(n) => buffer_bytes(
                data_type@,
                length as nat,
                offset as nat,
                index as nat,
                match last_offset {
                    Some(o) => Some(o as nat),
                    None => None,
                },
            ) == Some(n as nat),
            None => buffer_bytes(
                data_type@,
                length as nat,
                offset as nat,
                index as nat,
                match last_offset {
                    Some(o) => Some(o as nat),
                    None => None,
                },
            ) matches Some(n) ==> n > usize::MAX,
        },
{
    let slots: u128 = length as u128 + offset as u128;
    let is_boolean = match to_physical(data_type) {
        DataType::Boolean => true,
        _ => false,
    };
    let is_union = match to_physical(data_type) {
        DataType::Union(_, _, _) => true,
        _ => false,
    };
    if index == 0 || is_boolean {
        let bytes = (slots + 7) / 8;
        return if bytes <= usize::MAX as u128 {
            Some(bytes as usize)
        } else {
            None
        };
    }
    if is_union {
        assert(4 * (length + offset) > usize::MAX);
        return None;
    }
    match offset_width_of(data_type) {
        Some(width) => {
            if index == 1 {
                assert(width * (length + offset + 1) > usize::MAX) by (nonlinear_arith)
                    requires
                        width >= 4,
                        length + offset > usize::MAX,
                ;
                None
            } else {
                last_offset
            }
        },
        None => match byte_width_of(data_type) {
            Some(width) => {
                if width == 0 {
                    assert(width * (length + offset) == 0) by (nonlinear_arith)
                        requires
                            width == 0,
                    ;
                    Some(0)
                } else {
                    assert(width * (length + offset) > usize::MAX) by (nonlinear_arith)
                        requires
                            width >= 1,
                            length + offset > usize::MAX,
                    ;
                    None
                }
            },
            None => None,
        },
    }
}

} // verus!
