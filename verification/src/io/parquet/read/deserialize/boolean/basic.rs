//! Pages of booleans with plain values, read into chunks of rows.
use std::collections::VecDeque;
use vstd::prelude::*;

use crate::array::BooleanArray;
use crate::bitmap::{bit_at, bits_of, count_false, Bitmap, MutableBitmap};
use crate::datatypes::{DataType, DataTypeView};
use crate::error::ArrowError;

verus! {

/// How the values of a page are written.
#[derive(Debug, Clone, Copy, PartialEq, Eq, Structural)]
pub enum Encoding {
    /// One bit for every boolean, low bit first.
    Plain,
    /// Indices into a dictionary of plain values; deprecated.
    PlainDictionary,
    /// Runs of equal values.
    Rle,
    /// Values packed bit by bit.
    BitPacked,
    /// Differences between integers.
    DeltaBinaryPacked,
    /// Lengths of byte strings as differences, then the bytes.
    DeltaLengthByteArray,
    /// Byte strings as what they add to the one before.
    DeltaByteArray,
    /// Indices into a dictionary, as runs.
    RleDictionary,
    /// The bytes of floating-point values, stream by stream.
    ByteStreamSplit,
}

/// A run of rows: where it starts and how many rows it has.
#[derive(Debug, Clone, Copy, PartialEq, Eq, Structural)]
pub struct Interval {
    /// The first row.
    pub start: usize,
    /// The number of rows.
    pub length: usize,
}

/// What a page of a column of booleans holds, as far as reading it goes.
#[derive(Debug)]
pub struct Page {
    /// How the values are written.
    pub encoding: Encoding,
    /// Whether rows may be null.
    pub is_optional: bool,
    /// The number of rows.
    pub num_values: usize,
    /// All bytes of the page.
    pub buffer: Vec<u8>,
    /// The bytes of the definition levels, which tell the valid rows.
    pub def_levels: Vec<u8>,
    /// The bytes of the values of the valid rows.
    pub values: Vec<u8>,
    /// The rows to read, where not all are to be read.
    pub selected_rows: Option<Vec<Interval>>,
}

/// How many bytes the number at the start of `bytes` takes. A number is
/// written seven bits to a byte, low bits first; a byte of 128 or more
/// tells that another follows.
pub open spec fn varint_len(bytes: Seq<u8>) -> nat
    decreases bytes.len(),
{
    if bytes.len() == 0 {
        0
    } else if bytes[0] < 128 {
        1
    } else {
        1 + varint_len(bytes.drop_first())
    }
}

/// The number at the start of `bytes`.
pub open spec fn varint_value(bytes: Seq<u8>) -> nat
    decreases bytes.len(),
{
    if bytes.len() == 0 {
        0
    } else if bytes[0] < 128 {
        bytes[0] as nat
    } else {
        ((bytes[0] - 128) + 128 * varint_value(bytes.drop_first())) as nat
    }
}

/// Whether the number at the start of `bytes` goes on after nine bytes
/// with a byte above one: it would not fit in 64 bits.
pub open spec fn varint_breaks(bytes: Seq<u8>) -> bool {
    bytes.len() >= 10 && bytes[9] > 1 && forall|i: int| 0 <= i < 9 ==> #[trigger] bytes[i] >= 128
}

/// The header of the run at the start of `bytes`, and how many bytes it
/// takes; `None` where the number breaks or is more than a `usize`.
pub open spec fn run_header(bytes: Seq<u8>) -> Option<(nat, nat)> {
    if varint_breaks(bytes) || varint_value(bytes) > usize::MAX {
        None
    } else {
        Some((varint_value(bytes), varint_len(bytes)))
    }
}

/// Whether the runs of levels from `at` on are framed so that they can be
/// handed to the decoder: every header can be read, and every run that
/// has bytes counts at least one group or repetition. An odd header
/// stands for as many bytes of packed levels as its half says, an even one
/// for one byte that is repeated.
pub open spec fn runs_framed(data: Seq<u8>, at: int) -> bool
    decreases data.len() - at,
{
    if at < 0 || at >= data.len() {
        true
    } else {
        match run_header(data.skip(at)) {
            None => false,
            Some((header, used)) => {
                let start = at + used;
                let count = header / 2;
                let next = if header % 2 == 1 {
                    if count < data.len() - start {
                        start + count
                    } else {
                        data.len() as int
                    }
                } else {
                    start + 1
                };
                if start >= data.len() {
                    true
                } else if count == 0 {
                    false
                } else if at < next <= data.len() {
                    runs_framed(data, next)
                } else {
                    false
                }
            },
        }
    }
}

/// Whether the bytes of levels can be handed to the decoder: their runs
/// are framed, and their bits can be counted.
pub open spec fn levels_readable(data: Seq<u8>) -> bool {
    runs_framed(data, 0) && data.len() * 8 <= usize::MAX
}

/// While bytes tell that another follows, the number takes them all.
proof fn lemma_varint_len(bytes: Seq<u8>, k: int)
    requires
        0 <= k <= bytes.len(),
        forall|i: int| 0 <= i < k ==> #[trigger] bytes[i] >= 128,
    ensures
        varint_len(bytes) == k + varint_len(bytes.skip(k)),
    decreases k,
{
    if k == 0 {
        assert(bytes.skip(0) =~= bytes);
    } else {
        let rest = bytes.drop_first();
        assert forall|i: int| 0 <= i < k - 1 implies #[trigger] rest[i] >= 128 by {
            assert(rest[i] == bytes[i + 1]);
        }
        lemma_varint_len(rest, k - 1);
        assert(rest.skip(k - 1) =~= bytes.skip(k));
    }
}

/// While bytes tell that another follows, the number is no less than what
/// follows them says.
proof fn lemma_varint_grows(bytes: Seq<u8>, k: int)
    requires
        0 <= k <= bytes.len(),
        forall|i: int| 0 <= i < k ==> #[trigger] bytes[i] >= 128,
    ensures
        varint_value(bytes) >= varint_value(bytes.skip(k)),
    decreases k,
{
    if k == 0 {
        assert(bytes.skip(0) =~= bytes);
    } else {
        let rest = bytes.drop_first();
        assert forall|i: int| 0 <= i < k - 1 implies #[trigger] rest[i] >= 128 by {
            assert(rest[i] == bytes[i + 1]);
        }
        lemma_varint_grows(rest, k - 1);
        assert(rest.skip(k - 1) =~= bytes.skip(k));
    }
}

/// The header of the run at `at` and the number of bytes that it takes.
fn read_header(data: &[u8], at: usize) -> (r: Option<(usize, usize)>)
    requires
        at < data@.len(),
    ensures
        match r {
            Some((header, used)) => run_header(data@.skip(at as int)) == Some(
                (header as nat, used as nat),
            ) && 1 <= used && at + used <= data@.len(),
            None => run_header(data@.skip(at as int)) is None,
        },
{
    let n = data.len();
    let ghost s = data@.skip(at as int);
    let mut used: usize = 0;
    let mut ended = false;
    while !ended && used < 9 && used < n - at
        invariant
            at < n,
            n == data@.len(),
            s == data@.skip(at as int),
            used <= 9,
            used <= n - at,
            !ended ==> forall|i: int| 0 <= i < used ==> #[trigger] s[i] >= 128,
            ended ==> used >= 1 && s[used - 1] < 128 && forall|i: int|
                0 <= i < used - 1 ==> #[trigger] s[i] >= 128,
        decreases 9 - used + if ended { 0int } else { 1int },
    {
        let b = data[at + used];
        assert(s[used as int] == b);
        used += 1;
        if b < 128 {
            ended = true;
        }
    }
    if !ended && used == 9 && used < n - at {
        let b = data[at + 9];
        assert(s[9] == b);
        if b > 1 {
            return None;
        }
        used = 10;
        ended = true;
    }
    proof {
        assert(!varint_breaks(s)) by {
            if s.len() >= 10 && s[9] > 1 {
                if used < 10 {
                    assert(s[used - 1] < 128);
                }
            }
        }
        if ended {
            lemma_varint_len(s, used - 1);
            assert(s.skip(used - 1)[0] == s[used - 1]);
        } else {
            lemma_varint_len(s, used as int);
            assert(s.skip(used as int).len() == 0);
        }
    }
    let last = data[at + used - 1];
    assert(s[used - 1] == last);
    let mut value: u64 = if last < 128 {
        last as u64
    } else {
        (last - 128) as u64
    };
    let mut j: usize = used - 1;
    proof {
        let tail = s.skip(j as int);
        assert(tail[0] == last);
        if last >= 128 {
            assert(tail.drop_first().len() == 0);
            assert(varint_value(tail.drop_first()) == 0);
            assert(varint_value(tail) == last - 128);
        } else {
            assert(varint_value(tail) == last);
        }
    }
    while j > 0
        invariant
            j < used <= 10,
            at + used <= n,
            n == data@.len(),
            s == data@.skip(at as int),
            forall|i: int| 0 <= i < used - 1 ==> #[trigger] s[i] >= 128,
            value == varint_value(s.skip(j as int)),
        decreases j,
    {
        let b = data[at + j - 1];
        proof {
            assert(s[j - 1] == b);
            let tail = s.skip(j - 1);
            assert(tail[0] == b);
            assert(tail.drop_first() =~= s.skip(j as int));
            lemma_varint_grows(s, j - 1);
        }
        let grown = match value.checked_mul(128) {
            Some(grown) => grown,
            None => {
                return None;
            },
        };
        value = match grown.checked_add((b - 128) as u64) {
            Some(value) => value,
            None => {
                return None;
            },
        };
        j -= 1;
    }
    proof {
        assert(s.skip(0) =~= s);
    }
    if value > usize::MAX as u64 {
        return None;
    }
    Some((value as usize, used))
}

/// Whether the runs of levels in `data` are framed.
fn are_runs_framed(data: &[u8]) -> (b: bool)
    ensures
        b == runs_framed(data@, 0),
{
    let n = data.len();
    let mut at: usize = 0;
    while at < n
        invariant
            at <= n,
            n == data@.len(),
            runs_framed(data@, 0) == runs_framed(data@, at as int),
        decreases n - at,
    {
        let (header, used) = match read_header(data, at) {
            Some(read) => read,
            None => {
                return false;
            },
        };
        let start = at + used;
        if start >= n {
            return true;
        }
        let count = header / 2;
        if count == 0 {
            return false;
        }
        at = if header % 2 == 1 {
            if count < n - start {
                start + count
            } else {
                n
            }
        } else {
            start + 1
        };
    }
    true
}

/// Whether the bytes of levels can be handed to the decoder.
pub fn are_levels_readable(data: &[u8]) -> (b: bool)
    ensures
        b == levels_readable(data@),
{
    data.len() <= usize::MAX / 8 && are_runs_framed(data)
}

/// What the hybrid run-length decoder of `parquet2` reads from `data` as
/// `num_values` levels of `num_bits` bits; `None` where it fails.
pub uninterp spec fn hybrid_rle_levels(data: Seq<u8>, num_bits: u32, num_values: nat) -> Option<
    Seq<u32>,
>;

/// `parquet2::encoding::hybrid_rle::HybridRleDecoder` with one bit for every
/// level: what it yields is a function of the bytes, the bits and the
/// number of levels, and where it does not fail it yields that number of
/// levels. Its reader of run headers gives up on a number that breaks, and
/// it goes one call deeper for every run without levels: the bytes must be
/// framed so that neither happens.
#[verifier::external_body]
fn decode_levels(data: &[u8], num_bits: u32, num_values: usize) -> (levels: Option<Vec<u32>>)
    requires
        num_bits == 1,
        levels_readable(data@),
    ensures
        (match levels {
            Some(v) => Some(v@),
            None => None,
        }) == hybrid_rle_levels(data@, num_bits, num_values as nat),
        levels matches Some(v) ==> v@.len() == num_values,
{
    parquet2::encoding::hybrid_rle::HybridRleDecoder::try_new(data, num_bits, num_values)
        .ok()?
        .collect::<Result<Vec<u32>, parquet2::error::Error>>()
        .ok()
}

/// Whether the intervals follow one another without overlap, none of them
/// empty, within `len` rows.
pub open spec fn ascending(rows: Seq<Interval>, len: nat) -> bool {
    forall|i: int|
        0 <= i < rows.len() ==> (#[trigger] rows[i]).length >= 1 && rows[i].start + rows[i].length
            <= len && (i > 0 ==> rows[i - 1].start + rows[i - 1].length <= rows[i].start)
}

/// The values of the rows of the intervals, one interval after the other.
pub open spec fn selected_of(values: Seq<bool>, rows: Seq<Interval>) -> Seq<bool>
    decreases rows.len(),
{
    if rows.len() == 0 {
        Seq::empty()
    } else {
        selected_of(values, rows.drop_last()) + values.subrange(
            rows.last().start as int,
            rows.last().start + rows.last().length,
        )
    }
}

/// `parquet2::deserialize::SliceFilteredIter` yields the items of the
/// intervals, one interval after the other. The intervals must follow one
/// another without overlap, none of them empty, within the items.
#[verifier::external_body]
fn select_rows(values: &Vec<bool>, rows: &Vec<Interval>) -> (selected: Vec<bool>)
    requires
        ascending(rows@, values@.len()),
    ensures
        selected@ == selected_of(values@, rows@),
{
    parquet2::deserialize::SliceFilteredIter::new(
        values.iter().copied(),
        rows.iter().map(|r| parquet2::indexes::Interval::new(r.start, r.length)).collect(),
    ).collect()
}

/// Which levels tell a valid row: those equal to one.
pub open spec fn level_bits(levels: Seq<u32>) -> Seq<bool> {
    Seq::new(levels.len(), |i: int| levels[i] == 1)
}

/// The number of `true` in `bits`.
pub open spec fn count_true(bits: Seq<bool>) -> nat
    decreases bits.len(),
{
    if bits.len() == 0 {
        0
    } else {
        count_true(bits.drop_first()) + if bits[0] {
            1nat
        } else {
            0nat
        }
    }
}

/// The values of all rows: every valid row takes the next of `bits`, every
/// null row is `false`.
pub open spec fn spread(validity: Seq<bool>, bits: Seq<bool>) -> Seq<bool>
    decreases validity.len(),
{
    if validity.len() == 0 {
        Seq::empty()
    } else if validity[0] {
        seq![bits[0]] + spread(validity.drop_first(), bits.drop_first())
    } else {
        seq![false] + spread(validity.drop_first(), bits)
    }
}

/// There is one value for every row.
pub proof fn lemma_spread_len(validity: Seq<bool>, bits: Seq<bool>)
    ensures
        spread(validity, bits).len() == validity.len(),
    decreases validity.len(),
{
    if validity.len() > 0 {
        if validity[0] {
            lemma_spread_len(validity.drop_first(), bits.drop_first());
        } else {
            lemma_spread_len(validity.drop_first(), bits);
        }
    }
}

/// There are as many selected values as the intervals have rows.
pub proof fn lemma_selected_same_len(a: Seq<bool>, b: Seq<bool>, rows: Seq<Interval>)
    requires
        a.len() == b.len(),
        ascending(rows, a.len()),
    ensures
        selected_of(a, rows).len() == selected_of(b, rows).len(),
    decreases rows.len(),
{
    if rows.len() > 0 {
        let init = rows.drop_last();
        assert forall|i: int| 0 <= i < init.len() implies (#[trigger] init[i]).length >= 1
            && init[i].start + init[i].length <= a.len() && (i > 0 ==> init[i - 1].start + init[i
            - 1].length <= init[i].start) by {
            assert(init[i] == rows[i]);
            if i > 0 {
                assert(init[i - 1] == rows[i - 1]);
            }
        }
        lemma_selected_same_len(a, b, init);
        assert(rows.last() == rows[rows.len() - 1]);
    }
}

/// The rows of a page that are still to be read: the value of every row,
/// and, for a page whose rows may be null, which rows are valid.
pub struct RowsView {
    pub values: Seq<bool>,
    pub validity: Option<Seq<bool>>,
}

impl RowsView {
    /// Whether there is one validity bit for every row.
    pub open spec fn wf(self) -> bool {
        self.validity matches Some(v) ==> v.len() == self.values.len()
    }

    /// The rows after the first `k`.
    pub open spec fn skip(self, k: int) -> Self {
        RowsView {
            values: self.values.skip(k),
            validity: match self.validity {
                Some(v) => Some(v.skip(k)),
                None => None,
            },
        }
    }
}

/// The values of a page of booleans: its bits, read one by one.
#[derive(Debug)]
pub struct Values {
    bytes: Vec<u8>,
    position: usize,
}

impl Values {
    /// The bits that are still to be read.
    pub closed spec fn remaining(&self) -> Seq<bool> {
        bits_of(self.bytes@, (8 * self.bytes@.len()) as nat).skip(self.position as int)
    }

    /// Whether the position is within the bits.
    pub closed spec fn wf(&self) -> bool {
        self.position <= 8 * self.bytes@.len() && 8 * self.bytes@.len() <= usize::MAX
    }

    /// The values of `page`, from their first bit on.
    pub fn new(page: &Page) -> (values: Self)
        requires
            8 * page.values@.len() <= usize::MAX,
        ensures
            values.wf(),
            values.remaining() == bits_of(page.values@, (8 * page.values@.len()) as nat),
    {
        let values = Values { bytes: page.values.clone(), position: 0 };
        assert(values.remaining() =~= bits_of(page.values@, (8 * page.values@.len()) as nat));
        values
    }

    /// The number of bits that are still to be read.
    pub fn len(&self) -> (n: usize)
        requires
            self.wf(),
        ensures
            n == self.remaining().len(),
    {
        self.bytes.len() * 8 - self.position
    }

    /// Reads the next bit.
    pub fn next(&mut self) -> (bit: Option<bool>)
        requires
            old(self).wf(),
        ensures
            final(self).wf(),
            old(self).remaining().len() == 0 ==> bit is None && final(self).remaining() == old(self).remaining(),
            old(self).remaining().len() > 0 ==> bit == Some(old(self).remaining()[0]) && final(self).remaining() == old(self).remaining().drop_first(),
    {
        if self.position >= self.bytes.len() * 8 {
            return None;
        }
        let byte = self.bytes[self.position / 8];
        let k = (self.position % 8) as u8;
        let bit = (byte >> k) & 1u8 == 1u8;
        self.position += 1;
        proof {
            assert(self.remaining() =~= old(self).remaining().drop_first());
        }
        Some(bit)
    }
}

/// What is left of a page of rows that are never null, read as it is.
#[derive(Debug)]
pub struct Required {
    values: Vec<u8>,
    // invariant: offset <= length
    offset: usize,
    length: usize,
}

impl Required {
    /// The rows that are still to be read.
    pub closed spec fn remaining(&self) -> Seq<bool> {
        bits_of(self.values@, self.length as nat).skip(self.offset as int)
    }

    /// Whether the offset is within the rows and the rows within the bits.
    pub closed spec fn wf(&self) -> bool {
        self.offset <= self.length && self.length <= 8 * self.values@.len()
    }

    /// The rows of `page`, from the first on.
    pub fn new(page: &Page) -> (state: Self)
        requires
            page.num_values <= 8 * page.buffer@.len(),
        ensures
            state.wf(),
            state.remaining() == bits_of(page.buffer@, page.num_values as nat),
    {
        let state = Self { values: page.buffer.clone(), offset: 0, length: page.num_values };
        assert(state.remaining() =~= bits_of(page.buffer@, page.num_values as nat));
        state
    }
}

/// What is left of the selected rows of a page of rows that are never
/// null.
#[derive(Debug)]
pub struct FilteredRequired {
    values: Vec<bool>,
    position: usize,
}

impl FilteredRequired {
    /// The rows that are still to be read.
    pub closed spec fn remaining(&self) -> Seq<bool> {
        self.values@.skip(self.position as int)
    }

    /// Whether the position is within the rows.
    pub closed spec fn wf(&self) -> bool {
        self.position <= self.values@.len()
    }

    /// The selected rows of `page`, from the first on.
    pub fn new(page: &Page) -> (state: Self)
        requires
            page.num_values <= 8 * page.buffer@.len(),
            page.selected_rows matches Some(rows) && ascending(rows@, page.num_values as nat),
        ensures
            state.wf(),
            state.remaining() == selected_of(
                bits_of(page.buffer@, page.num_values as nat),
                page.selected_rows->0@,
            ),
    {
        let mut bits = MutableBitmap::new();
        bits.extend_from_slice(page.buffer.as_slice(), 0, page.num_values);
        let mut all: Vec<bool> = Vec::new();
        let mut i: usize = 0;
        while i < page.num_values
            invariant
                i <= page.num_values,
                bits@.len() == page.num_values,
                all@ == bits@.take(i as int),
            decreases page.num_values - i,
        {
            all.push(bits.get(i));
            i += 1;
            assert(all@ =~= bits@.take(i as int));
        }
        proof {
            assert(bits@.take(page.num_values as int) =~= bits@);
            assert(bits@ =~= bits_of(page.buffer@, page.num_values as nat));
        }
        let values = match &page.selected_rows {
            Some(rows) => select_rows(&all, rows),
            None => vstd::pervasive::unreached(),
        };
        let state = Self { values, position: 0 };
        assert(state.remaining() =~= state.values@);
        state
    }

    /// The number of rows that are still to be read.
    pub fn len(&self) -> (n: usize)
        requires
            self.wf(),
        ensures
            n == self.remaining().len(),
    {
        self.values.len() - self.position
    }
}

/// What is left of a page of rows that may be null: the rows with their
/// values and their validity, decoded.
#[derive(Debug)]
pub struct OptionalRows {
    values: Vec<bool>,
    validity: Vec<bool>,
    position: usize,
}

impl OptionalRows {
    /// The values of the rows that are still to be read.
    pub closed spec fn values(&self) -> Seq<bool> {
        self.values@.skip(self.position as int)
    }

    /// Which of the rows that are still to be read are valid.
    pub closed spec fn validity(&self) -> Seq<bool> {
        self.validity@.skip(self.position as int)
    }

    /// Whether the position is within the rows and every row has its
    /// validity.
    pub closed spec fn wf(&self) -> bool {
        self.position <= self.values@.len() && self.values@.len() == self.validity@.len()
    }

    /// The number of rows that are still to be read.
    pub fn len(&self) -> (n: usize)
        requires
            self.wf(),
        ensures
            n == self.values().len(),
            n == self.validity().len(),
    {
        self.values.len() - self.position
    }
}

/// The state of a page of booleans that is being read.
#[derive(Debug)]
pub enum State {
    /// All rows of a page whose rows may be null.
    Optional(OptionalRows),
    /// All rows of a page whose rows are never null.
    Required(Required),
    /// The selected rows of a page whose rows are never null.
    FilteredRequired(FilteredRequired),
    /// The selected rows of a page whose rows may be null.
    FilteredOptional(OptionalRows),
}

impl State {
    /// Whether the state is consistent.
    pub open spec fn wf(&self) -> bool {
        match self {
            State::Optional(rows) => rows.wf(),
            State::Required(page) => page.wf(),
            State::FilteredRequired(page) => page.wf(),
            State::FilteredOptional(rows) => rows.wf(),
        }
    }

    /// The number of rows that are still to be read.
    pub fn len(&self) -> (n: usize)
        requires
            self.wf(),
        ensures
            n == state_rows(*self).values.len(),
            state_rows(*self).wf(),
    {
        match self {
            State::Optional(rows) => rows.len(),
            State::Required(page) => {
                assert(page.remaining().len() == page.length - page.offset);
                page.length - page.offset
            },
            State::FilteredRequired(page) => page.len(),
            State::FilteredOptional(rows) => rows.len(),
        }
    }
}

/// The rows that are still to be read in `state`.
pub open spec fn state_rows(state: State) -> RowsView {
    match state {
        State::Optional(rows) => RowsView {
            values: rows.values(),
            validity: Some(rows.validity()),
        },
        State::Required(page) => RowsView { values: page.remaining(), validity: None },
        State::FilteredRequired(page) => RowsView { values: page.remaining(), validity: None },
        State::FilteredOptional(rows) => RowsView {
            values: rows.values(),
            validity: Some(rows.validity()),
        },
    }
}

/// The rows of a page with plain values, given what its levels were decoded
/// to; `None` where the levels are missing, there are not as many of them as
/// rows, the page has too few bits for its rows, or the selected rows are
/// not intervals in order within the page.
pub open spec fn page_rows(
    is_optional: bool,
    num_values: nat,
    buffer: Seq<u8>,
    values: Seq<u8>,
    selected_rows: Option<Seq<Interval>>,
    levels: Option<Seq<u32>>,
) -> Option<RowsView> {
    if selected_rows matches Some(rows) && !ascending(rows, num_values) {
        None
    } else if is_optional {
        match levels {
            Some(levels) => {
                let validity = level_bits(levels);
                let bits = bits_of(values, (8 * values.len()) as nat);
                if levels.len() != num_values || count_true(validity) > bits.len() {
                    None
                } else {
                    let all = spread(validity, bits);
                    match selected_rows {
                        Some(rows) => Some(
                            RowsView {
                                values: selected_of(all, rows),
                                validity: Some(selected_of(validity, rows)),
                            },
                        ),
                        None => Some(RowsView { values: all, validity: Some(validity) }),
                    }
                }
            },
            None => None,
        }
    } else if num_values > 8 * buffer.len() {
        None
    } else {
        let bits = bits_of(buffer, num_values);
        match selected_rows {
            Some(rows) => Some(RowsView { values: selected_of(bits, rows), validity: None }),
            None => Some(RowsView { values: bits, validity: None }),
        }
    }
}

} // verus!

verus! {

/// What the valid rows take, whatever the bits are: more `true` cannot be
/// served than there are bits.
proof fn lemma_count_true_skip(bits: Seq<bool>, i: int)
    requires
        0 <= i < bits.len(),
    ensures
        count_true(bits.skip(i)) == count_true(bits.skip(i + 1)) + if bits[i] {
            1nat
        } else {
            0nat
        },
{
    assert(bits.skip(i).drop_first() =~= bits.skip(i + 1));
}

/// The values of all rows of a page whose rows may be null, or `None` where
/// the valid rows are more than the bits that are left.
fn spread_values(validity: &Vec<bool>, values: &mut Values) -> (all: Option<Vec<bool>>)
    requires
        old(values).wf(),
    ensures
        final(values).wf(),
        match all {
            Some(all) => all@ == spread(validity@, old(values).remaining()) && count_true(
                validity@,
            ) <= old(values).remaining().len(),
            None => count_true(validity@) > old(values).remaining().len(),
        },
{
    let ghost bits = values.remaining();
    let mut all: Vec<bool> = Vec::new();
    let mut i: usize = 0;
    let ghost mut taken: nat = 0;
    proof {
        assert(validity@.skip(0) =~= validity@);
        assert(bits.skip(0) =~= bits);
    }
    while i < validity.len()
        invariant
            i <= validity@.len(),
            values.wf(),
            bits == old(values).remaining(),
            taken <= bits.len(),
            values.remaining() == bits.skip(taken as int),
            count_true(validity@) == taken + count_true(validity@.skip(i as int)),
            all@ + spread(validity@.skip(i as int), bits.skip(taken as int)) == spread(
                validity@,
                bits,
            ),
        decreases validity@.len() - i,
    {
        proof {
            lemma_count_true_skip(validity@, i as int);
            assert(validity@.skip(i as int).drop_first() =~= validity@.skip(i + 1));
            assert(validity@.skip(i as int)[0] == validity@[i as int]);
        }
        let ghost before = all@;
        if validity[i] {
            match values.next() {
                Some(bit) => {
                    all.push(bit);
                    proof {
                        assert(bits.skip(taken as int).drop_first() =~= bits.skip(taken as int + 1));
                        assert(all@ + spread(
                            validity@.skip(i + 1),
                            bits.skip(taken as int + 1),
                        ) =~= before + spread(validity@.skip(i as int), bits.skip(taken as int)));
                        taken = taken + 1;
                    }
                },
                None => {
                    return None;
                },
            }
        } else {
            all.push(false);
            proof {
                assert(all@ + spread(validity@.skip(i + 1), bits.skip(taken as int)) =~= before
                    + spread(validity@.skip(i as int), bits.skip(taken as int)));
            }
        }
        i += 1;
    }
    proof {
        assert(validity@.skip(validity@.len() as int) =~= Seq::<bool>::empty());
        assert(all@ + Seq::<bool>::empty() =~= all@);
    }
    Some(all)
}

/// Whether the intervals follow one another without overlap, none of them
/// empty, within `len` rows.
fn are_ascending(rows: &Vec<Interval>, len: usize) -> (b: bool)
    ensures
        b == ascending(rows@, len as nat),
{
    let mut i: usize = 0;
    let mut end: usize = 0;
    while i < rows.len()
        invariant
            i <= rows@.len(),
            end <= len,
            i > 0 ==> end == rows@[i - 1].start + rows@[i - 1].length,
            ascending(rows@.take(i as int), len as nat),
        decreases rows@.len() - i,
    {
        let row = rows[i];
        if row.length < 1 || row.start > len || row.length > len - row.start || (i > 0 && row.start
            < end) {
            proof {
                if ascending(rows@, len as nat) {
                    assert(rows@[i as int].length >= 1);
                }
            }
            return false;
        }
        end = row.start + row.length;
        i += 1;
        proof {
            let now = rows@.take(i as int);
            assert forall|j: int| 0 <= j < now.len() implies (#[trigger] now[j]).length >= 1
                && now[j].start + now[j].length <= len && (j > 0 ==> now[j - 1].start + now[j
                - 1].length <= now[j].start) by {
                if j < i - 1 {
                    assert(rows@.take(i - 1)[j] == now[j]);
                    if j > 0 {
                        assert(rows@.take(i - 1)[j - 1] == now[j - 1]);
                    }
                }
            }
        }
    }
    proof {
        assert(rows@.take(rows@.len() as int) =~= rows@);
    }
    true
}

/// The decoder of pages of booleans.
#[derive(Debug, Default)]
pub struct BooleanDecoder {}

/// What a page was decoded to so far: the values of its rows, and for rows
/// that may be null their validity.
pub type Decoded = (MutableBitmap, MutableBitmap);

impl BooleanDecoder {
    /// The state of reading `page` from its first row on, given what its
    /// levels were decoded to. A page whose parts do not fit together is in
    /// no readable format.
    pub fn state_from_levels(&self, page: &Page, levels: Option<Vec<u32>>) -> (r: Result<
        State,
        ArrowError,
    >)
        requires
            page.encoding == Encoding::Plain,
        ensures
            match r {
                Ok(state) => state.wf() && page_rows(
                    page.is_optional,
                    page.num_values as nat,
                    page.buffer@,
                    page.values@,
                    selection(page.selected_rows),
                    match levels {
                        Some(levels) => Some(levels@),
                        None => None,
                    },
                ) == Some(state_rows(state)) && (state is Optional == (page.is_optional
                    && page.selected_rows is None)) && (state is Required == (!page.is_optional
                    && page.selected_rows is None)) && (state is FilteredOptional == (
                page.is_optional && page.selected_rows is Some)),
                Err(e) => e is ExternalFormat && (page_rows(
                    page.is_optional,
                    page.num_values as nat,
                    page.buffer@,
                    page.values@,
                    selection(page.selected_rows),
                    match levels {
                        Some(levels) => Some(levels@),
                        None => None,
                    },
                ) is None || 8 * page.values@.len() > usize::MAX),
            },
    {
        match &page.selected_rows {
            Some(rows) => {
                if !are_ascending(rows, page.num_values) {
                    return Err(
                        ArrowError::ExternalFormat(
                            "The selected rows are not intervals in order".to_string(),
                        ),
                    );
                }
            },
            None => {},
        }
        if page.is_optional {
            let levels = match levels {
                Some(levels) => levels,
                None => {
                    return Err(
                        ArrowError::ExternalFormat(
                            "The definition levels cannot be read".to_string(),
                        ),
                    );
                },
            };
            if levels.len() != page.num_values {
                return Err(
                    ArrowError::ExternalFormat(
                        "The definition levels are not as many as the rows".to_string(),
                    ),
                );
            }
            if page.values.len() > usize::MAX / 8 {
                return Err(ArrowError::ExternalFormat("The page is too large".to_string()));
            }
            let mut validity: Vec<bool> = Vec::new();
            let mut i: usize = 0;
            while i < levels.len()
                invariant
                    i <= levels@.len(),
                    validity@ == level_bits(levels@).take(i as int),
                decreases levels@.len() - i,
            {
                validity.push(levels[i] == 1);
                i += 1;
                assert(validity@ =~= level_bits(levels@).take(i as int));
            }
            proof {
                assert(level_bits(levels@).take(levels@.len() as int) =~= level_bits(levels@));
            }
            let mut values = Values::new(page);
            let all = match spread_values(&validity, &mut values) {
                Some(all) => all,
                None => {
                    return Err(
                        ArrowError::ExternalFormat(
                            "The page has fewer values than valid rows".to_string(),
                        ),
                    );
                },
            };
            proof {
                lemma_spread_len(
                    validity@,
                    bits_of(page.values@, (8 * page.values@.len()) as nat),
                );
            }
            match &page.selected_rows {
                Some(rows) => {
                    let selected = select_rows(&all, rows);
                    let selected_validity = select_rows(&validity, rows);
                    proof {
                        lemma_selected_same_len(all@, validity@, rows@);
                    }
                    let rows = OptionalRows {
                        values: selected,
                        validity: selected_validity,
                        position: 0,
                    };
                    assert(rows.values() =~= rows.values@);
                    assert(rows.validity() =~= rows.validity@);
                    Ok(State::FilteredOptional(rows))
                },
                None => {
                    let rows = OptionalRows { values: all, validity, position: 0 };
                    assert(rows.values() =~= rows.values@);
                    assert(rows.validity() =~= rows.validity@);
                    Ok(State::Optional(rows))
                },
            }
        } else {
            if page.buffer.len() <= usize::MAX / 8 && page.num_values > 8 * page.buffer.len() {
                return Err(
                    ArrowError::ExternalFormat("The page has fewer bits than rows".to_string()),
                );
            }
            match &page.selected_rows {
                Some(_) => Ok(State::FilteredRequired(FilteredRequired::new(page))),
                None => Ok(State::Required(Required::new(page))),
            }
        }
    }

    /// The state of reading `page` from its first row on. Only pages with
    /// plain values can be read. A page whose levels cannot be decoded, or
    /// whose parts do not fit together, is in no readable format.
    pub fn build_state(&self, page: &Page) -> (r: Result<State, ArrowError>)
        ensures
            match r {
                Ok(state) => state.wf() && page.encoding == Encoding::Plain && page_rows(
                    page.is_optional,
                    page.num_values as nat,
                    page.buffer@,
                    page.values@,
                    selection(page.selected_rows),
                    page_levels(page),
                ) == Some(state_rows(state)),
                Err(e) => if page.encoding == Encoding::Plain {
                    e is ExternalFormat && (page_rows(
                        page.is_optional,
                        page.num_values as nat,
                        page.buffer@,
                        page.values@,
                        selection(page.selected_rows),
                        page_levels(page),
                    ) is None || 8 * page.values@.len() > usize::MAX)
                } else {
                    e is NotYetImplemented
                },
            },
    {
        match page.encoding {
            Encoding::Plain => {},
            _ => {
                return Err(
                    ArrowError::NotYetImplemented(
                        "Decoding pages of booleans that are not plain".to_string(),
                    ),
                );
            },
        }
        let levels = if page.is_optional && are_levels_readable(page.def_levels.as_slice()) {
            decode_levels(page.def_levels.as_slice(), 1, page.num_values)
        } else {
            None
        };
        self.state_from_levels(page, levels)
    }

    /// Room for `capacity` rows.
    pub fn with_capacity(&self, capacity: usize) -> (decoded: Decoded)
        ensures
            decoded.0@.len() == 0,
            decoded.1@.len() == 0,
    {
        (MutableBitmap::with_capacity(capacity), MutableBitmap::with_capacity(capacity))
    }

    /// Moves the next rows of `state` to `decoded`: `remaining` of them, or
    /// all that are left if those are fewer. The values go to the first
    /// bitmap, and the validity, for rows that may be null, to the second.
    pub fn extend_from_state(&self, state: &mut State, decoded: &mut Decoded, remaining: usize)
        requires
            old(state).wf(),
            old(decoded).0@.len() + remaining <= usize::MAX || old(decoded).0@.len() + state_rows(
                *old(state),
            ).values.len() <= usize::MAX,
            old(decoded).1@.len() + remaining <= usize::MAX || old(decoded).1@.len() + state_rows(
                *old(state),
            ).values.len() <= usize::MAX,
        ensures
            final(state).wf(),
            ({
                let rows = state_rows(*old(state));
                let k = if remaining < rows.values.len() {
                    remaining as int
                } else {
                    rows.values.len() as int
                };
                &&& state_rows(*final(state)) == rows.skip(k)
                &&& final(decoded).0@ == old(decoded).0@ + rows.values.take(k)
                &&& final(decoded).1@ == old(decoded).1@ + (match rows.validity {
                    Some(v) => v.take(k),
                    None => Seq::empty(),
                })
            }),
    {
        let ghost rows = state_rows(*state);
        let available = state.len();
        let k = if remaining < available {
            remaining
        } else {
            available
        };
        match state {
            State::Optional(page) => {
                move_rows(page, decoded, k);
            },
            State::FilteredOptional(page) => {
                move_rows(page, decoded, k);
            },
            State::Required(page) => {
                let (values, validity) = decoded;
                values.extend_from_slice(page.values.as_slice(), page.offset, k);
                page.offset += k;
                proof {
                    let old_offset = page.offset - k;
                    assert(page.remaining() =~= rows.values.skip(k as int));
                    assert(Seq::new(
                        k as nat,
                        |i: int| bit_at(page.values@, old_offset + i),
                    ) =~= rows.values.take(k as int));
                    assert(validity@ + Seq::<bool>::empty() =~= validity@);
                }
            },
            State::FilteredRequired(page) => {
                let (values, validity) = decoded;
                let mut i: usize = 0;
                let ghost start = page.position;
                let ghost before = values@;
                let n = page.values.len();
                assert(before + rows.values.take(0) =~= before);
                while i < k
                    invariant
                        i <= k,
                        n == page.values@.len(),
                        k <= page.values@.len() - start,
                        page.position == start + i,
                        start + rows.values.len() == page.values@.len(),
                        page.values@.skip(start as int) == rows.values,
                        before.len() + k <= usize::MAX,
                        values@ == before + rows.values.take(i as int),
                    decreases k - i,
                {
                    values.push(page.values[page.position]);
                    page.position += 1;
                    i += 1;
                    assert(values@ =~= before + rows.values.take(i as int));
                }
                proof {
                    assert(page.remaining() =~= rows.values.skip(k as int));
                    assert(validity@ + Seq::<bool>::empty() =~= validity@);
                }
            },
        }
    }
}

/// Moves the next `k` rows of `page` to `decoded`.
fn move_rows(page: &mut OptionalRows, decoded: &mut Decoded, k: usize)
    requires
        old(page).wf(),
        k <= old(page).values().len(),
        old(decoded).0@.len() + k <= usize::MAX,
        old(decoded).1@.len() + k <= usize::MAX,
    ensures
        final(page).wf(),
        final(page).values() == old(page).values().skip(k as int),
        final(page).validity() == old(page).validity().skip(k as int),
        final(decoded).0@ == old(decoded).0@ + old(page).values().take(k as int),
        final(decoded).1@ == old(decoded).1@ + old(page).validity().take(k as int),
{
    let ghost rows = page.values();
    let ghost valid = page.validity();
    let ghost start = page.position;
    let (values, validity) = decoded;
    let ghost before = values@;
    let ghost before_validity = validity@;
    let n = page.values.len();
    let mut i: usize = 0;
    proof {
        assert(before + rows.take(0) =~= before);
        assert(before_validity + valid.take(0) =~= before_validity);
    }
    while i < k
        invariant
            i <= k,
            k <= rows.len(),
            n == page.values@.len(),
            page.position == start + i,
            page.values@.len() == page.validity@.len(),
            start + rows.len() == page.values@.len(),
            page.values@.skip(start as int) == rows,
            page.validity@.skip(start as int) == valid,
            rows.len() == valid.len(),
            before.len() + k <= usize::MAX,
            before_validity.len() + k <= usize::MAX,
            values@ == before + rows.take(i as int),
            validity@ == before_validity + valid.take(i as int),
        decreases k - i,
    {
        values.push(page.values[page.position]);
        validity.push(page.validity[page.position]);
        page.position += 1;
        i += 1;
        proof {
            assert(values@ =~= before + rows.take(i as int));
            assert(validity@ =~= before_validity + valid.take(i as int));
        }
    }
    proof {
        assert(page.values() =~= rows.skip(k as int));
        assert(page.validity() =~= valid.skip(k as int));
    }
}

/// The selected rows of a page, as a mathematical value.
pub open spec fn selection(rows: Option<Vec<Interval>>) -> Option<Seq<Interval>> {
    match rows {
        Some(rows) => Some(rows@),
        None => None,
    }
}

/// What the levels of `page` are decoded to, where its rows may be null
/// and the levels can be handed to the decoder.
pub open spec fn page_levels(page: &Page) -> Option<Seq<u32>> {
    if page.is_optional && levels_readable(page.def_levels@) {
        hybrid_rle_levels(page.def_levels@, 1, page.num_values as nat)
    } else {
        None
    }
}

/// The validity of an array of decoded rows: none where no row is null.
pub open spec fn array_validity(validity: Seq<bool>) -> Option<Seq<bool>> {
    if count_false(validity) == 0 {
        None
    } else {
        Some(validity)
    }
}

/// The array of booleans of the decoded rows. It has a validity only if
/// a row is null.
pub fn finish(data_type: &DataType, values: MutableBitmap, validity: MutableBitmap) -> (array:
    BooleanArray)
    requires
        count_false(validity@) == 0 || validity@.len() == values@.len(),
    ensures
        array@.values == values@,
        array@.validity == array_validity(validity@),
        array.logical_type() == data_type@,
{
    let validity = if validity.null_count() == 0 {
        None
    } else {
        Some(Bitmap::from_mutable(validity))
    };
    BooleanArray::new(data_type.clone(), Bitmap::from_mutable(values), validity)
}

/// A source of pages: the pages of a column, one after the other.
pub trait DataPages {
    /// The next page, `None` after the last one, or why it cannot be had.
    fn next_page(&mut self) -> Result<Option<Page>, ArrowError>;
}

/// What a step of reading gives.
#[derive(Debug)]
pub enum MaybeNext<P> {
    /// A chunk of rows, or a failure.
    Ready(P),
    /// There are no more rows.
    Done,
    /// More pages are needed for a chunk.
    More,
}

/// A chunk of decoded rows as a mathematical value: the values, and the
/// validity of rows that may be null.
pub type ChunkView = (Seq<bool>, Seq<bool>);

/// The views of decoded chunks, one by one.
pub open spec fn chunk_views(items: Seq<Decoded>) -> Seq<ChunkView> {
    Seq::new(items.len(), |i: int| (items[i].0@, items[i].1@))
}

/// Whether a chunk is within its size and has a validity for every row or
/// for none.
pub open spec fn chunk_wf(chunk: ChunkView, size: nat) -> bool {
    chunk.0.len() <= size && (chunk.1.len() == 0 || chunk.1.len() == chunk.0.len())
}

/// Whether rows can follow those of `chunk`: rows that may be null need a
/// validity for every row so far, rows that may not need none.
pub open spec fn fits(chunk: ChunkView, rows: RowsView) -> bool {
    match rows.validity {
        Some(_) => chunk.1.len() == chunk.0.len(),
        None => chunk.1.len() == 0,
    }
}

/// The chunk with the first `k` of `rows` after it.
pub open spec fn joined(chunk: ChunkView, rows: RowsView, k: int) -> ChunkView {
    (
        chunk.0 + rows.values.take(k),
        chunk.1 + (match rows.validity {
            Some(v) => v.take(k),
            None => Seq::empty(),
        }),
    )
}

/// The smaller of two numbers.
pub open spec fn least(a: int, b: int) -> int {
    if a < b {
        a
    } else {
        b
    }
}

/// `rows` in chunks of `size` rows; the last chunk may be shorter.
pub open spec fn split(rows: RowsView, size: nat) -> Seq<ChunkView>
    decreases rows.values.len(),
{
    if rows.values.len() == 0 || size == 0 {
        Seq::empty()
    } else {
        let k = least(size as int, rows.values.len() as int);
        seq![joined((Seq::empty(), Seq::empty()), rows, k)] + split(rows.skip(k), size)
    }
}

/// The chunks after the rows of a page were added: the last chunk is
/// filled up to `size` rows, and the rows that are left make chunks of
/// their own.
pub open spec fn chunked(items: Seq<ChunkView>, rows: RowsView, size: nat) -> Seq<ChunkView> {
    let last = if items.len() > 0 {
        items.last()
    } else {
        (Seq::empty(), Seq::empty())
    };
    let init = if items.len() > 0 {
        items.drop_last()
    } else {
        Seq::empty()
    };
    let k = least(size - last.0.len(), rows.values.len() as int);
    init.push(joined(last, rows, k)) + split(rows.skip(k), size)
}

/// Adds the rows of a new page to the chunks: fills the last chunk up to
/// `chunk_size` rows and makes chunks of what is left.
pub fn extend_from_new_page(
    mut page: State,
    chunk_size: usize,
    items: &mut VecDeque<Decoded>,
    decoder: &BooleanDecoder,
)
    requires
        page.wf(),
        chunk_size > 0,
        forall|i: int|
            0 <= i < old(items)@.len() ==> chunk_wf(
                #[trigger] chunk_views(old(items)@)[i],
                chunk_size as nat,
            ),
        old(items)@.len() > 0 ==> fits(chunk_views(old(items)@).last(), state_rows(page)),
    ensures
        chunk_views(final(items)@) == chunked(
            chunk_views(old(items)@),
            state_rows(page),
            chunk_size as nat,
        ),
        final(items)@.len() >= 1,
        forall|i: int|
            0 <= i < final(items)@.len() ==> chunk_wf(
                #[trigger] chunk_views(final(items)@)[i],
                chunk_size as nat,
            ),
        forall|i: int|
            old(items)@.len() > 1 && 0 <= i < old(items)@.len() - 1 ==> chunk_views(
                final(items)@,
            )[i] == chunk_views(old(items)@)[i],
{
    let ghost before = chunk_views(items@);
    let ghost rows = state_rows(page);
    let available = page.len();
    let capacity = if chunk_size < available {
        chunk_size
    } else {
        available
    };
    let ghost had = items@.len() > 0;
    let mut decoded = match items.pop_back() {
        Some(decoded) => decoded,
        None => decoder.with_capacity(capacity),
    };
    proof {
        if had {
            assert(chunk_views(old(items)@)[old(items)@.len() - 1] == (decoded.0@, decoded.1@));
        }
    }
    let ghost last = (decoded.0@, decoded.1@);
    let ghost init = chunk_views(items@);
    let remaining = chunk_size - decoded.0.len();
    decoder.extend_from_state(&mut page, &mut decoded, remaining);
    let ghost k = least(chunk_size - last.0.len(), rows.values.len() as int);
    items.push_back(decoded);
    proof {
        assert(init =~= (if had {
            before.drop_last()
        } else {
            Seq::empty()
        }));
        assert(chunk_views(items@) =~= init.push(joined(last, rows, k)));
        assert(split(rows.skip(k).skip(0), chunk_size as nat) == split(
            rows.skip(k),
            chunk_size as nat,
        )) by {
            assert(rows.skip(k).skip(0).values =~= rows.skip(k).values);
            if rows.validity is Some {
                assert(rows.skip(k).skip(0).validity->0 =~= rows.skip(k).validity->0);
            }
        }
    }
    let ghost rest = rows.skip(k);
    let ghost mut done: Seq<ChunkView> = Seq::empty();
    let ghost head = init.push(joined(last, rows, k));
    let ghost mut left = rest;
    proof {
        assert(head + done =~= head);
    }
    while page.len() > 0
        invariant
            page.wf(),
            chunk_size > 0,
            left == state_rows(page),
            left.wf(),
            chunk_views(items@) == head + done,
            done + split(left, chunk_size as nat) == split(rest, chunk_size as nat),
            forall|i: int|
                0 <= i < items@.len() ==> chunk_wf(
                    #[trigger] chunk_views(items@)[i],
                    chunk_size as nat,
                ),
        decreases state_rows(page).values.len(),
    {
        let mut decoded = decoder.with_capacity(capacity);
        let ghost old_items = chunk_views(items@);
        decoder.extend_from_state(&mut page, &mut decoded, chunk_size);
        let ghost j = least(chunk_size as int, left.values.len() as int);
        let ghost chunk = joined((Seq::empty(), Seq::empty()), left, j);
        proof {
            assert((decoded.0@, decoded.1@) =~= chunk) by {
                assert(Seq::<bool>::empty() + left.values.take(j) =~= decoded.0@);
            }
        }
        items.push_back(decoded);
        proof {
            assert(chunk_views(items@) =~= old_items.push(chunk));
            assert(head + done.push(chunk) =~= old_items.push(chunk));
            assert(done.push(chunk) + split(left.skip(j), chunk_size as nat) =~= done + split(
                left,
                chunk_size as nat,
            ));
            done = done.push(chunk);
            left = left.skip(j);
        }
    }
    proof {
        assert(split(left, chunk_size as nat) =~= Seq::<ChunkView>::empty());
        assert(done + Seq::<ChunkView>::empty() =~= done);
    }
}

/// Whether the step failed on a page that is in no readable format.
pub open spec fn refused(next: MaybeNext<Result<BooleanArray, ArrowError>>) -> bool {
    next matches MaybeNext::Ready(Err(e)) && e is ExternalFormat
}

/// What taking the rows of a page does when at most one chunk waits: the
/// rows are added to the chunks; then the first chunk is yielded, unless it
/// is the only one and not full. Rows that may be null cannot follow, in
/// one chunk, rows that may not, nor the other way round: they are refused
/// as of no readable format, and the chunks stay as they are.
pub open spec fn took_rows(
    chunks: Seq<ChunkView>,
    rows: RowsView,
    size: nat,
    data_type: DataTypeView,
    next: MaybeNext<Result<BooleanArray, ArrowError>>,
    after: Seq<ChunkView>,
) -> bool {
    if chunks.len() > 0 && !fits(chunks.last(), rows) {
        refused(next) && after == chunks
    } else {
        let all = chunked(chunks, rows, size);
        if all.len() == 1 && all[0].0.len() < size {
            next is More && after == all
        } else {
            next matches MaybeNext::Ready(Ok(array)) && array@.values == all[0].0
                && array@.validity == array_validity(all[0].1) && array.logical_type()
                == data_type && after == all.skip(1)
        }
    }
}

/// An adapter over pages of booleans that yields arrays of `chunk_size`
/// rows, the last of which may be shorter.
#[derive(Debug)]
pub struct Iter<I: DataPages> {
    iter: I,
    data_type: DataType,
    items: VecDeque<Decoded>,
    chunk_size: usize,
}

impl<I: DataPages> Iter<I> {
    /// The chunks that wait to be yielded.
    pub closed spec fn chunks(&self) -> Seq<ChunkView> {
        chunk_views(self.items@)
    }

    /// The number of rows of a chunk.
    pub closed spec fn size(&self) -> nat {
        self.chunk_size as nat
    }

    /// The logical type of the arrays.
    pub closed spec fn logical_type(&self) -> DataTypeView {
        self.data_type@
    }

    /// Whether the chunks are within their size.
    pub open spec fn wf(&self) -> bool {
        self.size() > 0 && forall|i: int|
            0 <= i < self.chunks().len() ==> chunk_wf(#[trigger] self.chunks()[i], self.size())
    }

    /// An adapter over `iter` that yields arrays of the type `data_type`
    /// with `chunk_size` rows.
    pub fn new(iter: I, data_type: DataType, chunk_size: usize) -> (adapter: Self)
        requires
            chunk_size > 0,
        ensures
            adapter.wf(),
            adapter.chunks().len() == 0,
            adapter.size() == chunk_size,
            adapter.logical_type() == data_type@,
    {
        Self { iter, data_type, items: VecDeque::new(), chunk_size }
    }

    /// Yields the first chunk that waits.
    fn pop(&mut self) -> (array: BooleanArray)
        requires
            old(self).wf(),
            old(self).chunks().len() > 0,
        ensures
            final(self).wf(),
            final(self).size() == old(self).size(),
            final(self).logical_type() == old(self).logical_type(),
            final(self).chunks() == old(self).chunks().skip(1),
            array@.values == old(self).chunks()[0].0,
            array@.validity == array_validity(old(self).chunks()[0].1),
            array.logical_type() == old(self).logical_type(),
    {
        let ghost before = self.chunks();
        let (values, validity) = match self.items.pop_front() {
            Some(decoded) => decoded,
            None => vstd::pervasive::unreached(),
        };
        proof {
            assert(before[0] == (values@, validity@));
            assert(self.chunks() =~= before.skip(1));
            assert forall|i: int| 0 <= i < self.chunks().len() implies chunk_wf(
                #[trigger] self.chunks()[i],
                self.size(),
            ) by {
                assert(self.chunks()[i] == before[i + 1]);
            }
            assert(count_false(Seq::<bool>::empty()) == 0);
        }
        finish(&self.data_type, values, validity)
    }

    /// Takes the state of a new page, or why there is none, when at most
    /// one chunk waits. The rows of the page are added to the chunks; then
    /// the first chunk is yielded, unless it is the only one and not full.
    /// Rows that may be null cannot follow, in one chunk, rows that may
    /// not, nor the other way round: such a page is in no readable format.
    pub fn on_state(&mut self, built: Result<State, ArrowError>) -> (next: MaybeNext<
        Result<BooleanArray, ArrowError>,
    >)
        requires
            old(self).wf(),
            old(self).chunks().len() <= 1,
            built matches Ok(state) ==> state.wf(),
        ensures
            final(self).wf(),
            final(self).size() == old(self).size(),
            final(self).logical_type() == old(self).logical_type(),
            match built {
                Err(e) => next == MaybeNext::<Result<BooleanArray, ArrowError>>::Ready(Err(e))
                    && final(self).chunks() == old(self).chunks(),
                Ok(state) => took_rows(
                    old(self).chunks(),
                    state_rows(state),
                    old(self).size(),
                    old(self).logical_type(),
                    next,
                    final(self).chunks(),
                ),
            },
    {
        let state = match built {
            Ok(state) => state,
            Err(e) => {
                return MaybeNext::Ready(Err(e));
            },
        };
        if self.items.len() > 0 {
            let last = &self.items[self.items.len() - 1];
            proof {
                assert(self.chunks()[self.chunks().len() - 1] == (last.0@, last.1@));
            }
            let has_validity = match &state {
                State::Optional(_) => true,
                State::FilteredOptional(_) => true,
                _ => false,
            };
            let fits = if has_validity {
                last.1.len() == last.0.len()
            } else {
                last.1.len() == 0
            };
            if !fits {
                return MaybeNext::Ready(
                    Err(
                        ArrowError::ExternalFormat(
                            "The pages of a column are either all of rows that may be null or all of rows that may not".to_string(),
                        ),
                    ),
                );
            }
        }
        let decoder = BooleanDecoder {  };
        extend_from_new_page(state, self.chunk_size, &mut self.items, &decoder);
        let first = &self.items[0];
        proof {
            assert(self.chunks()[0] == (first.0@, first.1@));
        }
        if self.items.len() == 1 && first.0.len() < self.chunk_size {
            MaybeNext::More
        } else {
            MaybeNext::Ready(Ok(self.pop()))
        }
    }

    /// Takes what the source of pages gave when at most one chunk waits.
    /// A failure is handed on. A page is read and its rows are added to the
    /// chunks. At the end of the pages the chunk that waits is yielded,
    /// full or not.
    pub fn on_pulled(&mut self, pulled: Result<Option<Page>, ArrowError>) -> (next: MaybeNext<
        Result<BooleanArray, ArrowError>,
    >)
        requires
            old(self).wf(),
            old(self).chunks().len() <= 1,
        ensures
            final(self).wf(),
            final(self).size() == old(self).size(),
            final(self).logical_type() == old(self).logical_type(),
            match pulled {
                Err(e) => next == MaybeNext::<Result<BooleanArray, ArrowError>>::Ready(Err(e))
                    && final(self).chunks() == old(self).chunks(),
                Ok(None) => if old(self).chunks().len() > 0 {
                    next matches MaybeNext::Ready(Ok(array)) && array@.values == old(self).chunks()[0].0 && array@.validity == array_validity(old(self).chunks()[0].1)
                        && array.logical_type() == old(self).logical_type() && final(self).chunks().len() == 0
                } else {
                    next is Done && final(self).chunks().len() == 0
                },
                Ok(Some(page)) => if page.encoding != Encoding::Plain {
                    next matches MaybeNext::Ready(Err(e)) && e is NotYetImplemented && final(self).chunks() == old(self).chunks()
                } else {
                    match page_rows(
                        page.is_optional,
                        page.num_values as nat,
                        page.buffer@,
                        page.values@,
                        selection(page.selected_rows),
                        page_levels(&page),
                    ) {
                        Some(rows) => took_rows(
                            old(self).chunks(),
                            rows,
                            old(self).size(),
                            old(self).logical_type(),
                            next,
                            final(self).chunks(),
                        ) || (8 * page.values@.len() > usize::MAX && refused(next) && final(self).chunks() == old(self).chunks()),
                        None => refused(next) && final(self).chunks() == old(self).chunks(),
                    }
                },
            },
    {
        match pulled {
            Err(e) => MaybeNext::Ready(Err(e)),
            Ok(Some(page)) => {
                let decoder = BooleanDecoder {  };
                let built = decoder.build_state(&page);
                self.on_state(built)
            },
            Ok(None) => {
                if self.items.len() > 0 {
                    MaybeNext::Ready(Ok(self.pop()))
                } else {
                    MaybeNext::Done
                }
            },
        }
    }

    /// One step of reading: yields a chunk that waits behind which another
    /// waits; else pulls the source of pages once and takes what it gave.
    pub fn poll(&mut self) -> (next: MaybeNext<Result<BooleanArray, ArrowError>>)
        requires
            old(self).wf(),
        ensures
            final(self).wf(),
            final(self).size() == old(self).size(),
            final(self).logical_type() == old(self).logical_type(),
            old(self).chunks().len() > 1 ==> (next matches MaybeNext::Ready(Ok(array))
                && array@.values == old(self).chunks()[0].0 && array@.validity == array_validity(
                old(self).chunks()[0].1,
            ) && final(self).chunks() == old(self).chunks().skip(1)),
            next is Done ==> final(self).chunks().len() == 0,
    {
        if self.items.len() > 1 {
            return MaybeNext::Ready(Ok(self.pop()));
        }
        let pulled = self.iter.next_page();
        self.on_pulled(pulled)
    }
}

} // verus!
