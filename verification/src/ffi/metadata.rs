//! Metadata as a block of bytes: a 32-bit count, then for every entry the
//! 32-bit length of the key, the key, the 32-bit length of the value, the
//! value. Numbers are written in the byte order of the machine.
use vstd::prelude::*;
use vstd::slice::slice_subrange;
use vstd::utf8::{decode_utf8, encode_utf8, valid_utf8};

use crate::datatypes::{entries_view, opt_text, upsert, Extension, Metadata};
use crate::error::ArrowError;
use crate::text::{chars_are, chars_of};

verus! {

/// `simdutf8`'s error carries no information.
#[verifier::external_type_specification]
#[verifier::external_body]
pub struct ExUtf8Error(simdutf8::basic::Utf8Error);

/// `simdutf8::basic::from_utf8` accepts exactly the byte sequences that are
/// valid UTF-8, and hands them back as the text that they encode.
pub assume_specification[ simdutf8::basic::from_utf8 ](input: &[u8]) -> (r: Result<
    &str,
    simdutf8::basic::Utf8Error,
>)
    ensures
        r is Ok <==> valid_utf8(input@),
        r matches Ok(s) ==> s@ == decode_utf8(input@),
;

/// `u16::from_ne_bytes` reads two bytes in the byte order of the machine:
/// the low byte is the first or the second.
#[verifier::external_body]
fn u16_from_ne_bytes(bytes: [u8; 2]) -> (r: u16)
    ensures
        r == bytes[0] + 256 * bytes[1] || r == 256 * bytes[0] + bytes[1],
{
    u16::from_ne_bytes(bytes)
}

/// Whether this machine stores the low byte of a number first. Nothing is
/// known of the answer before the program runs: who needs one byte order
/// for several operations asks once and hands the answer to the operations
/// that take it.
pub fn native_little_endian() -> bool {
    u16_from_ne_bytes([1, 0]) == 1
}

/// The key under which the name of an extension type travels.
pub open spec fn extension_name_key() -> Seq<char> {
    "ARROW:extension:name"@
}

/// The key under which the metadata of an extension type travel.
pub open spec fn extension_metadata_key() -> Seq<char> {
    "ARROW:extension:metadata"@
}

/// The four bytes of `x`, low byte first if `little`.
#[verifier::opaque]
pub open spec fn number_bytes(x: int, little: bool) -> Seq<u8> {
    let b0 = (x % 256) as u8;
    let b1 = (x / 256 % 256) as u8;
    let b2 = (x / 65536 % 256) as u8;
    let b3 = (x / 16777216 % 256) as u8;
    if little {
        seq![b0, b1, b2, b3]
    } else {
        seq![b3, b2, b1, b0]
    }
}

/// The number that the first four bytes of `bytes` hold, low byte first if
/// `little`.
#[verifier::opaque]
pub open spec fn number_at(bytes: Seq<u8>, little: bool) -> int {
    if little {
        bytes[0] + 256 * bytes[1] + 65536 * bytes[2] + 16777216 * bytes[3]
    } else {
        bytes[3] + 256 * bytes[2] + 65536 * bytes[1] + 16777216 * bytes[0]
    }
}

/// A text as bytes: the length of its UTF-8 encoding, then the encoding.
pub open spec fn text_bytes(s: Seq<char>, little: bool) -> Seq<u8> {
    number_bytes(encode_utf8(s).len() as int, little) + encode_utf8(s)
}

/// Entries as bytes, one after the other.
pub open spec fn entries_bytes(entries: Seq<(Seq<char>, Seq<char>)>, little: bool) -> Seq<u8>
    decreases entries.len(),
{
    if entries.len() == 0 {
        Seq::empty()
    } else {
        text_bytes(entries[0].0, little) + text_bytes(entries[0].1, little) + entries_bytes(
            entries.drop_first(),
            little,
        )
    }
}

/// Metadata as a block of bytes.
pub open spec fn metadata_bytes(entries: Seq<(Seq<char>, Seq<char>)>, little: bool) -> Seq<u8> {
    number_bytes(entries.len() as int, little) + entries_bytes(entries, little)
}

/// Whether the count and every length of the entries fit in 31 bits.
pub open spec fn fits_block(entries: Seq<(Seq<char>, Seq<char>)>) -> bool {
    &&& entries.len() <= i32::MAX
    &&& forall|i: int|
        0 <= i < entries.len() ==> encode_utf8((#[trigger] entries[i]).0).len() <= i32::MAX
            && encode_utf8(entries[i].1).len() <= i32::MAX
}

/// The entries of `metadata` under keys that an extension type does not
/// bind itself: the key of its name is left out, and the key of its
/// metadata where it has some.
pub open spec fn unbound_entries(metadata: Seq<(Seq<char>, Seq<char>)>, has_extra: bool) -> Seq<
    (Seq<char>, Seq<char>),
>
    decreases metadata.len(),
{
    if metadata.len() == 0 {
        Seq::empty()
    } else {
        let rest = unbound_entries(metadata.drop_last(), has_extra);
        let e = metadata.last();
        if e.0 == extension_name_key() || (has_extra && e.0 == extension_metadata_key()) {
            rest
        } else {
            rest.push(e)
        }
    }
}

/// The entries that travel with a field of an extension type: the name of
/// the extension and its metadata under the reserved keys, ahead of the
/// metadata of the field.
pub open spec fn extension_entries(
    name: Seq<char>,
    extra: Option<Seq<char>>,
    metadata: Seq<(Seq<char>, Seq<char>)>,
) -> Seq<(Seq<char>, Seq<char>)> {
    seq![(extension_name_key(), name)] + (match extra {
        Some(extra) => seq![(extension_metadata_key(), extra)],
        None => Seq::empty(),
    }) + unbound_entries(metadata, extra is Some)
}

/// The text at the start of `rest` and the number of bytes it takes; `None`
/// where the length is negative or passes the end, or the bytes are not
/// UTF-8.
pub open spec fn parse_text(rest: Seq<u8>, little: bool) -> Option<(Seq<char>, int)> {
    if rest.len() < 4 {
        None
    } else {
        let len = number_at(rest, little);
        if len > i32::MAX || 4 + len > rest.len() {
            None
        } else if !valid_utf8(rest.subrange(4, 4 + len)) {
            None
        } else {
            Some((decode_utf8(rest.subrange(4, 4 + len)), 4 + len))
        }
    }
}

/// The first `n` entries of `rest`, or `None` where one of them cannot be
/// read.
pub open spec fn parse_entries(rest: Seq<u8>, n: nat, little: bool) -> Option<
    Seq<(Seq<char>, Seq<char>)>,
>
    decreases n,
{
    if n == 0 {
        Some(Seq::empty())
    } else {
        match parse_text(rest, little) {
            None => None,
            Some((key, used)) => match parse_text(rest.skip(used), little) {
                None => None,
                Some((value, more)) => match parse_entries(
                    rest.skip(used).skip(more),
                    (n - 1) as nat,
                    little,
                ) {
                    None => None,
                    Some(tail) => Some(seq![(key, value)] + tail),
                },
            },
        }
    }
}

/// The entries of a block in the order in which they are written. A count
/// below zero stands for no entry.
pub open spec fn parse_block(bytes: Seq<u8>, little: bool) -> Option<Seq<(Seq<char>, Seq<char>)>> {
    if bytes.len() < 4 {
        None
    } else {
        let count = number_at(bytes, little);
        if count > i32::MAX {
            Some(Seq::empty())
        } else {
            parse_entries(bytes.skip(4), count as nat, little)
        }
    }
}

/// What a block of metadata says: the plain entries in the order of their
/// keys, and the name and the metadata of an extension type.
pub struct Collected {
    pub metadata: Seq<(Seq<char>, Seq<char>)>,
    pub name: Option<Seq<char>>,
    pub extra: Option<Seq<char>>,
}

impl Collected {
    /// The extension that the reserved keys describe: there is one where
    /// the name is given.
    pub open spec fn extension(self) -> Option<(Seq<char>, Option<Seq<char>>)> {
        match self.name {
            Some(name) => Some((name, self.extra)),
            None => None,
        }
    }
}

/// Sorts written entries into plain metadata and the two reserved keys.
/// Of two entries with one key the later one counts.
pub open spec fn collect(entries: Seq<(Seq<char>, Seq<char>)>) -> Collected
    decreases entries.len(),
{
    if entries.len() == 0 {
        Collected { metadata: Seq::empty(), name: None, extra: None }
    } else {
        let c = collect(entries.drop_last());
        let (key, value) = entries.last();
        if key == extension_name_key() {
            Collected { name: Some(value), ..c }
        } else if key == extension_metadata_key() {
            Collected { extra: Some(value), ..c }
        } else {
            Collected { metadata: upsert(c.metadata, key, value), ..c }
        }
    }
}

/// What an optional block of metadata says; `None` where the block cannot
/// be read. Without a block there are no metadata and no extension.
pub open spec fn import_metadata(block: Option<Seq<u8>>, little: bool) -> Option<Collected> {
    match block {
        None => Some(Collected { metadata: Seq::empty(), name: None, extra: None }),
        Some(bytes) => match parse_block(bytes, little) {
            Some(entries) => Some(collect(entries)),
            None => None,
        },
    }
}

/// The view of an optional extension.
pub open spec fn extension_view(e: Extension) -> Option<(Seq<char>, Option<Seq<char>>)> {
    match e {
        Some((name, extra)) => Some((name@, opt_text(extra))),
        None => None,
    }
}

/// Reading the four bytes of a number below 2^32 gives the number.
pub proof fn lemma_number_round_trip(x: int, little: bool)
    requires
        0 <= x < 0x1_0000_0000,
    ensures
        number_bytes(x, little).len() == 4,
        number_at(number_bytes(x, little), little) == x,
{
    reveal(number_bytes);
    reveal(number_at);
    let y = x as u32;
    assert(y % 256 + 256 * (y / 256 % 256) + 65536 * (y / 65536 % 256) + 16777216 * (y / 16777216
        % 256) == y) by (bit_vector);
    assert(y % 256 < 256 && y / 256 % 256 < 256 && y / 65536 % 256 < 256 && y / 16777216 % 256
        < 256) by (bit_vector);
    assert(x % 256 == y % 256);
    assert(x / 256 % 256 == y / 256 % 256);
    assert(x / 65536 % 256 == y / 65536 % 256);
    assert(x / 16777216 % 256 == y / 16777216 % 256);
}

/// The number at the start of bytes depends on the first four only.
pub proof fn lemma_number_at_prefix(a: Seq<u8>, b: Seq<u8>, little: bool)
    requires
        a.len() >= 4,
    ensures
        number_at(a + b, little) == number_at(a, little),
{
    reveal(number_at);
}

/// Appends the four bytes of `x`.
fn push_number(out: &mut Vec<u8>, x: u32, little: bool)
    ensures
        final(out)@ == old(out)@ + number_bytes(x as int, little),
{
    let b0 = (x % 256) as u8;
    let b1 = (x / 256 % 256) as u8;
    let b2 = (x / 65536 % 256) as u8;
    let b3 = (x / 16777216 % 256) as u8;
    if little {
        out.push(b0);
        out.push(b1);
        out.push(b2);
        out.push(b3);
    } else {
        out.push(b3);
        out.push(b2);
        out.push(b1);
        out.push(b0);
    }
    assert(out@ =~= old(out)@ + number_bytes(x as int, little)) by {
        reveal(number_bytes);
    }
}

/// Appends the length of `s` in bytes and then its bytes.
fn push_text(out: &mut Vec<u8>, s: &str, little: bool)
    requires
        encode_utf8(s@).len() <= i32::MAX,
    ensures
        final(out)@ == old(out)@ + text_bytes(s@, little),
{
    let bytes = s.as_bytes();
    push_number(out, bytes.len() as u32, little);
    out.extend_from_slice(bytes);
    assert(out@ =~= old(out)@ + text_bytes(s@, little));
}

/// Writes entries as a block of bytes, in their order, numbers low byte
/// first if `little`.
pub fn entries_to_bytes(entries: &Vec<(String, String)>, little: bool) -> (bytes: Vec<u8>)
    requires
        fits_block(entries_view(entries@)),
    ensures
        bytes@ == metadata_bytes(entries_view(entries@), little),
{
    let ghost all = entries_view(entries@);
    let mut out: Vec<u8> = Vec::new();
    let n = entries.len();
    push_number(&mut out, n as u32, little);
    let ghost head = out@;
    let mut i: usize = 0;
    proof {
        assert(all.skip(0) =~= all);
    }
    while i < n
        invariant
            i <= n,
            n == entries@.len(),
            all == entries_view(entries@),
            fits_block(all),
            out@ + entries_bytes(all.skip(i as int), little) == head + entries_bytes(all, little),
        decreases n - i,
    {
        let ghost before = out@;
        proof {
            let rest = all.skip(i as int);
            assert(rest[0] == all[i as int]);
            assert(rest.drop_first() =~= all.skip(i + 1));
        }
        push_text(&mut out, entries[i].0.as_str(), little);
        push_text(&mut out, entries[i].1.as_str(), little);
        proof {
            let rest = all.skip(i as int);
            assert(out@ + entries_bytes(all.skip(i + 1), little) =~= before + entries_bytes(
                rest,
                little,
            ));
        }
        i += 1;
    }
    proof {
        assert(entries_bytes(all.skip(n as int), little) =~= Seq::<u8>::empty());
        assert(out@ =~= head + entries_bytes(all, little));
    }
    out
}

/// Whether the count and every length of the entries fit in 31 bits.
pub fn entries_fit(entries: &Vec<(String, String)>) -> (b: bool)
    ensures
        b == fits_block(entries_view(entries@)),
{
    let ghost all = entries_view(entries@);
    let n = entries.len();
    if n > 0x7fff_ffff {
        return false;
    }
    let mut i: usize = 0;
    while i < n
        invariant
            i <= n,
            n == entries@.len(),
            all == entries_view(entries@),
            forall|j: int|
                0 <= j < i ==> encode_utf8((#[trigger] all[j]).0).len() <= i32::MAX && encode_utf8(
                    all[j].1,
                ).len() <= i32::MAX,
        decreases n - i,
    {
        if entries[i].0.as_str().as_bytes().len() > 0x7fff_ffff
            || entries[i].1.as_str().as_bytes().len() > 0x7fff_ffff {
            assert(!fits_block(all)) by {
                let e = all[i as int];
            }
            return false;
        }
        i += 1;
    }
    true
}

/// The entries that travel with a field of an extension type, as
/// [`extension_entries`] orders them.
pub fn extension_entries_of(name: &str, extra: Option<&str>, metadata: &Metadata) -> (entries: Vec<
    (String, String),
>)
    ensures
        entries_view(entries@) == extension_entries(
            name@,
            match extra {
                Some(e) => Some(e@),
                None => None,
            },
            metadata@,
        ),
{
    let has_extra = extra.is_some();
    let mut entries: Vec<(String, String)> = Vec::new();
    entries.push(("ARROW:extension:name".to_string(), name.to_string()));
    match extra {
        Some(e) => {
            entries.push(("ARROW:extension:metadata".to_string(), e.to_string()));
        },
        None => {},
    }
    let ghost bound = entries_view(entries@);
    let n = metadata.len();
    let mut i: usize = 0;
    proof {
        assert(metadata@.take(0) =~= Seq::<(Seq<char>, Seq<char>)>::empty());
        assert(bound + unbound_entries(metadata@.take(0), has_extra) =~= bound);
    }
    while i < n
        invariant
            i <= n,
            n == metadata@.len(),
            entries_view(entries@) == bound + unbound_entries(metadata@.take(i as int), has_extra),
        decreases n - i,
    {
        let ghost before = entries_view(entries@);
        proof {
            assert(metadata@.take(i + 1).drop_last() =~= metadata@.take(i as int));
            assert(metadata@.take(i + 1).last() == metadata@[i as int]);
        }
        let k = chars_of(metadata.key(i));
        if chars_are(k.as_slice(), "ARROW:extension:name") || (has_extra && chars_are(
            k.as_slice(),
            "ARROW:extension:metadata",
        )) {
        } else {
            entries.push((metadata.key(i).to_string(), metadata.value(i).to_string()));
            proof {
                assert(entries_view(entries@) =~= before.push(metadata@[i as int]));
                assert(bound + unbound_entries(metadata@.take(i as int), has_extra).push(
                    metadata@[i as int],
                ) =~= before.push(metadata@[i as int]));
            }
        }
        i += 1;
    }
    proof {
        assert(metadata@.take(n as int) =~= metadata@);
    }
    entries
}

/// Writes `metadata` as a block of bytes, numbers low byte first if
/// `little`.
pub fn metadata_to_bytes_in(metadata: &Metadata, little: bool) -> (bytes: Vec<u8>)
    requires
        fits_block(metadata@),
    ensures
        bytes@ == metadata_bytes(metadata@, little),
{
    entries_to_bytes(metadata.entries(), little)
}

/// Writes `metadata` as a block of bytes, numbers in the byte order of the
/// machine.
pub fn metadata_to_bytes(metadata: &Metadata) -> (bytes: Vec<u8>)
    requires
        fits_block(metadata@),
    ensures
        bytes@ == metadata_bytes(metadata@, true) || bytes@ == metadata_bytes(metadata@, false),
{
    metadata_to_bytes_in(metadata, native_little_endian())
}

/// The number that the four bytes from `at` on stand for.
fn read_number(bytes: &[u8], at: usize, little: bool) -> (x: u32)
    requires
        at + 4 <= bytes.len(),
    ensures
        x == number_at(bytes@.skip(at as int), little),
{
    let b0 = bytes[at] as u32;
    let b1 = bytes[at + 1] as u32;
    let b2 = bytes[at + 2] as u32;
    let b3 = bytes[at + 3] as u32;
    proof {
        reveal(number_at);
    }
    if little {
        b0 + 256 * b1 + 65536 * b2 + 16777216 * b3
    } else {
        b3 + 256 * b2 + 65536 * b1 + 16777216 * b0
    }
}

/// Reads the text that starts at `at`, and returns it with the place after
/// it.
fn read_text(bytes: &[u8], at: usize, little: bool) -> (r: Option<(String, usize)>)
    requires
        at <= bytes.len(),
    ensures
        match r {
            Some((text, next)) => parse_text(bytes@.skip(at as int), little) == Some(
                (text@, next - at),
            ) && at <= next <= bytes.len(),
            None => parse_text(bytes@.skip(at as int), little) is None,
        },
{
    if bytes.len() - at < 4 {
        return None;
    }
    let len = read_number(bytes, at, little);
    if len > 0x7fff_ffff {
        return None;
    }
    let len = len as usize;
    if len > bytes.len() - at - 4 {
        return None;
    }
    let part = slice_subrange(bytes, at + 4, at + 4 + len);
    proof {
        assert(part@ =~= bytes@.skip(at as int).subrange(4, 4 + len));
    }
    match simdutf8::basic::from_utf8(part) {
        Ok(s) => Some((s.to_string(), at + 4 + len)),
        Err(_) => None,
    }
}

/// Reads an optional block of metadata, numbers low byte first if `little`:
/// the plain entries, and the extension that the reserved keys describe.
/// A block that cannot be read is out of specification.
pub fn metadata_from_bytes_in(data: Option<&[u8]>, little: bool) -> (r: Result<
    (Metadata, Extension),
    ArrowError,
>)
    ensures
        is_read_of(r, data, little),
{
    let bytes = match data {
        Some(bytes) => bytes,
        None => {
            return Ok((Metadata::new(), None));
        },
    };
    if bytes.len() < 4 {
        return Err(ArrowError::OutOfSpec("The metadata are shorter than their count".to_string()));
    }
    proof {
        assert(bytes@.skip(0) =~= bytes@);
    }
    let count = read_number(bytes, 0, little);
    let mut result = Metadata::new();
    let mut extension_name: Option<String> = None;
    let mut extension_metadata: Option<String> = None;
    if count > 0x7fff_ffff {
        return Ok((result, None));
    }
    let ghost whole = parse_entries(bytes@.skip(4), count as nat, little);
    let ghost mut done: Seq<(Seq<char>, Seq<char>)> = Seq::empty();
    let mut at: usize = 4;
    let mut i: u32 = 0;
    while i < count
        invariant
            i <= count,
            4 <= at <= bytes.len(),
            data == Some(bytes),
            count == number_at(bytes@, little),
            count <= i32::MAX,
            whole == parse_entries(bytes@.skip(4), count as nat, little),
            whole == (match parse_entries(bytes@.skip(at as int), (count - i) as nat, little) {
                Some(tail) => Some(done + tail),
                None => None,
            }),
            result@ == collect(done).metadata,
            opt_text(extension_name) == collect(done).name,
            opt_text(extension_metadata) == collect(done).extra,
        decreases count - i,
    {
        let ghost rest = bytes@.skip(at as int);
        let (key, mid) = match read_text(bytes, at, little) {
            Some(r) => r,
            None => {
                return Err(
                    ArrowError::OutOfSpec("The metadata hold a key that cannot be read".to_string()),
                );
            },
        };
        proof {
            assert(rest.skip(mid - at) =~= bytes@.skip(mid as int));
        }
        let (value, next) = match read_text(bytes, mid, little) {
            Some(r) => r,
            None => {
                return Err(
                    ArrowError::OutOfSpec(
                        "The metadata hold a value that cannot be read".to_string(),
                    ),
                );
            },
        };
        proof {
            assert(rest.skip(mid - at).skip(next - mid) =~= bytes@.skip(next as int));
            let tail = parse_entries(bytes@.skip(next as int), (count - i - 1) as nat, little);
            if tail is Some {
                assert(done + (seq![(key@, value@)] + tail->0) =~= done.push((key@, value@))
                    + tail->0);
            }
            assert(done.push((key@, value@)).drop_last() =~= done);
        }
        let k = chars_of(key.as_str());
        if chars_are(k.as_slice(), "ARROW:extension:name") {
            extension_name = Some(value);
        } else if chars_are(k.as_slice(), "ARROW:extension:metadata") {
            extension_metadata = Some(value);
        } else {
            result.insert(key, value);
        }
        proof {
            done = done.push((key@, value@));
        }
        at = next;
        i += 1;
    }
    proof {
        assert(done + Seq::<(Seq<char>, Seq<char>)>::empty() =~= done);
    }
    let extension = match extension_name {
        Some(name) => Some((name, extension_metadata)),
        None => None,
    };
    Ok((result, extension))
}

/// Whether `r` is what reading the block `data` gives, numbers low byte
/// first if `little`: the plain entries and the extension, or, where the
/// block cannot be read, an error that says out of specification.
pub open spec fn is_read_of(
    r: Result<(Metadata, Extension), ArrowError>,
    data: Option<&[u8]>,
    little: bool,
) -> bool {
    let block = match data {
        Some(d) => Some(d@),
        None => None,
    };
    match r {
        Ok((metadata, extension)) => import_metadata(block, little) matches Some(c) && metadata@
            == c.metadata && extension_view(extension) == c.extension(),
        Err(e) => e is OutOfSpec && import_metadata(block, little) is None,
    }
}

/// Reads an optional block of metadata, numbers in the byte order of the
/// machine.
pub fn metadata_from_bytes(data: Option<&[u8]>) -> (r: Result<(Metadata, Extension), ArrowError>)
    ensures
        is_read_of(r, data, true) || is_read_of(r, data, false),
{
    metadata_from_bytes_in(data, native_little_endian())
}

} // verus!
