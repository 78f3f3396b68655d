//! Bitmaps: sequences of booleans packed eight to a byte, low bit first.
use vstd::prelude::*;

verus! {

/// `Vec::capacity`: the room of a vector is never below its length.
#[verifier::external_body]
pub(crate) fn vec_capacity<T>(vec: &Vec<T>) -> (c: usize)
    ensures
        c >= vec@.len(),
{
    vec.capacity()
}

/// `Vec::shrink_to_fit` keeps the elements.
#[verifier::external_body]
pub(crate) fn vec_shrink_to_fit<T>(vec: &mut Vec<T>)
    ensures
        final(vec)@ == old(vec)@,
{
    vec.shrink_to_fit()
}

/// Bit `k` of `byte`, counted from the low end.
pub open spec fn bit_of(byte: u8, k: u8) -> bool {
    (byte >> k) & 1u8 == 1u8
}

/// `byte` with bit `k` made `value`.
pub open spec fn with_bit(byte: u8, k: u8, value: bool) -> u8 {
    if value {
        byte | (1u8 << k)
    } else {
        byte & !(1u8 << k)
    }
}

/// Bit `i` of `bytes`, counted from the low end of the first byte.
pub open spec fn bit_at(bytes: Seq<u8>, i: int) -> bool {
    bit_of(bytes[i / 8], (i % 8) as u8)
}

/// The booleans that `length` bits of `bytes` stand for.
pub open spec fn bits_of(bytes: Seq<u8>, length: nat) -> Seq<bool> {
    Seq::new(length, |i: int| bit_at(bytes, i))
}

/// Whether the bits of the last byte from `length` on are clear.
pub open spec fn padding_clear(bytes: Seq<u8>, length: nat) -> bool {
    forall|k: u8| length % 8 != 0 && length % 8 <= k < 8 ==> !#[trigger] bit_of(bytes.last(), k)
}

/// Setting a bit changes that bit and no other.
pub proof fn lemma_with_bit(byte: u8, k: u8, value: bool, j: u8)
    requires
        k < 8,
        j < 8,
    ensures
        bit_of(with_bit(byte, k, value), j) == (if j == k {
            value
        } else {
            bit_of(byte, j)
        }),
{
    if value {
        assert(((byte | (1u8 << k)) >> j) & 1u8 == 1u8 <==> (j == k || (byte >> j) & 1u8 == 1u8))
            by (bit_vector)
            requires
                k < 8,
                j < 8,
        ;
    } else {
        assert(((byte & !(1u8 << k)) >> j) & 1u8 == 1u8 <==> (j != k && (byte >> j) & 1u8 == 1u8))
            by (bit_vector)
            requires
                k < 8,
                j < 8,
        ;
    }
}

/// The zero byte has no bit set.
pub proof fn lemma_zero_byte(j: u8)
    requires
        j < 8,
    ensures
        !bit_of(0u8, j),
{
    assert((0u8 >> j) & 1u8 == 0u8) by (bit_vector)
        requires
            j < 8,
    ;
}

/// A growable bitmap.
#[derive(Debug, PartialEq, Eq)]
pub struct MutableBitmap {
    buffer: Vec<u8>,
    length: usize,
}

impl View for MutableBitmap {
    type V = Seq<bool>;

    closed spec fn view(&self) -> Seq<bool> {
        bits_of(self.buffer@, self.length as nat)
    }
}

impl MutableBitmap {
    /// What holds of every bitmap that executable code can hold: there are
    /// as many bytes as the bits need, and the bits past the end are clear.
    #[verifier::type_invariant]
    pub closed spec fn inv(&self) -> bool {
        &&& self.buffer@.len() == (self.length + 7) / 8
        &&& padding_clear(self.buffer@, self.length as nat)
    }

    /// The bytes of the bitmap.
    pub closed spec fn bytes(&self) -> Seq<u8> {
        self.buffer@
    }

    /// The bitmap is the bits of its bytes.
    pub proof fn lemma_bytes(&self)
        ensures
            self@ == bits_of(self.bytes(), self@.len()),
    {
    }

    /// Creates an empty bitmap.
    pub fn new() -> (bitmap: Self)
        ensures
            bitmap@ == Seq::<bool>::empty(),
    {
        let bitmap = MutableBitmap { buffer: Vec::new(), length: 0 };
        assert(bitmap@ =~= Seq::<bool>::empty());
        bitmap
    }

    /// Creates an empty bitmap with room for `capacity` bits.
    pub fn with_capacity(capacity: usize) -> (bitmap: Self)
        ensures
            bitmap@ == Seq::<bool>::empty(),
    {
        let bitmap = MutableBitmap { buffer: Vec::with_capacity(capacity / 8 + 1), length: 0 };
        assert(bitmap@ =~= Seq::<bool>::empty());
        bitmap
    }

    /// The number of bits.
    pub fn len(&self) -> (n: usize)
        ensures
            n == self@.len(),
    {
        self.length
    }

    /// Whether there is no bit.
    pub fn is_empty(&self) -> (b: bool)
        ensures
            b == (self@.len() == 0),
    {
        self.length == 0
    }

    /// The bit at `index`.
    pub fn get(&self, index: usize) -> (bit: bool)
        requires
            index < self@.len(),
        ensures
            bit == self@[index as int],
    {
        proof {
            use_type_invariant(self);
        }
        let byte = self.buffer[index / 8];
        let k = (index % 8) as u8;
        (byte >> k) & 1u8 == 1u8
    }

    /// Appends `value`.
    pub fn push(&mut self, value: bool)
        requires
            old(self)@.len() < usize::MAX,
        ensures
            final(self)@ == old(self)@.push(value),
    {
        proof {
            use_type_invariant(&*self);
        }
        let mut taken = MutableBitmap::new();
        core::mem::swap(self, &mut taken);
        let MutableBitmap { buffer: mut buffer, length } = taken;
        let ghost before = buffer@;
        if length % 8 == 0 {
            buffer.push(0);
        }
        let at = buffer.len() - 1;
        let k = (length % 8) as u8;
        let byte = buffer[at];
        let changed = if value {
            byte | (1u8 << k)
        } else {
            byte & !(1u8 << k)
        };
        buffer.set(at, changed);
        proof {
            assert forall|j: u8| j < 8 implies bit_of(changed, j) == (if j == k {
                value
            } else {
                bit_of(byte, j)
            }) by {
                lemma_with_bit(byte, k, value, j);
            }
            assert forall|j: u8| j < 8 && length % 8 == 0 implies !bit_of(byte, j) by {
                lemma_zero_byte(j);
            }
            assert(bits_of(buffer@, (length + 1) as nat) =~= bits_of(before, length as nat).push(
                value,
            )) by {
                assert forall|i: int| 0 <= i < length implies #[trigger] bit_at(buffer@, i)
                    == bit_at(before, i) by {
                    if i / 8 == at {
                        assert(before[i / 8] == byte);
                    }
                }
            }
            assert(padding_clear(buffer@, (length + 1) as nat)) by {
                assert forall|j: u8|
                    (length + 1) % 8 != 0 && (length + 1) % 8 <= j < 8 implies !#[trigger] bit_of(
                    buffer@.last(),
                    j,
                ) by {
                    if length % 8 != 0 {
                        assert(!bit_of(before.last(), j));
                    }
                }
            }
        }
        *self = MutableBitmap { buffer, length: length + 1 };
    }

    /// Removes the last bit and returns it, or `None` if there is none.
    pub fn pop(&mut self) -> (bit: Option<bool>)
        ensures
            old(self)@.len() == 0 ==> bit is None && final(self)@ == old(self)@,
            old(self)@.len() > 0 ==> bit == Some(old(self)@.last()) && final(self)@ == old(
                self,
            )@.drop_last(),
    {
        proof {
            use_type_invariant(&*self);
        }
        if self.length == 0 {
            return None;
        }
        let mut taken = MutableBitmap::new();
        core::mem::swap(self, &mut taken);
        let MutableBitmap { buffer: mut buffer, length } = taken;
        let ghost before = buffer@;
        let at = buffer.len() - 1;
        let k = ((length - 1) % 8) as u8;
        let byte = buffer[at];
        let bit = (byte >> k) & 1u8 == 1u8;
        let changed = byte & !(1u8 << k);
        if k == 0 {
            buffer.pop();
        } else {
            buffer.set(at, changed);
        }
        proof {
            assert forall|j: u8| j < 8 implies bit_of(changed, j) == (if j == k {
                false
            } else {
                bit_of(byte, j)
            }) by {
                lemma_with_bit(byte, k, false, j);
            }
            assert(bits_of(buffer@, (length - 1) as nat) =~= bits_of(
                before,
                length as nat,
            ).drop_last()) by {
                assert forall|i: int| 0 <= i < length - 1 implies #[trigger] bit_at(buffer@, i)
                    == bit_at(before, i) by {
                    if i / 8 == at {
                        assert(before[i / 8] == byte);
                    }
                }
            }
            assert(padding_clear(buffer@, (length - 1) as nat)) by {
                assert forall|j: u8|
                    (length - 1) % 8 != 0 && (length - 1) % 8 <= j < 8 implies !#[trigger] bit_of(
                    buffer@.last(),
                    j,
                ) by {
                    if j != k {
                        assert(!bit_of(before.last(), j));
                    }
                }
            }
        }
        *self = MutableBitmap { buffer, length: length - 1 };
        Some(bit)
    }

    /// Makes the bit at `index` equal to `value`.
    pub fn set(&mut self, index: usize, value: bool)
        requires
            index < old(self)@.len(),
        ensures
            final(self)@ == old(self)@.update(index as int, value),
    {
        proof {
            use_type_invariant(&*self);
        }
        let mut taken = MutableBitmap::new();
        core::mem::swap(self, &mut taken);
        let MutableBitmap { buffer: mut buffer, length } = taken;
        let ghost before = buffer@;
        let at = index / 8;
        let k = (index % 8) as u8;
        let byte = buffer[at];
        let changed = if value {
            byte | (1u8 << k)
        } else {
            byte & !(1u8 << k)
        };
        buffer.set(at, changed);
        proof {
            assert forall|j: u8| j < 8 implies bit_of(changed, j) == (if j == k {
                value
            } else {
                bit_of(byte, j)
            }) by {
                lemma_with_bit(byte, k, value, j);
            }
            assert(bits_of(buffer@, length as nat) =~= bits_of(before, length as nat).update(
                index as int,
                value,
            ));
            assert(padding_clear(buffer@, length as nat)) by {
                assert forall|j: u8| length % 8 != 0 && length % 8 <= j < 8 implies !#[trigger] bit_of(
                    buffer@.last(),
                    j,
                ) by {
                    assert(!bit_of(before.last(), j));
                }
            }
        }
        *self = MutableBitmap { buffer, length };
    }

    /// Appends `additional` bits equal to `value`.
    pub fn extend_constant(&mut self, additional: usize, value: bool)
        requires
            old(self)@.len() + additional <= usize::MAX,
        ensures
            final(self)@ == old(self)@ + Seq::new(additional as nat, |i: int| value),
    {
        let mut i: usize = 0;
        assert(self@ =~= old(self)@ + Seq::new(0nat, |i: int| value));
        while i < additional
            invariant
                i <= additional,
                old(self)@.len() + additional <= usize::MAX,
                self@ == old(self)@ + Seq::new(i as nat, |i: int| value),
            decreases additional - i,
        {
            self.push(value);
            i += 1;
            assert(self@ =~= old(self)@ + Seq::new(i as nat, |i: int| value));
        }
    }

    /// Appends the bits `values`.
    pub fn extend_from_bools(&mut self, values: &[bool])
        requires
            old(self)@.len() + values@.len() <= usize::MAX,
        ensures
            final(self)@ == old(self)@ + values@,
    {
        let mut i: usize = 0;
        assert(self@ =~= old(self)@ + values@.take(0));
        while i < values.len()
            invariant
                i <= values.len(),
                old(self)@.len() + values@.len() <= usize::MAX,
                self@ == old(self)@ + values@.take(i as int),
            decreases values.len() - i,
        {
            self.push(values[i]);
            i += 1;
            assert(self@ =~= old(self)@ + values@.take(i as int));
        }
        assert(values@.take(values@.len() as int) =~= values@);
    }

    /// Appends `length` bits of `slice`, starting at bit `offset`.
    pub fn extend_from_slice(&mut self, slice: &[u8], offset: usize, length: usize)
        requires
            offset + length <= 8 * slice@.len(),
            offset + length <= usize::MAX,
            old(self)@.len() + length <= usize::MAX,
        ensures
            final(self)@ == old(self)@ + Seq::new(
                length as nat,
                |i: int| bit_at(slice@, offset + i),
            ),
    {
        let mut i: usize = 0;
        assert(self@ =~= old(self)@ + Seq::new(
            0nat,
            |i: int| bit_at(slice@, offset + i),
        ));
        while i < length
            invariant
                i <= length,
                offset + length <= 8 * slice@.len(),
                offset + length <= usize::MAX,
                old(self)@.len() + length <= usize::MAX,
                self@ == old(self)@ + Seq::new(
                    i as nat,
                    |i: int| bit_at(slice@, offset + i),
                ),
            decreases length - i,
        {
            let at = offset + i;
            let byte = slice[at / 8];
            let k = (at % 8) as u8;
            self.push((byte >> k) & 1u8 == 1u8);
            i += 1;
            assert(self@ =~= old(self)@ + Seq::new(
                i as nat,
                |i: int| bit_at(slice@, offset + i),
            ));
        }
    }

    /// Creates a bitmap of the bits `values`.
    pub fn from_bools(values: &[bool]) -> (bitmap: Self)
        ensures
            bitmap@ == values@,
    {
        let mut bitmap = MutableBitmap::with_capacity(values.len());
        bitmap.extend_from_bools(values);
        assert(Seq::<bool>::empty() + values@ =~= values@);
        bitmap
    }

    /// The number of bits that are not set.
    pub fn null_count(&self) -> (n: usize)
        ensures
            n == count_false(self@),
    {
        let mut n: usize = 0;
        let mut i: usize = 0;
        assert(self@.take(0) =~= Seq::<bool>::empty());
        while i < self.len()
            invariant
                i <= self@.len(),
                n == count_false(self@.take(i as int)),
                n <= i,
            decreases self@.len() - i,
        {
            proof {
                assert(self@.take(i + 1).drop_last() =~= self@.take(i as int));
            }
            if !self.get(i) {
                n += 1;
            }
            i += 1;
        }
        assert(self@.take(self@.len() as int) =~= self@);
        n
    }

    /// For how many bits there is room without allocating.
    pub fn capacity(&self) -> (c: usize)
        ensures
            c >= self@.len() || c == usize::MAX,
    {
        proof {
            use_type_invariant(self);
        }
        let bytes = vec_capacity(&self.buffer);
        if bytes > usize::MAX / 8 {
            usize::MAX
        } else {
            bytes * 8
        }
    }

    /// Gives up the room that no bit needs.
    pub fn shrink_to_fit(&mut self)
        ensures
            final(self)@ == old(self)@,
    {
        proof {
            use_type_invariant(&*self);
        }
        let mut taken = MutableBitmap::new();
        core::mem::swap(self, &mut taken);
        let MutableBitmap { buffer: mut buffer, length } = taken;
        vec_shrink_to_fit(&mut buffer);
        *self = MutableBitmap { buffer, length };
    }

    /// The bytes that hold the bits; bits past the end are clear.
    pub fn as_slice(&self) -> (bytes: &[u8])
        ensures
            bytes@ == self.bytes(),
            bytes@.len() == (self@.len() + 7) / 8,
    {
        proof {
            use_type_invariant(self);
        }
        self.buffer.as_slice()
    }
}

/// The validity of two runs of slots one after the other: none where
/// neither has one; else that of each, all valid where it has none.
pub open spec fn merged(
    a: Option<Seq<bool>>,
    a_len: nat,
    b: Option<Seq<bool>>,
    b_len: nat,
) -> Option<Seq<bool>> {
    if a is None && b is None {
        None
    } else {
        Some(
            (match a {
                Some(v) => v,
                None => Seq::new(a_len, |i: int| true),
            }) + (match b {
                Some(v) => v,
                None => Seq::new(b_len, |i: int| true),
            }),
        )
    }
}

/// The validity of two runs of slots one after the other.
pub fn merge_validity(a: Option<&Bitmap>, a_len: usize, b: Option<&Bitmap>, b_len: usize) -> (r:
    Option<Bitmap>)
    requires
        a matches Some(v) ==> v@.len() == a_len,
        b matches Some(v) ==> v@.len() == b_len,
        a_len + b_len <= usize::MAX,
    ensures
        (match r {
            Some(v) => Some(v@),
            None => None,
        }) == merged(
            match a {
                Some(v) => Some(v@),
                None => None,
            },
            a_len as nat,
            match b {
                Some(v) => Some(v@),
                None => None,
            },
            b_len as nat,
        ),
{
    if a.is_none() && b.is_none() {
        return None;
    }
    let mut bits = MutableBitmap::with_capacity(a_len + b_len);
    match a {
        Some(v) => {
            proof {
                v.bits.lemma_bytes();
            }
            bits.extend_from_slice(v.as_slice(), 0, a_len);
            assert(bits@ =~= v@);
        },
        None => {
            bits.extend_constant(a_len, true);
            assert(bits@ =~= Seq::new(a_len as nat, |i: int| true));
        },
    }
    let ghost first = bits@;
    match b {
        Some(v) => {
            proof {
                v.bits.lemma_bytes();
            }
            bits.extend_from_slice(v.as_slice(), 0, b_len);
            assert(bits@ =~= first + v@);
        },
        None => {
            bits.extend_constant(b_len, true);
        },
    }
    Some(Bitmap::from_mutable(bits))
}

/// The number of `false` in `bits`.
pub open spec fn count_false(bits: Seq<bool>) -> nat
    decreases bits.len(),
{
    if bits.len() == 0 {
        0
    } else {
        count_false(bits.drop_last()) + if bits.last() {
            0nat
        } else {
            1nat
        }
    }
}

impl Clone for MutableBitmap {
    fn clone(&self) -> (r: Self)
        ensures
            r@ == self@,
    {
        proof {
            use_type_invariant(self);
        }
        MutableBitmap { buffer: self.buffer.clone(), length: self.length }
    }
}

impl Default for MutableBitmap {
    fn default() -> (bitmap: Self)
        ensures
            bitmap@ == Seq::<bool>::empty(),
    {
        MutableBitmap::new()
    }
}

/// A bitmap that does not change any more.
#[derive(Debug, PartialEq, Eq)]
pub struct Bitmap {
    bits: MutableBitmap,
}

impl View for Bitmap {
    type V = Seq<bool>;

    closed spec fn view(&self) -> Seq<bool> {
        self.bits@
    }
}

impl Bitmap {
    /// The bitmap of the bits `bits`.
    pub closed spec fn frozen(bits: MutableBitmap) -> Bitmap {
        Bitmap { bits }
    }

    /// Freezes `bits`.
    pub fn from_mutable(bits: MutableBitmap) -> (bitmap: Self)
        ensures
            bitmap == Self::frozen(bits),
            bitmap@ == bits@,
    {
        Bitmap { bits }
    }

    /// Creates a bitmap of the bits `values`.
    pub fn from_bools(values: &[bool]) -> (bitmap: Self)
        ensures
            bitmap@ == values@,
    {
        Bitmap { bits: MutableBitmap::from_bools(values) }
    }

    /// The number of bits.
    pub fn len(&self) -> (n: usize)
        ensures
            n == self@.len(),
    {
        self.bits.len()
    }

    /// Whether there is no bit.
    pub fn is_empty(&self) -> (b: bool)
        ensures
            b == (self@.len() == 0),
    {
        self.bits.is_empty()
    }

    /// The bit at `index`.
    pub fn get_bit(&self, index: usize) -> (bit: bool)
        requires
            index < self@.len(),
        ensures
            bit == self@[index as int],
    {
        self.bits.get(index)
    }

    /// The number of bits that are not set.
    pub fn null_count(&self) -> (n: usize)
        ensures
            n == count_false(self@),
    {
        self.bits.null_count()
    }

    /// A bitmap of the `length` bits from `offset` on.
    pub fn slice(&self, offset: usize, length: usize) -> (part: Self)
        requires
            offset + length <= self@.len(),
        ensures
            part@ == self@.subrange(offset as int, offset + length),
    {
        let bytes = self.bits.as_slice();
        let mut bits = MutableBitmap::with_capacity(length);
        proof {
            self.bits.lemma_bytes();
        }
        bits.extend_from_slice(bytes, offset, length);
        proof {
            assert(bits@ =~= self@.subrange(offset as int, offset + length));
        }
        Bitmap { bits }
    }

    /// The bytes that hold the bits; bits past the end are clear.
    pub fn as_slice(&self) -> (bytes: &[u8])
        ensures
            bytes@.len() == (self@.len() + 7) / 8,
            self@ == bits_of(bytes@, self@.len()),
    {
        self.bits.as_slice()
    }
}

impl Clone for Bitmap {
    fn clone(&self) -> (r: Self)
        ensures
            r@ == self@,
    {
        Bitmap { bits: self.bits.clone() }
    }
}

} // verus!
