//! Text as sequences of characters: the order of keys, decimal numbers and
//! splitting at a separator.
use vstd::prelude::*;

verus! {

/// `String::push` appends one character.
pub assume_specification[ String::push ](s: &mut String, c: char)
    ensures
        final(s)@ == old(s)@.push(c),
;

/// The characters of `s`, in order.
pub fn chars_of(s: &str) -> (v: Vec<char>)
    ensures
        v@ == s@,
{
    let mut v: Vec<char> = Vec::new();
    for c in it: s.chars()
        invariant
            v@ == it.seq().take(it.index() as int),
            it.seq() == s@,
    {
        v.push(c);
    }
    v
}

/// The string made of the characters `v`.
pub fn string_of(v: &[char]) -> (s: String)
    ensures
        s@ == v@,
{
    let mut s = String::new();
    let mut i: usize = 0;
    while i < v.len()
        invariant
            i <= v.len(),
            s@ == v@.take(i as int),
        decreases v.len() - i,
    {
        s.push(v[i]);
        assert(v@.take(i as int).push(v@[i as int]) =~= v@.take(i + 1));
        i += 1;
    }
    assert(v@.take(v.len() as int) =~= v@);
    s
}

/// Whether `a` and `b` hold the same characters.
pub fn chars_eq(a: &[char], b: &[char]) -> (r: bool)
    ensures
        r == (a@ == b@),
{
    if a.len() != b.len() {
        return false;
    }
    let mut i: usize = 0;
    while i < a.len()
        invariant
            i <= a.len(),
            a.len() == b.len(),
            forall|j: int| 0 <= j < i ==> a@[j] == b@[j],
        decreases a.len() - i,
    {
        if a[i] != b[i] {
            return false;
        }
        i += 1;
    }
    assert(a@ =~= b@);
    true
}

/// Whether `a` holds the characters of `s`.
pub fn chars_are(a: &[char], s: &str) -> (r: bool)
    ensures
        r == (a@ == s@),
{
    let b = chars_of(s);
    chars_eq(a, b.as_slice())
}

/// The order of texts: character by character, by code point; a proper
/// prefix comes first.
pub open spec fn lex_lt(a: Seq<char>, b: Seq<char>) -> bool
    decreases a.len(),
{
    if b.len() == 0 {
        false
    } else if a.len() == 0 {
        true
    } else if a[0] != b[0] {
        (a[0] as u32) < (b[0] as u32)
    } else {
        lex_lt(a.drop_first(), b.drop_first())
    }
}

/// No text comes before itself.
pub proof fn lemma_lex_irreflexive(a: Seq<char>)
    ensures
        !lex_lt(a, a),
    decreases a.len(),
{
    if a.len() > 0 {
        lemma_lex_irreflexive(a.drop_first());
    }
}

/// The order of texts is transitive.
pub proof fn lemma_lex_transitive(a: Seq<char>, b: Seq<char>, c: Seq<char>)
    requires
        lex_lt(a, b),
        lex_lt(b, c),
    ensures
        lex_lt(a, c),
    decreases a.len(),
{
    if a.len() > 0 && a[0] == b[0] && b[0] == c[0] {
        lemma_lex_transitive(a.drop_first(), b.drop_first(), c.drop_first());
    }
}

/// Of two different texts one comes before the other.
pub proof fn lemma_lex_total(a: Seq<char>, b: Seq<char>)
    ensures
        a == b || lex_lt(a, b) || lex_lt(b, a),
    decreases a.len(),
{
    if a.len() > 0 && b.len() > 0 && a[0] == b[0] {
        lemma_lex_total(a.drop_first(), b.drop_first());
        if a.drop_first() == b.drop_first() {
            assert(a =~= seq![a[0]] + a.drop_first());
            assert(b =~= seq![b[0]] + b.drop_first());
        }
    } else if a.len() == 0 && b.len() == 0 {
        assert(a =~= b);
    } else if a.len() > 0 && b.len() > 0 {
        vstd::utf8::char_u32_cast(a[0], a[0] as u32);
        vstd::utf8::char_u32_cast(b[0], b[0] as u32);
    }
}

/// Whether `a` comes before `b` in the order of texts.
pub fn chars_lt(a: &[char], b: &[char]) -> (r: bool)
    ensures
        r == lex_lt(a@, b@),
{
    let mut i: usize = 0;
    proof {
        assert(a@.skip(0) =~= a@);
        assert(b@.skip(0) =~= b@);
    }
    while i < a.len() && i < b.len()
        invariant
            i <= a.len(),
            i <= b.len(),
            lex_lt(a@, b@) == lex_lt(a@.skip(i as int), b@.skip(i as int)),
        decreases a.len() - i,
    {
        let x = a[i];
        let y = b[i];
        proof {
            assert(a@.skip(i as int).drop_first() =~= a@.skip(i + 1));
            assert(b@.skip(i as int).drop_first() =~= b@.skip(i + 1));
            assert(a@.skip(i as int)[0] == x);
            assert(b@.skip(i as int)[0] == y);
        }
        if x != y {
            return (x as u32) < (y as u32);
        }
        i += 1;
    }
    i < b.len()
}

} // verus!

verus! {

/// The decimal digit of `d`, for `d` below ten.
pub open spec fn digit_char(d: int) -> char {
    if d == 0 {
        '0'
    } else if d == 1 {
        '1'
    } else if d == 2 {
        '2'
    } else if d == 3 {
        '3'
    } else if d == 4 {
        '4'
    } else if d == 5 {
        '5'
    } else if d == 6 {
        '6'
    } else if d == 7 {
        '7'
    } else if d == 8 {
        '8'
    } else {
        '9'
    }
}

/// The number that the decimal digit `c` stands for.
pub open spec fn digit_value(c: char) -> Option<int> {
    if c == '0' {
        Some(0int)
    } else if c == '1' {
        Some(1int)
    } else if c == '2' {
        Some(2int)
    } else if c == '3' {
        Some(3int)
    } else if c == '4' {
        Some(4int)
    } else if c == '5' {
        Some(5int)
    } else if c == '6' {
        Some(6int)
    } else if c == '7' {
        Some(7int)
    } else if c == '8' {
        Some(8int)
    } else if c == '9' {
        Some(9int)
    } else {
        None
    }
}

/// The decimal numeral of `n`, without sign or leading zeros.
pub open spec fn decimal(n: nat) -> Seq<char>
    decreases n,
{
    if n < 10 {
        seq![digit_char(n as int)]
    } else {
        decimal(n / 10).push(digit_char((n % 10) as int))
    }
}

/// The decimal numeral of `i`, with a minus sign if it is negative.
pub open spec fn decimal_int(i: int) -> Seq<char> {
    if i < 0 {
        seq!['-'] + decimal((-i) as nat)
    } else {
        decimal(i as nat)
    }
}

/// The number that a non-empty run of decimal digits stands for.
pub open spec fn digits_value(s: Seq<char>) -> Option<nat>
    decreases s.len(),
{
    if s.len() == 0 {
        None
    } else {
        match digit_value(s.last()) {
            None => None,
            Some(d) => if s.len() == 1 {
                Some(d as nat)
            } else {
                match digits_value(s.drop_last()) {
                    None => None,
                    Some(v) => Some((10 * v + d) as nat),
                }
            },
        }
    }
}

/// The number that `s` stands for: decimal digits after an optional plus
/// sign.
pub open spec fn parse_unsigned(s: Seq<char>) -> Option<nat> {
    if s.len() > 0 && s[0] == '+' {
        digits_value(s.skip(1))
    } else {
        digits_value(s)
    }
}

/// The number that `s` stands for: decimal digits after an optional sign.
pub open spec fn parse_signed(s: Seq<char>) -> Option<int> {
    if s.len() > 0 && s[0] == '-' {
        match digits_value(s.skip(1)) {
            Some(v) => Some(-(v as int)),
            None => None,
        }
    } else {
        match parse_unsigned(s) {
            Some(v) => Some(v as int),
            None => None,
        }
    }
}

/// What `parse_unsigned` gives where the number fits in a `usize`.
pub open spec fn parse_usize_spec(s: Seq<char>) -> Option<usize> {
    match parse_unsigned(s) {
        Some(v) => if v <= usize::MAX {
            Some(v as usize)
        } else {
            None
        },
        None => None,
    }
}

/// What `parse_signed` gives where the number fits in an `i32`.
pub open spec fn parse_i32_spec(s: Seq<char>) -> Option<i32> {
    match parse_signed(s) {
        Some(v) => if i32::MIN <= v <= i32::MAX {
            Some(v as i32)
        } else {
            None
        },
        None => None,
    }
}

/// Whether every character of `s` is a decimal digit.
pub open spec fn all_digits(s: Seq<char>) -> bool {
    forall|i: int| 0 <= i < s.len() ==> digit_value(#[trigger] s[i]) is Some
}

/// A numeral is a non-empty run of digits that stands for its number.
pub proof fn lemma_decimal(n: nat)
    ensures
        decimal(n).len() > 0,
        all_digits(decimal(n)),
        digits_value(decimal(n)) == Some(n),
        parse_unsigned(decimal(n)) == Some(n),
    decreases n,
{
    if n >= 10 {
        lemma_decimal(n / 10);
        let t = decimal(n / 10);
        let s = decimal(n);
        assert(s.drop_last() =~= t);
        assert(s.last() == digit_char((n % 10) as int));
        assert(s[0] == t[0]);
    }
}

/// A numeral with its sign stands for its number.
pub proof fn lemma_decimal_int(i: int)
    ensures
        decimal_int(i).len() > 0,
        parse_signed(decimal_int(i)) == Some(i),
        forall|k: int|
            0 <= k < decimal_int(i).len() ==> (digit_value(#[trigger] decimal_int(i)[k]) is Some
                || decimal_int(i)[k] == '-'),
{
    if i < 0 {
        let n = (-i) as nat;
        lemma_decimal(n);
        assert(decimal_int(i).skip(1) =~= decimal(n));
        assert forall|k: int| 0 <= k < decimal_int(i).len() implies (digit_value(
            #[trigger] decimal_int(i)[k],
        ) is Some || decimal_int(i)[k] == '-') by {
            if k > 0 {
                assert(decimal_int(i)[k] == decimal(n)[k - 1]);
            }
        }
    } else {
        lemma_decimal(i as nat);
    }
}

/// The digits before the end of a run of digits stand for a number that is
/// not larger.
pub proof fn lemma_digits_prefix(s: Seq<char>, k: int)
    requires
        0 < k <= s.len(),
        digits_value(s) is Some,
    ensures
        digits_value(s.take(k)) is Some,
        digits_value(s.take(k))->0 <= digits_value(s)->0,
    decreases s.len(),
{
    if k == s.len() {
        assert(s.take(k) =~= s);
    } else {
        assert(s.drop_last().take(k) =~= s.take(k));
        lemma_digits_prefix(s.drop_last(), k);
    }
}

/// The character of the decimal digit `d`.
pub fn digit_of(d: u8) -> (c: char)
    requires
        d < 10,
    ensures
        c == digit_char(d as int),
{
    if d == 0 {
        '0'
    } else if d == 1 {
        '1'
    } else if d == 2 {
        '2'
    } else if d == 3 {
        '3'
    } else if d == 4 {
        '4'
    } else if d == 5 {
        '5'
    } else if d == 6 {
        '6'
    } else if d == 7 {
        '7'
    } else if d == 8 {
        '8'
    } else {
        '9'
    }
}

/// The number of the decimal digit `c`, if it is one.
pub fn value_of_digit(c: char) -> (d: Option<u8>)
    ensures
        match d {
            Some(d) => digit_value(c) == Some(d as int),
            None => digit_value(c) is None,
        },
{
    if c == '0' {
        Some(0)
    } else if c == '1' {
        Some(1)
    } else if c == '2' {
        Some(2)
    } else if c == '3' {
        Some(3)
    } else if c == '4' {
        Some(4)
    } else if c == '5' {
        Some(5)
    } else if c == '6' {
        Some(6)
    } else if c == '7' {
        Some(7)
    } else if c == '8' {
        Some(8)
    } else if c == '9' {
        Some(9)
    } else {
        None
    }
}

/// Appends the decimal numeral of `n` to `out`.
pub fn push_decimal(out: &mut String, n: u64)
    ensures
        final(out)@ == old(out)@ + decimal(n as nat),
    decreases n,
{
    if n >= 10 {
        push_decimal(out, n / 10);
    }
    let d = (n % 10) as u8;
    out.push(digit_of(d));
    proof {
        if n >= 10 {
            assert(out@ =~= old(out)@ + decimal(n as nat));
        } else {
            assert(out@ =~= old(out)@ + decimal(n as nat));
        }
    }
}

/// Appends the decimal numeral of `i`, with its sign, to `out`.
pub fn push_decimal_i32(out: &mut String, i: i32)
    ensures
        final(out)@ == old(out)@ + decimal_int(i as int),
{
    if i < 0 {
        out.push('-');
        let n = (-(i as i64)) as u64;
        push_decimal(out, n);
        assert(out@ =~= old(out)@ + decimal_int(i as int));
    } else {
        push_decimal(out, i as u64);
    }
}

/// The number of a run of decimal digits, unless it is empty, holds another
/// character, or the number passes `max`.
fn parse_digits(s: &[char], start: usize, max: u64) -> (r: Option<u64>)
    requires
        start <= s.len(),
    ensures
        match r {
            Some(v) => digits_value(s@.skip(start as int)) == Some(v as nat) && v <= max,
            None => digits_value(s@.skip(start as int)) matches Some(v) ==> v > max,
        },
{
    let ghost t = s@.skip(start as int);
    if start == s.len() {
        return None;
    }
    let mut acc: u64 = 0;
    let mut i: usize = start;
    while i < s.len()
        invariant
            start <= i <= s.len(),
            t == s@.skip(start as int),
            acc <= max,
            i > start ==> digits_value(t.take(i - start)) == Some(acc as nat),
            i == start ==> acc == 0,
        decreases s.len() - i,
    {
        let ghost p = t.take(i - start + 1);
        proof {
            assert(p.last() == s@[i as int]);
            assert(p.drop_last() =~= t.take(i - start));
        }
        match value_of_digit(s[i]) {
            None => {
                proof {
                    if digits_value(t) is Some {
                        lemma_digits_prefix(t, i - start + 1);
                    }
                }
                return None;
            },
            Some(d) => {
                let next = match acc.checked_mul(10) {
                    Some(m) => m.checked_add(d as u64),
                    None => None,
                };
                match next {
                    Some(v) => {
                        if v > max {
                            proof {
                                if digits_value(t) is Some {
                                    lemma_digits_prefix(t, i - start + 1);
                                }
                            }
                            return None;
                        }
                        acc = v;
                    },
                    None => {
                        proof {
                            if digits_value(t) is Some {
                                lemma_digits_prefix(t, i - start + 1);
                            }
                        }
                        return None;
                    },
                }
            },
        }
        i += 1;
    }
    proof {
        assert(t.take(i - start) =~= t);
    }
    Some(acc)
}

/// Reads a `usize` from decimal digits after an optional plus sign.
pub fn parse_usize(s: &[char]) -> (r: Option<usize>)
    ensures
        r == parse_usize_spec(s@),
{
    let start: usize = if s.len() > 0 && s[0] == '+' {
        1
    } else {
        0
    };
    proof {
        assert(s@.skip(0) =~= s@);
    }
    match parse_digits(s, start, usize::MAX as u64) {
        Some(v) => Some(v as usize),
        None => None,
    }
}

/// Reads an `i32` from decimal digits after an optional sign.
pub fn parse_i32(s: &[char]) -> (r: Option<i32>)
    ensures
        r == parse_i32_spec(s@),
{
    proof {
        assert(s@.skip(0) =~= s@);
    }
    if s.len() > 0 && s[0] == '-' {
        match parse_digits(s, 1, 0x8000_0000u64) {
            Some(v) => Some((-(v as i64)) as i32),
            None => None,
        }
    } else {
        let start: usize = if s.len() > 0 && s[0] == '+' {
            1
        } else {
            0
        };
        match parse_digits(s, start, 0x7fff_ffffu64) {
            Some(v) => Some(v as i32),
            None => None,
        }
    }
}

} // verus!

verus! {

/// The place of the first `c` in `s`, or the length of `s` if there is none.
pub open spec fn first_index(s: Seq<char>, c: char) -> nat
    decreases s.len(),
{
    if s.len() == 0 || s[0] == c {
        0
    } else {
        1 + first_index(s.drop_first(), c)
    }
}

/// Whether `c` occurs in `s`.
pub open spec fn has_char(s: Seq<char>, c: char) -> bool {
    exists|i: int| 0 <= i < s.len() && s[i] == c
}

/// `first_index` is the least place of `c`.
pub proof fn lemma_first_index(s: Seq<char>, c: char)
    ensures
        first_index(s, c) <= s.len(),
        first_index(s, c) < s.len() ==> s[first_index(s, c) as int] == c,
        forall|j: int| 0 <= j < first_index(s, c) ==> s[j] != c,
        has_char(s, c) <==> first_index(s, c) < s.len(),
    decreases s.len(),
{
    if s.len() == 0 || s[0] == c {
    } else {
        let t = s.drop_first();
        lemma_first_index(t, c);
        assert forall|j: int| 0 <= j < first_index(s, c) implies s[j] != c by {
            if j > 0 {
                assert(s[j] == t[j - 1]);
            }
        }
        if first_index(s, c) < s.len() {
            assert(s[first_index(s, c) as int] == t[first_index(t, c) as int]);
        }
        if has_char(s, c) {
            let i = choose|i: int| 0 <= i < s.len() && s[i] == c;
            assert(t[i - 1] == c);
        }
    }
}

/// Where `c` stands at `k` and not before, `first_index` is `k`.
pub proof fn lemma_first_index_is(s: Seq<char>, c: char, k: int)
    requires
        0 <= k <= s.len(),
        forall|j: int| 0 <= j < k ==> s[j] != c,
        k < s.len() ==> s[k] == c,
    ensures
        first_index(s, c) == k,
{
    lemma_first_index(s, c);
    let i = first_index(s, c) as int;
    if i < k {
        assert(s[i] != c);
    }
    if i > k {
        assert(s[k] != c);
    }
}

/// The parts of `s` between the occurrences of `sep`. There is always at
/// least one part, and a part may be empty.
pub open spec fn split(s: Seq<char>, sep: char) -> Seq<Seq<char>>
    decreases s.len(),
{
    let i = first_index(s, sep) as int;
    if i >= s.len() {
        seq![s]
    } else {
        seq![s.take(i)] + split(s.skip(i + 1), sep)
    }
}

/// The parts with `sep` between them.
pub open spec fn join(parts: Seq<Seq<char>>, sep: char) -> Seq<char>
    decreases parts.len(),
{
    if parts.len() == 0 {
        Seq::empty()
    } else if parts.len() == 1 {
        parts[0]
    } else {
        join(parts.drop_last(), sep) + seq![sep] + parts.last()
    }
}

/// A text without `sep` is its own single part.
pub proof fn lemma_split_one(s: Seq<char>, sep: char)
    requires
        !has_char(s, sep),
    ensures
        split(s, sep) == seq![s],
{
    lemma_first_index(s, sep);
}

/// Splitting goes through a separator between two texts.
pub proof fn lemma_split_append(x: Seq<char>, sep: char, y: Seq<char>)
    ensures
        split(x + seq![sep] + y, sep) == split(x, sep) + split(y, sep),
    decreases x.len(),
{
    let w = x + seq![sep] + y;
    lemma_first_index(x, sep);
    let i = first_index(x, sep) as int;
    assert forall|j: int| 0 <= j < i implies w[j] != sep by {
        assert(w[j] == x[j]);
    }
    if i >= x.len() {
        assert(w[i] == sep);
        lemma_first_index_is(w, sep, i);
        assert(w.take(i) =~= x);
        assert(w.skip(i + 1) =~= y);
    } else {
        assert(w[i] == x[i]);
        lemma_first_index_is(w, sep, i);
        assert(w.take(i) =~= x.take(i));
        assert(w.skip(i + 1) =~= x.skip(i + 1) + seq![sep] + y);
        lemma_split_append(x.skip(i + 1), sep, y);
        assert(split(w, sep) =~= split(x, sep) + split(y, sep));
    }
}

/// Parts without `sep` come back when their join is split.
pub proof fn lemma_split_join(parts: Seq<Seq<char>>, sep: char)
    requires
        parts.len() > 0,
        forall|i: int| 0 <= i < parts.len() ==> !has_char(#[trigger] parts[i], sep),
    ensures
        split(join(parts, sep), sep) == parts,
    decreases parts.len(),
{
    if parts.len() == 1 {
        lemma_split_one(parts[0], sep);
        assert(seq![parts[0]] =~= parts);
    } else {
        let init = parts.drop_last();
        assert forall|i: int| 0 <= i < init.len() implies !has_char(#[trigger] init[i], sep) by {
            assert(init[i] == parts[i]);
        }
        lemma_split_join(init, sep);
        lemma_split_append(join(init, sep), sep, parts.last());
        lemma_split_one(parts.last(), sep);
        assert(init + seq![parts.last()] =~= parts);
    }
}

/// The characters of each part.
pub open spec fn parts_view(parts: Seq<Vec<char>>) -> Seq<Seq<char>> {
    Seq::new(parts.len(), |i: int| parts[i]@)
}

/// Splits `s` at every `sep`.
pub fn split_chars(s: &[char], sep: char) -> (parts: Vec<Vec<char>>)
    ensures
        parts_view(parts@) == split(s@, sep),
        parts@.len() > 0,
{
    let mut parts: Vec<Vec<char>> = Vec::new();
    let mut current: Vec<char> = Vec::new();
    let mut start: usize = 0;
    let mut i: usize = 0;
    proof {
        assert(s@.skip(0) =~= s@);
        assert(parts_view(parts@) + split(s@, sep) =~= split(s@, sep));
    }
    while i < s.len()
        invariant
            start <= i <= s.len(),
            split(s@, sep) == parts_view(parts@) + split(s@.skip(start as int), sep),
            current@ == s@.subrange(start as int, i as int),
            forall|j: int| start <= j < i ==> s@[j] != sep,
        decreases s.len() - i,
    {
        let c = s[i];
        if c == sep {
            proof {
                let t = s@.skip(start as int);
                lemma_first_index_is(t, sep, i - start);
                assert(t.take(i - start) =~= current@);
                assert(t.skip(i - start + 1) =~= s@.skip(i + 1));
                assert(parts_view(parts@.push(current)) =~= parts_view(parts@) + seq![current@]);
            }
            parts.push(current);
            current = Vec::new();
            start = i + 1;
            proof {
                assert(current@ =~= s@.subrange(start as int, start as int));
            }
        } else {
            current.push(c);
            proof {
                assert(current@ =~= s@.subrange(start as int, i + 1));
            }
        }
        i += 1;
    }
    proof {
        let t = s@.skip(start as int);
        lemma_first_index_is(t, sep, t.len() as int);
        assert(t =~= current@);
        assert(parts_view(parts@.push(current)) =~= parts_view(parts@) + seq![current@]);
    }
    parts.push(current);
    parts
}

} // verus!
