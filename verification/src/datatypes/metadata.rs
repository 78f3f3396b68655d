//! Metadata: a map from text to text, kept in the order of its keys.
use vstd::prelude::*;

use crate::text::{chars_eq, chars_lt, chars_of, lemma_lex_irreflexive, lemma_lex_total, lemma_lex_transitive};
pub use crate::text::lex_lt;

verus! {

/// Whether the keys of `s` strictly increase.
pub open spec fn sorted_by_key(s: Seq<(Seq<char>, Seq<char>)>) -> bool {
    forall|i: int, j: int| 0 <= i < j < s.len() ==> lex_lt(#[trigger] s[i].0, #[trigger] s[j].0)
}

/// The entries `s` with `key` bound to `value`: an entry of that key is
/// replaced, else the new entry takes its place in the order of keys.
pub open spec fn upsert(s: Seq<(Seq<char>, Seq<char>)>, key: Seq<char>, value: Seq<char>) -> Seq<
    (Seq<char>, Seq<char>),
>
    decreases s.len(),
{
    if s.len() == 0 {
        seq![(key, value)]
    } else if s.last().0 == key {
        s.drop_last().push((key, value))
    } else if lex_lt(s.last().0, key) {
        s.push((key, value))
    } else {
        upsert(s.drop_last(), key, value).push(s.last())
    }
}

/// The value bound to `key` in `s`, if any.
pub open spec fn lookup(s: Seq<(Seq<char>, Seq<char>)>, key: Seq<char>) -> Option<Seq<char>>
    decreases s.len(),
{
    if s.len() == 0 {
        None
    } else if s.last().0 == key {
        Some(s.last().1)
    } else {
        lookup(s.drop_last(), key)
    }
}

/// Where `upsert` puts the entry in sorted entries: at the first place `p`
/// whose key does not come before `key`.
pub proof fn lemma_upsert_at(
    s: Seq<(Seq<char>, Seq<char>)>,
    key: Seq<char>,
    value: Seq<char>,
    p: int,
)
    requires
        sorted_by_key(s),
        0 <= p <= s.len(),
        forall|j: int| 0 <= j < p ==> lex_lt(#[trigger] s[j].0, key),
        p < s.len() ==> !lex_lt(s[p].0, key),
    ensures
        p < s.len() && s[p].0 == key ==> upsert(s, key, value) == s.update(p, (key, value)),
        !(p < s.len() && s[p].0 == key) ==> upsert(s, key, value) == s.insert(p, (key, value)),
        sorted_by_key(upsert(s, key, value)),
    decreases s.len(),
{
    let e = (key, value);
    if s.len() == 0 {
        assert(upsert(s, key, value) =~= s.insert(p, e));
    } else {
        let n = s.len() - 1;
        let last = s[n];
        if last.0 == key {
            if p < n {
                // s[p] is not before key, yet comes before s[n] = key
                assert(lex_lt(s[p].0, s[n].0));
            }
            if p > n {
                assert(lex_lt(s[n].0, key));
                lemma_lex_irreflexive(key);
            }
            assert(p == n);
            assert(upsert(s, key, value) =~= s.update(p, e));
            assert forall|i: int, j: int| 0 <= i < j < s.update(p, e).len() implies lex_lt(
                #[trigger] s.update(p, e)[i].0,
                #[trigger] s.update(p, e)[j].0,
            ) by {
                assert(lex_lt(s[i].0, s[j].0));
            }
        } else if lex_lt(last.0, key) {
            if p <= n {
                if p < n {
                    assert(lex_lt(s[p].0, s[n].0));
                    lemma_lex_transitive(s[p].0, s[n].0, key);
                }
                assert(false);
            }
            assert(p == s.len());
            assert(upsert(s, key, value) =~= s.insert(p, e));
            assert forall|i: int, j: int| 0 <= i < j < s.push(e).len() implies lex_lt(
                #[trigger] s.push(e)[i].0,
                #[trigger] s.push(e)[j].0,
            ) by {
                if j < s.len() {
                    assert(lex_lt(s[i].0, s[j].0));
                } else {
                    assert(lex_lt(s[i].0, key));
                }
            }
            assert(s.insert(p, e) =~= s.push(e));
        } else {
            let t = s.drop_last();
            assert(p <= n) by {
                if p > n {
                    assert(lex_lt(s[n].0, key));
                }
            }
            assert forall|i: int, j: int| 0 <= i < j < t.len() implies lex_lt(
                #[trigger] t[i].0,
                #[trigger] t[j].0,
            ) by {
                assert(lex_lt(s[i].0, s[j].0));
            }
            assert forall|j: int| 0 <= j < p implies lex_lt(#[trigger] t[j].0, key) by {
                assert(lex_lt(s[j].0, key));
            }
            lemma_upsert_at(t, key, value, p);
            lemma_lex_total(last.0, key);
            assert(lex_lt(key, last.0));
            let u = upsert(t, key, value);
            if p < t.len() && t[p].0 == key {
                assert(p < s.len() && s[p].0 == key);
                assert(u.push(last) =~= s.update(p, e));
            } else {
                assert(!(p < s.len() && s[p].0 == key));
                assert(u.push(last) =~= s.insert(p, e));
            }
            let w = u.push(last);
            assert forall|i: int, j: int| 0 <= i < j < w.len() implies lex_lt(
                #[trigger] w[i].0,
                #[trigger] w[j].0,
            ) by {
                if j < u.len() {
                    assert(lex_lt(u[i].0, u[j].0));
                } else {
                    // every key of u is key or a key of t, all before last
                    if p < t.len() && t[p].0 == key {
                        if i == p {
                        } else {
                            assert(u[i] == t[i]);
                            assert(lex_lt(s[i].0, s[n].0));
                        }
                    } else {
                        if i < p {
                            assert(u[i] == t[i]);
                            assert(lex_lt(s[i].0, s[n].0));
                        } else if i == p {
                        } else {
                            assert(u[i] == t[i - 1]);
                            assert(lex_lt(s[i - 1].0, s[n].0));
                        }
                    }
                }
            }
        }
    }
}

/// The characters of entries, one by one.
pub open spec fn entries_view(entries: Seq<(String, String)>) -> Seq<(Seq<char>, Seq<char>)> {
    Seq::new(entries.len(), |i: int| (entries[i].0@, entries[i].1@))
}

/// The first place in `entries` whose key does not come before `key`.
fn place_of(entries: &Vec<(String, String)>, key: &[char]) -> (p: usize)
    ensures
        p <= entries@.len(),
        forall|j: int| 0 <= j < p ==> lex_lt(#[trigger] entries_view(entries@)[j].0, key@),
        p < entries@.len() ==> !lex_lt(entries_view(entries@)[p as int].0, key@),
{
    let mut p: usize = 0;
    let mut before = true;
    while before && p < entries.len()
        invariant
            p <= entries.len(),
            forall|j: int| 0 <= j < p ==> lex_lt(#[trigger] entries_view(entries@)[j].0, key@),
            !before ==> p < entries.len() && !lex_lt(entries_view(entries@)[p as int].0, key@),
        decreases entries.len() - p + if before { 1int } else { 0int },
    {
        let e = chars_of(entries[p].0.as_str());
        if chars_lt(e.as_slice(), key) {
            p += 1;
        } else {
            before = false;
        }
    }
    p
}

/// A map from text to text. Its entries are kept in the order of their
/// keys, and no key occurs twice.
#[derive(Debug, PartialEq, Eq)]
pub struct Metadata {
    entries: Vec<(String, String)>,
}

impl View for Metadata {
    type V = Seq<(Seq<char>, Seq<char>)>;

    closed spec fn view(&self) -> Seq<(Seq<char>, Seq<char>)> {
        entries_view(self.entries@)
    }
}

impl Metadata {
    /// What holds of all metadata that executable code can hold: the keys
    /// strictly increase.
    #[verifier::type_invariant]
    pub open spec fn inv(&self) -> bool {
        sorted_by_key(self@)
    }

    /// Creates empty metadata.
    pub fn new() -> (m: Self)
        ensures
            m@ == Seq::<(Seq<char>, Seq<char>)>::empty(),
    {
        let entries: Vec<(String, String)> = Vec::new();
        assert(entries_view(entries@) =~= Seq::<(Seq<char>, Seq<char>)>::empty());
        Metadata { entries }
    }

    /// The number of entries.
    pub fn len(&self) -> (n: usize)
        ensures
            n == self@.len(),
    {
        self.entries.len()
    }

    /// Whether there is no entry.
    pub fn is_empty(&self) -> (b: bool)
        ensures
            b == (self@.len() == 0),
    {
        self.entries.len() == 0
    }

    /// The entries in the order of their keys.
    pub fn entries(&self) -> (entries: &Vec<(String, String)>)
        ensures
            entries_view(entries@) == self@,
    {
        &self.entries
    }

    /// The key of the entry at place `i`, counted in the order of keys.
    pub fn key(&self, i: usize) -> (key: &str)
        requires
            i < self@.len(),
        ensures
            key@ == self@[i as int].0,
    {
        self.entries[i].0.as_str()
    }

    /// The value of the entry at place `i`, counted in the order of keys.
    pub fn value(&self, i: usize) -> (value: &str)
        requires
            i < self@.len(),
        ensures
            value@ == self@[i as int].1,
    {
        self.entries[i].1.as_str()
    }

    /// Binds `key` to `value` and returns the value that `key` was bound to.
    pub fn insert(&mut self, key: String, value: String) -> (previous: Option<String>)
        ensures
            final(self)@ == upsert(old(self)@, key@, value@),
            crate::datatypes::opt_text(previous) == lookup(old(self)@, key@),
    {
        proof {
            use_type_invariant(&*self);
        }
        let ghost before = self@;
        let mut entries: Vec<(String, String)> = Vec::new();
        assert(Seq::new(entries@.len(), |i: int| (entries@[i].0@, entries@[i].1@)) =~= Seq::<
            (Seq<char>, Seq<char>),
        >::empty());
        core::mem::swap(&mut self.entries, &mut entries);
        let k = chars_of(key.as_str());
        let p = place_of(&entries, k.as_slice());
        proof {
            lemma_upsert_at(before, key@, value@, p as int);
            lemma_lookup_at(before, key@, p as int);
        }
        let found = if p < entries.len() {
            let e = chars_of(entries[p].0.as_str());
            chars_eq(e.as_slice(), k.as_slice())
        } else {
            false
        };
        let previous = if found {
            let gone = entries.remove(p);
            entries.insert(p, (key, value));
            assert(entries_view(entries@) =~= before.update(p as int, (key@, value@)));
            Some(gone.1)
        } else {
            entries.insert(p, (key, value));
            assert(entries_view(entries@) =~= before.insert(p as int, (key@, value@)));
            None
        };
        core::mem::swap(&mut self.entries, &mut entries);
        previous
    }

    /// The value bound to `key`, if any.
    pub fn get(&self, key: &str) -> (value: Option<&str>)
        ensures
            match value {
                Some(v) => lookup(self@, key@) == Some(v@),
                None => lookup(self@, key@) is None,
            },
    {
        proof {
            use_type_invariant(self);
        }
        let k = chars_of(key);
        let p = place_of(&self.entries, k.as_slice());
        proof {
            lemma_lookup_at(self@, key@, p as int);
        }
        if p < self.entries.len() {
            let e = chars_of(self.entries[p].0.as_str());
            if chars_eq(e.as_slice(), k.as_slice()) {
                return Some(self.entries[p].1.as_str());
            }
        }
        None
    }

    /// Whether the two hold the same entries.
    pub fn same_as(&self, other: &Self) -> (b: bool)
        ensures
            b == (self@ == other@),
    {
        if self.entries.len() != other.entries.len() {
            assert(self@.len() != other@.len());
            return false;
        }
        let mut i: usize = 0;
        while i < self.entries.len()
            invariant
                i <= self.entries@.len(),
                self.entries@.len() == other.entries@.len(),
                forall|j: int| 0 <= j < i ==> self@[j] == other@[j],
            decreases self.entries@.len() - i,
        {
            let a = &self.entries[i];
            let b = &other.entries[i];
            if !(a.0 == b.0 && a.1 == b.1) {
                assert(self@[i as int] != other@[i as int]);
                return false;
            }
            i += 1;
        }
        assert(self@ =~= other@);
        true
    }

    /// Whether `key` is bound.
    pub fn contains_key(&self, key: &str) -> (b: bool)
        ensures
            b == lookup(self@, key@).is_some(),
    {
        self.get(key).is_some()
    }
}

/// What `lookup` finds in sorted entries: the entry at the first place `p`
/// whose key does not come before `key`, if its key is `key`.
pub proof fn lemma_lookup_at(s: Seq<(Seq<char>, Seq<char>)>, key: Seq<char>, p: int)
    requires
        sorted_by_key(s),
        0 <= p <= s.len(),
        forall|j: int| 0 <= j < p ==> lex_lt(#[trigger] s[j].0, key),
        p < s.len() ==> !lex_lt(s[p].0, key),
    ensures
        p < s.len() && s[p].0 == key ==> lookup(s, key) == Some(s[p].1),
        !(p < s.len() && s[p].0 == key) ==> lookup(s, key) is None,
    decreases s.len(),
{
    if s.len() > 0 {
        let n = s.len() - 1;
        if s[n].0 == key {
            if p < n {
                assert(lex_lt(s[p].0, s[n].0));
            }
            if p > n {
                assert(lex_lt(s[n].0, key));
                lemma_lex_irreflexive(key);
            }
        } else {
            let t = s.drop_last();
            if p > n {
                assert forall|j: int| 0 <= j < n implies lex_lt(#[trigger] t[j].0, key) by {
                    assert(lex_lt(s[j].0, key));
                }
                assert forall|i: int, j: int| 0 <= i < j < t.len() implies lex_lt(
                    #[trigger] t[i].0,
                    #[trigger] t[j].0,
                ) by {
                    assert(lex_lt(s[i].0, s[j].0));
                }
                lemma_lookup_at(t, key, n);
            } else {
                assert forall|j: int| 0 <= j < p implies lex_lt(#[trigger] t[j].0, key) by {
                    assert(lex_lt(s[j].0, key));
                }
                assert forall|i: int, j: int| 0 <= i < j < t.len() implies lex_lt(
                    #[trigger] t[i].0,
                    #[trigger] t[j].0,
                ) by {
                    assert(lex_lt(s[i].0, s[j].0));
                }
                if p == n {
                    // s[n] is the first key not before `key`, and is not `key`
                    assert forall|j: int| 0 <= j < n implies t[j].0 != key by {
                        assert(lex_lt(s[j].0, key));
                        lemma_lex_irreflexive(key);
                    }
                    lemma_lookup_none(t, key);
                } else {
                    lemma_lookup_at(t, key, p);
                }
            }
        }
    }
}

/// `lookup` finds nothing where no entry has the key.
pub proof fn lemma_lookup_none(s: Seq<(Seq<char>, Seq<char>)>, key: Seq<char>)
    requires
        forall|j: int| 0 <= j < s.len() ==> (#[trigger] s[j]).0 != key,
    ensures
        lookup(s, key) is None,
    decreases s.len(),
{
    if s.len() > 0 {
        lemma_lookup_none(s.drop_last(), key);
    }
}

impl Clone for Metadata {
    fn clone(&self) -> (r: Self)
        ensures
            r@ == self@,
    {
        proof {
            use_type_invariant(self);
        }
        let mut entries: Vec<(String, String)> = Vec::new();
        let mut i: usize = 0;
        while i < self.entries.len()
            invariant
                i <= self.entries.len(),
                entries@.len() == i,
                forall|j: int|
                    0 <= j < i ==> (#[trigger] entries@[j]).0@ == self.entries@[j].0@
                        && entries@[j].1@ == self.entries@[j].1@,
            decreases self.entries.len() - i,
        {
            entries.push((self.entries[i].0.clone(), self.entries[i].1.clone()));
            i += 1;
        }
        assert(entries_view(entries@) =~= self@);
        Metadata { entries }
    }
}

impl Default for Metadata {
    fn default() -> (m: Self)
        ensures
            m@ == Seq::<(Seq<char>, Seq<char>)>::empty(),
    {
        Metadata::new()
    }
}

} // verus!
