//! Orders given by a function that compares two values.
use std::cmp::Ordering;
use vstd::prelude::*;

use crate::types::NativeType;

verus! {

/// The answer turned round.
pub open spec fn flipped(o: Ordering) -> Ordering {
    match o {
        Ordering::Less => Ordering::Greater,
        Ordering::Equal => Ordering::Equal,
        Ordering::Greater => Ordering::Less,
    }
}

/// The answer as it counts in the direction of the sort.
pub open spec fn toward(o: Ordering, descending: bool) -> Ordering {
    if descending {
        flipped(o)
    } else {
        o
    }
}

/// Whether `key` is a total order: its answer for two values turned round
/// is its answer turned round, and where `a` may stand before `b` and `b`
/// before `c`, `a` may stand before `c`.
pub open spec fn is_total<T>(key: spec_fn(T, T) -> Ordering) -> bool {
    &&& forall|a: T, b: T| #[trigger] key(b, a) == flipped(key(a, b))
    &&& forall|a: T, b: T, c: T|
        !(#[trigger] key(a, b) is Greater) && !(#[trigger] key(b, c) is Greater) ==> !(key(a, c)
            is Greater)
}

/// Whether every answer of `order` is that of `key`.
pub open spec fn computes<T, F: Fn(&T, &T) -> Ordering>(
    order: F,
    key: spec_fn(T, T) -> Ordering,
) -> bool {
    forall|a: T, b: T, o: Ordering| #[trigger] call_ensures(order, (&a, &b), o) ==> o == key(a, b)
}

/// Whether `order` can be called on every two values and computes a total
/// order.
pub open spec fn is_total_order<T, F: Fn(&T, &T) -> Ordering>(order: F) -> bool {
    &&& forall|a: T, b: T| #[trigger] call_requires(order, (&a, &b))
    &&& exists|key: spec_fn(T, T) -> Ordering| is_total(key) && #[trigger] computes(order, key)
}

/// Whether `a` may stand before `b` in the direction of the sort.
pub open spec fn in_order<T>(key: spec_fn(T, T) -> Ordering, descending: bool, a: T, b: T) -> bool {
    !(toward(key(a, b), descending) is Greater)
}

/// Whether `s` is sorted in the direction of the sort.
pub open spec fn sorted_by<T>(s: Seq<T>, key: spec_fn(T, T) -> Ordering, descending: bool) -> bool {
    forall|i: int, j: int|
        0 <= i < j < s.len() ==> in_order(key, descending, #[trigger] s[i], #[trigger] s[j])
}

/// Whether every value of `s` may stand before every value of `t`.
pub open spec fn all_in_order<T>(
    s: Seq<T>,
    t: Seq<T>,
    key: spec_fn(T, T) -> Ordering,
    descending: bool,
) -> bool {
    forall|i: int, j: int|
        0 <= i < s.len() && 0 <= j < t.len() ==> in_order(
            key,
            descending,
            #[trigger] s[i],
            #[trigger] t[j],
        )
}

/// In a total order "may stand before" is transitive in both directions.
pub proof fn lemma_in_order_transitive<T>(
    key: spec_fn(T, T) -> Ordering,
    descending: bool,
    a: T,
    b: T,
    c: T,
)
    requires
        is_total(key),
        in_order(key, descending, a, b),
        in_order(key, descending, b, c),
    ensures
        in_order(key, descending, a, c),
{
    if descending {
        let x = key(c, b);
        let y = key(b, a);
        assert(key(b, c) == flipped(x));
        assert(key(a, b) == flipped(y));
        assert(!(x is Greater));
        assert(!(y is Greater));
        assert(!(key(c, a) is Greater));
        assert(key(a, c) == flipped(key(c, a)));
    }
}

/// The answer of `order`, turned round if `descending`.
pub fn directed<T, F: Fn(&T, &T) -> Ordering>(order: &F, descending: bool, a: &T, b: &T) -> (o:
    Ordering)
    requires
        call_requires(*order, (a, b)),
    ensures
        forall|key: spec_fn(T, T) -> Ordering| #[trigger]
            computes(*order, key) ==> o == toward(key(*a, *b), descending),
{
    let p = (*order)(a, b);
    if descending {
        match p {
            Ordering::Less => Ordering::Greater,
            Ordering::Equal => Ordering::Equal,
            Ordering::Greater => Ordering::Less,
        }
    } else {
        p
    }
}

/// The order of a native type.
pub open spec fn natural_order<T: NativeType>(a: T, b: T) -> Ordering {
    if a.before(b) {
        Ordering::Less
    } else if b.before(a) {
        Ordering::Greater
    } else {
        Ordering::Equal
    }
}

/// Compares two values in the order of their type.
pub fn total_cmp<T: NativeType>(l: &T, r: &T) -> (o: Ordering)
    ensures
        o == natural_order(*l, *r),
{
    if l.less_than(r) {
        Ordering::Less
    } else if r.less_than(l) {
        Ordering::Greater
    } else {
        Ordering::Equal
    }
}

/// The order of a native type is total, and `total_cmp` computes it.
pub proof fn lemma_total_cmp<T: NativeType>()
    ensures
        is_total(|a: T, b: T| natural_order(a, b)),
        computes(total_cmp::<T>, |a: T, b: T| natural_order(a, b)),
        is_total_order(total_cmp::<T>),
{
    let key = |a: T, b: T| natural_order(a, b);
    assert forall|a: T, b: T| #[trigger] key(b, a) == flipped(key(a, b)) by {
        T::lemma_order(a, b, a);
        T::lemma_order(b, a, b);
    }
    assert forall|a: T, b: T, c: T|
        !(#[trigger] key(a, b) is Greater) && !(#[trigger] key(b, c) is Greater) implies !(key(
        a,
        c,
    ) is Greater) by {
        T::lemma_order(a, b, c);
        T::lemma_order(c, a, b);
        T::lemma_order(b, c, a);
        T::lemma_order(c, b, a);
    }
    assert(computes(total_cmp::<T>, key));
}

} // verus!
