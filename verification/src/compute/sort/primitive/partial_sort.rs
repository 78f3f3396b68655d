//! Sorting the first slots of an array of fixed-width values.
use std::cmp::Ordering;
use vstd::prelude::*;

use super::super::order::{
    all_in_order, computes, directed, in_order, is_total, is_total_order,
    lemma_in_order_transitive, sorted_by,
};
use super::super::SortOptions;
use super::sort::{sort_by, sort_limited, sort_unstable_by, sorted_selection};
use crate::array::PrimitiveArray;
use crate::types::{int_of, nat_of, NativeType};

verus! {

/// `<[T]>::select_nth_unstable_by` puts the value that belongs at `index`
/// there, the values that may stand before it before it, and the others
/// after it. The closure must be a total order and `index` within the
/// slice.
#[verifier::external_body]
pub(crate) fn select_nth_unstable_by<T, F: Fn(&T, &T) -> Ordering>(
    values: &mut [T],
    index: usize,
    order: &F,
    descending: bool,
)
    requires
        is_total_order(*order),
        index < old(values)@.len(),
    ensures
        final(values)@.len() == old(values)@.len(),
        final(values)@.to_multiset() == old(values)@.to_multiset(),
        forall|key: spec_fn(T, T) -> Ordering|
            is_total(key) && #[trigger] computes(*order, key) ==> forall|i: int, j: int|
                0 <= i < j < final(values)@.len() && (i == index || j == index) ==> in_order(
                    key,
                    descending,
                    #[trigger] final(values)@[i],
                    #[trigger] final(values)@[j],
                ),
{
    values.select_nth_unstable_by(index, |x, y| directed(order, descending, x, y));
}

/// Brings the `limit` values that come first in the direction given to the
/// front of `values`, sorted.
pub fn partial_sort_inner<T: NativeType, F: Fn(&T, &T) -> Ordering>(
    values: &mut [T],
    order: &F,
    descending: bool,
    limit: usize,
)
    requires
        is_total_order(*order),
        limit < old(values)@.len(),
    ensures
        final(values)@.len() == old(values)@.len(),
        final(values)@.to_multiset() == old(values)@.to_multiset(),
        forall|key: spec_fn(T, T) -> Ordering|
            is_total(key) && #[trigger] computes(*order, key) ==> sorted_by(
                final(values)@.take(int_of(limit)),
                key,
                descending,
            ) && all_in_order(
                final(values)@.take(int_of(limit)),
                final(values)@.skip(int_of(limit)),
                key,
                descending,
            ),
{
    select_nth_unstable_by(values, limit, order, descending);
    let ghost mid = values@;
    let (before, _after) = values.split_at_mut(limit);
    sort_unstable_by(before, order, descending);
    proof {
        let n = int_of(limit);
        let now = values@;
        assert(now.take(n) =~= before@);
        assert(now.skip(n) =~= mid.skip(n));
        assert(mid.take(n) =~= mid.subrange(0, n));
        assert(now =~= now.take(n) + now.skip(n));
        assert(mid =~= mid.take(n) + mid.skip(n));
        vstd::seq_lib::lemma_multiset_commutative(now.take(n), now.skip(n));
        vstd::seq_lib::lemma_multiset_commutative(mid.take(n), mid.skip(n));
        assert forall|key: spec_fn(T, T) -> Ordering|
            is_total(key) && #[trigger] computes(*order, key) implies all_in_order(
            now.take(n),
            now.skip(n),
            key,
            descending,
        ) by {
            assert forall|i: int, j: int| 0 <= i < now.take(n).len() && 0 <= j < now.skip(
                n,
            ).len() implies in_order(
                key,
                descending,
                #[trigger] now.take(n)[i],
                #[trigger] now.skip(n)[j],
            ) by {
                let x = now.take(n)[i];
                let y = now.skip(n)[j];
                // x was among the first values before they were sorted
                now.take(n).to_multiset_ensures();
                mid.take(n).to_multiset_ensures();
                assert(now.take(n).contains(x));
                assert(now.take(n).to_multiset().count(x) > 0);
                assert(mid.take(n).contains(x));
                let p = choose|p: int| 0 <= p < mid.take(n).len() && mid.take(n)[p] == x;
                assert(mid[p] == x);
                assert(in_order(key, descending, mid[p], mid[n]));
                assert(now.skip(n)[j] == mid.skip(n)[j]);
                assert(mid.skip(n)[j] == mid[n + j]);
                if j > 0 {
                    assert(in_order(key, descending, mid[n], mid[n + j]));
                    lemma_in_order_transitive(key, descending, x, mid[n], y);
                }
            }
        }
    }
}

/// Sorts the first `limit` slots of `array` into a new array, as `sort_by`
/// does with all of them. The new array has `limit` slots, or as many as
/// `array` if those are fewer.
pub fn partial_sort_by<T: NativeType, F: Fn(&T, &T) -> Ordering>(
    array: &PrimitiveArray<T>,
    order: F,
    options: &SortOptions,
    limit: usize,
) -> (out: PrimitiveArray<T>)
    requires
        is_total_order(order),
    ensures
        out.logical_type() == array.logical_type(),
        forall|key: spec_fn(T, T) -> Ordering|
            is_total(key) && #[trigger] computes(order, key) ==> sorted_selection(
                array@,
                out@,
                key,
                *options,
                nat_of(limit),
                T::zero(),
            ),
{
    if limit >= array.len() {
        let out = sort_by(array, order, options);
        proof {
            assert forall|key: spec_fn(T, T) -> Ordering|
                is_total(key) && #[trigger] computes(order, key) implies sorted_selection(
                array@,
                out@,
                key,
                *options,
                nat_of(limit),
                T::zero(),
            ) by {
                assert(sorted_selection(array@, out@, key, *options, array@.len(), T::zero()));
            }
        }
        return out;
    }
    sort_limited(array, &order, options, limit)
}

} // verus!
