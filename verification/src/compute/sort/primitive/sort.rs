//! Sorting all slots of an array of fixed-width values.
use std::cmp::Ordering;
use vstd::prelude::*;

use super::super::order::{all_in_order, computes, directed, is_total, is_total_order, sorted_by};
use super::super::SortOptions;
use crate::array::{PrimitiveArray, SlotsView};
use crate::bitmap::{Bitmap, MutableBitmap};
use crate::types::{int_of, nat_of, NativeType};

verus! {

/// `<[T]>::sort_unstable_by` puts the values in the order of the closure.
/// The closure must be a total order.
#[verifier::external_body]
pub(crate) fn sort_unstable_by<T, F: Fn(&T, &T) -> Ordering>(
    values: &mut [T],
    order: &F,
    descending: bool,
)
    requires
        is_total_order(*order),
    ensures
        final(values)@.len() == old(values)@.len(),
        final(values)@.to_multiset() == old(values)@.to_multiset(),
        forall|key: spec_fn(T, T) -> Ordering|
            is_total(key) && #[trigger] computes(*order, key) ==> sorted_by(
                final(values)@,
                key,
                descending,
            ),
{
    values.sort_unstable_by(|x, y| directed(order, descending, x, y))
}

/// Sorts `values` in the direction given.
pub fn sort_inner<T: NativeType, F: Fn(&T, &T) -> Ordering>(
    values: &mut [T],
    order: &F,
    descending: bool,
)
    requires
        is_total_order(*order),
    ensures
        final(values)@.len() == old(values)@.len(),
        final(values)@.to_multiset() == old(values)@.to_multiset(),
        forall|key: spec_fn(T, T) -> Ordering|
            is_total(key) && #[trigger] computes(*order, key) ==> sorted_by(
                final(values)@,
                key,
                descending,
            ),
{
    sort_unstable_by(values, order, descending);
}

/// The values of the valid ones among the first `n` slots, in their order.
pub open spec fn valid_upto<T>(slots: SlotsView<T>, n: nat) -> Seq<T>
    decreases n,
{
    if n == 0 {
        Seq::empty()
    } else {
        let before = valid_upto(slots, (n - 1) as nat);
        if slots.is_valid(n - 1) {
            before.push(slots.values[n - 1])
        } else {
            before
        }
    }
}

/// The values of the valid slots, in their order.
pub open spec fn valid_values<T>(slots: SlotsView<T>) -> Seq<T> {
    valid_upto(slots, slots.len())
}

/// How many slots the result has: `limit`, or as many as there are.
pub open spec fn slots_kept(len: nat, limit: nat) -> nat {
    if limit < len {
        limit
    } else {
        len
    }
}

/// How many slots of the result hold values. With nulls first, values take
/// what the nulls leave.
pub open spec fn values_kept(
    has_validity: bool,
    valid: nat,
    len: nat,
    nulls_first: bool,
    limit: nat,
) -> nat {
    let n = slots_kept(len, limit);
    let nulls = (len - valid) as nat;
    if has_validity && nulls_first {
        if n > nulls {
            (n - nulls) as nat
        } else {
            0
        }
    } else if valid < n {
        valid
    } else {
        n
    }
}

/// How many nulls stand before the values of the result.
pub open spec fn nulls_before(
    has_validity: bool,
    valid: nat,
    len: nat,
    nulls_first: bool,
    limit: nat,
) -> nat {
    if has_validity && nulls_first {
        (slots_kept(len, limit) - values_kept(has_validity, valid, len, nulls_first, limit)) as nat
    } else {
        0
    }
}

/// Whether `output` has the slots of a sorted selection of `n` slots, of
/// which the `k` from `first` on hold `kept`: the others are null and hold
/// `zero`, and there is a validity exactly if `has_validity`.
pub open spec fn laid_out<T>(
    output: SlotsView<T>,
    kept: Seq<T>,
    first: nat,
    n: nat,
    has_validity: bool,
    zero: T,
) -> bool {
    let k = kept.len();
    &&& first + k <= n
    &&& output.values.len() == n
    &&& output.values.subrange(first as int, (first + k) as int) == kept
    &&& output.validity is Some == has_validity
    &&& output.validity matches Some(v) ==> v.len() == n && forall|i: int|
        0 <= i < n ==> (#[trigger] v[i]) == (first <= i < first + k)
    &&& forall|i: int|
        0 <= i < n && !(first <= i < first + k) ==> (#[trigger] output.values[i]) == zero
}

/// Whether `output` holds the first `limit` slots of `input` sorted:
///
/// - it has `limit` slots, or as many as `input` if those are fewer;
/// - nulls stand together, before the values or after them, and hold
///   `zero`; there is a validity exactly if `input` has one;
/// - the values are sorted, and together with some `rest` they are the
///   valid values of `input`, each as often as there; every value kept
///   may stand before every value of `rest`.
pub open spec fn sorted_selection<T>(
    input: SlotsView<T>,
    output: SlotsView<T>,
    key: spec_fn(T, T) -> Ordering,
    options: SortOptions,
    limit: nat,
    zero: T,
) -> bool {
    let valid = valid_values(input);
    let has_validity = input.validity is Some;
    exists|kept: Seq<T>, rest: Seq<T>|
        {
            &&& kept.len() == values_kept(
                has_validity,
                valid.len(),
                input.len(),
                options.nulls_first,
                limit,
            )
            &&& laid_out(
                output,
                kept,
                nulls_before(has_validity, valid.len(), input.len(), options.nulls_first, limit),
                slots_kept(input.len(), limit),
                has_validity,
                zero,
            )
            &&& sorted_by(kept, key, options.descending)
            &&& (kept + rest).to_multiset() == valid.to_multiset()
            &&& #[trigger] all_in_order(kept, rest, key, options.descending)
        }
}

/// There are at most as many valid values as slots.
pub proof fn lemma_valid_upto_len<T>(slots: SlotsView<T>, n: nat)
    ensures
        valid_upto(slots, n).len() <= n,
    decreases n,
{
    if n > 0 {
        lemma_valid_upto_len(slots, (n - 1) as nat);
    }
}

/// Appends `count` copies of `value` to `values`.
fn push_copies<T: NativeType>(values: &mut Vec<T>, value: T, count: usize)
    ensures
        final(values)@ == old(values)@ + Seq::new(count as nat, |i: int| value),
{
    let mut i: usize = 0;
    assert(values@ =~= old(values)@ + Seq::new(0nat, |i: int| value));
    while i < count
        invariant
            i <= count,
            values@ == old(values)@ + Seq::new(i as nat, |i: int| value),
        decreases count - i,
    {
        values.push(value);
        i += 1;
        assert(values@ =~= old(values)@ + Seq::new(i as nat, |i: int| value));
    }
}

/// The values of the valid slots of `array`, in their order.
fn gather_valid<T: NativeType>(array: &PrimitiveArray<T>) -> (buffer: Vec<T>)
    ensures
        buffer@ == valid_values(array@),
        buffer@.len() <= array@.len(),
{
    let len = array.len();
    let mut buffer: Vec<T> = Vec::new();
    let mut i: usize = 0;
    while i < len
        invariant
            i <= len,
            len == array@.len(),
            buffer@ == valid_upto(array@, i as nat),
        decreases len - i,
    {
        if array.is_valid(i) {
            buffer.push(array.value(i));
        }
        i += 1;
    }
    proof {
        lemma_valid_upto_len(array@, array@.len());
    }
    buffer
}

/// Puts the slots of a result together: `first` nulls, the first `k` of
/// `sorted`, and nulls up to `n` slots. There is a validity if
/// `has_validity`.
fn assemble<T: NativeType>(
    data_type: crate::datatypes::DataType,
    sorted: &Vec<T>,
    first: usize,
    k: usize,
    n: usize,
    has_validity: bool,
) -> (out: PrimitiveArray<T>)
    requires
        first + k <= n,
        k <= sorted@.len(),
    ensures
        out.logical_type() == data_type@,
        laid_out(out@, sorted@.take(k as int), first as nat, n as nat, has_validity, T::zero()),
{
    let mut values: Vec<T> = Vec::new();
    push_copies(&mut values, T::default_value(), first);
    let mut i: usize = 0;
    while i < k
        invariant
            i <= k,
            k <= sorted@.len(),
            values@.len() == first + i,
            forall|j: int| 0 <= j < first ==> (#[trigger] values@[j]) == T::zero(),
            forall|j: int| 0 <= j < i ==> (#[trigger] values@[first + j]) == sorted@[j],
        decreases k - i,
    {
        values.push(sorted[i]);
        i += 1;
    }
    let ghost middle = values@;
    push_copies(&mut values, T::default_value(), n - first - k);
    let validity = if has_validity {
        let mut bits = MutableBitmap::new();
        bits.extend_constant(first, false);
        bits.extend_constant(k, true);
        bits.extend_constant(n - first - k, false);
        Some(Bitmap::from_mutable(bits))
    } else {
        None
    };
    let out = PrimitiveArray::from_data(data_type, values, validity);
    proof {
        assert(out@.values.subrange(first as int, first + k) =~= sorted@.take(k as int)) by {
            assert forall|j: int| 0 <= j < k implies out@.values[first + j] == sorted@[j] by {
                assert(middle[first + j] == sorted@[j]);
            }
        }
        assert forall|i: int| 0 <= i < n && !(first <= i < first + k) implies (
        #[trigger] out@.values[i]) == T::zero() by {
            if i < first {
                assert(middle[i] == T::zero());
            }
        }
    }
    out
}

/// Sorts the first `limit` slots of `array` into a new array.
pub(crate) fn sort_limited<T: NativeType, F: Fn(&T, &T) -> Ordering>(
    array: &PrimitiveArray<T>,
    order: &F,
    options: &SortOptions,
    limit: usize,
) -> (out: PrimitiveArray<T>)
    requires
        is_total_order(*order),
    ensures
        out.logical_type() == array.logical_type(),
        forall|key: spec_fn(T, T) -> Ordering|
            is_total(key) && #[trigger] computes(*order, key) ==> sorted_selection(
                array@,
                out@,
                key,
                *options,
                nat_of(limit),
                T::zero(),
            ),
{
    let len = array.len();
    let n = if limit < len {
        limit
    } else {
        len
    };
    let mut buffer = gather_valid(array);
    let ghost valid = buffer@;
    let valids = buffer.len();
    let nulls = len - valids;
    let has_validity = array.validity().is_some();
    let k = if has_validity && options.nulls_first {
        if n > nulls {
            n - nulls
        } else {
            0
        }
    } else if valids < n {
        valids
    } else {
        n
    };
    if k > 0 {
        if k < valids {
            super::partial_sort::partial_sort_inner(
                buffer.as_mut_slice(),
                order,
                options.descending,
                k,
            );
        } else {
            sort_inner(buffer.as_mut_slice(), order, options.descending);
        }
    }
    let first = if has_validity && options.nulls_first {
        n - k
    } else {
        0
    };
    let out = assemble(array.data_type().clone(), &buffer, first, k, n, has_validity);
    proof {
        let sorted = buffer@;
        let kept = sorted.take(int_of(k));
        let rest = sorted.skip(int_of(k));
        assert(kept + rest =~= sorted);
        assert(sorted.to_multiset() == valid.to_multiset());
        assert forall|key: spec_fn(T, T) -> Ordering|
            is_total(key) && #[trigger] computes(*order, key) implies sorted_selection(
            array@,
            out@,
            key,
            *options,
            nat_of(limit),
            T::zero(),
        ) by {
            if k > 0 {
                if k < valids {
                } else {
                    assert(sorted.take(int_of(k)) =~= sorted);
                }
            }
            assert(sorted_by(kept, key, options.descending));
            assert(all_in_order(kept, rest, key, options.descending));
        }
    }
    out
}

/// Sorts `array` into a new array: values in the order that `order`
/// computes, in the direction of the options, nulls before or after them.
pub fn sort_by<T: NativeType, F: Fn(&T, &T) -> Ordering>(
    array: &PrimitiveArray<T>,
    order: F,
    options: &SortOptions,
) -> (out: PrimitiveArray<T>)
    requires
        is_total_order(order),
    ensures
        out.logical_type() == array.logical_type(),
        forall|key: spec_fn(T, T) -> Ordering|
            is_total(key) && #[trigger] computes(order, key) ==> sorted_selection(
                array@,
                out@,
                key,
                *options,
                array@.len(),
                T::zero(),
            ),
{
    let len = array.len();
    sort_limited(array, &order, options, len)
}

} // verus!
