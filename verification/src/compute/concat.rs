//! Arrays one after the other in one array.
use vstd::prelude::*;

use crate::array::{append_range, lemma_appended_kind, lemma_appended_len, lemma_whole_slice, same_kind, Array, ArrayView};
use crate::error::ArrowError;

verus! {

/// The values of the arrays, one by one.
pub open spec fn views_of(arrays: Seq<&Array>) -> Seq<ArrayView> {
    arrays.map_values(|a: &Array| a@)
}

/// Whether all the arrays have the logical type of the first and are of
/// its kind.
pub open spec fn same_types(arrays: Seq<&Array>) -> bool {
    forall|i: int|
        0 <= i < arrays.len() ==> (#[trigger] arrays[i]).logical_type() == arrays[0].logical_type()
            && arrays[0]@.same_kind(arrays[i]@)
}

/// The slots of all the arrays in one, in the order of the arrays.
pub open spec fn concatenated(views: Seq<ArrayView>) -> ArrayView
    recommends
        views.len() >= 1,
    decreases views.len(),
{
    if views.len() <= 1 {
        views[0]
    } else {
        concatenated(views.drop_last()).appended(views.last())
    }
}

/// The number of slots of all the arrays together.
pub open spec fn total_len(views: Seq<ArrayView>) -> nat
    decreases views.len(),
{
    if views.len() == 0 {
        0
    } else {
        total_len(views.drop_last()) + views.last().len()
    }
}

/// Whether, one array after the other, the slots at some point are more
/// than a `usize`, or what offsets span more than an offset, can count.
pub open spec fn outgrown(views: Seq<ArrayView>) -> bool {
    exists|k: int|
        1 <= k < views.len() && #[trigger] concatenated(views.take(k)).outgrown(
            0,
            concatenated(views.take(k)).len() as int,
            views[k],
            0,
            views[k].len() as int,
        )
}

/// The text of the error for no arrays.
pub open spec fn no_arrays() -> Seq<char> {
    "concat requires input of at least one array"@
}

/// The text of the error for arrays of different types.
pub open spec fn mixed_types() -> Seq<char> {
    "It is not possible to concatenate arrays of different data types."@
}

/// Whether all the arrays have the logical type of the first and are of
/// its kind.
fn have_same_types(arrays: &[&Array]) -> (b: bool)
    requires
        arrays@.len() >= 1,
    ensures
        b == same_types(arrays@),
{
    let first = arrays[0].data_type();
    let mut i: usize = 0;
    while i < arrays.len()
        invariant
            i <= arrays@.len(),
            first@ == arrays@[0].logical_type(),
            forall|j: int|
                0 <= j < i ==> (#[trigger] arrays@[j]).logical_type() == arrays@[0].logical_type()
                    && arrays@[0]@.same_kind(arrays@[j]@),
        decreases arrays@.len() - i,
    {
        if !arrays[i].data_type().same_as(&first) || !same_kind(arrays[0], arrays[i]) {
            return false;
        }
        i += 1;
    }
    true
}

/// Puts the slots of all the arrays into one array, in the order of the
/// arrays, under the type of the first. At least one array is needed, and
/// all must have one type; what is too large for one array is refused
/// with [`ArrowError::Overflow`].
pub fn concatenate(arrays: &[&Array]) -> (all: Result<Array, ArrowError>)
    requires
        forall|i: int| 0 <= i < arrays@.len() ==> (#[trigger] arrays@[i]).wf(),
    ensures
        arrays@.len() == 0 ==> (all matches Err(ArrowError::InvalidArgumentError(m)) && m@
            == no_arrays()),
        arrays@.len() > 0 && !same_types(arrays@) ==> (all matches Err(
            ArrowError::InvalidArgumentError(m),
        ) && m@ == mixed_types()),
        arrays@.len() > 0 && same_types(arrays@) ==> match all {
            Ok(all) => all@ == concatenated(views_of(arrays@)) && all.logical_type()
                == arrays@[0].logical_type() && all.wf() && all@.len() == total_len(
                views_of(arrays@),
            ),
            Err(e) => e is Overflow && outgrown(views_of(arrays@)),
        },
{
    if arrays.len() == 0 {
        return Err(
            ArrowError::InvalidArgumentError(
                "concat requires input of at least one array".to_string(),
            ),
        );
    }
    if !have_same_types(arrays) {
        return Err(
            ArrowError::InvalidArgumentError(
                "It is not possible to concatenate arrays of different data types.".to_string(),
            ),
        );
    }
    let ghost views = views_of(arrays@);
    let first = arrays[0].len();
    let mut all = arrays[0].slice(0, first);
    proof {
        lemma_whole_slice(arrays@[0]@);
        assert(views.take(1) =~= seq![views[0]]);
        assert(views.take(1).drop_last() =~= Seq::<ArrayView>::empty());
        assert(total_len(views.take(1).drop_last()) == 0);
    }
    let mut i: usize = 1;
    while i < arrays.len()
        invariant
            1 <= i <= arrays@.len(),
            views == views_of(arrays@),
            same_types(arrays@),
            forall|j: int| 0 <= j < arrays@.len() ==> (#[trigger] arrays@[j]).wf(),
            all.wf(),
            all@ == concatenated(views.take(i as int)),
            all@.len() == total_len(views.take(i as int)),
            all.logical_type() == arrays@[0].logical_type(),
            arrays@[0]@.same_kind(all@),
            all@.same_kind(arrays@[0]@),
        decreases arrays@.len() - i,
    {
        let next = arrays[i];
        let a_len = all.len();
        let b_len = next.len();
        proof {
            assert(views[i as int] == next@);
            assert(views.take(i + 1).drop_last() =~= views.take(i as int));
            assert(views.take(i + 1).last() == views[i as int]);
            lemma_kind_chain(all@, arrays@[0]@, next@);
        }
        match append_range(&all, 0, a_len, next, 0, b_len) {
            Some(more) => {
                proof {
                    lemma_appended_len(all@, 0, a_len as int, next@, 0, b_len as int);
                    lemma_appended_kind(
                        all@,
                        0,
                        a_len as int,
                        next@,
                        0,
                        b_len as int,
                        arrays@[0]@,
                    );
                    lemma_kind_symmetric(more@, arrays@[0]@);
                }
                all = more;
            },
            None => {
                return Err(ArrowError::Overflow);
            },
        }
        i += 1;
    }
    proof {
        assert(views.take(i as int) =~= views);
    }
    Ok(all)
}

/// Arrays of one kind with a third are of one kind with each other.
pub proof fn lemma_kind_chain(a: ArrayView, b: ArrayView, c: ArrayView)
    requires
        a.same_kind(b),
        b.same_kind(c),
    ensures
        a.same_kind(c),
    decreases a,
{
    match (a, b, c) {
        (ArrayView::List(x), ArrayView::List(y), ArrayView::List(z)) => lemma_kind_chain(
            *x.values,
            *y.values,
            *z.values,
        ),
        (ArrayView::LargeList(x), ArrayView::LargeList(y), ArrayView::LargeList(z)) => {
            lemma_kind_chain(*x.values, *y.values, *z.values)
        },
        _ => {},
    }
}

/// Being of one kind does not depend on the order of the two arrays.
pub proof fn lemma_kind_symmetric(a: ArrayView, b: ArrayView)
    requires
        a.same_kind(b),
    ensures
        b.same_kind(a),
    decreases a,
{
    match (a, b) {
        (ArrayView::List(x), ArrayView::List(y)) => lemma_kind_symmetric(*x.values, *y.values),
        (ArrayView::LargeList(x), ArrayView::LargeList(y)) => lemma_kind_symmetric(
            *x.values,
            *y.values,
        ),
        _ => {},
    }
}

} // verus!
